use vstd::prelude::*;

use crate::executor::Action;
use crate::machine::ExitStatus;

verus! {

/// The listener that ignores every event.
#[derive(Debug, Clone, Copy, PartialEq, Eq, Structural)]
pub struct NoopEventListener;

/// What an emulated execution came to: how it ended, how many steps and how much gas it
/// took, and the changes it leaves for the accounts.
#[derive(Debug)]
pub struct EmulationResult {
    pub exit_status: ExitStatus,
    pub steps_executed: u64,
    pub used_gas: u64,
    pub actions: Vec<Action>,
}

/// What a tracer records at the start and the end of each step.
pub trait ListenerTracer {
    fn begin_step(&mut self, stack: Vec<[u8; 32]>, memory: Vec<u8>);

    fn end_step(&mut self, return_data: Option<Vec<u8>>);
}

} // verus!
