use vstd::prelude::*;

use crate::types::Address;

verus! {

/// Whether a contract account has the room it was asked for.
#[derive(Debug, Clone, Copy, PartialEq, Eq, Structural)]
pub enum AllocateResult {
    Ready,
    NeedMore,
}

/// The first layout of a contract account's header.
#[derive(Debug, Clone, Copy, PartialEq, Eq)]
pub struct HeaderV0 {
    pub address: Address,
    pub chain_id: u64,
    pub generation: u32,
}

/// The current layout of a contract account's header.
#[derive(Debug, Clone, Copy, PartialEq, Eq)]
pub struct HeaderWithRevision {
    pub v0: HeaderV0,
    pub revision: u32,
}

} // verus!
