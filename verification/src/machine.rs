use vstd::prelude::*;

use std::ops::Range;

use ethnum::U256;

use crate::buffer::Buffer;
use crate::database::Database;
use crate::error::Error;
use crate::memory::{Memory, MEMORY_CAPACITY};
use crate::stack::Stack;
use crate::types::Address;

verus! {

/// How an execution ended.
#[derive(Debug, Clone, PartialEq, Eq)]
pub enum ExitStatus {
    Stop,
    Return(Vec<u8>),
    Revert(Vec<u8>),
    Suicide,
    StepLimit,
}

impl ExitStatus {
    /// The word that names the outcome.
    pub fn status(&self) -> (r: &'static str)
        ensures
            r@ == (match self {
                ExitStatus::Revert(_) => "revert"@,
                ExitStatus::StepLimit => "step limit exceeded"@,
                _ => "succeed"@,
            }),
    {
        match self {
            ExitStatus::Return(_) | ExitStatus::Stop | ExitStatus::Suicide => "succeed",
            ExitStatus::Revert(_) => "revert",
            ExitStatus::StepLimit => "step limit exceeded",
        }
    }

    /// Whether the execution succeeded; `None` while it is unfinished.
    pub fn is_succeed(&self) -> (r: Option<bool>)
        ensures
            r == (match self {
                ExitStatus::Revert(_) => Some(false),
                ExitStatus::StepLimit => None,
                _ => Some(true),
            }),
    {
        match self {
            ExitStatus::Stop | ExitStatus::Return(_) | ExitStatus::Suicide => Some(true),
            ExitStatus::Revert(_) => Some(false),
            ExitStatus::StepLimit => None,
        }
    }

    /// The data that a return or a revert hands back.
    pub fn into_result(self) -> (r: Option<Vec<u8>>)
        ensures
            match self {
                ExitStatus::Return(v) => r == Some(v),
                ExitStatus::Revert(v) => r == Some(v),
                _ => r is None,
            },
    {
        match self {
            ExitStatus::Return(v) | ExitStatus::Revert(v) => Some(v),
            ExitStatus::Stop | ExitStatus::Suicide | ExitStatus::StepLimit => None,
        }
    }
}

/// Why a frame of execution was entered.
#[derive(Debug, Clone, Copy, PartialEq, Eq, Structural)]
pub enum Reason {
    Call,
    Create,
}

/// Who runs which code with what value.
#[derive(Clone, Copy)]
pub struct Context {
    pub caller: Address,
    pub contract: Address,
    pub contract_chain_id: u64,
    pub value: U256,
    pub code_address: Option<Address>,
}

/// The state of one frame of execution that the instructions read and change.
pub struct Machine {
    pub origin: Address,
    pub chain_id: u64,
    pub context: Context,
    pub gas_price: U256,
    pub gas_limit: U256,
    pub execution_code: Buffer,
    pub call_data: Buffer,
    pub return_data: Buffer,
    pub return_range: Range<usize>,
    pub stack: Stack,
    pub memory: Memory,
    pub pc: usize,
    pub is_static: bool,
    pub reason: Reason,
    /// The frame that called or created this one, to go back to when it ends.
    pub parent: Option<Box<Machine>>,
}

/// `b` is `a`, but for the frame it goes back to.
pub open spec fn same_frame(a: Machine, b: Machine) -> bool {
    &&& b.origin == a.origin
    &&& b.chain_id == a.chain_id
    &&& b.context == a.context
    &&& b.gas_price == a.gas_price
    &&& b.gas_limit == a.gas_limit
    &&& b.execution_code == a.execution_code
    &&& b.call_data == a.call_data
    &&& b.return_data == a.return_data
    &&& b.return_range == a.return_range
    &&& b.stack == a.stack
    &&& b.memory == a.memory
    &&& b.pc == a.pc
    &&& b.is_static == a.is_static
    &&& b.reason == a.reason
}

/// `child` is the frame that `parent` enters for `reason` on `chain_id` with `context`, to run
/// `code` on `data`: its gas limit is `gas_limit` where one is given, else the parent's, and
/// it starts with no return data, an empty stack, a fresh memory and the program counter at
/// 0, static where the parent is.
pub open spec fn entered(
    parent: Machine,
    child: Machine,
    reason: Reason,
    chain_id: u64,
    context: Context,
    code: Buffer,
    data: Buffer,
    gas_limit: Option<U256>,
) -> bool {
    &&& child.origin == parent.origin
    &&& child.chain_id == chain_id
    &&& child.context == context
    &&& child.gas_price == parent.gas_price
    &&& child.gas_limit == match gas_limit {
        Some(g) => g,
        None => parent.gas_limit,
    }
    &&& child.execution_code == code
    &&& child.call_data == data
    &&& child.return_data.bytes() == Seq::<u8>::empty()
    &&& child.return_data.spec_is_initialized()
    &&& child.return_range.start == 0
    &&& child.return_range.end == 0
    &&& child.stack.words() == Seq::<[u8; 32]>::empty()
    &&& child.memory.bytes() == Seq::new(MEMORY_CAPACITY as nat, |i: int| 0u8)
    &&& child.memory.spec_size() == 0
    &&& child.pc == 0
    &&& child.is_static == parent.is_static
    &&& child.reason == reason
}

/// `m` is the first frame of the transaction of `origin` that deploys `init_code` at
/// `target` on `chain_id`, passing on `value`: it runs the code on no data, for the origin,
/// with nothing on its stack, in its memory or in its return data.
pub open spec fn deploy_frame(
    m: Machine,
    chain_id: u64,
    origin: Address,
    target: Address,
    value: U256,
    gas_price: U256,
    gas_limit: U256,
    init_code: Seq<u8>,
) -> bool {
    &&& m.origin == origin
    &&& m.chain_id == chain_id
    &&& m.context == (Context {
        caller: origin,
        contract: target,
        contract_chain_id: chain_id,
        value,
        code_address: None,
    })
    &&& m.gas_price == gas_price
    &&& m.gas_limit == gas_limit
    &&& m.execution_code.bytes() == init_code
    &&& m.execution_code.spec_is_initialized()
    &&& m.call_data.bytes() == Seq::<u8>::empty()
    &&& m.call_data.spec_is_initialized()
    &&& m.return_data.bytes() == Seq::<u8>::empty()
    &&& m.return_data.spec_is_initialized()
    &&& m.return_range.start == 0
    &&& m.return_range.end == 0
    &&& m.stack.words() == Seq::<[u8; 32]>::empty()
    &&& m.memory.bytes() == Seq::new(MEMORY_CAPACITY as nat, |i: int| 0u8)
    &&& m.memory.spec_size() == 0
    &&& m.pc == 0
    &&& !m.is_static
    &&& m.reason == Reason::Create
    &&& m.parent is None
}

/// Whether `backend` lets `target` be deployed to: it has sent no transaction on `chain_id`
/// and holds no code; an error of the database where one is met.
pub open spec fn deployable<B: Database>(
    backend: B,
    target: Address,
    origin: Address,
    chain_id: u64,
) -> Result<(), Error> {
    match backend.spec_nonce(target, chain_id) {
        Err(e) => Err(e),
        Ok(n) => if n != 0 {
            Err(Error::DeployToExistingAccount(target, origin))
        } else {
            match backend.spec_code_size(target) {
                Err(e) => Err(e),
                Ok(s) => if s != 0 {
                    Err(Error::DeployToExistingAccount(target, origin))
                } else {
                    Ok(())
                },
            }
        },
    }
}

impl Machine {
    /// Starts the transaction of `origin` that deploys `init_code` at `target`, the address it
    /// creates, passing on `value`: refused, with the database untouched, where `target` has
    /// sent a transaction or holds code; else a level of changes is opened, the nonce of
    /// `target` goes up and `value` moves from `origin` to it, and the machine runs the code.
    pub fn new_create<B: Database>(
        chain_id: u64,
        origin: Address,
        target: Address,
        value: U256,
        gas_price: U256,
        gas_limit: U256,
        init_code: &[u8],
        backend: &mut B,
    ) -> (r: Result<Machine, Error>)
        ensures
            deployable(*old(backend), target, origin, chain_id) matches Err(e) ==> r == Err::<
                Machine,
                Error,
            >(e) && *final(backend) == *old(backend),
            deployable(*old(backend), target, origin, chain_id) is Ok ==> {
                let opened = old(backend).spec_after_snapshot();
                let counted = opened.spec_after_increment_nonce(target, chain_id);
                let sent = counted.spec_after_transfer(origin, target, chain_id, value);
                match opened.spec_increment_nonce(target, chain_id) {
                    Err(e) => r == Err::<Machine, Error>(e) && *final(backend) == counted,
                    Ok(_) => *final(backend) == sent && match counted.spec_transfer(
                        origin,
                        target,
                        chain_id,
                        value,
                    ) {
                        Err(e) => r == Err::<Machine, Error>(e),
                        Ok(_) => r matches Ok(m) && deploy_frame(
                            m,
                            chain_id,
                            origin,
                            target,
                            value,
                            gas_price,
                            gas_limit,
                            init_code@,
                        ),
                    },
                }
            },
    {
        if backend.nonce(target, chain_id)? != 0 || backend.code_size(target)? != 0 {
            return Err(Error::DeployToExistingAccount(target, origin));
        }
        backend.snapshot();
        backend.increment_nonce(target, chain_id)?;
        backend.transfer(origin, target, chain_id, value)?;
        Ok(Machine {
            origin,
            chain_id,
            context: Context {
                caller: origin,
                contract: target,
                contract_chain_id: chain_id,
                value,
                code_address: None,
            },
            gas_price,
            gas_limit,
            execution_code: Buffer::from_slice(init_code),
            call_data: Buffer::empty(),
            return_data: Buffer::empty(),
            return_range: 0..0,
            stack: Stack::new(),
            memory: Memory::new(),
            pc: 0,
            is_static: false,
            reason: Reason::Create,
            parent: None,
        })
    }

    /// Enters a new frame for `reason`: the machine becomes that frame, and goes back to what
    /// it was when the frame ends.
    pub fn fork(
        &mut self,
        reason: Reason,
        chain_id: u64,
        context: Context,
        execution_code: Buffer,
        call_data: Buffer,
        gas_limit: Option<U256>,
    )
        ensures
            entered(
                *old(self),
                *final(self),
                reason,
                chain_id,
                context,
                execution_code,
                call_data,
                gas_limit,
            ),
            final(self).parent == Some(Box::new(*old(self))),
    {
        let limit = match gas_limit {
            Some(g) => g,
            None => self.gas_limit,
        };
        let mut other = Machine {
            origin: self.origin,
            chain_id,
            context,
            gas_price: self.gas_price,
            gas_limit: limit,
            execution_code,
            call_data,
            return_data: Buffer::empty(),
            return_range: 0..0,
            stack: Stack::new(),
            memory: Memory::new(),
            pc: 0,
            is_static: self.is_static,
            reason,
            parent: None,
        };
        core::mem::swap(self, &mut other);
        self.parent = Some(Box::new(other));
    }

    /// Leaves the current frame for the one it goes back to, and answers the frame left,
    /// which goes back to none.
    pub fn join(&mut self) -> (r: Machine)
        requires
            old(self).parent is Some,
        ensures
            *final(self) == *old(self).parent.unwrap(),
            same_frame(*old(self), r),
            r.parent is None,
    {
        let mut other = *self.parent.take().unwrap();
        core::mem::swap(self, &mut other);
        other
    }
}

/// Going back right after entering a frame undoes the entering: where `child` is what `fork`
/// made of `m`, and `back` and `left` are what `join` then makes of `child` and answers,
/// `back` is `m` again and `left` is the frame that was entered, going back to none.
pub proof fn lemma_join_undoes_fork(
    m: Machine,
    child: Machine,
    back: Machine,
    left: Machine,
    reason: Reason,
    chain_id: u64,
    context: Context,
    code: Buffer,
    data: Buffer,
    gas_limit: Option<U256>,
)
    requires
        entered(m, child, reason, chain_id, context, code, data, gas_limit),
        child.parent == Some(Box::new(m)),
        back == *child.parent.unwrap(),
        same_frame(child, left),
        left.parent is None,
    ensures
        back == m,
        entered(m, left, reason, chain_id, context, code, data, gas_limit),
        left.parent is None,
{
}

} // verus!
