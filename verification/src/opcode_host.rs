//! The instructions that consult or change the account database.

use vstd::prelude::*;

use crate::database::{spec_code_hash, Database, DatabaseExt};
use crate::error::Error;
use crate::buffer::Buffer;
use crate::machine::{Machine, Reason};
use crate::memory::{access, padded, range_length, stored, Memory};
use crate::opcode::{
    pushed_then, same_but_stack, same_but_stack_and_memory, then_continue, usizes3_popped,
    zero_word, Action,
};
use crate::stack::{byte_word, padded_word, usize_popped, usize_word};
use crate::types::Address;
use crate::uint::{u256_bytes, u256_of};

use ethnum::U256;

verus! {

/// The word to push for the database's answer `a`: its error, or the bytes of its value.
pub open spec fn u256_answer(a: Result<U256, Error>) -> Result<Seq<u8>, Error> {
    match a {
        Err(e) => Err(e),
        Ok(v) => Ok(u256_bytes(v)),
    }
}

/// The word to push for the database's answer `a`: its error, or the word.
pub open spec fn word_answer(a: Result<[u8; 32], Error>) -> Result<Seq<u8>, Error> {
    match a {
        Err(e) => Err(e),
        Ok(w) => Ok(w@),
    }
}

/// The word to push for the database's answer `a`: its error, or the word of the size.
pub open spec fn usize_answer(a: Result<usize, Error>) -> Result<Seq<u8>, Error> {
    match a {
        Err(e) => Err(e),
        Ok(n) => Ok(usize_word(n)),
    }
}

/// The address that the word `w` holds: its last 20 bytes.
pub open spec fn word_address(w: Seq<u8>) -> Address {
    choose|a: Address| a.0@ == w.subrange(12, 32)
}

/// The unsigned integer whose big-endian bytes are `w`.
pub open spec fn word_u256(w: Seq<u8>) -> U256 {
    choose|x: U256| u256_bytes(x) == w
}

/// An instruction that pushes the database's answer `answer` onto the stack `s`: where the
/// database failed, it fails with the same error and leaves `s`; else it pushes the word.
pub open spec fn answer_pushed(
    s: Seq<[u8; 32]>,
    after: Seq<[u8; 32]>,
    r: Result<Action, Error>,
    answer: Result<Seq<u8>, Error>,
) -> bool {
    match answer {
        Err(e) => r == Err::<Action, Error>(e) && after == s,
        Ok(w) => pushed_then(s, after, r, w, Action::Continue),
    }
}

/// An instruction that pops a word `w` off the stack `s` and pushes the database's answer
/// `answer(w)`: on an empty stack it fails with `StackUnderflow`.
pub open spec fn answer_replaced(
    s: Seq<[u8; 32]>,
    after: Seq<[u8; 32]>,
    r: Result<Action, Error>,
    answer: spec_fn(Seq<u8>) -> Result<Seq<u8>, Error>,
) -> bool {
    if s.len() == 0 {
        r == Err::<Action, Error>(Error::StackUnderflow) && after == s
    } else {
        answer_pushed(s.drop_last(), after, r, answer(s.last()@))
    }
}

/// The address popped as the word `w` is `word_address(w)`.
pub proof fn lemma_word_address(w: Seq<u8>, a: Address)
    requires
        a.0@ == w.subrange(12, 32),
    ensures
        word_address(w) == a,
{
    let b = word_address(w);
    assert(b.0@ == w.subrange(12, 32));
    assert(b.0 =~= a.0) by {
        assert forall|i: int| 0 <= i < 20 implies b.0[i] == a.0[i] by {
            assert(b.0@[i] == a.0@[i]);
        }
    }
}

/// The integer popped as the word `w` is `word_u256(w)`.
pub proof fn lemma_word_u256(w: Seq<u8>, x: U256)
    requires
        u256_of(w, x),
    ensures
        word_u256(w) == x,
{
    assert(u256_bytes(word_u256(w)) == w);
}

/// The memory `after` is `before` with the `length` bytes of `code` from `data_offset` on,
/// zero past its end, written at `memory_offset`, and `r` is what the write answered.
pub open spec fn code_copied(
    before: Memory,
    after: Memory,
    r: Result<Action, Error>,
    memory_offset: usize,
    data_offset: usize,
    length: usize,
    code: Seq<u8>,
) -> bool {
    let (res, bytes, size) = stored(
        before.bytes(),
        before.spec_size(),
        memory_offset as int,
        padded(code, data_offset as int, length as int),
    );
    &&& after.bytes() == bytes
    &&& after.spec_size() == size
    &&& r == then_continue(res)
}


/// `b` is `a` with a stack, a memory and return data that may differ.
pub open spec fn same_but_stack_memory_and_return_data(a: Machine, b: Machine) -> bool {
    &&& b.origin == a.origin
    &&& b.chain_id == a.chain_id
    &&& b.context == a.context
    &&& b.gas_price == a.gas_price
    &&& b.gas_limit == a.gas_limit
    &&& b.execution_code == a.execution_code
    &&& b.call_data == a.call_data
    &&& b.return_range == a.return_range
    &&& b.pc == a.pc
    &&& b.is_static == a.is_static
    &&& b.reason == a.reason
    &&& b.parent == a.parent
}

/// The frame `parent`, which a frame entered for `reason` went back to, is `after`: for a
/// call, `data` is written over its return range, zero past its end, and then `call_word` is
/// pushed; for a creation, `create_word` is pushed. `r` is what that answered.
pub open spec fn went_back(
    reason: Reason,
    parent: Machine,
    after: Machine,
    r: Result<Action, Error>,
    data: Seq<u8>,
    call_word: Seq<u8>,
    create_word: Seq<u8>,
) -> bool {
    &&& same_but_stack_memory_and_return_data(parent, after)
    &&& match reason {
        Reason::Call => {
            let (res, bytes, size) = stored(
                parent.memory.bytes(),
                parent.memory.spec_size(),
                parent.return_range.start as int,
                padded(data, 0, range_length(parent.return_range)),
            );
            &&& after.memory.bytes() == bytes
            &&& after.memory.spec_size() == size
            &&& match res {
                Err(e) => r == Err::<Action, Error>(e) && after.stack.words()
                    == parent.stack.words(),
                Ok(_) => pushed_then(
                    parent.stack.words(),
                    after.stack.words(),
                    r,
                    call_word,
                    Action::Continue,
                ),
            }
        },
        Reason::Create => {
            &&& after.memory == parent.memory
            &&& pushed_then(
                parent.stack.words(),
                after.stack.words(),
                r,
                create_word,
                Action::Continue,
            )
        },
    }
}

/// The machine went back from a frame entered for `reason`, which ended without data, to
/// its parent `parent`, and `after` is that parent afterwards: with no data for a call to
/// read, and success pushed for a call, zero for a creation.
pub open spec fn went_back_quietly(reason: Reason, parent: Machine, after: Machine, r: Result<
    Action,
    Error,
>) -> bool {
    &&& went_back(reason, parent, after, r, Seq::empty(), byte_word(1), zero_word())
    &&& after.return_data == parent.return_data
}

/// The frame `m` ended without data and `after` is what follows: at the outermost frame
/// the execution ends with `outer` and nothing changes; else the machine goes back to the
/// parent frame.
pub open spec fn ended_quietly(m: Machine, after: Machine, r: Result<Action, Error>, outer: Action) -> bool {
    match m.parent {
        None => r == Ok::<Action, Error>(outer) && after == m,
        Some(p) => went_back_quietly(m.reason, *p, after, r),
    }
}

/// The machine went back from a frame of `contract` entered for `reason`, which returned
/// `data`, to its parent `parent`, and `after` is that parent afterwards: for a call, `data`
/// is written over its return range, success pushed and `data` made its return data; for a
/// creation, the address of the new contract is pushed.
pub open spec fn returned_to(
    reason: Reason,
    contract: Address,
    parent: Machine,
    after: Machine,
    r: Result<Action, Error>,
    data: Seq<u8>,
) -> bool {
    &&& went_back(reason, parent, after, r, data, byte_word(1), padded_word(contract.0@))
    &&& if reason == Reason::Call && r is Ok {
        after.return_data.bytes() == data && after.return_data.spec_is_initialized()
    } else {
        after.return_data == parent.return_data
    }
}

/// The frame `m` returned `data` and `after` is what follows: at the outermost frame the
/// execution ends returning `data` and nothing changes; else the machine goes back to the
/// parent frame.
pub open spec fn returned(m: Machine, after: Machine, r: Result<Action, Error>, data: Seq<u8>) -> bool {
    match m.parent {
        None => (r matches Ok(Action::Return(v)) && v@ == data) && after == m,
        Some(p) => returned_to(m.reason, m.context.contract, *p, after, r, data),
    }
}

/// The machine went back from a frame entered for `reason`, which reverted with `data`, to
/// its parent `parent`, and `after` is that parent afterwards: for a call, `data` is written
/// over its return range and failure pushed; for a creation, zero is pushed; then `data` is
/// made its return data.
pub open spec fn reverted_to(reason: Reason, parent: Machine, after: Machine, r: Result<
    Action,
    Error,
>, data: Seq<u8>) -> bool {
    &&& went_back(reason, parent, after, r, data, byte_word(0), zero_word())
    &&& if r is Ok {
        after.return_data.bytes() == data && after.return_data.spec_is_initialized()
    } else {
        after.return_data == parent.return_data
    }
}

/// The frame `m` reverted with `data` and `after` is what follows: at the outermost frame the
/// execution ends reverting with `data` and nothing changes; else the machine goes back to the
/// parent frame.
pub open spec fn reverted(m: Machine, after: Machine, r: Result<Action, Error>, data: Seq<u8>) -> bool {
    match m.parent {
        None => (r matches Ok(Action::Revert(v)) && v@ == data) && after == m,
        Some(p) => reverted_to(m.reason, *p, after, r, data),
    }
}

/// What reading the `length` bytes at `offset` of the memory `bytes` of size `size` answers:
/// The data that a halting frame `m` hands back: the memory at the offset and of the length
/// on top of its stack, where both are there and the memory can be read.
pub open spec fn halt_data(m: Machine) -> Option<Seq<u8>> {
    let (o1, s1) = usize_popped(m.stack.words());
    match o1 {
        Err(_) => None,
        Ok(offset) => {
            let (o2, s2) = usize_popped(s1);
            match o2 {
                Err(_) => None,
                Ok(length) => {
                    let (res, bytes, size, data) = memory_read(
                        m.memory.bytes(),
                        m.memory.spec_size(),
                        offset,
                        length,
                    );
                    match res {
                        Err(_) => None,
                        Ok(_) => Some(data),
                    }
                },
            }
        },
    }
}

/// What the database is after frame `m` returns `data`: where the frame creates a contract
/// the data is deployed as its code, and where that succeeds the frame's changes are kept.
pub open spec fn returned_database<B: Database>(backend: B, m: Machine, data: Seq<u8>) -> B {
    if m.reason == Reason::Create {
        let deployed = backend.spec_after_set_code(m.context.contract, m.chain_id, data);
        match backend.spec_set_code(m.context.contract, m.chain_id, data) {
            Err(_) => deployed,
            Ok(_) => deployed.spec_committed(),
        }
    } else {
        backend.spec_committed()
    }
}

/// whether it could, the memory and its size afterwards, and the bytes read.
pub open spec fn memory_read(bytes: Seq<u8>, size: nat, offset: usize, length: usize) -> (
    Result<(), Error>,
    Seq<u8>,
    nat,
    Seq<u8>,
) {
    if length == 0 {
        (Ok(()), bytes, size, Seq::empty())
    } else {
        let (res, grown, new_size) = access(bytes, size, offset as int, length as int);
        (res, grown, new_size, grown.subrange(offset as int, offset + length))
    }
}

/// `b` is `a` with the stack words `words`, and the memory `bytes` of size `size`.
pub open spec fn frame_with(a: Machine, b: Machine, words: Seq<[u8; 32]>, bytes: Seq<u8>, size: nat) -> bool {
    &&& same_but_stack_and_memory(a, b)
    &&& b.stack.words() == words
    &&& b.memory.bytes() == bytes
    &&& b.memory.spec_size() == size
}


/// The name of a log with `n` topics: `LOG0` to `LOG4`.
pub open spec fn log_name(n: nat) -> Seq<u8> {
    seq![0x4cu8, 0x4fu8, 0x47u8, (0x30 + n) as u8]
}

/// The topics that a log with `n` of them takes off the stack `s`: the top word first.
pub open spec fn log_topics(s: Seq<[u8; 32]>, n: nat) -> Seq<Seq<u8>> {
    Seq::new(n, |i: int| s[s.len() - 1 - i]@)
}

/// The fields of the log that the contract `address` emits with `topics` and `data`: the
/// name, the address, the number of topics, the topics and the data.
pub open spec fn log_fields(address: Seq<u8>, topics: Seq<Seq<u8>>, data: Seq<u8>) -> Seq<Seq<u8>> {
    seq![log_name(topics.len()), address, seq![topics.len() as u8]] + topics + seq![data]
}

impl Machine {
    /// balance of the account at the popped address
    pub fn opcode_balance<B: Database>(&mut self, backend: &mut B) -> (r: Result<Action, Error>)
        ensures
            same_but_stack(*old(self), *final(self)),
            answer_replaced(
                old(self).stack.words(),
                final(self).stack.words(),
                r,
                |w: Seq<u8>| u256_answer(old(backend).spec_balance(word_address(w), old(self).chain_id)),
            ),
            *final(backend) == *old(backend),
    {
        let ghost s = self.stack.words();
        let address = self.stack.pop_address()?;
        proof {
            lemma_word_address(s.last()@, address);
        }
        let balance = backend.balance(address, self.chain_id)?;
        self.stack.push_u256(balance)?;
        Ok(Action::Continue)
    }

    /// balance of the executing contract
    pub fn opcode_selfbalance<B: Database>(&mut self, backend: &mut B) -> (r: Result<Action, Error>)
        ensures
            same_but_stack(*old(self), *final(self)),
            answer_pushed(
                old(self).stack.words(),
                final(self).stack.words(),
                r,
                u256_answer(old(backend).spec_balance(old(self).context.contract, old(self).chain_id)),
            ),
            *final(backend) == *old(backend),
    {
        let balance = backend.balance(self.context.contract, self.chain_id)?;
        self.stack.push_u256(balance)?;
        Ok(Action::Continue)
    }

    /// size of the code of the account at the popped address
    pub fn opcode_extcodesize<B: Database>(&mut self, backend: &mut B) -> (r: Result<Action, Error>)
        ensures
            same_but_stack(*old(self), *final(self)),
            answer_replaced(
                old(self).stack.words(),
                final(self).stack.words(),
                r,
                |w: Seq<u8>| usize_answer(old(backend).spec_code_size(word_address(w))),
            ),
            *final(backend) == *old(backend),
    {
        let ghost s = self.stack.words();
        let address = self.stack.pop_address()?;
        proof {
            lemma_word_address(s.last()@, address);
        }
        let code_size = backend.code_size(address)?;
        self.stack.push_usize(code_size)?;
        Ok(Action::Continue)
    }

    /// copies the code of the account at the popped address to memory, zero past its end
    pub fn opcode_extcodecopy<B: Database>(&mut self, backend: &mut B) -> (r: Result<Action, Error>)
        ensures
            same_but_stack_and_memory(*old(self), *final(self)),
            *final(backend) == *old(backend),
            ({
                let s = old(self).stack.words();
                if s.len() == 0 {
                    r == Err::<Action, Error>(Error::StackUnderflow) && final(self).stack.words() == s
                        && final(self).memory == old(self).memory
                } else {
                    let (o, s3) = usizes3_popped(s.drop_last());
                    &&& final(self).stack.words() == s3
                    &&& match o {
                        Err(e) => r == Err::<Action, Error>(e) && final(self).memory == old(
                            self,
                        ).memory,
                        Ok((memory_offset, data_offset, length)) => match old(backend).spec_code(
                            word_address(s.last()@),
                        ) {
                            Err(e) => r == Err::<Action, Error>(e) && final(self).memory == old(
                                self,
                            ).memory,
                            Ok(code) => code_copied(
                                old(self).memory,
                                final(self).memory,
                                r,
                                memory_offset,
                                data_offset,
                                length,
                                code.bytes(),
                            ),
                        },
                    }
                }
            }),
    {
        let ghost s = self.stack.words();
        let address = self.stack.pop_address()?;
        proof {
            lemma_word_address(s.last()@, address);
        }
        let memory_offset = self.stack.pop_usize()?;
        let data_offset = self.stack.pop_usize()?;
        let length = self.stack.pop_usize()?;
        let code = backend.code(address)?;
        let source = code.as_slice();
        let res = self.memory.write_buffer(memory_offset, length, source, data_offset);
        let r = match res {
            Ok(()) => Ok(Action::Continue),
            Err(e) => Err(e),
        };
        proof {
            let o = usizes3_popped(old(self).stack.words().drop_last()).0;
            assert(o->Ok_0.0 == memory_offset && o->Ok_0.1 == data_offset && o->Ok_0.2 == length);
            assert(code_copied(old(self).memory, self.memory, r, o->Ok_0.0, o->Ok_0.1, o->Ok_0.2, source@));
        }
        r
    }

    /// code hash of the account at the popped address
    pub fn opcode_extcodehash<B: Database>(&mut self, backend: &mut B) -> (r: Result<Action, Error>)
        ensures
            same_but_stack(*old(self), *final(self)),
            answer_replaced(
                old(self).stack.words(),
                final(self).stack.words(),
                r,
                |w: Seq<u8>| spec_code_hash(old(backend), word_address(w), old(self).chain_id),
            ),
            *final(backend) == *old(backend),
    {
        let ghost s = self.stack.words();
        let address = self.stack.pop_address()?;
        proof {
            lemma_word_address(s.last()@, address);
        }
        let code_hash = backend.code_hash(address, self.chain_id)?;
        self.stack.push_array(&code_hash)?;
        Ok(Action::Continue)
    }

    /// hash of the block of the popped number
    pub fn opcode_blockhash<B: Database>(&mut self, backend: &mut B) -> (r: Result<Action, Error>)
        ensures
            same_but_stack(*old(self), *final(self)),
            answer_replaced(
                old(self).stack.words(),
                final(self).stack.words(),
                r,
                |w: Seq<u8>| word_answer(old(backend).spec_block_hash(word_u256(w))),
            ),
            *final(backend) == *old(backend),
    {
        let ghost s = self.stack.words();
        let block_number = self.stack.pop_u256()?;
        proof {
            lemma_word_u256(s.last()@, block_number);
        }
        let block_hash = backend.block_hash(block_number)?;
        self.stack.push_array(&block_hash)?;
        Ok(Action::Continue)
    }

    /// current block's Unix timestamp in seconds
    pub fn opcode_timestamp<B: Database>(&mut self, backend: &mut B) -> (r: Result<Action, Error>)
        ensures
            same_but_stack(*old(self), *final(self)),
            answer_pushed(
                old(self).stack.words(),
                final(self).stack.words(),
                r,
                u256_answer(old(backend).spec_block_timestamp()),
            ),
            *final(backend) == *old(backend),
    {
        let timestamp = backend.block_timestamp()?;
        self.stack.push_u256(timestamp)?;
        Ok(Action::Continue)
    }

    /// current block's number
    pub fn opcode_number<B: Database>(&mut self, backend: &mut B) -> (r: Result<Action, Error>)
        ensures
            same_but_stack(*old(self), *final(self)),
            answer_pushed(
                old(self).stack.words(),
                final(self).stack.words(),
                r,
                u256_answer(old(backend).spec_block_number()),
            ),
            *final(backend) == *old(backend),
    {
        let block_number = backend.block_number()?;
        self.stack.push_u256(block_number)?;
        Ok(Action::Continue)
    }

    /// reads the storage slot of the popped index of the executing contract
    pub fn opcode_sload<B: Database>(&mut self, backend: &mut B) -> (r: Result<Action, Error>)
        ensures
            same_but_stack(*old(self), *final(self)),
            answer_replaced(
                old(self).stack.words(),
                final(self).stack.words(),
                r,
                |w: Seq<u8>| word_answer(old(backend).spec_storage(old(self).context.contract, word_u256(w))),
            ),
            *final(backend) == *old(backend),
    {
        let ghost s = self.stack.words();
        let index = self.stack.pop_u256()?;
        proof {
            lemma_word_u256(s.last()@, index);
        }
        let value = backend.storage(self.context.contract, index)?;
        self.stack.push_array(&value)?;
        Ok(Action::Continue)
    }

    /// writes the second word popped into the storage slot of the first of the executing
    /// contract; refused in a static frame
    pub fn opcode_sstore<B: Database>(&mut self, backend: &mut B) -> (r: Result<Action, Error>)
        ensures
            same_but_stack(*old(self), *final(self)),
            ({
                let s = old(self).stack.words();
                if old(self).is_static {
                    &&& r == Err::<Action, Error>(
                        Error::StaticModeViolation(old(self).context.contract),
                    )
                    &&& final(self).stack.words() == s
                    &&& *final(backend) == *old(backend)
                } else if s.len() < 2 {
                    &&& r == Err::<Action, Error>(Error::StackUnderflow)
                    &&& final(self).stack.words() == s.take(0)
                    &&& *final(backend) == *old(backend)
                } else {
                    &&& final(self).stack.words() == s.drop_last().drop_last()
                    &&& r == then_continue(
                        old(backend).spec_set_storage(
                            old(self).context.contract,
                            word_u256(s.last()@),
                            s.drop_last().last(),
                        ),
                    )
                    &&& *final(backend) == old(backend).spec_after_set_storage(
                        old(self).context.contract,
                        word_u256(s.last()@),
                        s.drop_last().last(),
                    )
                }
            }),
    {
        if self.is_static {
            return Err(Error::StaticModeViolation(self.context.contract));
        }
        let ghost s = self.stack.words();
        let index = self.stack.pop_u256()?;
        proof {
            lemma_word_u256(s.last()@, index);
        }
        let value = self.stack.pop_array()?;
        backend.set_storage(self.context.contract, index, value)?;
        Ok(Action::Continue)
    }

    /// Halts the frame: keeps its changes to the database and goes back to the parent frame
    pub fn opcode_stop<B: Database>(&mut self, backend: &mut B) -> (r: Result<Action, Error>)
        ensures
            ended_quietly(*old(self), *final(self), r, Action::Stop),
            *final(backend) == old(backend).spec_committed(),
    {
        backend.commit_snapshot();
        if self.parent.is_none() {
            return Ok(Action::Stop);
        }
        let returned = self.join();
        match returned.reason {
            Reason::Call => {
                let nothing: &[u8] = &[];
                assert(nothing@ =~= Seq::<u8>::empty());
                self.memory.write_range(&self.return_range, nothing)?;
                self.stack.push_bool(true)?;
            },
            Reason::Create => {
                self.stack.push_zero()?;
            },
        }
        Ok(Action::Continue)
    }

    /// Ends the frame returning `return_data`: keeps its changes to the database, deploys the
    /// data as code where the frame creates a contract, and goes back to the parent frame
    pub fn opcode_return_impl<B: Database>(&mut self, return_data: Vec<u8>, backend: &mut B) -> (r:
        Result<Action, Error>)
        ensures
            old(self).reason == Reason::Call ==> returned(*old(self), *final(self), r, return_data@),
            old(self).reason == Reason::Create ==> match old(backend).spec_set_code(
                old(self).context.contract,
                old(self).chain_id,
                return_data@,
            ) {
                Err(e) => r == Err::<Action, Error>(e) && *final(self) == *old(self),
                Ok(_) => returned(*old(self), *final(self), r, Seq::empty()),
            },
            *final(backend) == returned_database(*old(backend), *old(self), return_data@),
    {
        let mut return_data = return_data;
        if self.reason == Reason::Create {
            let code = return_data;
            return_data = Vec::new();
            backend.set_code(self.context.contract, self.chain_id, code)?;
        }
        backend.commit_snapshot();
        if self.parent.is_none() {
            return Ok(Action::Return(return_data));
        }
        let returned = self.join();
        match returned.reason {
            Reason::Call => {
                self.memory.write_range(&self.return_range, return_data.as_slice())?;
                self.stack.push_bool(true)?;
                self.return_data = Buffer::from_vec(return_data);
            },
            Reason::Create => {
                self.stack.push_address(&returned.context.contract)?;
            },
        }
        Ok(Action::Continue)
    }

    /// Ends the frame reverting with `return_data`: undoes its changes to the database and
    /// goes back to the parent frame
    pub fn opcode_revert_impl<B: Database>(&mut self, return_data: Vec<u8>, backend: &mut B) -> (r:
        Result<Action, Error>)
        ensures
            reverted(*old(self), *final(self), r, return_data@),
            *final(backend) == old(backend).spec_reverted(),
    {
        backend.revert_snapshot();
        if self.parent.is_none() {
            return Ok(Action::Revert(return_data));
        }
        let returned = self.join();
        match returned.reason {
            Reason::Call => {
                self.memory.write_range(&self.return_range, return_data.as_slice())?;
                self.stack.push_bool(false)?;
            },
            Reason::Create => {
                self.stack.push_zero()?;
            },
        }
        self.return_data = Buffer::from_vec(return_data);
        Ok(Action::Continue)
    }

    /// Halts the frame returning the memory at the popped offset of the popped length
    pub fn opcode_return<B: Database>(&mut self, backend: &mut B) -> (r: Result<Action, Error>)
        ensures
            ({
                let (o1, s1) = usize_popped(old(self).stack.words());
                let m = old(self).memory;
                match o1 {
                    Err(e) => r == Err::<Action, Error>(e) && frame_with(
                        *old(self),
                        *final(self),
                        s1,
                        m.bytes(),
                        m.spec_size(),
                    ),
                    Ok(offset) => {
                        let (o2, s2) = usize_popped(s1);
                        match o2 {
                            Err(e) => r == Err::<Action, Error>(e) && frame_with(
                                *old(self),
                                *final(self),
                                s2,
                                m.bytes(),
                                m.spec_size(),
                            ),
                            Ok(length) => {
                                let (res, bytes, size, data) = memory_read(
                                    m.bytes(),
                                    m.spec_size(),
                                    offset,
                                    length,
                                );
                                let read_only = frame_with(*old(self), *final(self), s2, bytes, size);
                                let is_create = old(self).reason == Reason::Create;
                                let deployed = if is_create {
                                    old(backend).spec_set_code(
                                        old(self).context.contract,
                                        old(self).chain_id,
                                        data,
                                    )
                                } else {
                                    Ok(())
                                };
                                let data = if is_create {
                                    Seq::empty()
                                } else {
                                    data
                                };
                                match res {
                                    Err(e) => r == Err::<Action, Error>(e) && read_only,
                                    Ok(_) => match deployed {
                                        Err(e) => r == Err::<Action, Error>(e) && read_only,
                                        Ok(_) => match old(self).parent {
                                            None => read_only && (r matches Ok(Action::Return(v))
                                                && v@ == data),
                                            Some(p) => returned_to(
                                                old(self).reason,
                                                old(self).context.contract,
                                                *p,
                                                *final(self),
                                                r,
                                                data,
                                            ),
                                        },
                                    },
                                }
                            },
                        }
                    },
                }
            }),
            *final(backend) == match halt_data(*old(self)) {
                None => *old(backend),
                Some(data) => returned_database(*old(backend), *old(self), data),
            },
    {
        let offset = self.stack.pop_usize()?;
        let length = self.stack.pop_usize()?;
        let return_data = vstd::slice::slice_to_vec(self.memory.read(offset, length)?);
        proof {
            if length == 0 {
                assert(return_data@ =~= Seq::<u8>::empty());
            }
        }
        self.opcode_return_impl(return_data, backend)
    }

    /// Halts the frame reverting with the memory at the popped offset of the popped length
    pub fn opcode_revert<B: Database>(&mut self, backend: &mut B) -> (r: Result<Action, Error>)
        ensures
            ({
                let (o1, s1) = usize_popped(old(self).stack.words());
                let m = old(self).memory;
                match o1 {
                    Err(e) => r == Err::<Action, Error>(e) && frame_with(
                        *old(self),
                        *final(self),
                        s1,
                        m.bytes(),
                        m.spec_size(),
                    ),
                    Ok(offset) => {
                        let (o2, s2) = usize_popped(s1);
                        match o2 {
                            Err(e) => r == Err::<Action, Error>(e) && frame_with(
                                *old(self),
                                *final(self),
                                s2,
                                m.bytes(),
                                m.spec_size(),
                            ),
                            Ok(length) => {
                                let (res, bytes, size, data) = memory_read(
                                    m.bytes(),
                                    m.spec_size(),
                                    offset,
                                    length,
                                );
                                let read_only = frame_with(*old(self), *final(self), s2, bytes, size);
                                match res {
                                    Err(e) => r == Err::<Action, Error>(e) && read_only,
                                    Ok(_) => match old(self).parent {
                                        None => read_only && (r matches Ok(Action::Revert(v))
                                            && v@ == data),
                                        Some(p) => reverted_to(
                                            old(self).reason,
                                            *p,
                                            *final(self),
                                            r,
                                            data,
                                        ),
                                    },
                                }
                            },
                        }
                    },
                }
            }),
            *final(backend) == match halt_data(*old(self)) {
                None => *old(backend),
                Some(_) => old(backend).spec_reverted(),
            },
    {
        let offset = self.stack.pop_usize()?;
        let length = self.stack.pop_usize()?;
        let return_data = vstd::slice::slice_to_vec(self.memory.read(offset, length)?);
        proof {
            if length == 0 {
                assert(return_data@ =~= Seq::<u8>::empty());
            }
        }
        self.opcode_revert_impl(return_data, backend)
    }

    /// Halts the frame, sends the contract's balance to the popped address and destroys the
    /// contract; refused in a static frame
    pub fn opcode_selfdestruct<B: Database>(&mut self, backend: &mut B) -> (r: Result<Action, Error>)
        ensures
            old(self).is_static ==> r == Err::<Action, Error>(
                Error::StaticModeViolation(old(self).context.contract),
            ) && *final(self) == *old(self),
            !old(self).is_static && old(self).stack.words().len() == 0 ==> r == Err::<Action, Error>(
                Error::StackUnderflow,
            ) && same_but_stack(*old(self), *final(self)) && final(self).stack.words() == old(
                self,
            ).stack.words(),
            !old(self).is_static && old(self).stack.words().len() > 0 ==> {
                let popped = same_but_stack(*old(self), *final(self)) && final(self).stack.words()
                    == old(self).stack.words().drop_last();
                let contract = old(self).context.contract;
                let chain_id = old(self).context.contract_chain_id;
                let heir = word_address(old(self).stack.words().last()@);
                match old(backend).spec_balance(contract, chain_id) {
                    Err(e) => r == Err::<Action, Error>(e) && popped && *final(backend) == *old(
                        backend,
                    ),
                    Ok(value) => {
                        let sent = old(backend).spec_after_transfer(contract, heir, chain_id, value);
                        match old(backend).spec_transfer(contract, heir, chain_id, value) {
                            Err(e) => r == Err::<Action, Error>(e) && popped && *final(backend)
                                == sent,
                            Ok(_) => {
                                let destroyed = sent.spec_after_selfdestruct(contract);
                                match sent.spec_selfdestruct(contract) {
                                    Err(e) => r == Err::<Action, Error>(e) && popped
                                        && *final(backend) == destroyed,
                                    Ok(_) => *final(backend) == destroyed.spec_committed()
                                        && match old(self).parent {
                                        None => popped && r == Ok::<Action, Error>(
                                            Action::Suicide,
                                        ),
                                        Some(p) => went_back_quietly(
                                            old(self).reason,
                                            *p,
                                            *final(self),
                                            r,
                                        ),
                                    },
                                }
                            },
                        }
                    },
                }
            },
    {
        if self.is_static {
            return Err(Error::StaticModeViolation(self.context.contract));
        }
        let ghost s = self.stack.words();
        let address = self.stack.pop_address()?;
        proof {
            lemma_word_address(s.last()@, address);
        }
        let chain_id = self.context.contract_chain_id;
        let value = backend.balance(self.context.contract, chain_id)?;
        backend.transfer(self.context.contract, address, chain_id, value)?;
        backend.selfdestruct(self.context.contract)?;
        backend.commit_snapshot();
        if self.parent.is_none() {
            return Ok(Action::Suicide);
        }
        let returned = self.join();
        match returned.reason {
            Reason::Call => {
                let nothing: &[u8] = &[];
                assert(nothing@ =~= Seq::<u8>::empty());
                self.memory.write_range(&self.return_range, nothing)?;
                self.stack.push_bool(true)?;
            },
            Reason::Create => {
                self.stack.push_zero()?;
            },
        }
        Ok(Action::Continue)
    }

    /// Takes a log with `N` topics off the stack and the memory: the fields to emit, name,
    /// address, number of topics, topics and data; refused in a static frame
    pub fn opcode_log_0_4<const N: usize>(&mut self) -> (r: Result<Vec<Vec<u8>>, Error>)
        requires
            N <= 4,
        ensures
            same_but_stack_and_memory(*old(self), *final(self)),
            old(self).is_static ==> r == Err::<Vec<Vec<u8>>, Error>(
                Error::StaticModeViolation(old(self).context.contract),
            ) && final(self).stack.words() == old(self).stack.words() && final(self).memory == old(
                self,
            ).memory,
            !old(self).is_static ==> {
                let (o1, s1) = usize_popped(old(self).stack.words());
                let m = old(self).memory;
                match o1 {
                    Err(e) => r == Err::<Vec<Vec<u8>>, Error>(e) && final(self).stack.words() == s1
                        && final(self).memory == m,
                    Ok(offset) => {
                        let (o2, s2) = usize_popped(s1);
                        match o2 {
                            Err(e) => r == Err::<Vec<Vec<u8>>, Error>(e) && final(self).stack.words()
                                == s2 && final(self).memory == m,
                            Ok(length) => {
                                let (res, bytes, size, data) = memory_read(
                                    m.bytes(),
                                    m.spec_size(),
                                    offset,
                                    length,
                                );
                                &&& final(self).memory.bytes() == bytes
                                &&& final(self).memory.spec_size() == size
                                &&& match res {
                                    Err(e) => r == Err::<Vec<Vec<u8>>, Error>(e)
                                        && final(self).stack.words() == s2,
                                    Ok(_) => if s2.len() < N {
                                        r == Err::<Vec<Vec<u8>>, Error>(Error::StackUnderflow)
                                            && final(self).stack.words().len() == 0
                                    } else {
                                        &&& final(self).stack.words() == s2.take(s2.len() - N)
                                        &&& r matches Ok(v) && v@.map_values(|f: Vec<u8>| f@)
                                            == log_fields(
                                            old(self).context.contract.0@,
                                            log_topics(s2, N as nat),
                                            data,
                                        )
                                    },
                                }
                            },
                        }
                    },
                }
            },
    {
        if self.is_static {
            return Err(Error::StaticModeViolation(self.context.contract));
        }
        let offset = self.stack.pop_usize()?;
        let length = self.stack.pop_usize()?;
        let data = vstd::slice::slice_to_vec(self.memory.read(offset, length)?);
        proof {
            if length == 0 {
                assert(data@ =~= Seq::<u8>::empty());
            }
        }
        let ghost s2 = self.stack.words();
        let ghost mid = *self;
        let mut fields: Vec<Vec<u8>> = Vec::new();
        fields.push(vec![0x4cu8, 0x4fu8, 0x47u8, 0x30u8 + N as u8]);
        fields.push(vstd::slice::slice_to_vec(self.context.contract.0.as_slice()));
        fields.push(vec![N as u8]);
        let mut i: usize = 0;
        while i < N && self.stack.len() > 0
            invariant
                i <= N,
                N <= 4,
                s2.len() >= i,
                same_but_stack(mid, *self),
                self.stack.words() == s2.take(s2.len() - i),
                fields@.len() == 3 + i,
                forall|j: int| 0 <= j < i ==> fields@[3 + j]@ == #[trigger] s2[s2.len() - 1 - j]@,
                fields@[0]@ == log_name(N as nat),
                fields@[1]@ == self.context.contract.0@,
                fields@[2]@ == seq![N as u8],
            decreases N - i,
        {
            let ghost before = self.stack.words();
            let topic = self.stack.pop_array().unwrap();
            assert(before.drop_last() =~= s2.take(s2.len() - (i + 1)));
            fields.push(vstd::slice::slice_to_vec(topic.as_slice()));
            i += 1;
        }
        if i < N {
            return Err(Error::StackUnderflow);
        }
        fields.push(data);
        proof {
            let expected = log_fields(
                self.context.contract.0@,
                log_topics(s2, N as nat),
                data@,
            );
            assert(fields@.map_values(|f: Vec<u8>| f@) =~= expected);
        }
        Ok(fields)
    }
}

} // verus!
