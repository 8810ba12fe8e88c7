//! The holder account, where an operator uploads a transaction in parts before it runs.

use vstd::prelude::*;

use crate::error::Error;
use crate::types::keys_equal;

verus! {

/// What a holder account holds: the operator that owns it, the hash of the transaction it
/// holds, how long that transaction is, and the buffer that it is written into.
pub struct Holder {
    pub owner: [u8; 32],
    pub transaction_hash: [u8; 32],
    pub transaction_len: usize,
    pub buffer: Vec<u8>,
}

/// `n` zero bytes.
pub open spec fn zeros(n: nat) -> Seq<u8> {
    Seq::new(n, |i: int| 0u8)
}

/// `buffer` with `bytes` written from `offset` on.
pub open spec fn written(buffer: Seq<u8>, offset: int, bytes: Seq<u8>) -> Seq<u8> {
    buffer.take(offset) + bytes + buffer.skip(offset + bytes.len())
}

/// `h` is `old` emptied: no hash, no transaction and a zeroed buffer of the same room, for
/// the same owner.
pub open spec fn cleared(old: Holder, h: Holder) -> bool {
    &&& h.owner == old.owner
    &&& h.transaction_hash@ == zeros(32)
    &&& h.transaction_len == 0
    &&& h.buffer@ == zeros(old.buffer@.len())
}

impl Holder {
    /// Forgets the transaction: no hash, no length and a zeroed buffer.
    pub fn clear(&mut self)
        ensures
            cleared(*old(self), *final(self)),
    {
        self.transaction_hash = [0u8; 32];
        self.transaction_len = 0;
        let n = self.buffer.len();
        let mut i: usize = 0;
        while i < n
            invariant
                n == self.buffer@.len(),
                n == old(self).buffer@.len(),
                i <= n,
                self.owner == old(self).owner,
                self.transaction_hash@ == zeros(32),
                self.transaction_len == 0,
                forall|j: int| 0 <= j < i ==> self.buffer@[j] == 0,
            decreases n - i,
        {
            self.buffer.set(i, 0);
            i += 1;
        }
        assert(self.buffer@ =~= zeros(n as nat));
    }

    /// Writes `bytes` into the buffer from `offset` on, and makes the transaction reach at
    /// least to their end. A write past the buffer is refused, with the buffer unchanged but
    /// the length already raised; an end past `usize` is refused with nothing changed.
    pub fn write(&mut self, offset: usize, bytes: &[u8]) -> (r: Result<(), Error>)
        ensures
            offset + bytes@.len() > usize::MAX ==> r == Err::<(), Error>(Error::IntegerOverflow)
                && *final(self) == *old(self),
            offset + bytes@.len() <= usize::MAX ==> {
                let end = offset + bytes@.len();
                &&& final(self).owner == old(self).owner
                &&& final(self).transaction_hash == old(self).transaction_hash
                &&& final(self).transaction_len == if end > old(self).transaction_len {
                    end
                } else {
                    old(self).transaction_len as int
                }
                &&& end > old(self).buffer@.len() ==> r == Err::<(), Error>(
                    Error::HolderInsufficientSize(old(self).buffer@.len() as usize, end as usize),
                ) && final(self).buffer@ == old(self).buffer@
                &&& end <= old(self).buffer@.len() ==> r is Ok && final(self).buffer@ == written(
                    old(self).buffer@,
                    offset as int,
                    bytes@,
                )
            },
    {
        let end = match offset.checked_add(bytes.len()) {
            Some(end) => end,
            None => return Err(Error::IntegerOverflow),
        };
        if end > self.transaction_len {
            self.transaction_len = end;
        }
        if end > self.buffer.len() {
            return Err(Error::HolderInsufficientSize(self.buffer.len(), end));
        }
        let mut i: usize = 0;
        while i < bytes.len()
            invariant
                end == offset + bytes@.len(),
                end <= self.buffer@.len(),
                i <= bytes@.len(),
                self.owner == old(self).owner,
                self.transaction_hash == old(self).transaction_hash,
                self.transaction_len == if end > old(self).transaction_len {
                    end
                } else {
                    old(self).transaction_len
                },
                self.buffer@.len() == old(self).buffer@.len(),
                forall|j: int|
                    0 <= j < self.buffer@.len() && !(offset <= j < offset + i) ==> self.buffer@[j]
                        == old(self).buffer@[j],
                forall|j: int| 0 <= j < i ==> self.buffer@[offset + j] == bytes@[j],
            decreases bytes@.len() - i,
        {
            self.buffer.set(offset + i, bytes[i]);
            i += 1;
        }
        assert(self.buffer@ =~= written(old(self).buffer@, offset as int, bytes@));
        Ok(())
    }

    /// How long the transaction is.
    pub fn transaction_len(&self) -> (r: usize)
        ensures
            r == self.transaction_len,
    {
        self.transaction_len
    }

    /// The transaction: the buffer up to its length, which must lie within the buffer.
    pub fn transaction(&self) -> (r: &[u8])
        requires
            self.transaction_len <= self.buffer@.len(),
        ensures
            r@ == self.buffer@.take(self.transaction_len as int),
    {
        vstd::slice::slice_subrange(self.buffer.as_slice(), 0, self.transaction_len)
    }

    /// The hash of the transaction.
    pub fn transaction_hash(&self) -> (r: [u8; 32])
        ensures
            r == self.transaction_hash,
    {
        self.transaction_hash
    }

    /// Starts over for the transaction of `hash`, unless the holder already holds it.
    pub fn update_transaction_hash(&mut self, hash: [u8; 32])
        ensures
            old(self).transaction_hash == hash ==> *final(self) == *old(self),
            old(self).transaction_hash != hash ==> final(self).transaction_hash == hash
                && final(self).owner == old(self).owner && final(self).transaction_len == 0
                && final(self).buffer@ == zeros(old(self).buffer@.len()),
    {
        if keys_equal(&self.transaction_hash, &hash) {
            return;
        }
        self.clear();
        self.transaction_hash = hash;
    }

    /// The operator that owns the holder.
    pub fn owner(&self) -> (r: [u8; 32])
        ensures
            r == self.owner,
    {
        self.owner
    }

    /// Refuses an `operator` other than the owner.
    pub fn validate_owner(&self, operator: &[u8; 32]) -> (r: Result<(), Error>)
        ensures
            r == if self.owner == *operator {
                Ok::<(), Error>(())
            } else {
                Err(Error::HolderInvalidOwner(self.owner, *operator))
            },
    {
        if !keys_equal(&self.owner, operator) {
            return Err(Error::HolderInvalidOwner(self.owner, *operator));
        }
        Ok(())
    }
}

/// What a successful write puts in the holder is what its transaction then reads back,
/// where the write reaches the end of the transaction: the bytes written, after what lay
/// before them.
pub proof fn lemma_transaction_after_write(old: Holder, new: Holder, offset: int, bytes: Seq<u8>)
    requires
        0 <= offset,
        offset + bytes.len() <= old.buffer@.len(),
        old.transaction_len <= offset + bytes.len(),
        new.buffer@ == written(old.buffer@, offset, bytes),
        new.transaction_len == offset + bytes.len(),
    ensures
        new.buffer@.take(new.transaction_len as int) == old.buffer@.take(offset) + bytes,
{
    assert(new.buffer@.take(new.transaction_len as int) =~= old.buffer@.take(offset) + bytes);
}

} // verus!
