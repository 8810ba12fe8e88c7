use std::ops::Range;
use vstd::prelude::*;

use crate::buffer::{byte_or_zero, Buffer};
use crate::error::Error;
use crate::utils::{checked_next_multiple_of_32, next_multiple_of_32};

verus! {

pub const MAX_MEMORY_SIZE: usize = 64 * 1024;

pub const MEMORY_CAPACITY: usize = 1024;

/// The smallest power of two that is not below `n`.
pub open spec fn next_pow2(n: nat) -> nat
    decreases n,
{
    if n <= 1 {
        1
    } else {
        2 * next_pow2(((n + 1) / 2) as nat)
    }
}

/// `next_pow2(n)` is at least `n`, below `2 * n` for `n >= 1`, and grows with `n`.
pub proof fn lemma_next_pow2(n: nat)
    ensures
        next_pow2(n) >= n,
        next_pow2(n) >= 1,
        n >= 1 ==> next_pow2(n) < 2 * n,
    decreases n,
{
    if n > 1 {
        lemma_next_pow2(((n + 1) / 2) as nat);
    }
}

/// The rounded end of an access of `length` bytes at `offset`, when it fits in a `usize`.
pub open spec fn access_end(offset: int, length: int) -> Option<int> {
    if offset + length > usize::MAX || offset + length + 31 > usize::MAX {
        None
    } else {
        Some(next_multiple_of_32(offset + length))
    }
}

/// The capacity after growing `capacity` to hold `end` bytes, or `None` past the limit.
pub open spec fn grown_capacity(capacity: int, end: int) -> Option<int> {
    if end <= capacity {
        Some(capacity)
    } else if next_pow2(end as nat) <= MAX_MEMORY_SIZE {
        Some(next_pow2(end as nat) as int)
    } else {
        None
    }
}

/// The bytes of `src` from `from` on, `n` of them, zero past its end.
pub open spec fn padded(src: Seq<u8>, from: int, n: int) -> Seq<u8> {
    Seq::new(n as nat, |i: int| byte_or_zero(src, from + i))
}

/// `s` with `part` written at `at`.
pub open spec fn splice(s: Seq<u8>, at: int, part: Seq<u8>) -> Seq<u8> {
    s.subrange(0, at) + part + s.subrange(at + part.len(), s.len() as int)
}

/// The outcome of an access of `length` bytes at `offset` to a memory that holds `bytes` and
/// has size `size`: the result, the bytes held after it and the size after it.
pub open spec fn access(bytes: Seq<u8>, size: nat, offset: int, length: int) -> (
    Result<(), Error>,
    Seq<u8>,
    nat,
) {
    match access_end(offset, length) {
        None => (Err(Error::MemoryAccessOutOfLimits(offset as usize, length as usize)), bytes, size),
        Some(end) => {
            let new_size = if end > size {
                end as nat
            } else {
                size
            };
            match grown_capacity(bytes.len() as int, end) {
                None => (
                    Err(Error::MemoryAccessOutOfLimits(offset as usize, length as usize)),
                    bytes,
                    new_size,
                ),
                Some(c) => (
                    Ok(()),
                    bytes + Seq::new((c - bytes.len()) as nat, |i: int| 0u8),
                    new_size,
                ),
            }
        },
    }
}

/// Past `size`, the bytes `bytes` are zero.
pub open spec fn zero_past(bytes: Seq<u8>, size: nat) -> bool {
    forall|i: int| size <= i < bytes.len() ==> #[trigger] bytes[i] == 0u8
}

/// An access keeps what is past the old size zero: the bytes it exposes, between the old
/// size and the new one, read zero, and so does all that lies past the new size.
pub proof fn lemma_access_reads_zero(bytes: Seq<u8>, size: nat, offset: int, length: int)
    requires
        zero_past(bytes, size),
    ensures
        zero_past(access(bytes, size, offset, length).1, size),
        zero_past(access(bytes, size, offset, length).1, access(bytes, size, offset, length).2),
{
    let (res, grown, new_size) = access(bytes, size, offset, length);
    assert(new_size >= size);
    assert forall|i: int| size <= i < grown.len() implies #[trigger] grown[i] == 0u8 by {
        if i < bytes.len() {
            assert(grown[i] == bytes[i]);
        }
    }
}

/// A write keeps the memory zero past its size.
pub proof fn lemma_stored_reads_zero(bytes: Seq<u8>, size: nat, offset: int, part: Seq<u8>)
    requires
        zero_past(bytes, size),
        0 <= offset,
        bytes.len() <= usize::MAX,
    ensures
        zero_past(stored(bytes, size, offset, part).1, stored(bytes, size, offset, part).2),
{
    if part.len() > 0 {
        let length = part.len() as int;
        let (res, grown, new_size) = access(bytes, size, offset, length);
        lemma_access_reads_zero(bytes, size, offset, length);
        if res is Ok {
            lemma_access_room(bytes, size, offset, length);
            let written = splice(grown, offset, part);
            assert forall|i: int| new_size <= i < written.len() implies #[trigger] written[i]
                == 0u8 by {
                assert(written[i] == grown[i]);
            }
        }
    }
}

/// The outcome of writing `part` at `offset` to a memory that holds `bytes` and has size
/// `size`: the result, the bytes held after it and the size after it. Nothing is written,
/// and the memory does not grow, for an empty `part`.
pub open spec fn stored(bytes: Seq<u8>, size: nat, offset: int, part: Seq<u8>) -> (
    Result<(), Error>,
    Seq<u8>,
    nat,
) {
    if part.len() == 0 {
        (Ok(()), bytes, size)
    } else {
        let (res, grown, new_size) = access(bytes, size, offset, part.len() as int);
        (res, if res is Ok {
            splice(grown, offset, part)
        } else {
            grown
        }, new_size)
    }
}

/// The number of bytes in `range`; none where it ends before it starts.
pub open spec fn range_length(range: Range<usize>) -> int {
    if range.end > range.start {
        range.end - range.start
    } else {
        0
    }
}

/// A successful access leaves room for the bytes it touches.
pub proof fn lemma_access_room(bytes: Seq<u8>, size: nat, offset: int, length: int)
    requires
        0 <= offset,
        0 <= length,
        bytes.len() <= usize::MAX,
        access(bytes, size, offset, length).0 is Ok,
    ensures
        offset + length <= access(bytes, size, offset, length).1.len(),
        access(bytes, size, offset, length).1.len() <= usize::MAX,
        offset + length <= access(bytes, size, offset, length).2,
        access(bytes, size, offset, length).2 % 32 == 0 || access(bytes, size, offset, length).2
            == size,
        access_end(offset, length) is Some,
        access_end(offset, length)->Some_0 <= access(bytes, size, offset, length).1.len(),
        access_end(offset, length)->Some_0 <= access(bytes, size, offset, length).2,
{
    let end = access_end(offset, length)->Some_0;
    lemma_next_pow2(end as nat);
}

/// The smallest power of two not below `n`, or `None` past `usize::MAX`.
fn checked_next_power_of_two(n: usize) -> (r: Option<usize>)
    ensures
        r == (if next_pow2(n as nat) <= usize::MAX {
            Some(next_pow2(n as nat) as usize)
        } else {
            None::<usize>
        }),
    decreases n,
{
    if n <= 1 {
        Some(1)
    } else {
        match checked_next_power_of_two(n / 2 + n % 2) {
            Some(q) => q.checked_mul(2),
            None => None,
        }
    }
}

/// The EVM memory: a byte array that grows in words of 32 bytes, within a capacity that grows
/// in powers of two up to 64 KiB.
pub struct Memory {
    data: Vec<u8>,
    size: usize,
}

impl Memory {
    /// Past its size, the memory reads zero.
    #[verifier::type_invariant]
    pub open spec fn is_zero_past_size(&self) -> bool {
        zero_past(self.bytes(), self.spec_size())
    }

    /// The bytes held, as many as the capacity.
    pub closed spec fn bytes(&self) -> Seq<u8> {
        self.data@
    }

    /// The memory size that the EVM sees.
    pub closed spec fn spec_size(&self) -> nat {
        self.size as nat
    }

    pub fn new() -> (m: Self)
        ensures
            m.bytes() == Seq::new(MEMORY_CAPACITY as nat, |i: int| 0u8),
            m.spec_size() == 0,
    {
        Self::with_capacity(MEMORY_CAPACITY)
    }

    pub fn with_capacity(capacity: usize) -> (m: Self)
        ensures
            m.bytes() == Seq::new(capacity as nat, |i: int| 0u8),
            m.spec_size() == 0,
    {
        Self { data: vec![0u8; capacity], size: 0 }
    }

    /// A memory that holds `v`, with a capacity of the next power of two, at least 1024.
    pub fn from_buffer(v: &[u8]) -> (m: Self)
        requires
            next_pow2(v@.len()) <= usize::MAX,
        ensures
            m.spec_size() == v@.len(),
            m.bytes().len() == (if next_pow2(v@.len()) < MEMORY_CAPACITY {
                MEMORY_CAPACITY as int
            } else {
                next_pow2(v@.len()) as int
            }),
            m.bytes() == v@ + Seq::new((m.bytes().len() - v@.len()) as nat, |i: int| 0u8),
    {
        proof {
            lemma_next_pow2(v@.len());
        }
        let pow2 = match checked_next_power_of_two(v.len()) {
            Some(p) => p,
            None => 0,
        };
        let capacity = if pow2 < MEMORY_CAPACITY {
            MEMORY_CAPACITY
        } else {
            pow2
        };
        let mut data = vstd::slice::slice_to_vec(v);
        data.resize(capacity, 0u8);
        assert(data@ =~= v@ + Seq::new((capacity - v@.len()) as nat, |i: int| 0u8));
        Self { data, size: v.len() }
    }

    /// Rebuilds a memory from its stored bytes, the bytes up to its size; `None` where they
    /// are not whole words.
    pub fn from_stored_bytes(v: &[u8]) -> (r: Option<Self>)
        requires
            next_pow2(v@.len()) <= usize::MAX,
        ensures
            r is Some <==> v@.len() % 32 == 0,
            r matches Some(m) ==> m.spec_size() == v@.len() && m.bytes().len() == (if next_pow2(
                v@.len(),
            ) < MEMORY_CAPACITY {
                MEMORY_CAPACITY as int
            } else {
                next_pow2(v@.len()) as int
            }) && m.bytes() == v@ + Seq::new((m.bytes().len() - v@.len()) as nat, |i: int| 0u8),
    {
        if v.len() % 32 != 0 {
            return None;
        }
        Some(Self::from_buffer(v))
    }

    /// The bytes up to the memory size.
    pub fn to_vec(&self) -> (v: Vec<u8>)
        requires
            self.spec_size() <= self.bytes().len(),
        ensures
            v@ == self.bytes().subrange(0, self.spec_size() as int),
    {
        vstd::slice::slice_to_vec(vstd::slice::slice_subrange(self.data.as_slice(), 0, self.size))
    }

    /// Grows the memory size to cover `length` bytes at `offset`, and the capacity with it.
    /// The size grows even where the capacity would pass its limit.
    pub fn realloc(&mut self, offset: usize, length: usize) -> (r: Result<(), Error>)
        ensures
            (r, final(self).bytes(), final(self).spec_size()) == access(
                old(self).bytes(),
                old(self).spec_size(),
                offset as int,
                length as int,
            ),
    {
        proof {
            use_type_invariant(&*self);
        }
        let required_size = match offset.checked_add(length) {
            Some(s) => s,
            None => return Err(Error::MemoryAccessOutOfLimits(offset, length)),
        };
        let new_size = match checked_next_multiple_of_32(required_size) {
            Some(s) => s,
            None => return Err(Error::MemoryAccessOutOfLimits(offset, length)),
        };
        if new_size > self.size {
            self.size = new_size;
        }
        let capacity = self.data.len();
        if new_size <= capacity {
            assert(self.data@ =~= self.data@ + Seq::new(0, |i: int| 0u8));
            return Ok(());
        }
        let new_capacity = match checked_next_power_of_two(new_size) {
            Some(c) => c,
            None => return Err(Error::MemoryAccessOutOfLimits(offset, length)),
        };
        if new_capacity > MAX_MEMORY_SIZE {
            return Err(Error::MemoryAccessOutOfLimits(offset, length));
        }
        proof {
            lemma_next_pow2(new_size as nat);
        }
        let ghost before = self.data@;
        let mut data: Vec<u8> = Vec::new();
        core::mem::swap(&mut self.data, &mut data);
        data.resize(new_capacity, 0u8);
        assert(data@ =~= before + Seq::new((new_capacity - capacity) as nat, |i: int| 0u8));
        self.data = data;
        Ok(())
    }

    /// The `length` bytes at `offset`, after growing the memory to cover them.
    pub fn read(&mut self, offset: usize, length: usize) -> (r: Result<&[u8], Error>)
        ensures
            length == 0 ==> (r matches Ok(s) && s@.len() == 0 && *final(self) == *old(self)),
            length != 0 ==> {
                let (res, bytes, size) = access(
                    old(self).bytes(),
                    old(self).spec_size(),
                    offset as int,
                    length as int,
                );
                &&& final(self).bytes() == bytes
                &&& final(self).spec_size() == size
                &&& match r {
                    Ok(s) => res is Ok && s@ == bytes.subrange(offset as int, offset + length),
                    Err(e) => res == Err::<(), Error>(e),
                }
            },
    {
        if length == 0 {
            return Ok(&[]);
        }
        let ghost (b0, s0) = (self.bytes(), self.spec_size());
        let _capacity = self.data.len();
        self.realloc(offset, length)?;
        proof {
            lemma_access_room(b0, s0, offset as int, length as int);
        }
        Ok(vstd::slice::slice_subrange(self.data.as_slice(), offset, offset + length))
    }

    /// The 32 bytes at `offset`, after growing the memory to cover them.
    pub fn read_32(&mut self, offset: usize) -> (r: Result<[u8; 32], Error>)
        ensures
            ({
                let (res, bytes, size) = access(
                    old(self).bytes(),
                    old(self).spec_size(),
                    offset as int,
                    32,
                );
                &&& final(self).bytes() == bytes
                &&& final(self).spec_size() == size
                &&& match r {
                    Ok(a) => res is Ok && a@ == bytes.subrange(offset as int, offset + 32),
                    Err(e) => res == Err::<(), Error>(e),
                }
            }),
    {
        let ghost (b0, s0) = (self.bytes(), self.spec_size());
        let _capacity = self.data.len();
        self.realloc(offset, 32)?;
        proof {
            lemma_access_room(b0, s0, offset as int, 32);
        }
        let mut a = [0u8; 32];
        let mut i: usize = 0;
        while i < 32
            invariant
                i <= 32,
                offset + 32 <= self.data@.len(),
                self.data@.len() <= usize::MAX,
                forall|j: int| 0 <= j < i ==> a@[j] == self.data@[offset + j],
            decreases 32 - i,
        {
            a[i] = self.data[offset + i];
            i += 1;
        }
        assert(a@ =~= self.data@.subrange(offset as int, offset + 32));
        Ok(a)
    }

    /// Writes `part` at `at`, which the memory covers.
    fn store(&mut self, at: usize, part: &[u8])
        requires
            at + part@.len() <= old(self).bytes().len(),
            at + part@.len() <= old(self).spec_size(),
        ensures
            final(self).bytes() == splice(old(self).bytes(), at as int, part@),
            final(self).spec_size() == old(self).spec_size(),
    {
        proof {
            use_type_invariant(&*self);
        }
        let ghost b0 = self.data@;
        let _capacity = self.data.len();
        let mut i: usize = 0;
        while i < part.len()
            invariant
                i <= part@.len(),
                b0.len() <= usize::MAX,
                at + part@.len() <= b0.len(),
                self.data@.len() == b0.len(),
                self.size == old(self).size,
                at + part@.len() <= self.size,
                zero_past(self.data@, self.size as nat),
                forall|j: int| 0 <= j < i ==> self.data@[at + j] == part@[j],
                forall|j: int|
                    0 <= j < b0.len() && !(at <= j < at + i) ==> self.data@[j] == b0[j],
            decreases part@.len() - i,
        {
            self.data[at + i] = part[i];
            i += 1;
        }
        assert(self.data@ =~= splice(b0, at as int, part@));
    }

    /// Writes the 32 bytes `value` at `offset`, growing the memory to cover them.
    pub fn write_32(&mut self, offset: usize, value: &[u8; 32]) -> (r: Result<(), Error>)
        ensures
            (r, final(self).bytes(), final(self).spec_size()) == stored(
                old(self).bytes(),
                old(self).spec_size(),
                offset as int,
                value@,
            ),
            ({
                let (res, bytes, size) = access(
                    old(self).bytes(),
                    old(self).spec_size(),
                    offset as int,
                    32,
                );
                &&& r == res
                &&& final(self).spec_size() == size
                &&& final(self).bytes() == if res is Ok {
                    splice(bytes, offset as int, value@)
                } else {
                    bytes
                }
            }),
    {
        let ghost (b0, s0) = (self.bytes(), self.spec_size());
        let _capacity = self.data.len();
        self.realloc(offset, 32)?;
        proof {
            lemma_access_room(b0, s0, offset as int, 32);
        }
        self.store(offset, value.as_slice());
        Ok(())
    }

    /// Writes the byte `value` at `offset`, growing the memory to cover it.
    pub fn write_byte(&mut self, offset: usize, value: u8) -> (r: Result<(), Error>)
        ensures
            (r, final(self).bytes(), final(self).spec_size()) == stored(
                old(self).bytes(),
                old(self).spec_size(),
                offset as int,
                seq![value],
            ),
            ({
                let (res, bytes, size) = access(
                    old(self).bytes(),
                    old(self).spec_size(),
                    offset as int,
                    1,
                );
                &&& r == res
                &&& final(self).spec_size() == size
                &&& final(self).bytes() == if res is Ok {
                    bytes.update(offset as int, value)
                } else {
                    bytes
                }
            }),
    {
        let ghost (b0, s0) = (self.bytes(), self.spec_size());
        let _capacity = self.data.len();
        self.realloc(offset, 1)?;
        proof {
            lemma_access_room(b0, s0, offset as int, 1);
            use_type_invariant(&*self);
        }
        self.data[offset] = value;
        proof {
            let (res, grown, size) = access(b0, s0, offset as int, 1);
            assert(self.data@ =~= splice(grown, offset as int, seq![value]));
        }
        Ok(())
    }

    /// Writes `length` bytes at `offset`: those of `source` from `source_offset` on, zero past
    /// its end; grows the memory to cover them.
    pub fn write_buffer(&mut self, offset: usize, length: usize, source: &[u8], source_offset: usize)
        -> (r: Result<(), Error>)
        ensures
            (r, final(self).bytes(), final(self).spec_size()) == stored(
                old(self).bytes(),
                old(self).spec_size(),
                offset as int,
                padded(source@, source_offset as int, length as int),
            ),
            length == 0 ==> r is Ok && *final(self) == *old(self),
            length != 0 ==> {
                let (res, bytes, size) = access(
                    old(self).bytes(),
                    old(self).spec_size(),
                    offset as int,
                    length as int,
                );
                &&& r == res
                &&& final(self).spec_size() == size
                &&& final(self).bytes() == if res is Ok {
                    splice(bytes, offset as int, padded(source@, source_offset as int, length as int))
                } else {
                    bytes
                }
            },
    {
        if length == 0 {
            return Ok(());
        }
        let ghost (b0, s0) = (self.bytes(), self.spec_size());
        let _capacity = self.data.len();
        self.realloc(offset, length)?;
        proof {
            lemma_access_room(b0, s0, offset as int, length as int);
            use_type_invariant(&*self);
        }
        let ghost b1 = self.data@;
        let _capacity = self.data.len();
        let ghost part = padded(source@, source_offset as int, length as int);
        let mut i: usize = 0;
        while i < length
            invariant
                i <= length,
                offset + length <= b1.len(),
                b1.len() <= usize::MAX,
                part == padded(source@, source_offset as int, length as int),
                self.data@.len() == b1.len(),
                self.spec_size() == access(b0, s0, offset as int, length as int).2,
                offset + length <= self.size,
                zero_past(self.data@, self.size as nat),
                forall|j: int| 0 <= j < i ==> self.data@[offset + j] == part[j],
                forall|j: int|
                    0 <= j < b1.len() && !(offset <= j < offset + i) ==> self.data@[j] == b1[j],
            decreases length - i,
        {
            let byte = if source_offset < source.len() && i < source.len() - source_offset {
                let x = source[source_offset + i];
                assert(x == byte_or_zero(source@, source_offset + i));
                x
            } else {
                0u8
            };
            assert(part[i as int] == byte);
            self.data[offset + i] = byte;
            i += 1;
        }
        assert(self.data@ =~= splice(b1, offset as int, part));
        Ok(())
    }

    /// Writes `source` over `range`, zero past the end of `source`.
    #[inline]
    pub fn write_range(&mut self, range: &Range<usize>, source: &[u8]) -> (r: Result<(), Error>)
        ensures
            (r, final(self).bytes(), final(self).spec_size()) == stored(
                old(self).bytes(),
                old(self).spec_size(),
                range.start as int,
                padded(source@, 0, range_length(*range)),
            ),
            ({
                let length = if range.end > range.start {
                    range.end - range.start
                } else {
                    0
                };
                &&& length == 0 ==> r is Ok && *final(self) == *old(self)
                &&& length != 0 ==> {
                    let (res, bytes, size) = access(
                        old(self).bytes(),
                        old(self).spec_size(),
                        range.start as int,
                        length,
                    );
                    &&& r == res
                    &&& final(self).spec_size() == size
                    &&& final(self).bytes() == if res is Ok {
                        splice(bytes, range.start as int, padded(source@, 0, length))
                    } else {
                        bytes
                    }
                }
            }),
            forall|i: int|
                old(self).spec_size() <= i < final(self).bytes().len() && !(range.start <= i
                    < range.start + range_length(*range)) ==> #[trigger] final(self).bytes()[i]
                    == 0u8,
    {
        proof {
            use_type_invariant(&*self);
        }
        let ghost (b0, s0) = (self.bytes(), self.spec_size());
        let _capacity = self.data.len();
        let length = if range.end > range.start {
            range.end - range.start
        } else {
            0
        };
        let r = self.write_buffer(range.start, length, source, 0);
        proof {
            let part = padded(source@, 0, length as int);
            if length > 0 {
                let (res, grown, new_size) = access(b0, s0, range.start as int, length as int);
                lemma_access_reads_zero(b0, s0, range.start as int, length as int);
                if res is Ok {
                    lemma_access_room(b0, s0, range.start as int, length as int);
                    assert forall|i: int|
                        s0 <= i < self.bytes().len() && !(range.start <= i < range.start
                            + length) implies #[trigger] self.bytes()[i] == 0u8 by {
                        assert(self.bytes()[i] == grown[i]);
                    }
                }
            }
        }
        r
    }

    /// The `length` bytes at `offset` as a buffer, after growing the memory to cover them.
    #[inline]
    pub fn read_buffer(&mut self, offset: usize, length: usize) -> (r: Result<Buffer, Error>)
        ensures
            length == 0 ==> (r matches Ok(b) && b.bytes().len() == 0 && *final(self) == *old(self)),
            length != 0 ==> {
                let (res, bytes, size) = access(
                    old(self).bytes(),
                    old(self).spec_size(),
                    offset as int,
                    length as int,
                );
                &&& final(self).bytes() == bytes
                &&& final(self).spec_size() == size
                &&& match r {
                    Ok(b) => res is Ok && b.bytes() == bytes.subrange(offset as int, offset + length),
                    Err(e) => res == Err::<(), Error>(e),
                }
            },
            r matches Ok(b) ==> b.spec_is_initialized(),
    {
        let slice = self.read(offset, length)?;
        Ok(Buffer::from_slice(slice))
    }

    #[inline]
    pub fn size(&self) -> (s: usize)
        ensures
            s == self.spec_size(),
    {
        self.size
    }

    /// The number of bytes held, which the size may pass after an access past the limit.
    pub fn capacity(&self) -> (c: usize)
        ensures
            c == self.bytes().len(),
    {
        self.data.len()
    }
}

/// An access never shrinks the memory size; a successful one leaves the size covering the
/// bytes accessed, and leaves the bytes that were held unchanged.
pub proof fn lemma_access_grows(bytes: Seq<u8>, size: nat, offset: int, length: int)
    requires
        0 <= offset,
        0 <= length,
    ensures
        access(bytes, size, offset, length).2 >= size,
        access(bytes, size, offset, length).0 is Ok ==> {
            &&& offset + length <= access(bytes, size, offset, length).2
            &&& access(bytes, size, offset, length).1.subrange(0, bytes.len() as int) == bytes
        },
{
    if access(bytes, size, offset, length).0 is Ok {
        let end = access_end(offset, length)->Some_0;
        lemma_next_pow2(end as nat);
        assert(access(bytes, size, offset, length).1.subrange(0, bytes.len() as int) =~= bytes);
    }
}

/// A read gives back what a write to the same bytes wrote, and the read changes nothing.
pub proof fn lemma_read_after_write(
    bytes: Seq<u8>,
    size: nat,
    offset: int,
    length: int,
    source: Seq<u8>,
    source_offset: int,
)
    requires
        0 <= offset,
        0 < length,
        bytes.len() <= usize::MAX,
        access(bytes, size, offset, length).0 is Ok,
    ensures
        ({
            let (_, grown, new_size) = access(bytes, size, offset, length);
            let written = splice(grown, offset, padded(source, source_offset, length));
            &&& access(written, new_size, offset, length) == (Ok::<(), Error>(()), written, new_size)
            &&& written.subrange(offset, offset + length) == padded(source, source_offset, length)
        }),
{
    let (_, grown, new_size) = access(bytes, size, offset, length);
    let part = padded(source, source_offset, length);
    let written = splice(grown, offset, part);
    lemma_access_room(bytes, size, offset, length);
    assert(written.len() == grown.len());
    let end = access_end(offset, length)->Some_0;
    assert(grown_capacity(written.len() as int, end) == Some(written.len() as int));
    assert(written + Seq::new(0, |i: int| 0u8) =~= written);
    assert(written.subrange(offset, offset + length) =~= part);
}

} // verus!
