use vstd::prelude::*;

use ethnum::{I256, U256};

use crate::error::Error;
use crate::types::{
    u64_be,
    be_value, lemma_be_value_prefix_le, lemma_be_value_take_next, lemma_be_value_zero_prefix,
    lemma_u64_be_value, u64_be_bytes, Address,
};
use crate::uint::{
    i256_bytes, i256_from_be_bytes, i256_of, i256_to_be_bytes, u256_bytes, u256_from_be_bytes,
    u256_of, u256_to_be_bytes,
};

verus! {

pub const ELEMENT_SIZE: usize = 32;

pub const STACK_SIZE: usize = ELEMENT_SIZE * 128;

/// The most words the stack holds: its last slot is never a full element.
pub const STACK_DEPTH: usize = STACK_SIZE / ELEMENT_SIZE - 1;

/// The word that holds `value` in its last byte.
pub open spec fn byte_word(value: u8) -> Seq<u8> {
    Seq::new(31, |i: int| 0u8).push(value)
}

/// The word that holds the bytes `value` at its end, zero before them.
pub open spec fn padded_word(value: Seq<u8>) -> Seq<u8> {
    Seq::new((32 - value.len()) as nat, |i: int| 0u8) + value
}

/// What a push of `word` onto the words `before` answers, with the words `after` it.
pub open spec fn pushed(
    before: Seq<[u8; 32]>,
    after: Seq<[u8; 32]>,
    r: Result<(), Error>,
    word: Seq<u8>,
) -> bool {
    if before.len() >= STACK_DEPTH {
        r == Err::<(), Error>(Error::StackOverflow) && after == before
    } else {
        &&& r is Ok
        &&& after.len() == before.len() + 1
        &&& after.drop_last() == before
        &&& after.last()@ == word
    }
}

/// The word that holds `value`: its 8 big-endian bytes after 24 zero bytes.
pub open spec fn usize_word(value: usize) -> Seq<u8> {
    padded_word(u64_be(value as u64))
}

/// What popping a `usize` off the words `s` answers, with the words left: the top word's
/// value where it fits in a `usize`.
pub open spec fn usize_popped(s: Seq<[u8; 32]>) -> (Result<usize, Error>, Seq<[u8; 32]>) {
    if s.len() == 0 {
        (Err(Error::StackUnderflow), s)
    } else if be_value(s.last()@) <= usize::MAX {
        (Ok(be_value(s.last()@) as usize), s.drop_last())
    } else {
        (Err(Error::TryFromIntError), s.drop_last())
    }
}

/// The words `s` with the top one and the one `n` places below it exchanged.
pub open spec fn swapped(s: Seq<[u8; 32]>, n: int) -> Seq<[u8; 32]> {
    let top = s.len() - 1;
    s.update(top, s[top - n]).update(top - n, s[top])
}

/// The bytes of the words `s`, bottom word first.
pub open spec fn flat(s: Seq<[u8; 32]>) -> Seq<u8>
    decreases s.len(),
{
    if s.len() == 0 {
        Seq::empty()
    } else {
        flat(s.drop_last()) + s.last()@
    }
}

pub proof fn lemma_flat_len(s: Seq<[u8; 32]>)
    ensures
        flat(s).len() == 32 * s.len(),
    decreases s.len(),
{
    if s.len() > 0 {
        lemma_flat_len(s.drop_last());
    }
}

/// Words that flatten to the same bytes are the same words: a stack read back
/// from its stored bytes is the stack that wrote them.
pub proof fn lemma_flat_injective(a: Seq<[u8; 32]>, b: Seq<[u8; 32]>)
    requires
        flat(a) == flat(b),
    ensures
        a == b,
    decreases a.len(),
{
    lemma_flat_len(a);
    lemma_flat_len(b);
    assert(a.len() == b.len());
    if a.len() > 0 {
        let n = flat(a).len();
        assert(flat(a.drop_last()) =~= flat(a).take(n - 32));
        assert(flat(b.drop_last()) =~= flat(b).take(n - 32));
        assert(a.last()@ =~= flat(a).skip(n - 32));
        assert(b.last()@ =~= flat(b).skip(n - 32));
        assert(a.last() =~= b.last());
        lemma_flat_injective(a.drop_last(), b.drop_last());
        assert(a =~= b.drop_last().push(b.last()));
        assert(b =~= b.drop_last().push(b.last()));
    } else {
        assert(a =~= b);
    }
}

/// A push onto a stack within its depth leaves it within its depth.
pub proof fn lemma_push_keeps_depth(
    before: Seq<[u8; 32]>,
    after: Seq<[u8; 32]>,
    r: Result<(), Error>,
    word: Seq<u8>,
)
    requires
        before.len() <= STACK_DEPTH,
        pushed(before, after, r, word),
    ensures
        after.len() <= STACK_DEPTH,
{
}

/// What a push put on top, the next pop takes off, and the stack is as it was before the push.
pub proof fn lemma_push_then_pop(before: Seq<[u8; 32]>, after: Seq<[u8; 32]>, word: Seq<u8>)
    requires
        pushed(before, after, Ok(()), word),
    ensures
        after.len() > 0,
        after.last()@ == word,
        after.drop_last() == before,
{
}

/// A `usize` pushed on the stack pops back as the same `usize`.
pub proof fn lemma_usize_round_trip(word: Seq<u8>, value: usize)
    requires
        be_value(word) == value,
    ensures
        be_value(word) <= usize::MAX,
        be_value(word) as usize == value,
{
}

/// An integer popped and pushed back leaves the stack as it was.
pub proof fn lemma_pop_then_push_u256(s: Seq<[u8; 32]>, x: U256, after: Seq<[u8; 32]>)
    requires
        s.len() > 0,
        u256_of(s.last()@, x),
        pushed(s.drop_last(), after, Ok(()), u256_bytes(x)),
    ensures
        after == s,
{
    assert(s.last() =~= after.last());
    assert(after =~= after.drop_last().push(after.last()));
    assert(s =~= s.drop_last().push(s.last()));
}

/// An integer pushed and popped again comes back as itself.
pub proof fn lemma_push_then_pop_u256(before: Seq<[u8; 32]>, after: Seq<[u8; 32]>, v: U256, x: U256)
    requires
        pushed(before, after, Ok(()), u256_bytes(v)),
        u256_of(after.last()@, x),
    ensures
        x == v,
        after.drop_last() == before,
{
}

/// Two equal swaps leave the stack as it was.
pub proof fn lemma_swap_twice(s: Seq<[u8; 32]>, n: int)
    requires
        1 <= n,
        n + 1 <= s.len(),
    ensures
        swapped(swapped(s, n), n) == s,
{
    assert(swapped(swapped(s, n), n) =~= s);
}

/// The EVM stack of 32-byte words, bottom first.
pub struct Stack {
    words: Vec<[u8; 32]>,
}

impl Stack {
    /// The words on the stack, bottom first.
    pub closed spec fn words(&self) -> Seq<[u8; 32]> {
        self.words@
    }

    pub fn new() -> (s: Self)
        ensures
            s.words() == Seq::<[u8; 32]>::empty(),
    {
        Self { words: Vec::new() }
    }

    /// The words, bottom first.
    pub fn to_vec(&self) -> (v: Vec<[u8; 32]>)
        ensures
            v@ == self.words(),
    {
        let mut v: Vec<[u8; 32]> = Vec::new();
        let mut i: usize = 0;
        while i < self.words.len()
            invariant
                i <= self.words@.len(),
                v@ == self.words@.take(i as int),
            decreases self.words@.len() - i,
        {
            v.push(self.words[i]);
            i += 1;
            assert(v@ =~= self.words@.take(i as int));
        }
        assert(self.words@.take(i as int) =~= self.words@);
        v
    }

    /// The bytes of the words, bottom word first: the form the stack is stored in.
    pub fn to_bytes(&self) -> (v: Vec<u8>)
        ensures
            v@ == flat(self.words()),
    {
        let mut v: Vec<u8> = Vec::new();
        let mut i: usize = 0;
        while i < self.words.len()
            invariant
                i <= self.words@.len(),
                v@ == flat(self.words@.take(i as int)),
            decreases self.words@.len() - i,
        {
            let w = self.words[i];
            let mut j: usize = 0;
            assert(flat(self.words@.take(i as int)) + w@.take(0) =~= flat(self.words@.take(i as int)));
            while j < 32
                invariant
                    j <= 32,
                    i < self.words@.len(),
                    w == self.words@[i as int],
                    v@ == flat(self.words@.take(i as int)) + w@.take(j as int),
                decreases 32 - j,
            {
                v.push(w[j]);
                j += 1;
                assert(v@ =~= flat(self.words@.take(i as int)) + w@.take(j as int));
            }
            assert(self.words@.take(i + 1).drop_last() =~= self.words@.take(i as int));
            assert(w@.take(32) =~= w@);
            i += 1;
        }
        assert(self.words@.take(i as int) =~= self.words@);
        v
    }

    /// Rebuilds a stack from its stored bytes; `None` where they are not whole words.
    pub fn from_bytes(bytes: &[u8]) -> (r: Option<Stack>)
        requires
            bytes@.len() <= STACK_SIZE,
        ensures
            bytes@.len() % 32 != 0 ==> r is None,
            bytes@.len() % 32 == 0 ==> r is Some && flat(r->Some_0.words()) == bytes@,
    {
        if bytes.len() % 32 != 0 {
            return None;
        }
        let n: usize = bytes.len() / 32;
        let mut words: Vec<[u8; 32]> = Vec::new();
        let mut i: usize = 0;
        assert(bytes@.take(0) =~= Seq::<u8>::empty());
        while i < n
            invariant
                i <= n,
                n * 32 == bytes@.len(),
                bytes@.len() <= STACK_SIZE,
                words@.len() == i,
                flat(words@) == bytes@.take(i * 32),
            decreases n - i,
        {
            let base: usize = i * 32;
            let mut w = [0u8; 32];
            let mut j: usize = 0;
            while j < 32
                invariant
                    j <= 32,
                    base + 32 <= bytes@.len(),
                    bytes@.len() <= STACK_SIZE,
                    forall|k: int| 0 <= k < j ==> w@[k] == bytes@[base + k],
                decreases 32 - j,
            {
                w[j] = bytes[base + j];
                j += 1;
            }
            assert(w@ =~= bytes@.subrange(base as int, base + 32));
            let ghost before = words@;
            words.push(w);
            assert(words@.drop_last() =~= before);
            assert(bytes@.take(base + 32) =~= bytes@.take(base as int) + bytes@.subrange(
                base as int,
                base + 32,
            ));
            i += 1;
        }
        assert(bytes@.take(n * 32) =~= bytes@);
        Some(Stack { words })
    }

    /// The number of words.
    pub fn len(&self) -> (n: usize)
        ensures
            n == self.words().len(),
    {
        self.words.len()
    }

    fn push(&mut self, value: [u8; 32]) -> (r: Result<(), Error>)
        ensures
            pushed(old(self).words(), final(self).words(), r, value@),
    {
        if self.words.len() >= STACK_DEPTH {
            return Err(Error::StackOverflow);
        }
        self.words.push(value);
        proof {
            assert(self.words@.drop_last() =~= old(self).words@);
        }
        Ok(())
    }

    fn pop(&mut self) -> (r: Result<[u8; 32], Error>)
        ensures
            old(self).words().len() == 0 ==> r == Err::<[u8; 32], Error>(Error::StackUnderflow)
                && final(self).words() == old(self).words(),
            old(self).words().len() > 0 ==> r == Ok::<[u8; 32], Error>(old(self).words().last())
                && final(self).words() == old(self).words().drop_last(),
    {
        match self.words.pop() {
            Some(w) => Ok(w),
            None => Err(Error::StackUnderflow),
        }
    }

    /// Pops the top word as an unsigned integer.
    pub fn pop_u256(&mut self) -> (r: Result<U256, Error>)
        ensures
            old(self).words().len() == 0 ==> r == Err::<U256, Error>(Error::StackUnderflow)
                && final(self).words() == old(self).words(),
            old(self).words().len() > 0 ==> r is Ok && u256_of(old(self).words().last()@, r->Ok_0)
                && final(self).words() == old(self).words().drop_last(),
    {
        let a = self.pop()?;
        Ok(u256_from_be_bytes(a))
    }

    /// Pops the top word as a two's complement integer.
    pub fn pop_i256(&mut self) -> (r: Result<I256, Error>)
        ensures
            old(self).words().len() == 0 ==> r == Err::<I256, Error>(Error::StackUnderflow)
                && final(self).words() == old(self).words(),
            old(self).words().len() > 0 ==> r is Ok && i256_of(old(self).words().last()@, r->Ok_0)
                && final(self).words() == old(self).words().drop_last(),
    {
        let a = self.pop()?;
        Ok(i256_from_be_bytes(a))
    }

    /// Pops the top word as it stands.
    pub fn pop_array(&mut self) -> (r: Result<[u8; 32], Error>)
        ensures
            old(self).words().len() == 0 ==> r == Err::<[u8; 32], Error>(Error::StackUnderflow)
                && final(self).words() == old(self).words(),
            old(self).words().len() > 0 ==> r == Ok::<[u8; 32], Error>(old(self).words().last())
                && final(self).words() == old(self).words().drop_last(),
    {
        self.pop()
    }

    /// Pops the top word as a `usize`; a value too large for it is popped all the same.
    pub fn pop_usize(&mut self) -> (r: Result<usize, Error>)
        ensures
            (r, final(self).words()) == usize_popped(old(self).words()),
    {
        let w = self.pop()?;
        let ghost s = w@;
        let mut v: usize = 0;
        let mut i: usize = 0;
        while i < 32
            invariant
                i <= 32,
                s == w@,
                s.len() == 32,
                v == be_value(s.take(i as int)),
                old(self).words().len() > 0,
                w == old(self).words().last(),
                self.words() == old(self).words().drop_last(),
            decreases 32 - i,
        {
            proof {
                lemma_be_value_take_next(s, i as int);
                lemma_be_value_prefix_le(s, i as int + 1);
            }
            let b = w[i] as usize;
            match v.checked_mul(256) {
                Some(m) => match m.checked_add(b) {
                    Some(n) => {
                        v = n;
                    },
                    None => {
                        return Err(Error::TryFromIntError);
                    },
                },
                None => {
                    return Err(Error::TryFromIntError);
                },
            }
            i += 1;
        }
        assert(s.take(32) =~= s);
        Ok(v)
    }

    /// Pops the top word as an address: its last 20 bytes.
    pub fn pop_address(&mut self) -> (r: Result<Address, Error>)
        ensures
            old(self).words().len() == 0 ==> r == Err::<Address, Error>(Error::StackUnderflow)
                && final(self).words() == old(self).words(),
            old(self).words().len() > 0 ==> final(self).words() == old(self).words().drop_last()
                && r is Ok && r->Ok_0.0@ == old(self).words().last()@.subrange(12, 32),
    {
        let w = self.pop()?;
        let mut a = [0u8; 20];
        let mut i: usize = 0;
        while i < 20
            invariant
                i <= 20,
                forall|j: int| 0 <= j < i ==> a@[j] == w@[12 + j],
            decreases 20 - i,
        {
            a[i] = w[12 + i];
            i += 1;
        }
        assert(a@ =~= w@.subrange(12, 32));
        Ok(Address(a))
    }

    /// Drops the top word.
    pub fn discard(&mut self) -> (r: Result<(), Error>)
        ensures
            old(self).words().len() == 0 ==> r == Err::<(), Error>(Error::StackUnderflow)
                && final(self).words() == old(self).words(),
            old(self).words().len() > 0 ==> r is Ok && final(self).words() == old(
                self,
            ).words().drop_last(),
    {
        self.pop()?;
        Ok(())
    }

    /// Pushes the word whose last byte is `value`.
    pub fn push_byte(&mut self, value: u8) -> (r: Result<(), Error>)
        ensures
            pushed(old(self).words(), final(self).words(), r, byte_word(value)),
    {
        let mut w = [0u8; 32];
        w[31] = value;
        assert(w@ =~= byte_word(value));
        self.push(w)
    }

    /// Pushes the zero word.
    pub fn push_zero(&mut self) -> (r: Result<(), Error>)
        ensures
            pushed(old(self).words(), final(self).words(), r, Seq::new(32, |i: int| 0u8)),
    {
        let w = [0u8; 32];
        assert(w@ =~= Seq::new(32, |i: int| 0u8));
        self.push(w)
    }

    /// Pushes `value` as it stands.
    pub fn push_array(&mut self, value: &[u8; 32]) -> (r: Result<(), Error>)
        ensures
            pushed(old(self).words(), final(self).words(), r, value@),
    {
        self.push(*value)
    }

    /// Pushes `value` at the end of a word, zero before it.
    pub fn push_array_2_31<const N: usize>(&mut self, value: &[u8; N]) -> (r: Result<(), Error>)
        requires
            N <= 32,
        ensures
            pushed(old(self).words(), final(self).words(), r, padded_word(value@)),
    {
        let zero_bytes: usize = 32 - N;
        let mut w = [0u8; 32];
        let mut i: usize = 0;
        while i < N
            invariant
                i <= N,
                N <= 32,
                zero_bytes == 32 - N,
                value@.len() == N,
                forall|j: int| 0 <= j < zero_bytes ==> w@[j] == 0,
                forall|j: int| 0 <= j < i ==> w@[zero_bytes + j] == value@[j],
            decreases N - i,
        {
            w[zero_bytes + i] = value[i];
            i += 1;
        }
        assert(w@ =~= padded_word(value@));
        self.push(w)
    }

    /// Pushes 1 for `true`, 0 for `false`.
    pub fn push_bool(&mut self, value: bool) -> (r: Result<(), Error>)
        ensures
            pushed(old(self).words(), final(self).words(), r, byte_word(if value { 1u8 } else { 0u8 })),
    {
        if value {
            self.push_byte(1u8)
        } else {
            let r = self.push_zero();
            assert(Seq::new(32, |i: int| 0u8) =~= byte_word(0u8));
            r
        }
    }

    /// Pushes `address` at the end of a word, zero before it.
    pub fn push_address(&mut self, address: &Address) -> (r: Result<(), Error>)
        ensures
            pushed(old(self).words(), final(self).words(), r, padded_word(address.0@)),
    {
        let Address(value) = address;
        self.push_array_2_31::<20>(value)
    }

    /// Pushes `value` as an unsigned integer.
    pub fn push_usize(&mut self, value: usize) -> (r: Result<(), Error>)
        ensures
            old(self).words().len() >= STACK_DEPTH ==> r == Err::<(), Error>(Error::StackOverflow)
                && final(self).words() == old(self).words(),
            old(self).words().len() < STACK_DEPTH ==> r is Ok && final(self).words().drop_last()
                == old(self).words() && final(self).words().len() == old(self).words().len() + 1
                && be_value(final(self).words().last()@) == value,
            pushed(old(self).words(), final(self).words(), r, usize_word(value)),
    {
        let bytes = u64_be_bytes(value as u64);
        let r = self.push_array_2_31::<8>(&bytes);
        proof {
            lemma_u64_be_value(value as u64);
            lemma_be_value_zero_prefix(24, bytes@);
        }
        r
    }

    /// Pushes `value` as its 32 big-endian bytes.
    pub fn push_u256(&mut self, value: U256) -> (r: Result<(), Error>)
        ensures
            pushed(old(self).words(), final(self).words(), r, u256_bytes(value)),
    {
        let bytes = u256_to_be_bytes(value);
        self.push_array(&bytes)
    }

    /// Pushes `value` as its 32 big-endian two's complement bytes.
    pub fn push_i256(&mut self, value: I256) -> (r: Result<(), Error>)
        ensures
            pushed(old(self).words(), final(self).words(), r, i256_bytes(value)),
    {
        let bytes = i256_to_be_bytes(value);
        self.push_array(&bytes)
    }

    /// Pushes a copy of the `N`-th word from the top (the top itself is the first).
    pub fn dup_1_16<const N: usize>(&mut self) -> (r: Result<(), Error>)
        requires
            1 <= N <= 16,
        ensures
            old(self).words().len() < N ==> r == Err::<(), Error>(Error::StackUnderflow)
                && final(self).words() == old(self).words(),
            old(self).words().len() >= N ==> pushed(
                old(self).words(),
                final(self).words(),
                r,
                old(self).words()[old(self).words().len() - N]@,
            ),
    {
        let len = self.words.len();
        if len < N {
            return Err(Error::StackUnderflow);
        }
        let w = self.words[len - N];
        self.push(w)
    }

    /// Swaps the top word with the one `N` places below it.
    pub fn swap_1_16<const N: usize>(&mut self) -> (r: Result<(), Error>)
        requires
            1 <= N <= 16,
        ensures
            old(self).words().len() < N + 1 ==> r == Err::<(), Error>(Error::StackUnderflow)
                && final(self).words() == old(self).words(),
            old(self).words().len() >= N + 1 ==> r is Ok && final(self).words() == swapped(
                old(self).words(),
                N as int,
            ),
    {
        let len = self.words.len();
        if len < N + 1 {
            return Err(Error::StackUnderflow);
        }
        let a = self.words[len - 1];
        let b = self.words[len - 1 - N];
        self.words[len - 1] = b;
        self.words[len - 1 - N] = a;
        Ok(())
    }
}

} // verus!
