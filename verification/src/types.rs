use vstd::prelude::*;

verus! {

/// A 20-byte Ethereum address.
#[derive(Debug, Clone, Copy, PartialEq, Eq, Hash)]
pub struct Address(pub [u8; 20]);

/// The unsigned integer that the big-endian bytes `s` denote.
pub open spec fn be_value(s: Seq<u8>) -> nat
    decreases s.len(),
{
    if s.len() == 0 {
        0
    } else {
        be_value(s.drop_last()) * 256 + s.last() as nat
    }
}

/// Leading zero bytes do not change the value.
pub proof fn lemma_be_value_zero_prefix(n: nat, s: Seq<u8>)
    ensures
        be_value(Seq::new(n, |i: int| 0u8) + s) == be_value(s),
    decreases s.len() + n,
{
    let z = Seq::new(n, |i: int| 0u8);
    if s.len() == 0 {
        assert(z + s =~= z);
        if n > 0 {
            assert(z.drop_last() =~= Seq::new((n - 1) as nat, |i: int| 0u8));
            lemma_be_value_zero_prefix((n - 1) as nat, s);
            assert(Seq::new((n - 1) as nat, |i: int| 0u8) + s =~= z.drop_last());
        }
    } else {
        assert((z + s).drop_last() =~= z + s.drop_last());
        lemma_be_value_zero_prefix(n, s.drop_last());
    }
}

/// The zero word denotes zero.
pub proof fn lemma_be_value_zeros(n: nat)
    ensures
        be_value(Seq::new(n, |i: int| 0u8)) == 0,
{
    lemma_be_value_zero_prefix(n, Seq::empty());
    assert(Seq::new(n, |i: int| 0u8) + Seq::<u8>::empty() =~= Seq::new(n, |i: int| 0u8));
}

/// The bytes `s` then `t` denote `s` shifted by the bytes of `t`, plus `t`.
pub proof fn lemma_be_value_append(s: Seq<u8>, t: Seq<u8>)
    ensures
        be_value(s + t) == be_value(s) * crate::uint::pow256(t.len()) + be_value(t),
    decreases t.len(),
{
    if t.len() == 0 {
        assert(s + t =~= s);
        assert(crate::uint::pow256(0) == 1);
        vstd::arithmetic::mul::lemma_mul_basics(be_value(s) as int);
    } else {
        assert((s + t).drop_last() =~= s + t.drop_last());
        assert((s + t).last() == t.last());
        lemma_be_value_append(s, t.drop_last());
        let a = be_value(s);
        let p = crate::uint::pow256(t.drop_last().len());
        let b = be_value(t.drop_last());
        assert(crate::uint::pow256(t.len()) == 256 * p);
        assert((a * p + b) * 256 + t.last() == a * (256 * p) + (b * 256 + t.last()))
            by (nonlinear_arith);
    }
}

/// Two sequences of the same length that denote the same number are the same.
pub proof fn lemma_be_value_injective(a: Seq<u8>, b: Seq<u8>)
    requires
        a.len() == b.len(),
        be_value(a) == be_value(b),
    ensures
        a == b,
    decreases a.len(),
{
    if a.len() > 0 {
        let x = be_value(a.drop_last()) as int;
        let y = be_value(b.drop_last()) as int;
        vstd::arithmetic::div_mod::lemma_fundamental_div_mod_converse(
            be_value(a) as int,
            256,
            x,
            a.last() as int,
        );
        vstd::arithmetic::div_mod::lemma_fundamental_div_mod_converse(
            be_value(b) as int,
            256,
            y,
            b.last() as int,
        );
        lemma_be_value_injective(a.drop_last(), b.drop_last());
        assert(a =~= a.drop_last().push(a.last()));
        assert(b =~= b.drop_last().push(b.last()));
    } else {
        assert(a =~= b);
    }
}

/// All ones over `n` bytes denote `256^n - 1`.
pub proof fn lemma_be_value_ones(n: nat)
    ensures
        be_value(Seq::new(n, |i: int| 0xffu8)) == crate::uint::pow256(n) - 1,
    decreases n,
{
    if n > 0 {
        assert(Seq::new(n, |i: int| 0xffu8).drop_last() =~= Seq::new((n - 1) as nat, |i: int| 0xffu8));
        lemma_be_value_ones((n - 1) as nat);
    }
}

/// Bytes that denote zero are all zero.
pub proof fn lemma_be_value_zero_bytes(s: Seq<u8>)
    requires
        be_value(s) == 0,
    ensures
        forall|i: int| 0 <= i < s.len() ==> s[i] == 0,
    decreases s.len(),
{
    if s.len() > 0 {
        assert(be_value(s.drop_last()) == 0 && s.last() == 0);
        lemma_be_value_zero_bytes(s.drop_last());
        assert forall|i: int| 0 <= i < s.len() implies s[i] == 0 by {
            if i < s.len() - 1 {
                assert(s[i] == s.drop_last()[i]);
            }
        }
    }
}

/// A prefix never denotes more than the whole.
pub proof fn lemma_be_value_prefix_le(s: Seq<u8>, i: int)
    requires
        0 <= i <= s.len(),
    ensures
        be_value(s.take(i)) <= be_value(s),
    decreases s.len(),
{
    if i < s.len() {
        assert(s.drop_last().take(i) =~= s.take(i));
        lemma_be_value_prefix_le(s.drop_last(), i);
    } else {
        assert(s.take(i) =~= s);
    }
}

/// One more byte on the right: the value shifts by a byte and takes it in.
pub proof fn lemma_be_value_take_next(s: Seq<u8>, i: int)
    requires
        0 <= i < s.len(),
    ensures
        be_value(s.take(i + 1)) == be_value(s.take(i)) * 256 + s[i],
{
    assert(s.take(i + 1).drop_last() =~= s.take(i));
}

/// Whether the 32-byte keys `a` and `b` are the same.
pub fn keys_equal(a: &[u8; 32], b: &[u8; 32]) -> (r: bool)
    ensures
        r == (*a == *b),
{
    let mut i: usize = 0;
    while i < 32
        invariant
            i <= 32,
            forall|j: int| 0 <= j < i ==> a@[j] == b@[j],
        decreases 32 - i,
    {
        if a[i] != b[i] {
            return false;
        }
        i += 1;
    }
    assert(*a =~= *b);
    true
}

/// Whether the addresses `a` and `b` are the same.
pub fn addresses_equal(a: &Address, b: &Address) -> (r: bool)
    ensures
        r == (*a == *b),
{
    let mut i: usize = 0;
    while i < 20
        invariant
            i <= 20,
            forall|j: int| 0 <= j < i ==> a.0@[j] == b.0@[j],
        decreases 20 - i,
    {
        if a.0[i] != b.0[i] {
            return false;
        }
        i += 1;
    }
    assert(a.0 =~= b.0);
    true
}

/// The 8 big-endian bytes of `x`.
pub open spec fn u64_be(x: u64) -> Seq<u8> {
    seq![
        (x >> 56u64) as u8,
        ((x >> 48u64) & 0xffu64) as u8,
        ((x >> 40u64) & 0xffu64) as u8,
        ((x >> 32u64) & 0xffu64) as u8,
        ((x >> 24u64) & 0xffu64) as u8,
        ((x >> 16u64) & 0xffu64) as u8,
        ((x >> 8u64) & 0xffu64) as u8,
        (x & 0xffu64) as u8,
    ]
}

/// The big-endian bytes of `x` denote `x`.
pub proof fn lemma_u64_be_value(x: u64)
    ensures
        be_value(u64_be(x)) == x,
{
    let s = u64_be(x);
    assert(x >> 56u64 < 256 && (x >> 48u64) & 0xffu64 < 256 && (x >> 40u64) & 0xffu64 < 256 && (x
        >> 32u64) & 0xffu64 < 256 && (x >> 24u64) & 0xffu64 < 256 && (x >> 16u64) & 0xffu64 < 256
        && (x >> 8u64) & 0xffu64 < 256 && x & 0xffu64 < 256) by (bit_vector);
    assert(x == ((((((((x >> 56u64) * 256 + ((x >> 48u64) & 0xffu64)) * 256 + ((x >> 40u64)
        & 0xffu64)) * 256 + ((x >> 32u64) & 0xffu64)) * 256 + ((x >> 24u64) & 0xffu64)) * 256 + ((x
        >> 16u64) & 0xffu64)) * 256 + ((x >> 8u64) & 0xffu64)) * 256 + (x & 0xffu64)))
        by (bit_vector);
    assert(s.take(0) =~= Seq::<u8>::empty());
    lemma_be_value_take_next(s, 0);
    lemma_be_value_take_next(s, 1);
    lemma_be_value_take_next(s, 2);
    lemma_be_value_take_next(s, 3);
    lemma_be_value_take_next(s, 4);
    lemma_be_value_take_next(s, 5);
    lemma_be_value_take_next(s, 6);
    lemma_be_value_take_next(s, 7);
    assert(s.take(8) =~= s);
}

/// The 8 big-endian bytes of `x`.
pub fn u64_be_bytes(x: u64) -> (r: [u8; 8])
    ensures
        r@ == u64_be(x),
{
    let mut r = [0u8; 8];
    r[0] = (x >> 56u64) as u8;
    r[1] = ((x >> 48u64) & 0xffu64) as u8;
    r[2] = ((x >> 40u64) & 0xffu64) as u8;
    r[3] = ((x >> 32u64) & 0xffu64) as u8;
    r[4] = ((x >> 24u64) & 0xffu64) as u8;
    r[5] = ((x >> 16u64) & 0xffu64) as u8;
    r[6] = ((x >> 8u64) & 0xffu64) as u8;
    r[7] = (x & 0xffu64) as u8;
    assert(r@ =~= u64_be(x));
    r
}

} // verus!
