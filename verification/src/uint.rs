//! The 256-bit integers of `ethnum`, as the library reasons about them: by their 32 big-endian
//! bytes and the number those bytes denote.

use vstd::prelude::*;

use ethnum::{I256, U256};

use crate::types::be_value;

verus! {

#[verifier::external_type_specification]
#[verifier::external_body]
pub struct ExU256(U256);

#[verifier::external_type_specification]
#[verifier::external_body]
pub struct ExI256(I256);

/// What `U256::to_be_bytes` gives for `value`: its big-endian representation.
pub uninterp spec fn u256_bytes(value: U256) -> Seq<u8>;

/// What `I256::to_be_bytes` gives for `value`: its big-endian two's complement representation.
pub uninterp spec fn i256_bytes(value: I256) -> Seq<u8>;

/// `256` to the power `n`.
pub open spec fn pow256(n: nat) -> nat
    decreases n,
{
    if n == 0 {
        1
    } else {
        256 * pow256((n - 1) as nat)
    }
}

/// The number of values of a 256-bit word.
pub open spec fn word_modulus() -> nat {
    pow256(32)
}

/// The number that the unsigned integer `value` stands for.
pub open spec fn u256_value(value: U256) -> nat {
    be_value(u256_bytes(value))
}

/// The number that the two's complement bytes `s` denote.
pub open spec fn signed_value(s: Seq<u8>) -> int {
    if s.len() > 0 && s[0] >= 128 {
        be_value(s) - pow256(s.len())
    } else {
        be_value(s) as int
    }
}

/// The number that the signed integer `value` stands for.
pub open spec fn i256_value(value: I256) -> int {
    signed_value(i256_bytes(value))
}

/// `x` is the unsigned integer whose big-endian representation is `w`.
pub open spec fn u256_of(w: Seq<u8>, x: U256) -> bool {
    &&& u256_bytes(x) == w
    &&& forall|y: U256| #[trigger] u256_bytes(y) == w ==> y == x
}

/// `x` is the signed integer whose big-endian two's complement representation is `w`.
pub open spec fn i256_of(w: Seq<u8>, x: I256) -> bool {
    &&& i256_bytes(x) == w
    &&& forall|y: I256| #[trigger] i256_bytes(y) == w ==> y == x
}

/// Division rounded toward zero.
pub open spec fn trunc_div(a: int, b: int) -> int
    recommends
        b != 0,
{
    let q = if a >= 0 { a } else { -a } / if b >= 0 { b } else { -b };
    if (a >= 0) == (b >= 0) {
        q
    } else {
        -q
    }
}

/// `256^n` is at least 1, and at least 256 for `n > 0`.
pub proof fn lemma_pow256_pos(n: nat)
    ensures
        pow256(n) >= 1,
        n > 0 ==> pow256(n) >= 256,
    decreases n,
{
    if n > 0 {
        lemma_pow256_pos((n - 1) as nat);
    }
}

/// A sequence of bytes denotes less than `256` to the power of its length.
pub proof fn lemma_be_value_bound(s: Seq<u8>)
    ensures
        be_value(s) < pow256(s.len()),
    decreases s.len(),
{
    if s.len() > 0 {
        lemma_be_value_bound(s.drop_last());
    }
}

/// `ethnum::U256::from_be_bytes`: the integer whose big-endian representation is `bytes`,
/// the only one with that representation.
#[verifier::external_body]
pub(crate) fn u256_from_be_bytes(bytes: [u8; 32]) -> (r: U256)
    ensures
        u256_of(bytes@, r),
{
    U256::from_be_bytes(bytes)
}

/// `ethnum::U256::to_be_bytes`: the big-endian representation of `value`.
#[verifier::external_body]
pub(crate) fn u256_to_be_bytes(value: U256) -> (r: [u8; 32])
    ensures
        r@ == u256_bytes(value),
{
    value.to_be_bytes()
}

/// `ethnum::U256::from_le_bytes`: the integer whose little-endian representation is `bytes`,
/// that is whose big-endian one is `bytes` reversed.
#[verifier::external_body]
pub(crate) fn u256_from_le_bytes(bytes: [u8; 32]) -> (r: U256)
    ensures
        u256_of(bytes@.reverse(), r),
{
    U256::from_le_bytes(bytes)
}

/// `ethnum::U256::to_le_bytes`: the little-endian representation of `value`, its big-endian
/// one reversed.
#[verifier::external_body]
pub(crate) fn u256_to_le_bytes(value: U256) -> (r: [u8; 32])
    ensures
        r@ == u256_bytes(value).reverse(),
{
    value.to_le_bytes()
}

/// `ethnum::U256::ZERO`.
#[verifier::external_body]
pub(crate) fn u256_zero() -> (r: U256)
    ensures
        u256_bytes(r) == Seq::new(32, |i: int| 0u8),
{
    U256::ZERO
}

/// `ethnum::U256::MAX`: all bits set.
#[verifier::external_body]
pub(crate) fn u256_max() -> (r: U256)
    ensures
        u256_bytes(r) == Seq::new(32, |i: int| 0xffu8),
{
    U256::MAX
}

/// `ethnum::U256::new`: the integer `value`.
#[verifier::external_body]
pub(crate) fn u256_new(value: u128) -> (r: U256)
    ensures
        u256_value(r) == value,
        u256_bytes(r).len() == 32,
{
    U256::new(value)
}

/// `ethnum::U256::as_usize`: the low bits of `value` that a `usize` holds.
#[verifier::external_body]
pub(crate) fn u256_as_usize(value: U256) -> (r: usize)
    ensures
        r == u256_value(value) % (usize::MAX as nat + 1),
{
    value.as_usize()
}

/// `<usize as TryFrom<U256>>::try_from`: `value` as a `usize`, where it fits in one.
#[verifier::external_body]
pub(crate) fn u256_to_usize(value: U256) -> (r: Option<usize>)
    ensures
        r == (if u256_value(value) <= usize::MAX {
            Some(u256_value(value) as usize)
        } else {
            None
        }),
{
    usize::try_from(value).ok()
}

/// `<U256 as PartialEq>::eq`: whether the two integers are equal.
#[verifier::external_body]
pub(crate) fn u256_eq(a: U256, b: U256) -> (r: bool)
    ensures
        r == (u256_value(a) == u256_value(b)),
{
    a == b
}

/// `<U256 as PartialOrd>::lt`: whether `a` is below `b`.
#[verifier::external_body]
pub(crate) fn u256_lt(a: U256, b: U256) -> (r: bool)
    ensures
        r == (u256_value(a) < u256_value(b)),
{
    a < b
}

/// `ethnum::U256::wrapping_add`: the sum modulo `2^256`.
#[verifier::external_body]
pub(crate) fn u256_wrapping_add(a: U256, b: U256) -> (r: U256)
    ensures
        u256_value(r) == (u256_value(a) + u256_value(b)) % word_modulus(),
{
    a.wrapping_add(b)
}

/// `ethnum::U256::wrapping_sub`: the difference modulo `2^256`.
#[verifier::external_body]
pub(crate) fn u256_wrapping_sub(a: U256, b: U256) -> (r: U256)
    ensures
        u256_value(r) == (u256_value(a) - u256_value(b)) % (word_modulus() as int),
{
    a.wrapping_sub(b)
}

/// `ethnum::U256::wrapping_mul`: the product modulo `2^256`.
#[verifier::external_body]
pub(crate) fn u256_wrapping_mul(a: U256, b: U256) -> (r: U256)
    ensures
        u256_value(r) == (u256_value(a) * u256_value(b)) % word_modulus(),
{
    a.wrapping_mul(b)
}

/// `ethnum::U256::wrapping_div`: the quotient; it panics on a zero divisor.
#[verifier::external_body]
pub(crate) fn u256_wrapping_div(a: U256, b: U256) -> (r: U256)
    requires
        u256_value(b) != 0,
    ensures
        u256_value(r) == u256_value(a) / u256_value(b),
{
    a.wrapping_div(b)
}

/// `ethnum::U256::wrapping_rem`: the remainder; it panics on a zero divisor.
#[verifier::external_body]
pub(crate) fn u256_wrapping_rem(a: U256, b: U256) -> (r: U256)
    requires
        u256_value(b) != 0,
    ensures
        u256_value(r) == u256_value(a) % u256_value(b),
{
    a.wrapping_rem(b)
}

/// `<U256 as Rem>::rem`: the remainder; it panics on a zero divisor.
#[verifier::external_body]
pub(crate) fn u256_rem(a: U256, b: U256) -> (r: U256)
    requires
        u256_value(b) != 0,
    ensures
        u256_value(r) == u256_value(a) % u256_value(b),
{
    a % b
}

/// `<U256 as Sub>::sub`: the difference; it panics where it would go below zero.
#[verifier::external_body]
pub(crate) fn u256_sub(a: U256, b: U256) -> (r: U256)
    requires
        u256_value(b) <= u256_value(a),
    ensures
        u256_value(r) == u256_value(a) - u256_value(b),
        u256_bytes(r).len() == 32,
{
    a - b
}

/// `<U256 as BitAnd<u128>>::bitand`: the low 128 bits of `a` masked by `b`.
#[verifier::external_body]
pub(crate) fn u256_and_u128(a: U256, b: u128) -> (r: U256)
    ensures
        u256_value(r) == ((u256_value(a) % vstd::arithmetic::power2::pow2(128)) as u128 & b),
{
    a & b
}

/// `<U256 as Shr<u32>>::shr`: `a` shifted right by `s` bits; it panics for `s` above 255.
#[verifier::external_body]
pub(crate) fn u256_shr_u32(a: U256, s: u32) -> (r: U256)
    requires
        s < 256,
    ensures
        u256_value(r) == u256_value(a) / vstd::arithmetic::power2::pow2(s as nat),
{
    a >> s
}

/// `<U256 as Shl<usize>>::shl`: `a` shifted left by `s` bits, modulo `2^256`; it panics for
/// `s` above 255.
#[verifier::external_body]
pub(crate) fn u256_shl_usize(a: U256, s: usize) -> (r: U256)
    requires
        s < 256,
    ensures
        u256_value(r) == (u256_value(a) * vstd::arithmetic::power2::pow2(s as nat))
            % word_modulus(),
        u256_bytes(r).len() == 32,
{
    a << s
}

/// `ethnum::U256::low`: the low 128 bits of `a`.
#[verifier::external_body]
pub(crate) fn u256_low(a: U256) -> (r: u128)
    ensures
        r == u256_value(a) % vstd::arithmetic::power2::pow2(128),
{
    *a.low()
}

/// `<U256 as Shl<U256>>::shl`: `a` shifted left by `s` bits, modulo `2^256`; it panics for
/// `s` above 255.
#[verifier::external_body]
pub(crate) fn u256_shl(a: U256, s: U256) -> (r: U256)
    requires
        u256_value(s) < 256,
    ensures
        u256_value(r) == (u256_value(a) * vstd::arithmetic::power2::pow2(u256_value(s)))
            % word_modulus(),
{
    a << s
}

/// `<U256 as Shr<U256>>::shr`: `a` shifted right by `s` bits; it panics for `s` above 255.
#[verifier::external_body]
pub(crate) fn u256_shr(a: U256, s: U256) -> (r: U256)
    requires
        u256_value(s) < 256,
    ensures
        u256_value(r) == u256_value(a) / vstd::arithmetic::power2::pow2(u256_value(s)),
{
    a >> s
}

/// `<U256 as BitAnd>::bitand`: the bytes of `a` and `b` ANDed.
#[verifier::external_body]
pub(crate) fn u256_and(a: U256, b: U256) -> (r: U256)
    ensures
        u256_bytes(r).len() == 32,
        forall|i: int|
            0 <= i < 32 ==> #[trigger] u256_bytes(r)[i] == u256_bytes(a)[i] & u256_bytes(b)[i],
{
    a & b
}

/// `<U256 as BitOr>::bitor`: the bytes of `a` and `b` ORed.
#[verifier::external_body]
pub(crate) fn u256_or(a: U256, b: U256) -> (r: U256)
    ensures
        u256_bytes(r).len() == 32,
        forall|i: int|
            0 <= i < 32 ==> #[trigger] u256_bytes(r)[i] == u256_bytes(a)[i] | u256_bytes(b)[i],
{
    a | b
}

/// `<U256 as BitXor>::bitxor`: the bytes of `a` and `b` XORed.
#[verifier::external_body]
pub(crate) fn u256_xor(a: U256, b: U256) -> (r: U256)
    ensures
        u256_bytes(r).len() == 32,
        forall|i: int|
            0 <= i < 32 ==> #[trigger] u256_bytes(r)[i] == u256_bytes(a)[i] ^ u256_bytes(b)[i],
{
    a ^ b
}

/// `<U256 as Not>::not`: the bytes of `a` inverted.
#[verifier::external_body]
pub(crate) fn u256_not(a: U256) -> (r: U256)
    ensures
        u256_bytes(r).len() == 32,
        forall|i: int| 0 <= i < 32 ==> #[trigger] u256_bytes(r)[i] == !u256_bytes(a)[i],
{
    !a
}

/// `ethnum::I256::from_be_bytes`: the integer whose big-endian two's complement
/// representation is `bytes`, the only one with that representation.
#[verifier::external_body]
pub(crate) fn i256_from_be_bytes(bytes: [u8; 32]) -> (r: I256)
    ensures
        i256_of(bytes@, r),
{
    I256::from_be_bytes(bytes)
}

/// `ethnum::I256::to_be_bytes`: the big-endian two's complement representation of `value`.
#[verifier::external_body]
pub(crate) fn i256_to_be_bytes(value: I256) -> (r: [u8; 32])
    ensures
        r@ == i256_bytes(value),
{
    value.to_be_bytes()
}

/// `<I256 as PartialEq>::eq`: whether the two integers are equal.
#[verifier::external_body]
pub(crate) fn i256_eq(a: I256, b: I256) -> (r: bool)
    ensures
        r == (i256_value(a) == i256_value(b)),
{
    a == b
}

/// `ethnum::I256::ZERO`.
#[verifier::external_body]
pub(crate) fn i256_zero() -> (r: I256)
    ensures
        i256_bytes(r) == Seq::new(32, |i: int| 0u8),
{
    I256::ZERO
}

/// `<I256 as PartialOrd>::lt`: whether `a` is below `b`.
#[verifier::external_body]
pub(crate) fn i256_lt(a: I256, b: I256) -> (r: bool)
    ensures
        r == (i256_value(a) < i256_value(b)),
{
    a < b
}

/// `ethnum::I256::wrapping_div`: the quotient rounded toward zero; `MIN / -1` wraps to
/// `MIN`. It panics on a zero divisor.
#[verifier::external_body]
pub(crate) fn i256_wrapping_div(a: I256, b: I256) -> (r: I256)
    requires
        i256_value(b) != 0,
    ensures
        i256_value(r) == (if trunc_div(i256_value(a), i256_value(b)) == pow256(32) / 2 {
            -(pow256(32) / 2)
        } else {
            trunc_div(i256_value(a), i256_value(b))
        }),
{
    a.wrapping_div(b)
}

/// `ethnum::I256::wrapping_rem`: the remainder of the division rounded toward zero, with the
/// sign of `a`; `MIN % -1` is 0. It panics on a zero divisor.
#[verifier::external_body]
pub(crate) fn i256_wrapping_rem(a: I256, b: I256) -> (r: I256)
    requires
        i256_value(b) != 0,
    ensures
        i256_value(r) == i256_value(a) - i256_value(b) * trunc_div(i256_value(a), i256_value(b)),
{
    a.wrapping_rem(b)
}

/// `<I256 as Shr<U256>>::shr`: `a` shifted right by `s` bits, the sign bit filling in, that
/// is `a` divided by `2^s` rounded down; it panics for `s` above 255.
#[verifier::external_body]
pub(crate) fn i256_shr(a: I256, s: U256) -> (r: I256)
    requires
        u256_value(s) < 256,
    ensures
        i256_value(r) == i256_value(a) / (vstd::arithmetic::power2::pow2(u256_value(s)) as int),
{
    a >> s
}

} // verus!
