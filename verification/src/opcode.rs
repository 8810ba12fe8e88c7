//! The instructions of the EVM that work on the frame alone: the stack, the memory, the code
//! and the call data.

use vstd::prelude::*;

use crate::error::Error;
use crate::machine::{ExitStatus, Machine};
use crate::buffer::byte_or_zero;
use crate::memory::{access, padded, stored};
use crate::opcode_table::JUMPDEST;
use crate::solana::{keccak256_digest, keccak_hash};
use crate::stack::{byte_word, padded_word, swapped, usize_popped, STACK_DEPTH};
use crate::types::Address;
use crate::types::{
    be_value, lemma_be_value_append, lemma_be_value_injective, lemma_be_value_ones,
    lemma_be_value_zero_bytes, lemma_be_value_zero_prefix, lemma_be_value_zeros,
};
use crate::uint::{
    i256_eq, i256_lt, i256_shr, i256_wrapping_div, i256_wrapping_rem, i256_zero,
    lemma_be_value_bound, lemma_pow256_pos, pow256, signed_value, trunc_div, u256_and,
    u256_and_u128, u256_as_usize, u256_bytes, u256_eq, u256_low, u256_lt, u256_max, u256_new,
    u256_not, u256_or, u256_rem, u256_shl, u256_shl_usize, u256_shr, u256_shr_u32, u256_sub,
    u256_value, u256_wrapping_add, u256_wrapping_div, u256_wrapping_mul, u256_wrapping_rem,
    u256_wrapping_sub, u256_xor, u256_zero, word_modulus,
};
use vstd::arithmetic::div_mod::{
    lemma_mod_add_multiples_vanish, lemma_mod_mod, lemma_mul_mod_noop_left,
    lemma_mul_mod_noop_right,
};
use vstd::arithmetic::mul::lemma_mul_is_commutative;
use vstd::arithmetic::power::{
    lemma_pow0, lemma_pow1, lemma_pow_adds, lemma_pow_mod_noop, lemma_pow_multiplies,
    lemma_square_is_pow2, pow,
};
use vstd::arithmetic::power2::{lemma2_to64, lemma_pow2_adds, lemma_pow2_pos, lemma_pow2_unfold, pow2};

verus! {

/// What the interpreter does after an instruction.
#[derive(Debug, Clone, PartialEq, Eq)]
pub enum Action {
    Continue,
    Jump(usize),
    Stop,
    Return(Vec<u8>),
    Revert(Vec<u8>),
    Suicide,
    Noop,
}

/// The word `k` places below the top of `s`; the top itself is `k == 0`.
pub open spec fn top(s: Seq<[u8; 32]>, k: int) -> Seq<u8> {
    s[s.len() - 1 - k]@
}

/// The word that holds the truth value `b`: 1 or 0.
pub open spec fn bool_word(b: bool) -> Seq<u8> {
    byte_word(if b { 1u8 } else { 0u8 })
}

/// The zero word.
pub open spec fn zero_word() -> Seq<u8> {
    Seq::new(32, |i: int| 0u8)
}

/// What an instruction that takes `n` words off the stack `s` and pushes one for which `word`
/// holds answers, with the stack `after` it. Where `s` holds fewer than `n` words, all are
/// taken before the instruction fails.
pub open spec fn replaced(
    s: Seq<[u8; 32]>,
    after: Seq<[u8; 32]>,
    r: Result<Action, Error>,
    n: int,
    word: spec_fn(Seq<u8>) -> bool,
) -> bool {
    if s.len() < n {
        r == Err::<Action, Error>(Error::StackUnderflow) && after.len() == 0
    } else {
        let rest = s.take(s.len() - n);
        if rest.len() >= STACK_DEPTH {
            r == Err::<Action, Error>(Error::StackOverflow) && after == rest
        } else {
            &&& r == Ok::<Action, Error>(Action::Continue)
            &&& after.len() == rest.len() + 1
            &&& after.drop_last() == rest
            &&& word(after.last()@)
        }
    }
}

/// `b` is `a` with a stack that may differ.
pub open spec fn same_but_stack(a: Machine, b: Machine) -> bool {
    &&& b.origin == a.origin
    &&& b.chain_id == a.chain_id
    &&& b.context == a.context
    &&& b.gas_price == a.gas_price
    &&& b.gas_limit == a.gas_limit
    &&& b.execution_code == a.execution_code
    &&& b.call_data == a.call_data
    &&& b.return_data == a.return_data
    &&& b.return_range == a.return_range
    &&& b.memory == a.memory
    &&& b.pc == a.pc
    &&& b.is_static == a.is_static
    &&& b.reason == a.reason
    &&& b.parent == a.parent
}

/// `b` is `a` with a program counter that may differ.
pub open spec fn same_but_pc(a: Machine, b: Machine) -> bool {
    &&& b.origin == a.origin
    &&& b.chain_id == a.chain_id
    &&& b.context == a.context
    &&& b.gas_price == a.gas_price
    &&& b.gas_limit == a.gas_limit
    &&& b.execution_code == a.execution_code
    &&& b.call_data == a.call_data
    &&& b.return_data == a.return_data
    &&& b.return_range == a.return_range
    &&& b.stack == a.stack
    &&& b.memory == a.memory
    &&& b.is_static == a.is_static
    &&& b.reason == a.reason
    &&& b.parent == a.parent
}

/// `b` is `a` with a stack and a memory that may differ.
pub open spec fn same_but_stack_and_memory(a: Machine, b: Machine) -> bool {
    &&& b.origin == a.origin
    &&& b.chain_id == a.chain_id
    &&& b.context == a.context
    &&& b.gas_price == a.gas_price
    &&& b.gas_limit == a.gas_limit
    &&& b.execution_code == a.execution_code
    &&& b.call_data == a.call_data
    &&& b.return_data == a.return_data
    &&& b.return_range == a.return_range
    &&& b.pc == a.pc
    &&& b.is_static == a.is_static
    &&& b.reason == a.reason
    &&& b.parent == a.parent
}

/// What pushing `word` onto `s` and then going on with `next` answers, with the stack
/// `after` it.
pub open spec fn pushed_then(
    s: Seq<[u8; 32]>,
    after: Seq<[u8; 32]>,
    r: Result<Action, Error>,
    word: Seq<u8>,
    next: Action,
) -> bool {
    if s.len() >= STACK_DEPTH {
        r == Err::<Action, Error>(Error::StackOverflow) && after == s
    } else {
        &&& r == Ok::<Action, Error>(next)
        &&& after.len() == s.len() + 1
        &&& after.drop_last() == s
        &&& after.last()@ == word
    }
}

/// The instruction's answer after a memory access that answered `res`.
pub open spec fn then_continue(res: Result<(), Error>) -> Result<Action, Error> {
    match res {
        Ok(_) => Ok(Action::Continue),
        Err(e) => Err(e),
    }
}

/// What popping three `usize`s off `s` answers, with the words left.
pub open spec fn usizes3_popped(s: Seq<[u8; 32]>) -> (
    Result<(usize, usize, usize), Error>,
    Seq<[u8; 32]>,
) {
    let (r1, s1) = usize_popped(s);
    match r1 {
        Err(e) => (Err(e), s1),
        Ok(a) => {
            let (r2, s2) = usize_popped(s1);
            match r2 {
                Err(e) => (Err(e), s2),
                Ok(b) => {
                    let (r3, s3) = usize_popped(s2);
                    match r3 {
                        Err(e) => (Err(e), s3),
                        Ok(c) => (Ok((a, b, c)), s3),
                    }
                },
            }
        },
    }
}

/// Where a jump to `target` in `code` of `contract` goes: only to a `JUMPDEST`.
pub open spec fn jump_target(code: Seq<u8>, contract: Address, target: usize) -> Result<
    Action,
    Error,
> {
    if target < code.len() && code[target as int] == JUMPDEST {
        Ok(Action::Jump(target))
    } else {
        Err(Error::InvalidJump(contract, target))
    }
}

/// An instruction that takes words off a stack within its depth and pushes one leaves the
/// stack within its depth.
pub proof fn lemma_replaced_keeps_depth(
    s: Seq<[u8; 32]>,
    after: Seq<[u8; 32]>,
    r: Result<Action, Error>,
    n: int,
    word: spec_fn(Seq<u8>) -> bool,
)
    requires
        0 <= n,
        s.len() <= STACK_DEPTH,
        replaced(s, after, r, n, word),
    ensures
        after.len() <= STACK_DEPTH,
{
}

/// A push that goes on with a jump leaves a stack within its depth within its depth.
pub proof fn lemma_pushed_then_keeps_depth(
    s: Seq<[u8; 32]>,
    after: Seq<[u8; 32]>,
    r: Result<Action, Error>,
    word: Seq<u8>,
    next: Action,
)
    requires
        s.len() <= STACK_DEPTH,
        pushed_then(s, after, r, word, next),
    ensures
        after.len() <= STACK_DEPTH,
{
}

/// A jump that succeeds lands on a `JUMPDEST` of the code, at the place it was asked for.
pub proof fn lemma_jump_lands_on_jumpdest(code: Seq<u8>, contract: Address, target: usize)
    requires
        jump_target(code, contract, target) is Ok,
    ensures
        jump_target(code, contract, target) == Ok::<Action, Error>(Action::Jump(target)),
        target < code.len(),
        code[target as int] == JUMPDEST,
{
}

/// Where the remainders of `a` and `b` reach `m`, their sum less `m` is that of `a + b`.
proof fn lemma_addmod_wraps(a: nat, b: nat, m: nat)
    requires
        m > 0,
        a % m >= m - b % m,
    ensures
        a % m - (m - b % m) == (a + b) % m,
{
    let x = (a % m) as int;
    let y = (b % m) as int;
    vstd::arithmetic::div_mod::lemma_add_mod_noop(a as int, b as int, m as int);
    vstd::arithmetic::div_mod::lemma_mod_add_multiples_vanish(x + y - m, m as int);
    vstd::arithmetic::div_mod::lemma_mod_bound(a as int, m as int);
    vstd::arithmetic::div_mod::lemma_mod_bound(b as int, m as int);
    vstd::arithmetic::div_mod::lemma_small_mod((x + y - m) as nat, m);
}

/// Where the remainders of `a` and `b` stay below `m`, their sum is that of `a + b`.
proof fn lemma_addmod_fits(a: nat, b: nat, m: nat)
    requires
        m > 0,
        a % m < m - b % m,
    ensures
        b % m + a % m == (a + b) % m,
        b % m + a % m < m,
{
    vstd::arithmetic::div_mod::lemma_add_mod_noop(a as int, b as int, m as int);
    vstd::arithmetic::div_mod::lemma_small_mod((a % m + b % m) as nat, m);
}

/// One step of exponentiation by squaring keeps `r * a^b` modulo `m`.
proof fn lemma_exp_step(r: int, a: int, b: nat, m: int)
    requires
        m > 0,
    ensures
        ((if b % 2 == 1 { (r * a) % m } else { r }) * pow((a * a) % m, b / 2)) % m == (r * pow(
            a,
            b,
        )) % m,
{
    let k = b / 2;
    let p = pow(a * a, k);
    lemma_pow_adds(a, 2 * k, b % 2);
    lemma_pow_multiplies(a, 2, k);
    lemma_square_is_pow2(a);
    assert(b == 2 * k + b % 2);
    lemma_pow_mod_noop(a * a, k, m);
    assert(pow(a, b) == p * pow(a, b % 2));
    if b % 2 == 1 {
        lemma_pow1(a);
        lemma_mul_mod_noop_left(r * a, pow((a * a) % m, k), m);
        lemma_mul_mod_noop_right(r * a, pow((a * a) % m, k), m);
        lemma_mul_mod_noop_right(r * a, p, m);
        assert((r * a) * p == r * (p * a)) by (nonlinear_arith);
    } else {
        lemma_pow0(a);
        lemma_mul_mod_noop_right(r, pow((a * a) % m, k), m);
        lemma_mul_mod_noop_right(r, p, m);
        assert(p * 1 == p);
    }
}

/// The lowest bit of a number is its remainder by two.
proof fn lemma_low_bit(v: nat)
    ensures
        ((v % pow2(128)) as u128 & 1u128) == v % 2,
{
    lemma2_to64();
    lemma_pow2_adds(64, 64);
    let x = (v % pow2(128)) as u128;
    assert(x & 1u128 == x % 2) by (bit_vector);
    lemma_pow2_pos(127);
    lemma_mod_mod(v as int, 2, pow2(127) as int);
    lemma_pow2_unfold(128);
}

/// A negative number above `-m` is `m` more, modulo `m`.
proof fn lemma_mod_negative(x: int, m: int)
    requires
        -m <= x < 0,
    ensures
        x % m == x + m,
{
    lemma_mod_add_multiples_vanish(x, m);
    vstd::arithmetic::div_mod::lemma_small_mod((x + m) as nat, m as nat);
}

/// A number below `2m` but not below `m` is `m` less, modulo `m`.
proof fn lemma_mod_once(x: int, m: int)
    requires
        m <= x < 2 * m,
    ensures
        x % m == x - m,
{
    lemma_mod_add_multiples_vanish(x - m, m);
    vstd::arithmetic::div_mod::lemma_small_mod((x - m) as nat, m as nat);
}

/// The sum of two remainders by `m`, reduced without going past `big`: the branch that
/// `mulmod` takes.
proof fn lemma_add_below(r: int, b: int, m: int, big: int)
    requires
        0 <= r < m,
        0 <= b < m,
        m < big,
    ensures
        (m - r) % big == m - r,
        b >= m - r ==> (((r - m) % big) + b) % big == (r + b) % m,
        b < m - r ==> (r + b) % big == (r + b) % m,
{
    vstd::arithmetic::div_mod::lemma_small_mod((m - r) as nat, big as nat);
    if b >= m - r {
        lemma_mod_negative(r - m, big);
        lemma_mod_once((r - m + big) + b, big);
        lemma_mod_once(r + b, m);
    } else {
        vstd::arithmetic::div_mod::lemma_small_mod((r + b) as nat, big as nat);
        vstd::arithmetic::div_mod::lemma_small_mod((r + b) as nat, m as nat);
    }
}

/// One step of the multiplication by doubling keeps `r + a * b` modulo `m`.
proof fn lemma_mulmod_step(r: int, a: int, b: int, m: int)
    requires
        0 <= r < m,
        0 <= b < m,
        0 <= a,
    ensures
        ((if a % 2 == 1 { (r + b) % m } else { r }) + (a / 2) * ((2 * b) % m)) % m == (r + a
            * b) % m,
{
    let k = a / 2;
    let x = if a % 2 == 1 { (r + b) % m } else { r };
    lemma_mul_mod_noop_right(k, 2 * b, m);
    vstd::arithmetic::div_mod::lemma_add_mod_noop(x, k * ((2 * b) % m), m);
    vstd::arithmetic::div_mod::lemma_add_mod_noop(x, k * (2 * b), m);
    vstd::arithmetic::div_mod::lemma_mod_twice(x, m);
    vstd::arithmetic::div_mod::lemma_mod_twice(k * (2 * b), m);
    vstd::arithmetic::div_mod::lemma_fundamental_div_mod(a, 2);
    if a % 2 == 1 {
        vstd::arithmetic::div_mod::lemma_add_mod_noop(r + b, k * (2 * b), m);
        vstd::arithmetic::div_mod::lemma_mod_twice(r + b, m);
        assert(r + b + k * (2 * b) == r + a * b) by (nonlinear_arith)
            requires
                a == 2 * k + 1,
        ;
    } else {
        vstd::arithmetic::div_mod::lemma_small_mod(r as nat, m as nat);
        assert(r + k * (2 * b) == r + a * b) by (nonlinear_arith)
            requires
                a == 2 * k,
        ;
    }
}

/// `x` sign-extended from its byte `31 - b`: the bytes before it become copies of its top bit.
pub open spec fn sign_extended(x: Seq<u8>, b: int) -> Seq<u8> {
    Seq::new(
        32,
        |i: int|
            if i < 31 - b {
                if x[31 - b] >= 128 {
                    0xffu8
                } else {
                    0u8
                }
            } else {
                x[i]
            },
    )
}

/// The word with only the top bit of its byte `31 - b` set, bit `8 * b + 7`.
spec fn top_bit_word(b: int) -> Seq<u8> {
    Seq::new(32, |i: int| if i == 31 - b { 0x80u8 } else { 0u8 })
}

/// The word with the bits below bit `8 * b + 7` set.
spec fn low_mask_word(b: int) -> Seq<u8> {
    Seq::new(32, |i: int| if i < 31 - b { 0u8 } else if i == 31 - b { 0x7fu8 } else { 0xffu8 })
}

proof fn lemma_pow2_byte(b: nat)
    ensures
        pow2(8 * b + 7) == 128 * pow256(b),
    decreases b,
{
    lemma2_to64();
    if b > 0 {
        lemma_pow2_byte((b - 1) as nat);
        lemma_pow2_adds((8 * (b - 1) + 7) as nat, 8);
        assert(8 * b + 7 == (8 * (b - 1) + 7) + 8);
    }
}

proof fn lemma_mask_words(b: nat)
    requires
        b < 32,
    ensures
        be_value(top_bit_word(b as int)) == pow2(8 * b + 7),
        be_value(low_mask_word(b as int)) == pow2(8 * b + 7) - 1,
        pow2(8 * b + 7) < word_modulus(),
{
    let p = (31 - b) as nat;
    lemma_pow2_byte(b);
    let z = Seq::new(p, |i: int| 0u8);
    let tail0 = Seq::new(b, |i: int| 0u8);
    let tail1 = Seq::new(b, |i: int| 0xffu8);
    assert(top_bit_word(b as int) =~= z + (seq![0x80u8] + tail0));
    assert(low_mask_word(b as int) =~= z + (seq![0x7fu8] + tail1));
    lemma_be_value_zero_prefix(p, seq![0x80u8] + tail0);
    lemma_be_value_zero_prefix(p, seq![0x7fu8] + tail1);
    lemma_be_value_append(seq![0x80u8], tail0);
    lemma_be_value_append(seq![0x7fu8], tail1);
    lemma_be_value_zeros(b);
    lemma_be_value_ones(b);
    assert(be_value(seq![0x80u8]) == 0x80) by {
        reveal_with_fuel(be_value, 2);
        assert(seq![0x80u8].drop_last() =~= Seq::<u8>::empty());
    }
    assert(be_value(seq![0x7fu8]) == 0x7f) by {
        reveal_with_fuel(be_value, 2);
        assert(seq![0x7fu8].drop_last() =~= Seq::<u8>::empty());
    }
    lemma_pow256_pos(b);
    lemma_pow256_mono(b, 31);
    assert(pow256(32) == 256 * pow256(31));
}

proof fn lemma_pow256_mono(a: nat, b: nat)
    requires
        a <= b,
    ensures
        pow256(a) <= pow256(b),
    decreases b,
{
    if a < b {
        lemma_pow256_mono(a, (b - 1) as nat);
        lemma_pow256_pos((b - 1) as nat);
    }
}

proof fn lemma_take_drop(s: Seq<[u8; 32]>, n: int)
    requires
        0 < n <= s.len(),
    ensures
        s.take(s.len() - n) == s.drop_last().take(s.drop_last().len() - (n - 1)),
{
    assert(s.take(s.len() - n) =~= s.drop_last().take(s.drop_last().len() - (n - 1)));
}

impl Machine {
    /// (u)int256 addition modulo 2**256
    pub fn opcode_add(&mut self) -> (r: Result<Action, Error>)
        ensures
            same_but_stack(*old(self), *final(self)),
            ({
                let s = old(self).stack.words();
                replaced(
                    s,
                    final(self).stack.words(),
                    r,
                    2,
                    |w: Seq<u8>| be_value(w) == (be_value(top(s, 0)) + be_value(top(s, 1))) % word_modulus(),
                )
            }),
    {
        proof {
            if self.stack.words().len() >= 2 {
                lemma_take_drop(self.stack.words(), 2);
                lemma_take_drop(self.stack.words().drop_last(), 1);
            }
        }
        let a = self.stack.pop_u256()?;
        let b = self.stack.pop_u256()?;
        let c = u256_wrapping_add(a, b);
        self.stack.push_u256(c)?;
        Ok(Action::Continue)
    }

    /// (u)int256 multiplication modulo 2**256
    pub fn opcode_mul(&mut self) -> (r: Result<Action, Error>)
        ensures
            same_but_stack(*old(self), *final(self)),
            ({
                let s = old(self).stack.words();
                replaced(
                    s,
                    final(self).stack.words(),
                    r,
                    2,
                    |w: Seq<u8>| be_value(w) == (be_value(top(s, 0)) * be_value(top(s, 1))) % word_modulus(),
                )
            }),
    {
        proof {
            if self.stack.words().len() >= 2 {
                lemma_take_drop(self.stack.words(), 2);
                lemma_take_drop(self.stack.words().drop_last(), 1);
            }
        }
        let a = self.stack.pop_u256()?;
        let b = self.stack.pop_u256()?;
        let c = u256_wrapping_mul(a, b);
        self.stack.push_u256(c)?;
        Ok(Action::Continue)
    }

    /// (u)int256 subtraction modulo 2**256
    pub fn opcode_sub(&mut self) -> (r: Result<Action, Error>)
        ensures
            same_but_stack(*old(self), *final(self)),
            ({
                let s = old(self).stack.words();
                replaced(
                    s,
                    final(self).stack.words(),
                    r,
                    2,
                    |w: Seq<u8>| be_value(w) == (be_value(top(s, 0)) - be_value(top(s, 1))) % (word_modulus() as int),
                )
            }),
    {
        proof {
            if self.stack.words().len() >= 2 {
                lemma_take_drop(self.stack.words(), 2);
                lemma_take_drop(self.stack.words().drop_last(), 1);
            }
        }
        let a = self.stack.pop_u256()?;
        let b = self.stack.pop_u256()?;
        let c = u256_wrapping_sub(a, b);
        self.stack.push_u256(c)?;
        Ok(Action::Continue)
    }

    /// uint256 comparison: a < b
    pub fn opcode_lt(&mut self) -> (r: Result<Action, Error>)
        ensures
            same_but_stack(*old(self), *final(self)),
            ({
                let s = old(self).stack.words();
                replaced(
                    s,
                    final(self).stack.words(),
                    r,
                    2,
                    |w: Seq<u8>| w == bool_word(be_value(top(s, 0)) < be_value(top(s, 1))),
                )
            }),
    {
        proof {
            if self.stack.words().len() >= 2 {
                lemma_take_drop(self.stack.words(), 2);
                lemma_take_drop(self.stack.words().drop_last(), 1);
            }
        }
        let a = self.stack.pop_u256()?;
        let b = self.stack.pop_u256()?;
        self.stack.push_bool(u256_lt(a, b))?;
        Ok(Action::Continue)
    }

    /// uint256 comparison: a > b
    pub fn opcode_gt(&mut self) -> (r: Result<Action, Error>)
        ensures
            same_but_stack(*old(self), *final(self)),
            ({
                let s = old(self).stack.words();
                replaced(
                    s,
                    final(self).stack.words(),
                    r,
                    2,
                    |w: Seq<u8>| w == bool_word(be_value(top(s, 0)) > be_value(top(s, 1))),
                )
            }),
    {
        proof {
            if self.stack.words().len() >= 2 {
                lemma_take_drop(self.stack.words(), 2);
                lemma_take_drop(self.stack.words().drop_last(), 1);
            }
        }
        let a = self.stack.pop_u256()?;
        let b = self.stack.pop_u256()?;
        self.stack.push_bool(u256_lt(b, a))?;
        Ok(Action::Continue)
    }

    /// (u)int256 equality: a == b
    pub fn opcode_eq(&mut self) -> (r: Result<Action, Error>)
        ensures
            same_but_stack(*old(self), *final(self)),
            ({
                let s = old(self).stack.words();
                replaced(
                    s,
                    final(self).stack.words(),
                    r,
                    2,
                    |w: Seq<u8>| w == bool_word(be_value(top(s, 0)) == be_value(top(s, 1))),
                )
            }),
    {
        proof {
            if self.stack.words().len() >= 2 {
                lemma_take_drop(self.stack.words(), 2);
                lemma_take_drop(self.stack.words().drop_last(), 1);
            }
        }
        let a = self.stack.pop_u256()?;
        let b = self.stack.pop_u256()?;
        self.stack.push_bool(u256_eq(a, b))?;
        Ok(Action::Continue)
    }

    /// (u)int256 is zero: a == 0
    pub fn opcode_iszero(&mut self) -> (r: Result<Action, Error>)
        ensures
            same_but_stack(*old(self), *final(self)),
            ({
                let s = old(self).stack.words();
                replaced(
                    s,
                    final(self).stack.words(),
                    r,
                    1,
                    |w: Seq<u8>| w == bool_word(top(s, 0) == zero_word()),
                )
            }),
    {
        proof {
            if self.stack.words().len() >= 1 {
                lemma_take_drop(self.stack.words(), 1);
            }
        }
        let a = self.stack.pop_array()?;
        let result = is_zero_word(&a);
        self.stack.push_bool(result)?;
        Ok(Action::Continue)
    }

    /// 256-bit bitwise and
    pub fn opcode_and(&mut self) -> (r: Result<Action, Error>)
        ensures
            same_but_stack(*old(self), *final(self)),
            ({
                let s = old(self).stack.words();
                replaced(
                    s,
                    final(self).stack.words(),
                    r,
                    2,
                    |w: Seq<u8>| w.len() == 32 && forall|i: int| 0 <= i < 32 ==> #[trigger] w[i] == top(s, 0)[i] & top(s, 1)[i],
                )
            }),
    {
        proof {
            if self.stack.words().len() >= 2 {
                lemma_take_drop(self.stack.words(), 2);
                lemma_take_drop(self.stack.words().drop_last(), 1);
            }
        }
        let a = self.stack.pop_u256()?;
        let b = self.stack.pop_u256()?;
        self.stack.push_u256(u256_and(a, b))?;
        Ok(Action::Continue)
    }

    /// 256-bit bitwise or
    pub fn opcode_or(&mut self) -> (r: Result<Action, Error>)
        ensures
            same_but_stack(*old(self), *final(self)),
            ({
                let s = old(self).stack.words();
                replaced(
                    s,
                    final(self).stack.words(),
                    r,
                    2,
                    |w: Seq<u8>| w.len() == 32 && forall|i: int| 0 <= i < 32 ==> #[trigger] w[i] == top(s, 0)[i] | top(s, 1)[i],
                )
            }),
    {
        proof {
            if self.stack.words().len() >= 2 {
                lemma_take_drop(self.stack.words(), 2);
                lemma_take_drop(self.stack.words().drop_last(), 1);
            }
        }
        let a = self.stack.pop_u256()?;
        let b = self.stack.pop_u256()?;
        self.stack.push_u256(u256_or(a, b))?;
        Ok(Action::Continue)
    }

    /// 256-bit bitwise xor
    pub fn opcode_xor(&mut self) -> (r: Result<Action, Error>)
        ensures
            same_but_stack(*old(self), *final(self)),
            ({
                let s = old(self).stack.words();
                replaced(
                    s,
                    final(self).stack.words(),
                    r,
                    2,
                    |w: Seq<u8>| w.len() == 32 && forall|i: int| 0 <= i < 32 ==> #[trigger] w[i] == top(s, 0)[i] ^ top(s, 1)[i],
                )
            }),
    {
        proof {
            if self.stack.words().len() >= 2 {
                lemma_take_drop(self.stack.words(), 2);
                lemma_take_drop(self.stack.words().drop_last(), 1);
            }
        }
        let a = self.stack.pop_u256()?;
        let b = self.stack.pop_u256()?;
        self.stack.push_u256(u256_xor(a, b))?;
        Ok(Action::Continue)
    }

    /// 256-bit bitwise not
    pub fn opcode_not(&mut self) -> (r: Result<Action, Error>)
        ensures
            same_but_stack(*old(self), *final(self)),
            ({
                let s = old(self).stack.words();
                replaced(
                    s,
                    final(self).stack.words(),
                    r,
                    1,
                    |w: Seq<u8>| w.len() == 32 && forall|i: int| 0 <= i < 32 ==> #[trigger] w[i] == !top(s, 0)[i],
                )
            }),
    {
        proof {
            if self.stack.words().len() >= 1 {
                lemma_take_drop(self.stack.words(), 1);
            }
        }
        let a = self.stack.pop_u256()?;
        self.stack.push_u256(u256_not(a))?;
        Ok(Action::Continue)
    }

    /// address of the executing contract
    pub fn opcode_address(&mut self) -> (r: Result<Action, Error>)
        ensures
            same_but_stack(*old(self), *final(self)),
            ({
                let s = old(self).stack.words();
                replaced(
                    s,
                    final(self).stack.words(),
                    r,
                    0,
                    |w: Seq<u8>| w == padded_word(old(self).context.contract.0@),
                )
            }),
    {
        proof {
            assert(self.stack.words().take(self.stack.words().len() as int) =~= self.stack.words());
        }
        self.stack.push_address(&self.context.contract)?;
        Ok(Action::Continue)
    }

    /// address of the account that began the transaction
    pub fn opcode_origin(&mut self) -> (r: Result<Action, Error>)
        ensures
            same_but_stack(*old(self), *final(self)),
            ({
                let s = old(self).stack.words();
                replaced(
                    s,
                    final(self).stack.words(),
                    r,
                    0,
                    |w: Seq<u8>| w == padded_word(old(self).origin.0@),
                )
            }),
    {
        proof {
            assert(self.stack.words().take(self.stack.words().len() as int) =~= self.stack.words());
        }
        self.stack.push_address(&self.origin)?;
        Ok(Action::Continue)
    }

    /// address of the caller
    pub fn opcode_caller(&mut self) -> (r: Result<Action, Error>)
        ensures
            same_but_stack(*old(self), *final(self)),
            ({
                let s = old(self).stack.words();
                replaced(
                    s,
                    final(self).stack.words(),
                    r,
                    0,
                    |w: Seq<u8>| w == padded_word(old(self).context.caller.0@),
                )
            }),
    {
        proof {
            assert(self.stack.words().take(self.stack.words().len() as int) =~= self.stack.words());
        }
        self.stack.push_address(&self.context.caller)?;
        Ok(Action::Continue)
    }

    /// value sent with the call
    pub fn opcode_callvalue(&mut self) -> (r: Result<Action, Error>)
        ensures
            same_but_stack(*old(self), *final(self)),
            ({
                let s = old(self).stack.words();
                replaced(
                    s,
                    final(self).stack.words(),
                    r,
                    0,
                    |w: Seq<u8>| w == u256_bytes(old(self).context.value),
                )
            }),
    {
        proof {
            assert(self.stack.words().take(self.stack.words().len() as int) =~= self.stack.words());
        }
        self.stack.push_u256(self.context.value)?;
        Ok(Action::Continue)
    }

    /// gas price of the executing transaction
    pub fn opcode_gasprice(&mut self) -> (r: Result<Action, Error>)
        ensures
            same_but_stack(*old(self), *final(self)),
            ({
                let s = old(self).stack.words();
                replaced(
                    s,
                    final(self).stack.words(),
                    r,
                    0,
                    |w: Seq<u8>| w == u256_bytes(old(self).gas_price),
                )
            }),
    {
        proof {
            assert(self.stack.words().take(self.stack.words().len() as int) =~= self.stack.words());
        }
        self.stack.push_u256(self.gas_price)?;
        Ok(Action::Continue)
    }

    /// remaining gas
    pub fn opcode_gas(&mut self) -> (r: Result<Action, Error>)
        ensures
            same_but_stack(*old(self), *final(self)),
            ({
                let s = old(self).stack.words();
                replaced(
                    s,
                    final(self).stack.words(),
                    r,
                    0,
                    |w: Seq<u8>| w == u256_bytes(old(self).gas_limit),
                )
            }),
    {
        proof {
            assert(self.stack.words().take(self.stack.words().len() as int) =~= self.stack.words());
        }
        self.stack.push_u256(self.gas_limit)?;
        Ok(Action::Continue)
    }

    /// address of the current block's miner: not supported, zero
    pub fn opcode_coinbase(&mut self) -> (r: Result<Action, Error>)
        ensures
            same_but_stack(*old(self), *final(self)),
            ({
                let s = old(self).stack.words();
                replaced(
                    s,
                    final(self).stack.words(),
                    r,
                    0,
                    |w: Seq<u8>| w == zero_word(),
                )
            }),
    {
        proof {
            assert(self.stack.words().take(self.stack.words().len() as int) =~= self.stack.words());
        }
        self.stack.push_zero()?;
        Ok(Action::Continue)
    }

    /// current block's difficulty: not supported, zero
    pub fn opcode_difficulty(&mut self) -> (r: Result<Action, Error>)
        ensures
            same_but_stack(*old(self), *final(self)),
            ({
                let s = old(self).stack.words();
                replaced(
                    s,
                    final(self).stack.words(),
                    r,
                    0,
                    |w: Seq<u8>| w == zero_word(),
                )
            }),
    {
        proof {
            assert(self.stack.words().take(self.stack.words().len() as int) =~= self.stack.words());
        }
        self.stack.push_zero()?;
        Ok(Action::Continue)
    }

    /// current block's base fee: not supported, zero
    pub fn opcode_basefee(&mut self) -> (r: Result<Action, Error>)
        ensures
            same_but_stack(*old(self), *final(self)),
            ({
                let s = old(self).stack.words();
                replaced(
                    s,
                    final(self).stack.words(),
                    r,
                    0,
                    |w: Seq<u8>| w == zero_word(),
                )
            }),
    {
        proof {
            assert(self.stack.words().take(self.stack.words().len() as int) =~= self.stack.words());
        }
        self.stack.push_zero()?;
        Ok(Action::Continue)
    }

    /// place zero on the stack
    pub fn opcode_push_0(&mut self) -> (r: Result<Action, Error>)
        ensures
            same_but_stack(*old(self), *final(self)),
            ({
                let s = old(self).stack.words();
                replaced(
                    s,
                    final(self).stack.words(),
                    r,
                    0,
                    |w: Seq<u8>| w == zero_word(),
                )
            }),
    {
        proof {
            assert(self.stack.words().take(self.stack.words().len() as int) =~= self.stack.words());
        }
        self.stack.push_zero()?;
        Ok(Action::Continue)
    }

    /// current block's gas limit: not supported, the largest value
    pub fn opcode_gaslimit(&mut self) -> (r: Result<Action, Error>)
        ensures
            same_but_stack(*old(self), *final(self)),
            ({
                let s = old(self).stack.words();
                replaced(
                    s,
                    final(self).stack.words(),
                    r,
                    0,
                    |w: Seq<u8>| w == Seq::new(32, |i: int| 0xffu8),
                )
            }),
    {
        proof {
            assert(self.stack.words().take(self.stack.words().len() as int) =~= self.stack.words());
        }
        self.stack.push_u256(u256_max())?;
        Ok(Action::Continue)
    }

    /// current network's chain id
    pub fn opcode_chainid(&mut self) -> (r: Result<Action, Error>)
        ensures
            same_but_stack(*old(self), *final(self)),
            ({
                let s = old(self).stack.words();
                replaced(
                    s,
                    final(self).stack.words(),
                    r,
                    0,
                    |w: Seq<u8>| be_value(w) == old(self).chain_id,
                )
            }),
    {
        proof {
            assert(self.stack.words().take(self.stack.words().len() as int) =~= self.stack.words());
        }
        self.stack.push_u256(u256_new(self.chain_id as u128))?;
        Ok(Action::Continue)
    }

    /// message data length in bytes
    pub fn opcode_calldatasize(&mut self) -> (r: Result<Action, Error>)
        requires
            old(self).call_data.spec_is_initialized(),
        ensures
            same_but_stack(*old(self), *final(self)),
            ({
                let s = old(self).stack.words();
                replaced(
                    s,
                    final(self).stack.words(),
                    r,
                    0,
                    |w: Seq<u8>| be_value(w) == old(self).call_data.bytes().len(),
                )
            }),
    {
        proof {
            assert(self.stack.words().take(self.stack.words().len() as int) =~= self.stack.words());
        }
        self.stack.push_usize(self.call_data.len())?;
        Ok(Action::Continue)
    }

    /// length of the executing contract's code in bytes
    pub fn opcode_codesize(&mut self) -> (r: Result<Action, Error>)
        requires
            old(self).execution_code.spec_is_initialized(),
        ensures
            same_but_stack(*old(self), *final(self)),
            ({
                let s = old(self).stack.words();
                replaced(
                    s,
                    final(self).stack.words(),
                    r,
                    0,
                    |w: Seq<u8>| be_value(w) == old(self).execution_code.bytes().len(),
                )
            }),
    {
        proof {
            assert(self.stack.words().take(self.stack.words().len() as int) =~= self.stack.words());
        }
        self.stack.push_usize(self.execution_code.len())?;
        Ok(Action::Continue)
    }

    /// the size of the data returned by the last call
    pub fn opcode_returndatasize(&mut self) -> (r: Result<Action, Error>)
        requires
            old(self).return_data.spec_is_initialized(),
        ensures
            same_but_stack(*old(self), *final(self)),
            ({
                let s = old(self).stack.words();
                replaced(
                    s,
                    final(self).stack.words(),
                    r,
                    0,
                    |w: Seq<u8>| be_value(w) == old(self).return_data.bytes().len(),
                )
            }),
    {
        proof {
            assert(self.stack.words().take(self.stack.words().len() as int) =~= self.stack.words());
        }
        self.stack.push_usize(self.return_data.len())?;
        Ok(Action::Continue)
    }

    /// program counter
    pub fn opcode_pc(&mut self) -> (r: Result<Action, Error>)
        ensures
            same_but_stack(*old(self), *final(self)),
            ({
                let s = old(self).stack.words();
                replaced(
                    s,
                    final(self).stack.words(),
                    r,
                    0,
                    |w: Seq<u8>| be_value(w) == old(self).pc,
                )
            }),
    {
        proof {
            assert(self.stack.words().take(self.stack.words().len() as int) =~= self.stack.words());
        }
        self.stack.push_usize(self.pc)?;
        Ok(Action::Continue)
    }

    /// memory size
    pub fn opcode_msize(&mut self) -> (r: Result<Action, Error>)
        ensures
            same_but_stack(*old(self), *final(self)),
            ({
                let s = old(self).stack.words();
                replaced(
                    s,
                    final(self).stack.words(),
                    r,
                    0,
                    |w: Seq<u8>| be_value(w) == old(self).memory.spec_size(),
                )
            }),
    {
        proof {
            assert(self.stack.words().take(self.stack.words().len() as int) =~= self.stack.words());
        }
        self.stack.push_usize(self.memory.size())?;
        Ok(Action::Continue)
    }

    /// uint256 division; zero for a zero divisor
    pub fn opcode_div(&mut self) -> (r: Result<Action, Error>)
        ensures
            same_but_stack(*old(self), *final(self)),
            ({
                let s = old(self).stack.words();
                replaced(
                    s,
                    final(self).stack.words(),
                    r,
                    2,
                    |w: Seq<u8>| if be_value(top(s, 1)) == 0 { w == zero_word() } else { be_value(w) == be_value(top(s, 0)) / be_value(top(s, 1)) },
                )
            }),
    {
        proof {
            lemma_be_value_zeros(32);
            if self.stack.words().len() >= 2 {
                lemma_take_drop(self.stack.words(), 2);
                lemma_take_drop(self.stack.words().drop_last(), 1);
            }
        }
        let a = self.stack.pop_u256()?;
        let b = self.stack.pop_u256()?;
        if u256_eq(b, u256_zero()) {
            self.stack.push_zero()?;
        } else {
            let c = u256_wrapping_div(a, b);
            self.stack.push_u256(c)?;
        }
        Ok(Action::Continue)
    }

    /// uint256 modulus; zero for a zero divisor
    pub fn opcode_mod(&mut self) -> (r: Result<Action, Error>)
        ensures
            same_but_stack(*old(self), *final(self)),
            ({
                let s = old(self).stack.words();
                replaced(
                    s,
                    final(self).stack.words(),
                    r,
                    2,
                    |w: Seq<u8>| if be_value(top(s, 1)) == 0 { w == zero_word() } else { be_value(w) == be_value(top(s, 0)) % be_value(top(s, 1)) },
                )
            }),
    {
        proof {
            lemma_be_value_zeros(32);
            if self.stack.words().len() >= 2 {
                lemma_take_drop(self.stack.words(), 2);
                lemma_take_drop(self.stack.words().drop_last(), 1);
            }
        }
        let a = self.stack.pop_u256()?;
        let b = self.stack.pop_u256()?;
        if u256_eq(b, u256_zero()) {
            self.stack.push_zero()?;
        } else {
            let c = u256_wrapping_rem(a, b);
            self.stack.push_u256(c)?;
        }
        Ok(Action::Continue)
    }

    /// int256 division rounded toward zero; zero for a zero divisor, and `MIN / -1` is `MIN`
    pub fn opcode_sdiv(&mut self) -> (r: Result<Action, Error>)
        ensures
            same_but_stack(*old(self), *final(self)),
            ({
                let s = old(self).stack.words();
                replaced(
                    s,
                    final(self).stack.words(),
                    r,
                    2,
                    |w: Seq<u8>| if signed_value(top(s, 1)) == 0 {
                        w == zero_word()
                    } else {
                        signed_value(w) == (if trunc_div(signed_value(top(s, 0)), signed_value(top(s, 1))) == pow256(32) / 2 {
                            -(pow256(32) / 2)
                        } else {
                            trunc_div(signed_value(top(s, 0)), signed_value(top(s, 1)))
                        })
                    },
                )
            }),
    {
        proof {
            lemma_be_value_zeros(32);
            if self.stack.words().len() >= 2 {
                lemma_take_drop(self.stack.words(), 2);
                lemma_take_drop(self.stack.words().drop_last(), 1);
            }
        }
        let a = self.stack.pop_i256()?;
        let b = self.stack.pop_i256()?;
        if i256_eq(b, i256_zero()) {
            self.stack.push_zero()?;
        } else {
            let c = i256_wrapping_div(a, b);
            self.stack.push_i256(c)?;
        }
        Ok(Action::Continue)
    }

    /// int256 modulus, with the sign of the dividend; zero for a zero divisor
    pub fn opcode_smod(&mut self) -> (r: Result<Action, Error>)
        ensures
            same_but_stack(*old(self), *final(self)),
            ({
                let s = old(self).stack.words();
                replaced(
                    s,
                    final(self).stack.words(),
                    r,
                    2,
                    |w: Seq<u8>| if signed_value(top(s, 1)) == 0 {
                        w == zero_word()
                    } else {
                        signed_value(w) == signed_value(top(s, 0)) - signed_value(top(s, 1)) * trunc_div(signed_value(top(s, 0)), signed_value(top(s, 1)))
                    },
                )
            }),
    {
        proof {
            lemma_be_value_zeros(32);
            if self.stack.words().len() >= 2 {
                lemma_take_drop(self.stack.words(), 2);
                lemma_take_drop(self.stack.words().drop_last(), 1);
            }
        }
        let a = self.stack.pop_i256()?;
        let b = self.stack.pop_i256()?;
        if i256_eq(b, i256_zero()) {
            self.stack.push_zero()?;
        } else {
            let c = i256_wrapping_rem(a, b);
            self.stack.push_i256(c)?;
        }
        Ok(Action::Continue)
    }

    /// int256 comparison: a < b
    pub fn opcode_slt(&mut self) -> (r: Result<Action, Error>)
        ensures
            same_but_stack(*old(self), *final(self)),
            ({
                let s = old(self).stack.words();
                replaced(
                    s,
                    final(self).stack.words(),
                    r,
                    2,
                    |w: Seq<u8>| w == bool_word(signed_value(top(s, 0)) < signed_value(top(s, 1))),
                )
            }),
    {
        proof {
            lemma_be_value_zeros(32);
            if self.stack.words().len() >= 2 {
                lemma_take_drop(self.stack.words(), 2);
                lemma_take_drop(self.stack.words().drop_last(), 1);
            }
        }
        let a = self.stack.pop_i256()?;
        let b = self.stack.pop_i256()?;
        self.stack.push_bool(i256_lt(a, b))?;
        Ok(Action::Continue)
    }

    /// int256 comparison: a > b
    pub fn opcode_sgt(&mut self) -> (r: Result<Action, Error>)
        ensures
            same_but_stack(*old(self), *final(self)),
            ({
                let s = old(self).stack.words();
                replaced(
                    s,
                    final(self).stack.words(),
                    r,
                    2,
                    |w: Seq<u8>| w == bool_word(signed_value(top(s, 0)) > signed_value(top(s, 1))),
                )
            }),
    {
        proof {
            lemma_be_value_zeros(32);
            if self.stack.words().len() >= 2 {
                lemma_take_drop(self.stack.words(), 2);
                lemma_take_drop(self.stack.words().drop_last(), 1);
            }
        }
        let a = self.stack.pop_i256()?;
        let b = self.stack.pop_i256()?;
        self.stack.push_bool(i256_lt(b, a))?;
        Ok(Action::Continue)
    }

    /// the `i`-th byte of `x`, counting from the most significant one; zero past the end
    pub fn opcode_byte(&mut self) -> (r: Result<Action, Error>)
        ensures
            same_but_stack(*old(self), *final(self)),
            ({
                let s = old(self).stack.words();
                replaced(
                    s,
                    final(self).stack.words(),
                    r,
                    2,
                    |w: Seq<u8>| w == byte_word(if be_value(top(s, 0)) >= 32 { 0u8 } else { top(s, 1)[be_value(top(s, 0)) as int] }),
                )
            }),
    {
        proof {
            lemma_be_value_zeros(32);
            if self.stack.words().len() >= 2 {
                lemma_take_drop(self.stack.words(), 2);
                lemma_take_drop(self.stack.words().drop_last(), 1);
            }
        }
        let i = self.stack.pop_u256()?;
        let x = self.stack.pop_array()?;
        let result = if !u256_lt(i, u256_new(32)) {
            0u8
        } else {
            let index = u256_as_usize(i);
            proof {
                vstd::arithmetic::div_mod::lemma_small_mod(
                    u256_value(i),
                    (usize::MAX as nat + 1) as nat,
                );
            }
            x[index]
        };
        self.stack.push_byte(result)?;
        Ok(Action::Continue)
    }

    /// 256-bit shift left; zero for a shift of 256 or more
    pub fn opcode_shl(&mut self) -> (r: Result<Action, Error>)
        ensures
            same_but_stack(*old(self), *final(self)),
            ({
                let s = old(self).stack.words();
                replaced(
                    s,
                    final(self).stack.words(),
                    r,
                    2,
                    |w: Seq<u8>| if be_value(top(s, 0)) < 256 { be_value(w) == (be_value(top(s, 1)) * pow2(be_value(top(s, 0)))) % word_modulus() } else { w == zero_word() },
                )
            }),
    {
        proof {
            lemma_be_value_zeros(32);
            if self.stack.words().len() >= 2 {
                lemma_take_drop(self.stack.words(), 2);
                lemma_take_drop(self.stack.words().drop_last(), 1);
            }
        }
        let shift = self.stack.pop_u256()?;
        let value = self.stack.pop_u256()?;
        if u256_lt(shift, u256_new(256)) {
            self.stack.push_u256(u256_shl(value, shift))?;
        } else {
            self.stack.push_zero()?;
        }
        Ok(Action::Continue)
    }

    /// 256-bit shift right; zero for a shift of 256 or more
    pub fn opcode_shr(&mut self) -> (r: Result<Action, Error>)
        ensures
            same_but_stack(*old(self), *final(self)),
            ({
                let s = old(self).stack.words();
                replaced(
                    s,
                    final(self).stack.words(),
                    r,
                    2,
                    |w: Seq<u8>| if be_value(top(s, 0)) < 256 { be_value(w) == be_value(top(s, 1)) / pow2(be_value(top(s, 0))) } else { w == zero_word() },
                )
            }),
    {
        proof {
            lemma_be_value_zeros(32);
            if self.stack.words().len() >= 2 {
                lemma_take_drop(self.stack.words(), 2);
                lemma_take_drop(self.stack.words().drop_last(), 1);
            }
        }
        let shift = self.stack.pop_u256()?;
        let value = self.stack.pop_u256()?;
        if u256_lt(shift, u256_new(256)) {
            self.stack.push_u256(u256_shr(value, shift))?;
        } else {
            self.stack.push_zero()?;
        }
        Ok(Action::Continue)
    }

    /// arithmetic int256 shift right, rounding down; for a shift of 256 or more, zero for a
    /// value that is not negative and all ones (-1) for a negative one
    pub fn opcode_sar(&mut self) -> (r: Result<Action, Error>)
        ensures
            same_but_stack(*old(self), *final(self)),
            ({
                let s = old(self).stack.words();
                replaced(
                    s,
                    final(self).stack.words(),
                    r,
                    2,
                    |w: Seq<u8>| if be_value(top(s, 0)) < 256 { signed_value(w) == signed_value(top(s, 1)) / (pow2(be_value(top(s, 0))) as int) } else if signed_value(top(s, 1)) < 0 { w == Seq::new(32, |i: int| 0xffu8) } else { w == zero_word() },
                )
            }),
    {
        proof {
            lemma_be_value_zeros(32);
            if self.stack.words().len() >= 2 {
                lemma_take_drop(self.stack.words(), 2);
                lemma_take_drop(self.stack.words().drop_last(), 1);
            }
        }
        let shift = self.stack.pop_u256()?;
        let value = self.stack.pop_i256()?;
        if u256_lt(shift, u256_new(256)) {
            self.stack.push_i256(i256_shr(value, shift))?;
        } else if i256_lt(value, i256_zero()) {
            let ones = [0xffu8; 32];
            assert(ones@ =~= Seq::new(32, |i: int| 0xffu8));
            self.stack.push_array(&ones)?;
        } else {
            self.stack.push_zero()?;
        }
        Ok(Action::Continue)
    }

    /// (u)int256 addition modulo `m`: `(a + b) % m`, with no overflow on the way; zero for a
    /// zero modulus
    pub fn opcode_addmod(&mut self) -> (r: Result<Action, Error>)
        ensures
            same_but_stack(*old(self), *final(self)),
            ({
                let s = old(self).stack.words();
                replaced(
                    s,
                    final(self).stack.words(),
                    r,
                    3,
                    |w: Seq<u8>|
                        if be_value(top(s, 2)) == 0 {
                            w == zero_word()
                        } else {
                            be_value(w) == (be_value(top(s, 0)) + be_value(top(s, 1))) % be_value(
                                top(s, 2),
                            )
                        },
                )
            }),
    {
        proof {
            lemma_be_value_zeros(32);
            if self.stack.words().len() >= 3 {
                lemma_take_drop(self.stack.words(), 3);
                lemma_take_drop(self.stack.words().drop_last(), 2);
                lemma_take_drop(self.stack.words().drop_last().drop_last(), 1);
            }
        }
        let a = self.stack.pop_u256()?;
        let b = self.stack.pop_u256()?;
        let m = self.stack.pop_u256()?;
        if u256_eq(m, u256_zero()) {
            self.stack.push_zero()?;
            return Ok(Action::Continue);
        }
        proof {
            lemma_be_value_bound(u256_bytes(m));
        }
        let result = if u256_eq(b, u256_zero()) {
            u256_rem(a, m)
        } else {
            let a1 = u256_rem(a, m);
            let b1 = u256_sub(m, u256_rem(b, m));
            if !u256_lt(a1, b1) {
                let c = u256_sub(a1, b1);
                proof {
                    lemma_addmod_wraps(u256_value(a), u256_value(b), u256_value(m));
                }
                c
            } else {
                let c = u256_wrapping_add(u256_sub(m, b1), a1);
                proof {
                    lemma_addmod_fits(u256_value(a), u256_value(b), u256_value(m));
                    vstd::arithmetic::div_mod::lemma_small_mod(
                        (u256_value(b) % u256_value(m) + u256_value(a) % u256_value(m)) as nat,
                        word_modulus(),
                    );
                }
                c
            }
        };
        self.stack.push_u256(result)?;
        Ok(Action::Continue)
    }

    /// uint256 exponentiation modulo 2**256, by squaring
    #[verifier::loop_isolation(false)]
    pub fn opcode_exp(&mut self) -> (r: Result<Action, Error>)
        ensures
            same_but_stack(*old(self), *final(self)),
            ({
                let s = old(self).stack.words();
                replaced(
                    s,
                    final(self).stack.words(),
                    r,
                    2,
                    |w: Seq<u8>| be_value(w) == pow(be_value(top(s, 0)) as int, be_value(top(s, 1)))
                        % (word_modulus() as int),
                )
            }),
    {
        proof {
            if self.stack.words().len() >= 2 {
                lemma_take_drop(self.stack.words(), 2);
                lemma_take_drop(self.stack.words().drop_last(), 1);
            }
        }
        let mut a = self.stack.pop_u256()?;
        let mut b = self.stack.pop_u256()?;
        let ghost a0 = u256_value(a) as int;
        let ghost b0 = u256_value(b);
        let ghost m = word_modulus() as int;
        let one = u256_new(1);
        let mut result = u256_new(1);
        proof {
            lemma_pow256_pos(32);
            lemma2_to64();
        }
        while u256_lt(one, b)
            invariant
                u256_value(one) == 1,
                m == word_modulus(),
                m > 0,
                u256_value(result) < m,
                (u256_value(result) * pow(u256_value(a) as int, u256_value(b))) % m == (1 * pow(
                    a0,
                    b0,
                )) % m,
            decreases u256_value(b),
        {
            proof {
                lemma_exp_step(u256_value(result) as int, u256_value(a) as int, u256_value(b), m);
                lemma_low_bit(u256_value(b));
                vstd::arithmetic::div_mod::lemma_small_mod(
                    (u256_value(a) * u256_value(a)) % word_modulus(),
                    word_modulus(),
                );
            }
            let low = u256_and_u128(b, 1);
            if u256_eq(low, one) {
                result = u256_wrapping_mul(result, a);
            }
            b = u256_shr_u32(b, 1);
            a = u256_wrapping_mul(a, a);
        }
        if u256_eq(b, one) {
            proof {
                lemma_pow1(u256_value(a) as int);
            }
            result = u256_wrapping_mul(result, a);
        } else {
            proof {
                lemma_pow0(u256_value(a) as int);
            }
        }
        proof {
            vstd::arithmetic::div_mod::lemma_small_mod(u256_value(result), word_modulus());
        }
        self.stack.push_u256(result)?;
        Ok(Action::Continue)
    }

    /// (u)int256 multiplication modulo `m`: `(a * b) % m`, by doubling, with no overflow on the
    /// way; zero for a zero modulus
    #[verifier::loop_isolation(false)]
    pub fn opcode_mulmod(&mut self) -> (r: Result<Action, Error>)
        ensures
            same_but_stack(*old(self), *final(self)),
            ({
                let s = old(self).stack.words();
                replaced(
                    s,
                    final(self).stack.words(),
                    r,
                    3,
                    |w: Seq<u8>|
                        if be_value(top(s, 2)) == 0 {
                            w == zero_word()
                        } else {
                            be_value(w) == (be_value(top(s, 0)) * be_value(top(s, 1))) % be_value(
                                top(s, 2),
                            )
                        },
                )
            }),
    {
        proof {
            lemma_be_value_zeros(32);
            if self.stack.words().len() >= 3 {
                lemma_take_drop(self.stack.words(), 3);
                lemma_take_drop(self.stack.words().drop_last(), 2);
                lemma_take_drop(self.stack.words().drop_last().drop_last(), 1);
            }
        }
        let mut a = self.stack.pop_u256()?;
        let mut b = self.stack.pop_u256()?;
        let m = self.stack.pop_u256()?;
        let zero = u256_zero();
        if u256_eq(m, zero) {
            self.stack.push_zero()?;
            return Ok(Action::Continue);
        }
        let ghost a0 = u256_value(a);
        let ghost b0 = u256_value(b);
        let ghost mv = u256_value(m) as int;
        proof {
            lemma_be_value_bound(u256_bytes(m));
            lemma_pow256_pos(32);
            lemma_mul_is_commutative(a0 as int, b0 as int);
        }
        if u256_lt(b, a) {
            let t = a;
            a = b;
            b = t;
        }
        if !u256_lt(b, m) {
            proof {
                lemma_mul_mod_noop_right(u256_value(a) as int, u256_value(b) as int, mv);
            }
            b = u256_rem(b, m);
        }
        proof {
            vstd::arithmetic::div_mod::lemma_mod_bound(u256_value(b) as int, mv);
            vstd::arithmetic::div_mod::lemma_small_mod(u256_value(b), u256_value(m));
        }
        let mut result = zero;
        while !u256_eq(a, zero)
            invariant
                u256_value(zero) == 0,
                mv == u256_value(m),
                0 < mv < word_modulus(),
                u256_value(b) < mv,
                u256_value(result) < mv,
                (u256_value(result) + u256_value(a) * u256_value(b)) as int % mv == (a0 * b0)
                    as int % mv,
            decreases u256_value(a),
        {
            proof {
                lemma_mulmod_step(
                    u256_value(result) as int,
                    u256_value(a) as int,
                    u256_value(b) as int,
                    mv,
                );
                lemma_low_bit(u256_value(a));
                lemma2_to64();
                lemma_add_below(
                    u256_value(result) as int,
                    u256_value(b) as int,
                    mv,
                    word_modulus() as int,
                );
                lemma_add_below(
                    u256_value(b) as int,
                    u256_value(b) as int,
                    mv,
                    word_modulus() as int,
                );
                vstd::arithmetic::div_mod::lemma_mod_bound(
                    (u256_value(result) + u256_value(b)) as int,
                    mv,
                );
                vstd::arithmetic::div_mod::lemma_mod_bound((2 * u256_value(b)) as int, mv);
            }
            if !u256_eq(u256_and_u128(a, 1), zero) {
                if !u256_lt(b, u256_wrapping_sub(m, result)) {
                    result = u256_wrapping_sub(result, m);
                }
                result = u256_wrapping_add(result, b);
            }
            a = u256_shr_u32(a, 1);
            let mut temp_b = b;
            if !u256_lt(b, u256_wrapping_sub(m, b)) {
                temp_b = u256_wrapping_sub(temp_b, m);
            }
            b = u256_wrapping_add(b, temp_b);
        }
        proof {
            vstd::arithmetic::div_mod::lemma_small_mod(u256_value(result), u256_value(m));
            assert(u256_value(a) == 0);
            vstd::arithmetic::mul::lemma_mul_basics(u256_value(b) as int);
            assert(u256_value(result) == (a0 * b0) % u256_value(m));
        }
        self.stack.push_u256(result)?;
        Ok(Action::Continue)
    }

    /// hash = keccak256(memory[offset:offset+length])
    pub fn opcode_sha3(&mut self) -> (r: Result<Action, Error>)
        ensures
            same_but_stack_and_memory(*old(self), *final(self)),
            ({
                let (o1, s1) = usize_popped(old(self).stack.words());
                match o1 {
                    Err(e) => r == Err::<Action, Error>(e) && final(self).stack.words() == s1
                        && final(self).memory == old(self).memory,
                    Ok(offset) => {
                        let (o2, s2) = usize_popped(s1);
                        match o2 {
                            Err(e) => r == Err::<Action, Error>(e) && final(self).stack.words()
                                == s2 && final(self).memory == old(self).memory,
                            Ok(length) => if length == 0 {
                                &&& final(self).memory == old(self).memory
                                &&& pushed_then(
                                    s2,
                                    final(self).stack.words(),
                                    r,
                                    keccak256_digest(Seq::empty()),
                                    Action::Continue,
                                )
                            } else {
                                let (res, bytes, size) = access(
                                    old(self).memory.bytes(),
                                    old(self).memory.spec_size(),
                                    offset as int,
                                    length as int,
                                );
                                &&& final(self).memory.bytes() == bytes
                                &&& final(self).memory.spec_size() == size
                                &&& match res {
                                    Err(e) => r == Err::<Action, Error>(e)
                                        && final(self).stack.words() == s2,
                                    Ok(_) => pushed_then(
                                        s2,
                                        final(self).stack.words(),
                                        r,
                                        keccak256_digest(
                                            bytes.subrange(offset as int, offset + length),
                                        ),
                                        Action::Continue,
                                    ),
                                }
                            },
                        }
                    },
                }
            }),
    {
        let offset = self.stack.pop_usize()?;
        let length = self.stack.pop_usize()?;
        let data = self.memory.read(offset, length)?;
        proof {
            if length == 0 {
                assert(data@ =~= Seq::<u8>::empty());
            }
        }
        let hash = keccak_hash(data);
        self.stack.push_array(&hash)?;
        Ok(Action::Continue)
    }

    /// reads a word from memory
    pub fn opcode_mload(&mut self) -> (r: Result<Action, Error>)
        ensures
            same_but_stack_and_memory(*old(self), *final(self)),
            ({
                let (o, s1) = usize_popped(old(self).stack.words());
                match o {
                    Err(e) => r == Err::<Action, Error>(e) && final(self).stack.words() == s1
                        && final(self).memory == old(self).memory,
                    Ok(offset) => {
                        let (res, bytes, size) = access(
                            old(self).memory.bytes(),
                            old(self).memory.spec_size(),
                            offset as int,
                            32,
                        );
                        &&& final(self).memory.bytes() == bytes
                        &&& final(self).memory.spec_size() == size
                        &&& match res {
                            Err(e) => r == Err::<Action, Error>(e) && final(self).stack.words()
                                == s1,
                            Ok(_) => pushed_then(
                                s1,
                                final(self).stack.words(),
                                r,
                                bytes.subrange(offset as int, offset + 32),
                                Action::Continue,
                            ),
                        }
                    },
                }
            }),
    {
        let offset = self.stack.pop_usize()?;
        let value = self.memory.read_32(offset)?;
        self.stack.push_array(&value)?;
        Ok(Action::Continue)
    }

    /// writes a word to memory
    pub fn opcode_mstore(&mut self) -> (r: Result<Action, Error>)
        ensures
            same_but_stack_and_memory(*old(self), *final(self)),
            ({
                let (o, s1) = usize_popped(old(self).stack.words());
                match o {
                    Err(e) => r == Err::<Action, Error>(e) && final(self).stack.words() == s1
                        && final(self).memory == old(self).memory,
                    Ok(offset) => if s1.len() == 0 {
                        r == Err::<Action, Error>(Error::StackUnderflow) && final(self).stack.words()
                            == s1 && final(self).memory == old(self).memory
                    } else {
                        let (res, bytes, size) = stored(
                            old(self).memory.bytes(),
                            old(self).memory.spec_size(),
                            offset as int,
                            s1.last()@,
                        );
                        &&& final(self).stack.words() == s1.drop_last()
                        &&& final(self).memory.bytes() == bytes
                        &&& final(self).memory.spec_size() == size
                        &&& r == then_continue(res)
                    },
                }
            }),
    {
        let offset = self.stack.pop_usize()?;
        let value = self.stack.pop_array()?;
        self.memory.write_32(offset, &value)?;
        Ok(Action::Continue)
    }

    /// writes the last byte of a word to memory
    pub fn opcode_mstore8(&mut self) -> (r: Result<Action, Error>)
        ensures
            same_but_stack_and_memory(*old(self), *final(self)),
            ({
                let (o, s1) = usize_popped(old(self).stack.words());
                match o {
                    Err(e) => r == Err::<Action, Error>(e) && final(self).stack.words() == s1
                        && final(self).memory == old(self).memory,
                    Ok(offset) => if s1.len() == 0 {
                        r == Err::<Action, Error>(Error::StackUnderflow) && final(self).stack.words()
                            == s1 && final(self).memory == old(self).memory
                    } else {
                        let (res, bytes, size) = stored(
                            old(self).memory.bytes(),
                            old(self).memory.spec_size(),
                            offset as int,
                            seq![s1.last()@[31]],
                        );
                        &&& final(self).stack.words() == s1.drop_last()
                        &&& final(self).memory.bytes() == bytes
                        &&& final(self).memory.spec_size() == size
                        &&& r == then_continue(res)
                    },
                }
            }),
    {
        let offset = self.stack.pop_usize()?;
        let value = self.stack.pop_array()?;
        self.memory.write_byte(offset, value[31])?;
        Ok(Action::Continue)
    }

    /// unconditional jump, to a `JUMPDEST` only
    pub fn opcode_jump(&mut self) -> (r: Result<Action, Error>)
        requires
            old(self).execution_code.spec_is_initialized(),
        ensures
            same_but_stack(*old(self), *final(self)),
            ({
                let (o, s1) = usize_popped(old(self).stack.words());
                &&& final(self).stack.words() == s1
                &&& r == match o {
                    Err(e) => Err(e),
                    Ok(target) => jump_target(
                        old(self).execution_code.bytes(),
                        old(self).context.contract,
                        target,
                    ),
                }
            }),
    {
        let value = self.stack.pop_usize()?;
        let code = self.execution_code.as_slice();
        if value < code.len() && code[value] == JUMPDEST {
            Ok(Action::Jump(value))
        } else {
            Err(Error::InvalidJump(self.context.contract, value))
        }
    }

    /// conditional jump, to a `JUMPDEST` only, where the condition is not zero
    pub fn opcode_jumpi(&mut self) -> (r: Result<Action, Error>)
        requires
            old(self).execution_code.spec_is_initialized(),
        ensures
            same_but_stack(*old(self), *final(self)),
            ({
                let (o, s1) = usize_popped(old(self).stack.words());
                match o {
                    Err(e) => r == Err::<Action, Error>(e) && final(self).stack.words() == s1,
                    Ok(target) => if s1.len() == 0 {
                        r == Err::<Action, Error>(Error::StackUnderflow) && final(self).stack.words()
                            == s1
                    } else {
                        &&& final(self).stack.words() == s1.drop_last()
                        &&& r == if s1.last()@ == zero_word() {
                            Ok(Action::Continue)
                        } else {
                            jump_target(
                                old(self).execution_code.bytes(),
                                old(self).context.contract,
                                target,
                            )
                        }
                    },
                }
            }),
    {
        let value = self.stack.pop_usize()?;
        let condition = self.stack.pop_array()?;
        if is_zero_word(&condition) {
            return Ok(Action::Continue);
        }
        let code = self.execution_code.as_slice();
        if value < code.len() && code[value] == JUMPDEST {
            Ok(Action::Jump(value))
        } else {
            Err(Error::InvalidJump(self.context.contract, value))
        }
    }

    /// places the 1-byte item that follows the instruction on the stack
    pub fn opcode_push_1(&mut self) -> (r: Result<Action, Error>)
        requires
            old(self).execution_code.spec_is_initialized(),
            old(self).pc + 2 <= usize::MAX,
        ensures
            same_but_stack(*old(self), *final(self)),
            ({
                let code = old(self).execution_code.bytes();
                let pc = old(self).pc;
                if code.len() <= pc + 1 {
                    r == Err::<Action, Error>(Error::PushOutOfBounds(old(self).context.contract))
                        && final(self).stack.words() == old(self).stack.words()
                } else {
                    pushed_then(
                        old(self).stack.words(),
                        final(self).stack.words(),
                        r,
                        byte_word(code[pc + 1]),
                        Action::Jump((pc + 2) as usize),
                    )
                }
            }),
    {
        let code = self.execution_code.as_slice();
        if code.len() <= self.pc + 1 {
            return Err(Error::PushOutOfBounds(self.context.contract));
        }
        let value = code[self.pc + 1];
        self.stack.push_byte(value)?;
        Ok(Action::Jump(self.pc + 1 + 1))
    }

    /// places the `N`-byte item that follows the instruction on the stack
    pub fn opcode_push_2_31<const N: usize>(&mut self) -> (r: Result<Action, Error>)
        requires
            N <= 32,
            old(self).execution_code.spec_is_initialized(),
            old(self).pc + 1 + N <= usize::MAX,
        ensures
            same_but_stack(*old(self), *final(self)),
            ({
                let code = old(self).execution_code.bytes();
                let pc = old(self).pc;
                if code.len() < pc + 1 + N {
                    r == Err::<Action, Error>(Error::PushOutOfBounds(old(self).context.contract))
                        && final(self).stack.words() == old(self).stack.words()
                } else {
                    pushed_then(
                        old(self).stack.words(),
                        final(self).stack.words(),
                        r,
                        padded_word(code.subrange(pc + 1, pc + 1 + N)),
                        Action::Jump((pc + 1 + N) as usize),
                    )
                }
            }),
    {
        let code = self.execution_code.as_slice();
        if code.len() < self.pc + 1 + N {
            return Err(Error::PushOutOfBounds(self.context.contract));
        }
        let start = self.pc + 1;
        let mut value = [0u8; N];
        let mut i: usize = 0;
        while i < N
            invariant
                i <= N,
                start + N <= code@.len(),
                code@.len() <= usize::MAX,
                value@.len() == N,
                forall|j: int| 0 <= j < i ==> value@[j] == code@[start + j],
            decreases N - i,
        {
            value[i] = code[start + i];
            i += 1;
        }
        assert(value@ =~= code@.subrange(start as int, start + N));
        self.stack.push_array_2_31::<N>(&value)?;
        Ok(Action::Jump(self.pc + 1 + N))
    }

    /// places the 32-byte item that follows the instruction on the stack
    pub fn opcode_push_32(&mut self) -> (r: Result<Action, Error>)
        requires
            old(self).execution_code.spec_is_initialized(),
            old(self).pc + 33 <= usize::MAX,
        ensures
            same_but_stack(*old(self), *final(self)),
            ({
                let code = old(self).execution_code.bytes();
                let pc = old(self).pc;
                if code.len() < pc + 33 {
                    r == Err::<Action, Error>(Error::PushOutOfBounds(old(self).context.contract))
                        && final(self).stack.words() == old(self).stack.words()
                } else {
                    pushed_then(
                        old(self).stack.words(),
                        final(self).stack.words(),
                        r,
                        code.subrange(pc + 1, pc + 33),
                        Action::Jump((pc + 33) as usize),
                    )
                }
            }),
    {
        let code = self.execution_code.as_slice();
        if code.len() < self.pc + 1 + 32 {
            return Err(Error::PushOutOfBounds(self.context.contract));
        }
        let start = self.pc + 1;
        let mut value = [0u8; 32];
        let mut i: usize = 0;
        while i < 32
            invariant
                i <= 32,
                start + 32 <= code@.len(),
                code@.len() <= usize::MAX,
                forall|j: int| 0 <= j < i ==> value@[j] == code@[start + j],
            decreases 32 - i,
        {
            value[i] = code[start + i];
            i += 1;
        }
        assert(value@ =~= code@.subrange(start as int, start + 32));
        self.stack.push_array(&value)?;
        Ok(Action::Jump(self.pc + 1 + 32))
    }

    /// reads a word of the message data, zero past its end
    pub fn opcode_calldataload(&mut self) -> (r: Result<Action, Error>)
        requires
            old(self).call_data.spec_is_initialized(),
            usize_popped(old(self).stack.words()).0 matches Ok(i) ==> i + 32 <= usize::MAX,
        ensures
            same_but_stack(*old(self), *final(self)),
            ({
                let (o, s1) = usize_popped(old(self).stack.words());
                match o {
                    Err(e) => r == Err::<Action, Error>(e) && final(self).stack.words() == s1,
                    Ok(index) => pushed_then(
                        s1,
                        final(self).stack.words(),
                        r,
                        padded(old(self).call_data.bytes(), index as int, 32),
                        Action::Continue,
                    ),
                }
            }),
    {
        let index = self.stack.pop_usize()?;
        let data = self.call_data.as_slice();
        let mut buffer = [0u8; 32];
        let mut i: usize = 0;
        while i < 32
            invariant
                i <= 32,
                index + 32 <= usize::MAX,
                forall|j: int| 0 <= j < i ==> buffer@[j] == byte_or_zero(data@, index + j),
                forall|j: int| i <= j < 32 ==> buffer@[j] == 0,
            decreases 32 - i,
        {
            if index + i < data.len() {
                buffer[i] = data[index + i];
            }
            i += 1;
        }
        assert(buffer@ =~= padded(data@, index as int, 32));
        self.stack.push_array(&buffer)?;
        Ok(Action::Continue)
    }

    /// copies message data to memory, zero past its end
    pub fn opcode_calldatacopy(&mut self) -> (r: Result<Action, Error>)
        requires
            old(self).call_data.spec_is_initialized(),
        ensures
            same_but_stack_and_memory(*old(self), *final(self)),
            ({
                let (o, s3) = usizes3_popped(old(self).stack.words());
                &&& final(self).stack.words() == s3
                &&& match o {
                    Err(e) => r == Err::<Action, Error>(e) && final(self).memory == old(
                        self,
                    ).memory,
                    Ok((memory_offset, data_offset, length)) => {
                        let (res, bytes, size) = stored(
                            old(self).memory.bytes(),
                            old(self).memory.spec_size(),
                            memory_offset as int,
                            padded(old(self).call_data.bytes(), data_offset as int, length as int),
                        );
                        &&& final(self).memory.bytes() == bytes
                        &&& final(self).memory.spec_size() == size
                        &&& r == then_continue(res)
                    },
                }
            }),
    {
        let memory_offset = self.stack.pop_usize()?;
        let data_offset = self.stack.pop_usize()?;
        let length = self.stack.pop_usize()?;
        self.memory.write_buffer(memory_offset, length, self.call_data.as_slice(), data_offset)?;
        Ok(Action::Continue)
    }

    /// copies the executing contract's code to memory, zero past its end
    pub fn opcode_codecopy(&mut self) -> (r: Result<Action, Error>)
        requires
            old(self).execution_code.spec_is_initialized(),
        ensures
            same_but_stack_and_memory(*old(self), *final(self)),
            ({
                let (o, s3) = usizes3_popped(old(self).stack.words());
                &&& final(self).stack.words() == s3
                &&& match o {
                    Err(e) => r == Err::<Action, Error>(e) && final(self).memory == old(
                        self,
                    ).memory,
                    Ok((memory_offset, data_offset, length)) => {
                        let (res, bytes, size) = stored(
                            old(self).memory.bytes(),
                            old(self).memory.spec_size(),
                            memory_offset as int,
                            padded(
                                old(self).execution_code.bytes(),
                                data_offset as int,
                                length as int,
                            ),
                        );
                        &&& final(self).memory.bytes() == bytes
                        &&& final(self).memory.spec_size() == size
                        &&& r == then_continue(res)
                    },
                }
            }),
    {
        let memory_offset = self.stack.pop_usize()?;
        let data_offset = self.stack.pop_usize()?;
        let length = self.stack.pop_usize()?;
        self.memory.write_buffer(
            memory_offset,
            length,
            self.execution_code.as_slice(),
            data_offset,
        )?;
        Ok(Action::Continue)
    }

    /// copies the data returned by the last call to memory; it may not read past its end
    pub fn opcode_returndatacopy(&mut self) -> (r: Result<Action, Error>)
        requires
            old(self).return_data.spec_is_initialized(),
        ensures
            same_but_stack_and_memory(*old(self), *final(self)),
            ({
                let (o, s3) = usizes3_popped(old(self).stack.words());
                &&& final(self).stack.words() == s3
                &&& match o {
                    Err(e) => r == Err::<Action, Error>(e) && final(self).memory == old(
                        self,
                    ).memory,
                    Ok((memory_offset, data_offset, length)) => if (if data_offset + length
                        > usize::MAX {
                        usize::MAX as int
                    } else {
                        data_offset + length
                    }) > old(self).return_data.bytes().len() {
                        r == Err::<Action, Error>(
                            Error::ReturnDataCopyOverflow(data_offset, length),
                        ) && final(self).memory == old(self).memory
                    } else {
                        let (res, bytes, size) = stored(
                            old(self).memory.bytes(),
                            old(self).memory.spec_size(),
                            memory_offset as int,
                            padded(
                                old(self).return_data.bytes(),
                                data_offset as int,
                                length as int,
                            ),
                        );
                        &&& final(self).memory.bytes() == bytes
                        &&& final(self).memory.spec_size() == size
                        &&& r == then_continue(res)
                    },
                }
            }),
    {
        let memory_offset = self.stack.pop_usize()?;
        let data_offset = self.stack.pop_usize()?;
        let length = self.stack.pop_usize()?;
        if data_offset.saturating_add(length) > self.return_data.len() {
            return Err(Error::ReturnDataCopyOverflow(data_offset, length));
        }
        self.memory.write_buffer(memory_offset, length, self.return_data.as_slice(), data_offset)?;
        Ok(Action::Continue)
    }

    /// the designated invalid instruction
    pub fn opcode_invalid(&mut self) -> (r: Result<Action, Error>)
        requires
            old(self).execution_code.spec_is_initialized(),
            old(self).pc < old(self).execution_code.bytes().len(),
        ensures
            *final(self) == *old(self),
            r == Err::<Action, Error>(
                Error::InvalidOpcode(
                    old(self).context.contract,
                    old(self).execution_code.bytes()[old(self).pc as int],
                ),
            ),
    {
        Err(Error::InvalidOpcode(self.context.contract, self.execution_code.as_slice()[self.pc]))
    }

    /// an instruction that is not defined
    pub fn opcode_unknown(&mut self) -> (r: Result<Action, Error>)
        requires
            old(self).execution_code.spec_is_initialized(),
            old(self).pc < old(self).execution_code.bytes().len(),
        ensures
            *final(self) == *old(self),
            r == Err::<Action, Error>(
                Error::UnknownOpcode(
                    old(self).context.contract,
                    old(self).execution_code.bytes()[old(self).pc as int],
                ),
            ),
    {
        Err(Error::UnknownOpcode(self.context.contract, self.execution_code.as_slice()[self.pc]))
    }

    /// What the interpreter does with `action`, the answer of an instruction: move the
    /// program counter on, or end the execution with a status.
    pub fn advance(&mut self, action: Action) -> (r: Option<ExitStatus>)
        requires
            action is Continue ==> old(self).pc < usize::MAX,
        ensures
            same_but_pc(*old(self), *final(self)),
            match action {
                Action::Continue => r is None && final(self).pc == old(self).pc + 1,
                Action::Jump(target) => r is None && final(self).pc == target,
                Action::Noop => r is None && final(self).pc == old(self).pc,
                Action::Stop => r == Some(ExitStatus::Stop) && final(self).pc == old(self).pc,
                Action::Return(v) => r == Some(ExitStatus::Return(v)) && final(self).pc == old(
                    self,
                ).pc,
                Action::Revert(v) => r == Some(ExitStatus::Revert(v)) && final(self).pc == old(
                    self,
                ).pc,
                Action::Suicide => r == Some(ExitStatus::Suicide) && final(self).pc == old(
                    self,
                ).pc,
            },
    {
        match action {
            Action::Continue => {
                self.pc += 1;
                None
            },
            Action::Jump(target) => {
                self.pc = target;
                None
            },
            Action::Stop => Some(ExitStatus::Stop),
            Action::Return(value) => Some(ExitStatus::Return(value)),
            Action::Revert(value) => Some(ExitStatus::Revert(value)),
            Action::Suicide => Some(ExitStatus::Suicide),
            Action::Noop => None,
        }
    }

    /// sign-extends `x` from `(b + 1) * 8` bits to 256 bits
    pub fn opcode_signextend(&mut self) -> (r: Result<Action, Error>)
        ensures
            same_but_stack(*old(self), *final(self)),
            ({
                let s = old(self).stack.words();
                replaced(
                    s,
                    final(self).stack.words(),
                    r,
                    2,
                    |w: Seq<u8>|
                        w == if be_value(top(s, 0)) < 32 {
                            sign_extended(top(s, 1), be_value(top(s, 0)) as int)
                        } else {
                            top(s, 1)
                        },
                )
            }),
    {
        proof {
            lemma_be_value_zeros(32);
            if self.stack.words().len() >= 2 {
                lemma_take_drop(self.stack.words(), 2);
                lemma_take_drop(self.stack.words().drop_last(), 1);
            }
        }
        let b = self.stack.pop_u256()?;
        let x = self.stack.pop_u256()?;
        let result = if u256_lt(b, u256_new(32)) {
            let ghost bv = u256_value(b);
            let ghost xs = u256_bytes(x);
            proof {
                lemma2_to64();
                lemma_pow2_adds(64, 64);
                vstd::arithmetic::div_mod::lemma_small_mod(bv, pow2(128));
                lemma_mask_words(bv);
            }
            let low = u256_low(b);
            let bit_index = (8 * low + 7) as usize;
            let one = u256_new(1);
            let single = u256_shl_usize(one, bit_index);
            proof {
                vstd::arithmetic::div_mod::lemma_small_mod(pow2(8 * bv + 7), word_modulus());
                lemma_be_value_injective(u256_bytes(single), top_bit_word(bv as int));
            }
            let masked = u256_and(x, single);
            let bit = !u256_eq(masked, u256_zero());
            let ghost p = 31 - bv;
            proof {
                assert forall|i: int| 0 <= i < 32 && i != p implies u256_bytes(masked)[i] == 0u8 by {
                    let v = xs[i];
                    assert(v & 0u8 == 0u8) by (bit_vector);
                }
                let v = xs[p];
                assert(v & 0x80u8 == 0u8 <==> v < 128) by (bit_vector);
                assert(u256_bytes(masked)[p] == v & 0x80u8);
                if bit {
                    if xs[p] < 128 {
                        assert(u256_bytes(masked) =~= Seq::new(32, |i: int| 0u8));
                    }
                } else {
                    lemma_be_value_zero_bytes(u256_bytes(masked));
                    assert(u256_bytes(masked)[p] == 0u8);
                }
                assert(bit == (xs[p] >= 128));
            }
            let mask = u256_sub(single, one);
            proof {
                lemma_be_value_injective(u256_bytes(mask), low_mask_word(bv as int));
            }
            if bit {
                let extended = u256_or(x, u256_not(mask));
                proof {
                    assert forall|i: int| 0 <= i < 32 implies u256_bytes(extended)[i]
                        == sign_extended(xs, bv as int)[i] by {
                        let v = xs[i];
                        assert(v | !0u8 == 0xffu8) by (bit_vector);
                        assert(v >= 128 ==> v | !0x7fu8 == v) by (bit_vector);
                        assert(v | !0xffu8 == v) by (bit_vector);
                    }
                    assert(u256_bytes(extended) =~= sign_extended(xs, bv as int));
                }
                extended
            } else {
                let cleared = u256_and(x, mask);
                proof {
                    assert forall|i: int| 0 <= i < 32 implies u256_bytes(cleared)[i]
                        == sign_extended(xs, bv as int)[i] by {
                        let v = xs[i];
                        assert(v & 0u8 == 0u8) by (bit_vector);
                        assert(v < 128 ==> v & 0x7fu8 == v) by (bit_vector);
                        assert(v & 0xffu8 == v) by (bit_vector);
                    }
                    assert(u256_bytes(cleared) =~= sign_extended(xs, bv as int));
                }
                cleared
            }
        } else {
            x
        };
        self.stack.push_u256(result)?;
        Ok(Action::Continue)
    }

    /// pops a word off the stack and discards it
    pub fn opcode_pop(&mut self) -> (r: Result<Action, Error>)
        ensures
            same_but_stack(*old(self), *final(self)),
            old(self).stack.words().len() == 0 ==> r == Err::<Action, Error>(Error::StackUnderflow)
                && final(self).stack.words() == old(self).stack.words(),
            old(self).stack.words().len() > 0 ==> r == Ok::<Action, Error>(Action::Continue)
                && final(self).stack.words() == old(self).stack.words().drop_last(),
    {
        self.stack.discard()?;
        Ok(Action::Continue)
    }

    /// metadata to annotate possible jump destinations
    pub fn opcode_jumpdest(&mut self) -> (r: Result<Action, Error>)
        ensures
            *final(self) == *old(self),
            r == Ok::<Action, Error>(Action::Continue),
    {
        Ok(Action::Continue)
    }

    /// duplicates the `N`-th word from the top
    pub fn opcode_dup_1_16<const N: usize>(&mut self) -> (r: Result<Action, Error>)
        requires
            1 <= N <= 16,
        ensures
            same_but_stack(*old(self), *final(self)),
            ({
                let s = old(self).stack.words();
                if s.len() < N {
                    r == Err::<Action, Error>(Error::StackUnderflow) && final(self).stack.words() == s
                } else {
                    replaced(s, final(self).stack.words(), r, 0, |w: Seq<u8>| w == top(s, N - 1))
                }
            }),
    {
        proof {
            assert(self.stack.words().take(self.stack.words().len() as int) =~= self.stack.words());
        }
        self.stack.dup_1_16::<N>()?;
        Ok(Action::Continue)
    }

    /// exchanges the top word and the one `N` places below it
    pub fn opcode_swap_1_16<const N: usize>(&mut self) -> (r: Result<Action, Error>)
        requires
            1 <= N <= 16,
        ensures
            same_but_stack(*old(self), *final(self)),
            old(self).stack.words().len() < N + 1 ==> r == Err::<Action, Error>(
                Error::StackUnderflow,
            ) && final(self).stack.words() == old(self).stack.words(),
            old(self).stack.words().len() >= N + 1 ==> r == Ok::<Action, Error>(Action::Continue)
                && final(self).stack.words() == swapped(old(self).stack.words(), N as int),
    {
        self.stack.swap_1_16::<N>()?;
        Ok(Action::Continue)
    }
}

/// Whether all 32 bytes of `a` are zero.
fn is_zero_word(a: &[u8; 32]) -> (r: bool)
    ensures
        r == (a@ == zero_word()),
{
    let mut i: usize = 0;
    while i < 32
        invariant
            i <= 32,
            forall|j: int| 0 <= j < i ==> a@[j] == 0,
        decreases 32 - i,
    {
        if a[i] != 0 {
            assert(a@[i as int] != zero_word()[i as int]);
            return false;
        }
        i += 1;
    }
    assert(a@ =~= zero_word());
    true
}

} // verus!
