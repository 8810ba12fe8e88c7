use vstd::prelude::*;

use crate::solana::{
    alt_bn128_add, alt_bn128_mul, alt_bn128_pair, bn128_pairing, bn128_product, bn128_sum,
    big_mod_exp_call, keccak256_digest, keccak_hash, mod_exp, secp256k1_recover,
    secp256k1_recovered, sha256_digest, sha256_hash,
};
use crate::types::{be_value, Address};
use crate::uint::{u256_as_usize, u256_from_be_bytes, u256_lt, u256_new, u256_to_usize};
use crate::utils::word_at;

verus! {

/// The addresses of the precompiled contracts: `0x00..01` to `0x00..09`.
pub open spec fn is_precompile(address: Address) -> bool {
    &&& address.0@.take(19) == Seq::new(19, |i: int| 0u8)
    &&& 1 <= address.0@[19] <= 9
}

/// Whether `address` is that of a precompiled contract.
pub fn is_precompile_address(address: &Address) -> (r: bool)
    ensures
        r == is_precompile(*address),
{
    let a = &address.0;
    let mut i: usize = 0;
    while i < 19
        invariant
            i <= 19,
            *a == address.0,
            forall|j: int| 0 <= j < i ==> a@[j] == 0,
        decreases 19 - i,
    {
        if a[i] != 0 {
            assert(address.0@.take(19)[i as int] != 0u8);
            return false;
        }
        i += 1;
    }
    assert(address.0@.take(19) =~= Seq::new(19, |i: int| 0u8));
    1 <= a[19] && a[19] <= 9
}

/// The first `n` bytes of `input`, zero past its end.
pub open spec fn zero_padded(input: Seq<u8>, n: nat) -> Seq<u8> {
    Seq::new(n, |i: int| if i < input.len() { input[i] } else { 0u8 })
}

/// What `ecrecover` reads from its input, zero-padded to 128 bytes: the message hash, the
/// recovery id `v - 27` and the signature, where the word `v` is 27 to 30.
pub open spec fn ecrecover_fields(input: Seq<u8>) -> Option<(Seq<u8>, u8, Seq<u8>)> {
    let data = zero_padded(input, 128);
    let v = be_value(data.subrange(32, 64));
    if 27 <= v <= 30 {
        Some((data.subrange(0, 32), (v - 27) as u8, data.subrange(64, 128)))
    } else {
        None
    }
}

/// The address of a public key whose Keccak-256 digest is `hash`: 12 zero bytes, then the
/// last 20 bytes of the digest.
pub open spec fn key_address(hash: Seq<u8>) -> Seq<u8> {
    Seq::new(12, |i: int| 0u8) + hash.subrange(12, 32)
}

/// What `ecrecover` answers for `input`: the address that signed, or no bytes.
pub open spec fn ecrecover_result(input: Seq<u8>) -> Seq<u8> {
    match ecrecover_fields(input) {
        None => Seq::empty(),
        Some((msg, id, sig)) => match secp256k1_recovered(msg, id, sig) {
            None => Seq::empty(),
            Some(key) => key_address(keccak256_digest(key)),
        },
    }
}

/// The byte of `input` at `i`, zero past its end.
fn padded_byte(input: &[u8], i: usize) -> (b: u8)
    ensures
        b == (if i < input@.len() { input@[i as int] } else { 0u8 }),
{
    if i < input.len() {
        input[i]
    } else {
        0
    }
}

/// Splits the input of `ecrecover` into the message hash, the recovery id and the signature;
/// `None` where `v` is not 27 to 30.
pub fn ecrecover_input(input: &[u8]) -> (r: Option<([u8; 32], u8, [u8; 64])>)
    ensures
        match ecrecover_fields(input@) {
            None => r is None,
            Some((msg, id, sig)) => r matches Some((m, i, s)) && m@ == msg && i == id && s@
                == sig,
        },
{
    let ghost data = zero_padded(input@, 128);
    let mut msg = [0u8; 32];
    let mut v = [0u8; 32];
    let mut sig = [0u8; 64];
    let mut i: usize = 0;
    while i < 32
        invariant
            i <= 32,
            data == zero_padded(input@, 128),
            forall|j: int| 0 <= j < i ==> msg@[j] == data[j] && v@[j] == data[32 + j],
        decreases 32 - i,
    {
        msg[i] = padded_byte(input, i);
        v[i] = padded_byte(input, 32 + i);
        i += 1;
    }
    let mut k: usize = 0;
    while k < 64
        invariant
            k <= 64,
            data == zero_padded(input@, 128),
            forall|j: int| 0 <= j < k ==> sig@[j] == data[64 + j],
        decreases 64 - k,
    {
        sig[k] = padded_byte(input, 64 + k);
        k += 1;
    }
    assert(msg@ =~= data.subrange(0, 32));
    assert(v@ =~= data.subrange(32, 64));
    assert(sig@ =~= data.subrange(64, 128));
    let value = u256_from_be_bytes(v);
    if u256_lt(value, u256_new(27)) || u256_lt(u256_new(30), value) {
        return None;
    }
    let small = u256_as_usize(value);
    proof {
        vstd::arithmetic::div_mod::lemma_small_mod(be_value(v@), usize::MAX as nat + 1);
    }
    Some((msg, (small - 27) as u8, sig))
}

/// The address of a public key whose Keccak-256 digest is `hash`: its last 20 bytes, after
/// 12 zero bytes.
pub fn address_of_key_hash(hash: [u8; 32]) -> (r: Vec<u8>)
    ensures
        r@ == key_address(hash@),
{
    let mut address = hash;
    let mut i: usize = 0;
    while i < 12
        invariant
            i <= 12,
            forall|j: int| 0 <= j < i ==> address@[j] == 0u8,
            forall|j: int| i <= j < 32 ==> address@[j] == hash@[j],
        decreases 12 - i,
    {
        address[i] = 0;
        i += 1;
    }
    assert(address@ =~= key_address(hash@));
    vstd::slice::slice_to_vec(address.as_slice())
}

/// `ecrecover`: the address whose key signed the message hash of `input`, or no bytes where
/// `v` is not 27 to 30 or no key can be recovered.
pub fn ecrecover(input: &[u8]) -> (r: Vec<u8>)
    ensures
        r@ == ecrecover_result(input@),
{
    match ecrecover_input(input) {
        None => Vec::new(),
        Some((msg, recovery_id, sig)) => match secp256k1_recover(msg.as_slice(), recovery_id, sig.as_slice()) {
            None => Vec::new(),
            Some(key) => address_of_key_hash(keccak_hash(key.as_slice())),
        },
    }
}

/// `sha256`: the SHA-256 digest of `input`.
pub fn sha256(input: &[u8]) -> (r: Vec<u8>)
    ensures
        r@ == sha256_digest(input@),
{
    let hash = sha256_hash(input);
    vstd::slice::slice_to_vec(hash.as_slice())
}

/// The number in the word `k` of `input`, big-endian.
pub open spec fn length_word(input: Seq<u8>, k: int) -> nat {
    be_value(input.subrange(32 * k, 32 * k + 32))
}

/// The three lengths of a `bigModExp` input fit in a `usize`, and they do not describe an
/// empty base and modulus.
pub open spec fn mod_exp_lengths_used(input: Seq<u8>) -> bool {
    &&& input.len() >= 96
    &&& length_word(input, 0) <= usize::MAX
    &&& length_word(input, 1) <= usize::MAX
    &&& length_word(input, 2) <= usize::MAX
    &&& !(length_word(input, 0) == 0 && length_word(input, 2) == 0)
}

/// `bigModExp`: where the input holds the lengths of base, exponent and modulus and then
/// those numbers, the base to the power of the exponent modulo the modulus, in as many
/// bytes as the modulus has. No bytes for an input shorter than 96 bytes or a length that
/// does not fit in a `usize`; 32 zero bytes where base and modulus are empty.
pub fn big_mod_exp(input: &[u8]) -> (r: Vec<u8>)
    requires
        mod_exp_lengths_used(input@) ==> length_word(input@, 0) + length_word(input@, 1)
            + length_word(input@, 2) <= input@.len() - 96,
    ensures
        input@.len() < 96 ==> r@ == Seq::<u8>::empty(),
        input@.len() >= 96 && !mod_exp_lengths_used(input@) ==> r@ == (if length_word(
            input@,
            0,
        ) <= usize::MAX && length_word(input@, 1) <= usize::MAX && length_word(input@, 2)
            <= usize::MAX {
            Seq::new(32, |i: int| 0u8)
        } else {
            Seq::<u8>::empty()
        }),
        mod_exp_lengths_used(input@) ==> {
            let b = length_word(input@, 0) as int;
            let e = length_word(input@, 1) as int;
            let m = length_word(input@, 2) as int;
            &&& r@.len() == m
            &&& be_value(r@) == mod_exp(
                be_value(input@.subrange(96, 96 + b)),
                be_value(input@.subrange(96 + b, 96 + b + e)),
                be_value(input@.subrange(96 + b + e, 96 + b + e + m)),
            )
        },
{
    if input.len() < 96 {
        return Vec::new();
    }
    let base_len = match u256_to_usize(u256_from_be_bytes(word_at(input, 0))) {
        Some(n) => n,
        None => return Vec::new(),
    };
    let exp_len = match u256_to_usize(u256_from_be_bytes(word_at(input, 32))) {
        Some(n) => n,
        None => return Vec::new(),
    };
    let mod_len = match u256_to_usize(u256_from_be_bytes(word_at(input, 64))) {
        Some(n) => n,
        None => return Vec::new(),
    };
    if base_len == 0 && mod_len == 0 {
        return vec![0u8; 32];
    }
    let rest = vstd::slice::slice_subrange(input, 96, input.len());
    let base_val = vstd::slice::slice_subrange(rest, 0, base_len);
    let exp_val = vstd::slice::slice_subrange(rest, base_len, base_len + exp_len);
    let mod_val = vstd::slice::slice_subrange(rest, base_len + exp_len, base_len + exp_len + mod_len);
    assert(base_val@ =~= input@.subrange(96, 96 + base_len));
    assert(exp_val@ =~= input@.subrange(96 + base_len, 96 + base_len + exp_len));
    assert(mod_val@ =~= input@.subrange(
        96 + base_len + exp_len,
        96 + base_len + exp_len + mod_len,
    ));
    big_mod_exp_call(base_val, exp_val, mod_val)
}

/// `bn256Add`: the sum of the two alt_bn128 points in `input`; no bytes where the input is
/// longer than 128 bytes or does not hold points.
pub fn bn256_add(input: &[u8]) -> (r: Vec<u8>)
    ensures
        r@ == match bn128_sum(input@) {
            Some(v) => v,
            None => Seq::<u8>::empty(),
        },
{
    match alt_bn128_add(input) {
        Some(v) => v,
        None => Vec::new(),
    }
}

/// `bn256ScalarMul`: the alt_bn128 point in `input` times the scalar after it; no bytes
/// where the input is longer than 128 bytes or does not hold a point.
pub fn bn256_scalar_mul(input: &[u8]) -> (r: Vec<u8>)
    ensures
        r@ == match bn128_product(input@) {
            Some(v) => v,
            None => Seq::<u8>::empty(),
        },
{
    match alt_bn128_mul(input) {
        Some(v) => v,
        None => Vec::new(),
    }
}

/// `bn256Pairing`: 1 where the pairings of the pairs of points in `input` multiply to one,
/// else 0, as a word; no bytes where the input does not hold points.
pub fn bn256_pairing(input: &[u8]) -> (r: Vec<u8>)
    ensures
        r@ == match bn128_pairing(input@) {
            Some(v) => v,
            None => Seq::<u8>::empty(),
        },
{
    match alt_bn128_pair(input) {
        Some(v) => v,
        None => Vec::new(),
    }
}

} // verus!
