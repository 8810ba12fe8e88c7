//! What the library has from the Solana runtime: hashes, key recovery, modular
//! exponentiation and derived keys.

use vstd::prelude::*;

use solana_program::pubkey::Pubkey;
use vstd::string::StringSliceAdditionalSpecFns;

use crate::types::be_value;

verus! {

/// What `solana_program::keccak::hash` gives for `data`: its Keccak-256 digest.
pub uninterp spec fn keccak256_digest(data: Seq<u8>) -> Seq<u8>;

/// What `solana_program::hash::hash` gives for `data`: its SHA-256 digest.
pub uninterp spec fn sha256_digest(data: Seq<u8>) -> Seq<u8>;

/// What `solana_program::secp256k1_recover::secp256k1_recover` gives for the message hash,
/// the recovery id and the signature: the 64 bytes of the public key that signed, where one
/// can be recovered.
pub uninterp spec fn secp256k1_recovered(hash: Seq<u8>, recovery_id: u8, signature: Seq<u8>) -> Option<
    Seq<u8>,
>;

/// What `solana_program::alt_bn128::prelude::alt_bn128_addition` gives for `input`: the
/// 64 bytes of the sum of the two alt_bn128 points it holds, where they are points.
pub uninterp spec fn bn128_sum(input: Seq<u8>) -> Option<Seq<u8>>;

/// What `solana_program::alt_bn128::prelude::alt_bn128_multiplication` gives for `input`:
/// the 64 bytes of the alt_bn128 point it holds times the scalar that follows it, where it is
/// a point.
pub uninterp spec fn bn128_product(input: Seq<u8>) -> Option<Seq<u8>>;

/// What `solana_program::alt_bn128::prelude::alt_bn128_pairing` gives for `input`: the 32
/// bytes of 1 where the pairings of the pairs of points it holds multiply to one, else of 0,
/// where they are points.
pub uninterp spec fn bn128_pairing(input: Seq<u8>) -> Option<Seq<u8>>;

/// The bytes that mark a program derived address, at the end of a key.
pub open spec fn pda_marker() -> Seq<u8> {
    seq![
        0x50u8, 0x72, 0x6f, 0x67, 0x72, 0x61, 0x6d, 0x44, 0x65, 0x72, 0x69, 0x76, 0x65, 0x64,
        0x41, 0x64, 0x64, 0x72, 0x65, 0x73, 0x73,
    ]
}

/// `pow(b, e)`, as a natural number.
pub open spec fn power(b: nat, e: nat) -> nat
    decreases e,
{
    if e == 0 {
        1
    } else {
        b * power(b, (e - 1) as nat)
    }
}

/// `b` to the power `e` modulo `m`; zero for a modulus of 0 or 1.
pub open spec fn mod_exp(b: nat, e: nat, m: nat) -> nat {
    if m <= 1 {
        0
    } else {
        power(b, e) % m
    }
}

/// `solana_program::keccak::hash`: the Keccak-256 digest of `data`.
#[verifier::external_body]
pub(crate) fn keccak_hash(data: &[u8]) -> (r: [u8; 32])
    ensures
        r@ == keccak256_digest(data@),
{
    solana_program::keccak::hash(data).to_bytes()
}

/// `solana_program::hash::hash`: the SHA-256 digest of `data`.
#[verifier::external_body]
pub(crate) fn sha256_hash(data: &[u8]) -> (r: [u8; 32])
    ensures
        r@ == sha256_digest(data@),
{
    solana_program::hash::hash(data).to_bytes()
}

/// `solana_program::secp256k1_recover::secp256k1_recover`: the public key that signed `hash`
/// with `signature`, where one can be recovered. The caller hands it a 32-byte hash and a
/// 64-byte signature, as its documentation asks.
#[verifier::external_body]
pub(crate) fn secp256k1_recover(hash: &[u8], recovery_id: u8, signature: &[u8]) -> (r: Option<
    [u8; 64],
>)
    requires
        hash@.len() == 32,
        signature@.len() == 64,
    ensures
        match secp256k1_recovered(hash@, recovery_id, signature@) {
            Some(key) => r matches Some(k) && k@ == key,
            None => r is None,
        },
{
    solana_program::secp256k1_recover::secp256k1_recover(hash, recovery_id, signature).ok().map(
        |key| key.to_bytes(),
    )
}

/// `solana_program::big_mod_exp::big_mod_exp`: `base` to the power `exponent` modulo
/// `modulus`, all big-endian, in as many bytes as `modulus` has; zero for a modulus of 0 or 1.
#[verifier::external_body]
pub(crate) fn big_mod_exp_call(base: &[u8], exponent: &[u8], modulus: &[u8]) -> (r: Vec<u8>)
    ensures
        r@.len() == modulus@.len(),
        be_value(r@) == mod_exp(be_value(base@), be_value(exponent@), be_value(modulus@)),
{
    solana_program::big_mod_exp::big_mod_exp(base, exponent, modulus)
}

/// `solana_program::pubkey::Pubkey::create_with_seed`: the SHA-256 digest of the base key,
/// the seed and the owner key; refused for a seed of more than 32 bytes and for an owner that
/// ends with the mark of a program derived address.
#[verifier::external_body]
pub(crate) fn create_with_seed(base: &[u8; 32], seed: &str, owner: &[u8; 32]) -> (r: Option<
    [u8; 32],
>)
    ensures
        r is None <==> (seed.spec_bytes().len() > 32 || owner@.skip(11) == pda_marker()),
        r matches Some(key) ==> key@ == sha256_digest(base@ + seed.spec_bytes() + owner@),
{
    Pubkey::create_with_seed(&Pubkey::from(*base), seed, &Pubkey::from(*owner)).ok().map(
        |key| key.to_bytes(),
    )
}

/// `solana_program::alt_bn128::prelude::alt_bn128_addition`: the sum of the two points in
/// `input`, zero-padded to 128 bytes; refused for a longer input or for bytes that are not
/// points.
#[verifier::external_body]
pub(crate) fn alt_bn128_add(input: &[u8]) -> (r: Option<Vec<u8>>)
    ensures
        match bn128_sum(input@) {
            Some(v) => r matches Some(x) && x@ == v,
            None => r is None,
        },
        input@.len() > 128 ==> r is None,
        r matches Some(x) ==> x@.len() == 64,
{
    solana_program::alt_bn128::prelude::alt_bn128_addition(input).ok()
}

/// `solana_program::alt_bn128::prelude::alt_bn128_multiplication`: the point in `input`
/// times the scalar after it, zero-padded to 128 bytes; refused for a longer input or for
/// bytes that are not a point.
#[verifier::external_body]
pub(crate) fn alt_bn128_mul(input: &[u8]) -> (r: Option<Vec<u8>>)
    ensures
        match bn128_product(input@) {
            Some(v) => r matches Some(x) && x@ == v,
            None => r is None,
        },
        input@.len() > 128 ==> r is None,
        r matches Some(x) ==> x@.len() == 64,
{
    solana_program::alt_bn128::prelude::alt_bn128_multiplication(input).ok()
}

/// `solana_program::alt_bn128::prelude::alt_bn128_pairing`: 1 where the pairings of the
/// pairs of points in `input` multiply to one, else 0, as 32 big-endian bytes; refused for
/// bytes that are not points.
#[verifier::external_body]
pub(crate) fn alt_bn128_pair(input: &[u8]) -> (r: Option<Vec<u8>>)
    ensures
        match bn128_pairing(input@) {
            Some(v) => r matches Some(x) && x@ == v,
            None => r is None,
        },
        r matches Some(x) ==> x@.len() == 32,
{
    solana_program::alt_bn128::prelude::alt_bn128_pairing(input).ok()
}

} // verus!
