use evm_loader::precompile::{
    address_of_key_hash, big_mod_exp, ecrecover, ecrecover_input, sha256,
};

fn unhex(s: &str) -> Vec<u8> {
    hex::decode(s).unwrap()
}

#[test]
fn sha256_digests() {
    assert_eq!(
        sha256(&[]),
        unhex("e3b0c44298fc1c149afbf4c8996fb92427ae41e4649b934ca495991b7852b855")
    );
    assert_eq!(
        sha256(b"abc"),
        unhex("ba7816bf8f01cfea414140de5dae2223b00361a396177a9cb410ff61f20015ad")
    );
}

#[test]
fn ecrecover_reads_padded_fields() {
    let mut input = vec![0x11u8; 32];
    input.extend_from_slice(&[0u8; 31]);
    input.push(28);
    input.extend_from_slice(&[0x22u8; 10]);
    let (msg, id, sig) = ecrecover_input(&input).unwrap();
    assert_eq!(msg, [0x11; 32]);
    assert_eq!(id, 1);
    let mut expected_sig = [0u8; 64];
    expected_sig[..10].copy_from_slice(&[0x22; 10]);
    assert_eq!(sig, expected_sig);

    let mut bad_v = input.clone();
    bad_v[63] = 31;
    assert_eq!(ecrecover_input(&bad_v), None);
    assert_eq!(ecrecover(&bad_v), Vec::<u8>::new());
    bad_v[63] = 26;
    assert_eq!(ecrecover_input(&bad_v), None);
    let mut high_v = input.clone();
    high_v[32] = 1;
    assert_eq!(ecrecover_input(&high_v), None);

    assert_eq!(ecrecover_input(&[]), None);
}

#[test]
fn ecrecover_address_keeps_last_twenty_bytes() {
    let hash: [u8; 32] = core::array::from_fn(|i| i as u8 + 1);
    let address = address_of_key_hash(hash);
    assert_eq!(address.len(), 32);
    assert_eq!(&address[..12], &[0u8; 12]);
    assert_eq!(&address[12..], &hash[12..]);
}

#[test]
fn ecrecover_recovers_signer() {
    let mut input = unhex("38d18acb67d25c8bb9942764b62f18e17054f66a817bd4295423adf9ed98873e");
    input.extend(unhex("000000000000000000000000000000000000000000000000000000000000001b"));
    input.extend(unhex("38d18acb67d25c8bb9942764b62f18e17054f66a817bd4295423adf9ed98873e"));
    input.extend(unhex("789d1dd423d25f0772d2748d60f7e4b81bb14d086eba8e8e8efb6dcff8a4ae02"));
    assert_eq!(
        ecrecover(&input),
        unhex("000000000000000000000000ceaccac640adf55b2028469bd36ba501f28b699d")
    );
}

#[test]
fn ecrecover_of_unrecoverable_signature_is_empty() {
    let mut input = vec![0u8; 128];
    input[63] = 27;
    assert_eq!(ecrecover(&input), Vec::<u8>::new());
}

fn word(n: u64) -> Vec<u8> {
    let mut w = vec![0u8; 24];
    w.extend_from_slice(&n.to_be_bytes());
    w
}

#[test]
fn big_mod_exp_computes_modular_power() {
    let mut input = word(1);
    input.extend(word(1));
    input.extend(word(2));
    input.extend_from_slice(&[3, 2, 0, 5]);
    assert_eq!(big_mod_exp(&input), vec![0, 4]);

    let mut input = word(1);
    input.extend(word(1));
    input.extend(word(1));
    input.extend_from_slice(&[2, 10, 7]);
    assert_eq!(big_mod_exp(&input), vec![2]);

    let mut input = word(1);
    input.extend(word(1));
    input.extend(word(1));
    input.extend_from_slice(&[9, 9, 1]);
    assert_eq!(big_mod_exp(&input), vec![0]);
}

#[test]
fn big_mod_exp_edge_cases() {
    assert_eq!(big_mod_exp(&[0u8; 95]), Vec::<u8>::new());
    assert_eq!(big_mod_exp(&[0u8; 96]), vec![0u8; 32]);

    let mut huge = vec![0xffu8; 32];
    huge.extend(word(0));
    huge.extend(word(0));
    assert_eq!(big_mod_exp(&huge), Vec::<u8>::new());
}
