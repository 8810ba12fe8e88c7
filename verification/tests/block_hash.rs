use evm_loader::block_hash::{find_slot_hash, generate_fake_slot_hash};

#[test]
fn test_generate_fake_slot_hash() {
    let slot = 0x46;
    let mut expected: [u8; 32] = [255; 32];
    expected[30] = 0;
    expected[31] = 0x46;
    assert_eq!(generate_fake_slot_hash(slot), expected);

    let slot = 0x3e8;
    let mut expected: [u8; 32] = [255; 32];
    expected[29] = 0;
    expected[30] = 0x03;
    expected[31] = 0xe8;
    assert_eq!(generate_fake_slot_hash(slot), expected);
}

#[test]
fn fake_slot_hash_of_zero_and_of_a_full_slot() {
    let mut expected: [u8; 32] = [255; 32];
    expected[31] = 0;
    assert_eq!(generate_fake_slot_hash(0), expected);

    let slot = 0x0102_0304_0506_0708u64;
    let mut expected: [u8; 32] = [255; 32];
    expected[23] = 0;
    expected[24..].copy_from_slice(&slot.to_be_bytes());
    assert_eq!(generate_fake_slot_hash(slot), expected);
}

fn slot_hashes(entries: &[(u64, u8)]) -> Vec<u8> {
    let mut data = (entries.len() as u64).to_le_bytes().to_vec();
    for (slot, fill) in entries {
        data.extend_from_slice(&slot.to_le_bytes());
        data.extend_from_slice(&[*fill; 32]);
    }
    data
}

#[test]
fn find_slot_hash_searches_newest_first() {
    let data = slot_hashes(&[(50, 5), (40, 4), (30, 3), (20, 2), (10, 1)]);
    assert_eq!(find_slot_hash(50, &data), [5; 32]);
    assert_eq!(find_slot_hash(40, &data), [4; 32]);
    assert_eq!(find_slot_hash(30, &data), [3; 32]);
    assert_eq!(find_slot_hash(20, &data), [2; 32]);
    // the last entry is never searched
    assert_eq!(find_slot_hash(10, &data), generate_fake_slot_hash(10));
    assert_eq!(find_slot_hash(35, &data), generate_fake_slot_hash(35));
    assert_eq!(find_slot_hash(60, &data), generate_fake_slot_hash(60));

    let single = slot_hashes(&[(7, 9)]);
    assert_eq!(find_slot_hash(7, &single), generate_fake_slot_hash(7));
}
