use ethnum::U256;
use evm_loader::account::ether_account::Data;
use evm_loader::account::ether_storage::StorageCellAddress;
use evm_loader::account::legacy::{
    LegacyEtherData, LegacyFinalizedData, LegacyHolderData, LegacyStorageData,
};
use evm_loader::account::{
    block, is_blocked, set_tag, tag, unblock, validate_tag, AccountInfo, TAG_ACCOUNT_CONTRACT,
};
use evm_loader::error::Error;
use evm_loader::types::Address;

fn account(data: Vec<u8>) -> AccountInfo {
    AccountInfo {
        key: [0xaa; 32],
        owner: [0xbb; 32],
        data,
    }
}

#[test]
fn account_tags() {
    let program = [0xbb; 32];
    let mut info = account(vec![70, 0, 1]);
    assert_eq!(tag(&program, &info), Ok(70));
    assert_eq!(validate_tag(&program, &info, TAG_ACCOUNT_CONTRACT), Ok(()));
    assert_eq!(
        validate_tag(&program, &info, 1),
        Err(Error::AccountInvalidTag([0xaa; 32], 1))
    );
    assert_eq!(
        tag(&[0xcc; 32], &info),
        Err(Error::AccountInvalidOwner([0xaa; 32], [0xcc; 32]))
    );
    assert_eq!(
        tag(&program, &account(vec![70])),
        Err(Error::AccountInvalidData([0xaa; 32]))
    );
    set_tag(&program, &mut info, 43).unwrap();
    assert_eq!(info.data, vec![43, 0, 1]);
}

#[test]
fn block_and_unblock() {
    let program = [0xbb; 32];
    let mut info = account(vec![70, 0]);
    assert_eq!(is_blocked(&program, &info), Ok(false));
    block(&program, &mut info).unwrap();
    assert_eq!(is_blocked(&program, &info), Ok(true));
    assert_eq!(block(&program, &mut info), Err(Error::AccountBlocked([0xaa; 32])));
    unblock(&program, &mut info).unwrap();
    assert_eq!(info.data, vec![70, 0]);

    let mut legacy = account(vec![12, 0]);
    assert_eq!(is_blocked(&program, &legacy), Err(Error::AccountLegacy([0xaa; 32])));
    assert_eq!(block(&program, &mut legacy), Err(Error::AccountLegacy([0xaa; 32])));
}

#[test]
fn ether_account_data_round_trip() {
    let data = Data {
        address: Address([7; 20]),
        bump_seed: 254,
        trx_count: 0x0102,
        balance: U256::from_words(1, 2),
        generation: 3,
        code_size: 0x10,
        rw_blocked: true,
    };
    let mut bytes = vec![0xee; 72];
    data.pack(&mut bytes);
    assert_eq!(&bytes[..20], &[7; 20]);
    assert_eq!(bytes[20], 254);
    assert_eq!(&bytes[21..29], &[2, 1, 0, 0, 0, 0, 0, 0]);
    assert_eq!(bytes[29], 2);
    assert_eq!(bytes[45], 1);
    assert_eq!(&bytes[61..65], &[3, 0, 0, 0]);
    assert_eq!(&bytes[65..69], &[0x10, 0, 0, 0]);
    assert_eq!(bytes[69], 1);
    assert_eq!(&bytes[70..], &[0xee, 0xee]);

    let back = Data::unpack(&bytes);
    assert_eq!(back.address, data.address);
    assert_eq!(back.bump_seed, data.bump_seed);
    assert_eq!(back.trx_count, data.trx_count);
    assert_eq!(back.balance, data.balance);
    assert_eq!(back.generation, data.generation);
    assert_eq!(back.code_size, data.code_size);
    assert!(back.rw_blocked);
}

#[test]
fn storage_cell_seeds_are_ascii() {
    assert_eq!(StorageCellAddress::make_seed(&U256::ZERO), [0u8; 32]);

    let mut bytes = [0u8; 32];
    bytes[3] = 0xff;
    bytes[10] = 0x81;
    bytes[30] = 0x05;
    let index = U256::from_be_bytes(bytes);
    let seed = StorageCellAddress::make_seed(&index);
    let mut expected = [0u8; 32];
    expected[0] = 0x7f;
    expected[7] = 0x01;
    expected[27] = 0x05;
    expected[28] = 0x40;
    expected[29] = 0x40;
    assert_eq!(seed, expected);
    assert!(seed.iter().all(|b| *b < 0x80));

    let address = StorageCellAddress::new(&[2; 32], &[1; 32], &index);
    assert_eq!(address.seed().as_bytes(), &expected);
    let mut preimage = vec![1u8; 32];
    preimage.extend_from_slice(&expected);
    preimage.extend_from_slice(&[2u8; 32]);
    let digest = solana_program::hash::hash(&preimage).to_bytes();
    assert_eq!(address.pubkey(), &digest);
    assert_ne!(address.pubkey(), &[0u8; 32]);
}

#[test]
fn legacy_accounts_are_read_after_their_tag() {
    let program = [0xbb; 32];

    let mut data = vec![LegacyHolderData::TAG];
    data.extend_from_slice(&[7; 32]);
    data.extend_from_slice(&[8; 32]);
    data.extend_from_slice(&300u64.to_le_bytes());
    let holder = LegacyHolderData::from_account(&program, &account(data.clone())).unwrap();
    assert_eq!(holder.owner, [7; 32]);
    assert_eq!(holder.transaction_hash, [8; 32]);
    assert_eq!(holder.transaction_len, 300);
    assert_eq!(
        LegacyFinalizedData::from_account(&program, &account(data)).err(),
        Some(Error::AccountInvalidTag([0xaa; 32], LegacyFinalizedData::TAG))
    );

    let mut data = vec![LegacyFinalizedData::TAG];
    data.extend_from_slice(&[1; 32]);
    data.extend_from_slice(&[2; 32]);
    let finalized = LegacyFinalizedData::from_account(&program, &account(data)).unwrap();
    assert_eq!(finalized.owner, [1; 32]);
    assert_eq!(finalized.transaction_hash, [2; 32]);

    let mut data = vec![LegacyStorageData::TAG];
    data.extend_from_slice(&[5; 20]);
    data.extend_from_slice(&9u32.to_le_bytes());
    data.extend_from_slice(&U256::new(0x0102).to_le_bytes());
    let storage = LegacyStorageData::from_account(&program, &account(data)).unwrap();
    assert_eq!(storage.address, Address([5; 20]));
    assert_eq!(storage.generation, 9);
    assert_eq!(storage.index, U256::new(0x0102));

    let mut data = vec![LegacyEtherData::TAG];
    data.extend_from_slice(&[6; 20]);
    data.push(254);
    data.extend_from_slice(&3u64.to_le_bytes());
    data.extend_from_slice(&U256::new(1000).to_le_bytes());
    data.extend_from_slice(&4u32.to_le_bytes());
    data.extend_from_slice(&12u32.to_le_bytes());
    data.push(1);
    let ether = LegacyEtherData::from_account(&program, &account(data)).unwrap();
    assert_eq!(ether.address, Address([6; 20]));
    assert_eq!(ether.bump_seed, 254);
    assert_eq!(ether.trx_count, 3);
    assert_eq!(ether.balance, U256::new(1000));
    assert_eq!(ether.generation, 4);
    assert_eq!(ether.code_size, 12);
    assert!(ether.rw_blocked);

    let foreign = AccountInfo {
        key: [0xaa; 32],
        owner: [0xcc; 32],
        data: vec![LegacyFinalizedData::TAG, 0],
    };
    assert_eq!(
        LegacyFinalizedData::from_account(&program, &foreign).err(),
        Some(Error::AccountInvalidOwner([0xaa; 32], program))
    );
}

#[test]
fn legacy_storage_cells_after_the_data() {
    let program = [0xbb; 32];
    let mut data = vec![LegacyStorageData::TAG];
    data.extend_from_slice(&[5; 20]);
    data.extend_from_slice(&1u32.to_le_bytes());
    data.extend_from_slice(&[0; 32]);
    for (subindex, byte) in [(3u8, 1u8), (7, 2), (3, 9)] {
        data.push(subindex);
        data.extend_from_slice(&[byte; 32]);
    }
    let info = account(data);
    let storage = LegacyStorageData::from_account(&program, &info).unwrap();
    let cells = storage.read_cells(&info);
    assert_eq!(cells.len(), 3);
    assert_eq!(cells[1].subindex, 7);
    assert_eq!(cells[1].value, [2; 32]);
    assert_eq!(storage.read_value(3, &info), [1; 32]);
    assert_eq!(storage.read_value(7, &info), [2; 32]);
    assert_eq!(storage.read_value(5, &info), [0; 32]);
}
