use ethnum::U256;
use std::collections::HashMap;

use evm_loader::buffer::Buffer;
use evm_loader::database::{code_hash_input, code_hash_with, exists_with, Database, DatabaseExt};
use evm_loader::error::Error;
use evm_loader::types::Address;

#[test]
fn account_existence() {
    assert!(!exists_with(0, U256::ZERO));
    assert!(exists_with(1, U256::ZERO));
    assert!(exists_with(0, U256::ONE));
}

#[test]
fn code_hash_inputs() {
    assert_eq!(code_hash_input(&[1, 2], false), Some(&[1u8, 2][..]));
    assert_eq!(code_hash_input(&[], true), Some(&[][..]));
    assert_eq!(code_hash_input(&[], false), None);
}


#[test]
fn code_hash_of_given_code() {
    assert_eq!(code_hash_with(&[], false), [0; 32]);
    assert_eq!(code_hash_with(&[0; 10], false), code_hash_with(&[0; 10], true));
    assert_ne!(code_hash_with(&[], true), [0; 32]);
}

struct TestDatabaseEntry {
    balance: U256,
    nonce: u64,
    code: Vec<u8>,
}

impl TestDatabaseEntry {
    fn empty() -> Self {
        Self {
            balance: U256::from(0u8),
            nonce: 0,
            code: Vec::default(),
        }
    }

    fn without_code() -> Self {
        Self {
            balance: U256::from(1u8),
            nonce: 1,
            code: Vec::default(),
        }
    }

    fn with_code(code: Vec<u8>) -> Self {
        assert!(!code.is_empty());
        Self {
            balance: U256::from_words(0, 1),
            nonce: 1,
            code,
        }
    }
}

struct TestDatabase(HashMap<Address, TestDatabaseEntry>);

impl Database for TestDatabase {
    fn default_chain_id(&self) -> u64 {
        1
    }

    fn is_valid_chain_id(&self, chain_id: u64) -> bool {
        chain_id == 1
    }

    fn contract_chain_id(&self, _address: Address) -> Result<u64, Error> {
        Ok(1)
    }

    fn nonce(&self, address: Address, _chain_id: u64) -> Result<u64, Error> {
        Ok(self.0.get(&address).map_or(0, |entry| entry.nonce))
    }

    fn increment_nonce(&mut self, _address: Address, _chain_id: u64) -> Result<(), Error> {
        Ok(())
    }

    fn balance(&self, address: Address, _chain_id: u64) -> Result<U256, Error> {
        Ok(self.0.get(&address).map_or(U256::ZERO, |entry| entry.balance))
    }

    fn transfer(&mut self, _: Address, _: Address, _: u64, _: U256) -> Result<(), Error> {
        Ok(())
    }

    fn code_size(&self, address: Address) -> Result<usize, Error> {
        Ok(self.0.get(&address).map_or(0, |entry| entry.code.len()))
    }

    fn code(&self, address: Address) -> Result<Buffer, Error> {
        Ok(self
            .0
            .get(&address)
            .map_or_else(Buffer::empty, |entry| Buffer::from_slice(&entry.code)))
    }

    fn set_code(&mut self, _: Address, _: u64, _: Vec<u8>) -> Result<(), Error> {
        Ok(())
    }

    fn selfdestruct(&mut self, _: Address) -> Result<(), Error> {
        Ok(())
    }

    fn storage(&self, _: Address, _: U256) -> Result<[u8; 32], Error> {
        Ok([0; 32])
    }

    fn set_storage(&mut self, _: Address, _: U256, _: [u8; 32]) -> Result<(), Error> {
        Ok(())
    }

    fn block_hash(&self, _: U256) -> Result<[u8; 32], Error> {
        Ok([0; 32])
    }

    fn block_number(&self) -> Result<U256, Error> {
        Ok(U256::ZERO)
    }

    fn block_timestamp(&self) -> Result<U256, Error> {
        Ok(U256::ZERO)
    }

    fn snapshot(&mut self) {}

    fn revert_snapshot(&mut self) {}

    fn commit_snapshot(&mut self) {}
}

fn code_hash(database_entry: Option<TestDatabaseEntry>) -> [u8; 32] {
    let address = Address([0; 20]);
    let database = TestDatabase(
        database_entry
            .map(|entry| (address, entry))
            .into_iter()
            .collect(),
    );
    database.code_hash(address, 1).unwrap()
}

#[test]
fn code_hash_of_non_existing_account() {
    let actual = code_hash(None);
    assert_eq!(actual, [0; 32]);
}

#[test]
fn code_hash_of_empty_account() {
    let actual = code_hash(Some(TestDatabaseEntry::empty()));
    assert_eq!(actual, [0; 32]);
}

#[test]
fn code_hash_of_existing_account_without_code() {
    let actual = code_hash(Some(TestDatabaseEntry::without_code()));
    assert_eq!(
        actual,
        [
            197, 210, 70, 1, 134, 247, 35, 60, 146, 126, 125, 178, 220, 199, 3, 192, 229, 0,
            182, 83, 202, 130, 39, 59, 123, 250, 216, 4, 93, 133, 164, 112,
        ]
    );
}

#[test]
fn code_hash_of_existing_account_with_code() {
    let actual = code_hash(Some(TestDatabaseEntry::with_code(vec![0; 10])));
    assert_eq!(
        actual,
        [
            107, 210, 221, 107, 212, 8, 203, 238, 51, 66, 147, 88, 191, 36, 253, 198, 70, 18,
            251, 248, 177, 180, 219, 96, 69, 24, 244, 15, 253, 52, 182, 7
        ]
    );
}
