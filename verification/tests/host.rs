use std::collections::HashMap;

use ethnum::U256;
use evm_loader::buffer::Buffer;
use evm_loader::database::Database;
use evm_loader::error::Error;
use evm_loader::machine::{Context, Machine, Reason};
use evm_loader::memory::Memory;
use evm_loader::opcode::Action;
use evm_loader::stack::Stack;
use evm_loader::types::Address;

#[derive(Default)]
struct MemoryDatabase {
    balances: HashMap<Address, U256>,
    nonces: HashMap<Address, u64>,
    codes: HashMap<Address, Vec<u8>>,
    storage: HashMap<(Address, [u8; 32]), [u8; 32]>,
    destroyed: Vec<Address>,
    commits: usize,
    reverts: usize,
}

impl Database for MemoryDatabase {
    fn default_chain_id(&self) -> u64 {
        1
    }

    fn is_valid_chain_id(&self, chain_id: u64) -> bool {
        chain_id == 1
    }

    fn contract_chain_id(&self, _address: Address) -> Result<u64, Error> {
        Ok(1)
    }

    fn nonce(&self, address: Address, _chain_id: u64) -> Result<u64, Error> {
        Ok(*self.nonces.get(&address).unwrap_or(&0))
    }

    fn increment_nonce(&mut self, address: Address, _chain_id: u64) -> Result<(), Error> {
        *self.nonces.entry(address).or_insert(0) += 1;
        Ok(())
    }

    fn balance(&self, address: Address, _chain_id: u64) -> Result<U256, Error> {
        Ok(*self.balances.get(&address).unwrap_or(&U256::ZERO))
    }

    fn transfer(&mut self, source: Address, target: Address, _: u64, value: U256) -> Result<(), Error> {
        let from = self.balance(source, 1)?;
        if from < value {
            return Err(Error::StackUnderflow);
        }
        self.balances.insert(source, from - value);
        let to = self.balance(target, 1)?;
        self.balances.insert(target, to + value);
        Ok(())
    }

    fn code_size(&self, address: Address) -> Result<usize, Error> {
        Ok(self.codes.get(&address).map_or(0, Vec::len))
    }

    fn code(&self, address: Address) -> Result<Buffer, Error> {
        Ok(Buffer::from_slice(self.codes.get(&address).map_or(&[][..], Vec::as_slice)))
    }

    fn set_code(&mut self, address: Address, _chain_id: u64, code: Vec<u8>) -> Result<(), Error> {
        self.codes.insert(address, code);
        Ok(())
    }

    fn selfdestruct(&mut self, address: Address) -> Result<(), Error> {
        self.destroyed.push(address);
        Ok(())
    }

    fn storage(&self, address: Address, index: U256) -> Result<[u8; 32], Error> {
        Ok(*self
            .storage
            .get(&(address, index.to_be_bytes()))
            .unwrap_or(&[0; 32]))
    }

    fn set_storage(&mut self, address: Address, index: U256, value: [u8; 32]) -> Result<(), Error> {
        self.storage.insert((address, index.to_be_bytes()), value);
        Ok(())
    }

    fn block_hash(&self, number: U256) -> Result<[u8; 32], Error> {
        Ok([number.as_u8(); 32])
    }

    fn block_number(&self) -> Result<U256, Error> {
        Ok(U256::new(77))
    }

    fn block_timestamp(&self) -> Result<U256, Error> {
        Ok(U256::new(1_700_000_000))
    }

    fn snapshot(&mut self) {}

    fn revert_snapshot(&mut self) {
        self.reverts += 1;
    }

    fn commit_snapshot(&mut self) {
        self.commits += 1;
    }
}

const CONTRACT: Address = Address([3; 20]);

fn machine() -> Machine {
    Machine {
        origin: Address([1; 20]),
        chain_id: 1,
        context: Context {
            caller: Address([2; 20]),
            contract: CONTRACT,
            contract_chain_id: 1,
            value: U256::ZERO,
            code_address: None,
        },
        gas_price: U256::new(5),
        gas_limit: U256::new(1000),
        execution_code: Buffer::from_slice(&[0x00]),
        call_data: Buffer::empty(),
        return_data: Buffer::empty(),
        return_range: 0..0,
        stack: Stack::new(),
        memory: Memory::new(),
        pc: 0,
        is_static: false,
        reason: Reason::Call,
        parent: None,
    }
}

fn push(m: &mut Machine, values: &[U256]) {
    for v in values {
        m.stack.push_u256(*v).unwrap();
    }
}

fn address_word(a: Address) -> U256 {
    let mut w = [0u8; 32];
    w[12..].copy_from_slice(&a.0);
    U256::from_be_bytes(w)
}

fn child_call(m: &mut Machine, return_offset: usize, return_length: usize) {
    m.return_range = return_offset..return_offset + return_length;
    let context = Context {
        caller: CONTRACT,
        contract: Address([9; 20]),
        contract_chain_id: 1,
        value: U256::ZERO,
        code_address: Some(Address([9; 20])),
    };
    m.fork(Reason::Call, 1, context, Buffer::from_slice(&[0x00]), Buffer::empty(), None);
}

#[test]
fn storage_reads_what_was_written() {
    let mut db = MemoryDatabase::default();
    let mut m = machine();
    push(&mut m, &[U256::new(0xabcd), U256::new(7)]);
    assert_eq!(m.opcode_sstore(&mut db), Ok(Action::Continue));
    assert_eq!(m.stack.len(), 0);
    push(&mut m, &[U256::new(7)]);
    assert_eq!(m.opcode_sload(&mut db), Ok(Action::Continue));
    assert_eq!(m.stack.pop_u256().unwrap(), U256::new(0xabcd));
    push(&mut m, &[U256::new(8)]);
    m.opcode_sload(&mut db).unwrap();
    assert_eq!(m.stack.pop_u256().unwrap(), U256::ZERO);
}

#[test]
fn storage_write_is_refused_when_static() {
    let mut db = MemoryDatabase::default();
    let mut m = machine();
    m.is_static = true;
    push(&mut m, &[U256::ONE, U256::ONE]);
    assert_eq!(m.opcode_sstore(&mut db), Err(Error::StaticModeViolation(CONTRACT)));
    assert_eq!(m.stack.len(), 2);
    assert!(db.storage.is_empty());

    let mut m = machine();
    push(&mut m, &[U256::ONE]);
    assert_eq!(m.opcode_sstore(&mut db), Err(Error::StackUnderflow));
    assert_eq!(m.stack.len(), 0);
}

#[test]
fn balances_and_code_of_accounts() {
    let mut db = MemoryDatabase::default();
    let other = Address([4; 20]);
    db.balances.insert(other, U256::new(500));
    db.balances.insert(CONTRACT, U256::new(42));
    db.codes.insert(other, vec![1, 2, 3, 4, 5]);

    let mut m = machine();
    push(&mut m, &[address_word(other)]);
    assert_eq!(m.opcode_balance(&mut db), Ok(Action::Continue));
    assert_eq!(m.stack.pop_u256().unwrap(), U256::new(500));

    m.opcode_selfbalance(&mut db).unwrap();
    assert_eq!(m.stack.pop_u256().unwrap(), U256::new(42));

    push(&mut m, &[address_word(other)]);
    m.opcode_extcodesize(&mut db).unwrap();
    assert_eq!(m.stack.pop_u256().unwrap(), U256::new(5));

    push(&mut m, &[U256::new(8), U256::new(3), U256::new(0), address_word(other)]);
    assert_eq!(m.opcode_extcodecopy(&mut db), Ok(Action::Continue));
    assert_eq!(&m.memory.to_vec()[..8], &[4, 5, 0, 0, 0, 0, 0, 0]);
    assert_eq!(m.memory.size(), 32);

    push(&mut m, &[address_word(other)]);
    m.opcode_extcodehash(&mut db).unwrap();
    let expected = solana_program::keccak::hash(&[1, 2, 3, 4, 5]).to_bytes();
    assert_eq!(m.stack.pop_array().unwrap(), expected);

    push(&mut m, &[address_word(Address([5; 20]))]);
    m.opcode_extcodehash(&mut db).unwrap();
    assert_eq!(m.stack.pop_array().unwrap(), [0; 32]);

    assert_eq!(m.opcode_balance(&mut db), Err(Error::StackUnderflow));
}

#[test]
fn block_values() {
    let mut db = MemoryDatabase::default();
    let mut m = machine();
    push(&mut m, &[U256::new(3)]);
    m.opcode_blockhash(&mut db).unwrap();
    assert_eq!(m.stack.pop_array().unwrap(), [3; 32]);
    m.opcode_number(&mut db).unwrap();
    assert_eq!(m.stack.pop_u256().unwrap(), U256::new(77));
    m.opcode_timestamp(&mut db).unwrap();
    assert_eq!(m.stack.pop_u256().unwrap(), U256::new(1_700_000_000));
}

#[test]
fn fork_then_join_restores_the_frame() {
    let mut m = machine();
    push(&mut m, &[U256::new(11)]);
    m.pc = 17;
    child_call(&mut m, 0, 0);
    assert_eq!(m.context.contract, Address([9; 20]));
    assert_eq!(m.stack.len(), 0);
    assert_eq!(m.pc, 0);
    assert_eq!(m.gas_limit, U256::new(1000));
    assert!(m.parent.is_some());
    let child = m.join();
    assert_eq!(child.context.contract, Address([9; 20]));
    assert!(child.parent.is_none());
    assert_eq!(m.context.contract, CONTRACT);
    assert_eq!(m.pc, 17);
    assert_eq!(m.stack.pop_u256().unwrap(), U256::new(11));
    assert!(m.parent.is_none());
}

#[test]
fn stop_ends_or_goes_back() {
    let mut db = MemoryDatabase::default();
    let mut m = machine();
    assert_eq!(m.opcode_stop(&mut db), Ok(Action::Stop));
    assert_eq!(db.commits, 1);

    let mut m = machine();
    child_call(&mut m, 0, 4);
    assert_eq!(m.opcode_stop(&mut db), Ok(Action::Continue));
    assert_eq!(m.context.contract, CONTRACT);
    assert_eq!(m.stack.pop_u256().unwrap(), U256::ONE);
    assert_eq!(m.memory.size(), 32);
}

#[test]
fn return_hands_data_to_the_caller() {
    let mut db = MemoryDatabase::default();
    let mut m = machine();
    child_call(&mut m, 2, 3);
    m.memory.write_32(0, &[0xee; 32]).unwrap();
    push(&mut m, &[U256::new(5), U256::new(0)]);
    assert_eq!(m.opcode_return(&mut db), Ok(Action::Continue));
    assert_eq!(m.stack.pop_u256().unwrap(), U256::ONE);
    assert_eq!(&m.memory.to_vec()[..6], &[0, 0, 0xee, 0xee, 0xee, 0]);
    assert_eq!(m.return_data.to_vec(), vec![0xee; 5]);

    let mut m = machine();
    m.memory.write_byte(1, 0x42).unwrap();
    push(&mut m, &[U256::new(2), U256::new(0)]);
    assert_eq!(m.opcode_return(&mut db), Ok(Action::Return(vec![0, 0x42])));
}

#[test]
fn return_from_creation_deploys_code() {
    let mut db = MemoryDatabase::default();
    let mut m = machine();
    let created = Address([8; 20]);
    let context = Context {
        caller: CONTRACT,
        contract: created,
        contract_chain_id: 1,
        value: U256::ZERO,
        code_address: None,
    };
    m.fork(Reason::Create, 1, context, Buffer::from_slice(&[0x00]), Buffer::empty(), None);
    assert_eq!(m.opcode_return_impl(vec![0x60, 0x00], &mut db), Ok(Action::Continue));
    assert_eq!(db.codes.get(&created), Some(&vec![0x60, 0x00]));
    assert_eq!(m.stack.pop_u256().unwrap(), address_word(created));
}

#[test]
fn revert_hands_data_back_as_failure() {
    let mut db = MemoryDatabase::default();
    let mut m = machine();
    child_call(&mut m, 0, 2);
    assert_eq!(m.opcode_revert_impl(vec![7, 8, 9], &mut db), Ok(Action::Continue));
    assert_eq!(db.reverts, 1);
    assert_eq!(m.stack.pop_u256().unwrap(), U256::ZERO);
    assert_eq!(&m.memory.to_vec()[..3], &[7, 8, 0]);
    assert_eq!(m.return_data.to_vec(), vec![7, 8, 9]);

    let mut m = machine();
    push(&mut m, &[U256::new(0), U256::new(0)]);
    assert_eq!(m.opcode_revert(&mut db), Ok(Action::Revert(vec![])));
}

#[test]
fn selfdestruct_sends_the_balance() {
    let mut db = MemoryDatabase::default();
    db.balances.insert(CONTRACT, U256::new(30));
    let heir = Address([6; 20]);
    let mut m = machine();
    push(&mut m, &[address_word(heir)]);
    assert_eq!(m.opcode_selfdestruct(&mut db), Ok(Action::Suicide));
    assert_eq!(db.balances.get(&heir), Some(&U256::new(30)));
    assert_eq!(db.destroyed, vec![CONTRACT]);

    let mut m = machine();
    m.is_static = true;
    push(&mut m, &[address_word(heir)]);
    assert_eq!(m.opcode_selfdestruct(&mut db), Err(Error::StaticModeViolation(CONTRACT)));
}

#[test]
fn log_fields_name_address_topics_and_data() {
    let mut m = machine();
    m.memory.write_byte(0, 0x55).unwrap();
    push(&mut m, &[U256::new(0xbb), U256::new(0xaa), U256::new(1), U256::new(0)]);
    let fields = m.opcode_log_0_4::<2>().unwrap();
    assert_eq!(fields.len(), 6);
    assert_eq!(fields[0], b"LOG2".to_vec());
    assert_eq!(fields[1], CONTRACT.0.to_vec());
    assert_eq!(fields[2], vec![2]);
    assert_eq!(fields[3], U256::new(0xaa).to_be_bytes().to_vec());
    assert_eq!(fields[4], U256::new(0xbb).to_be_bytes().to_vec());
    assert_eq!(fields[5], vec![0x55]);
    assert_eq!(m.stack.len(), 0);

    let mut m = machine();
    push(&mut m, &[U256::new(1), U256::new(0)]);
    assert_eq!(m.opcode_log_0_4::<1>(), Err(Error::StackUnderflow));

    let mut m = machine();
    m.is_static = true;
    assert_eq!(m.opcode_log_0_4::<0>(), Err(Error::StaticModeViolation(CONTRACT)));
}

#[test]
fn a_deployment_starts_a_create_frame() {
    let mut db = MemoryDatabase::default();
    let origin = Address([1; 20]);
    let target = Address([2; 20]);
    db.balances.insert(origin, U256::new(100));
    let m = Machine::new_create(1, origin, target, U256::new(40), U256::new(3), U256::new(9), &[0x60, 0x00], &mut db)
        .unwrap();
    assert_eq!(m.context.caller, origin);
    assert_eq!(m.context.contract, target);
    assert_eq!(m.context.value, U256::new(40));
    assert!(m.context.code_address.is_none());
    assert_eq!(m.execution_code.as_slice(), &[0x60, 0x00]);
    assert!(m.call_data.as_slice().is_empty());
    assert_eq!(m.reason, Reason::Create);
    assert_eq!(m.pc, 0);
    assert!(!m.is_static);
    assert_eq!(m.gas_price, U256::new(3));
    assert_eq!(m.gas_limit, U256::new(9));
    assert_eq!(db.nonces.get(&target), Some(&1));
    assert_eq!(db.balances.get(&target), Some(&U256::new(40)));
    assert_eq!(db.balances.get(&origin), Some(&U256::new(60)));
}

#[test]
fn a_deployment_to_an_account_with_a_nonce_or_code_is_refused() {
    let origin = Address([1; 20]);
    let target = Address([2; 20]);
    let mut db = MemoryDatabase::default();
    db.nonces.insert(target, 1);
    let r = Machine::new_create(1, origin, target, U256::ZERO, U256::ZERO, U256::ZERO, &[], &mut db);
    assert_eq!(r.err(), Some(Error::DeployToExistingAccount(target, origin)));
    assert_eq!(db.nonces.get(&target), Some(&1));

    let mut db = MemoryDatabase::default();
    db.codes.insert(target, vec![0x00]);
    let r = Machine::new_create(1, origin, target, U256::ZERO, U256::ZERO, U256::ZERO, &[], &mut db);
    assert_eq!(r.err(), Some(Error::DeployToExistingAccount(target, origin)));
    assert_eq!(db.nonces.get(&target), None);
}
