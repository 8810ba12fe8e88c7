use ethnum::U256;
use evm_loader::account::program::{seed_account_plan, SeedAccountPlan};
use evm_loader::account::state::{state_source, StateSource};
use evm_loader::account::{AccountInfo, TAG_HOLDER, TAG_STATE, TAG_STATE_FINALIZED};
use evm_loader::account_storage::{
    plan_state_change, storage_slot, ContractStorage, StorageAccounts, StorageSlot, StorageWrite,
};
use evm_loader::error::Error;
use evm_loader::executor::Action;
use evm_loader::machine::ExitStatus;
use evm_loader::tracing::EmulationResult;
use evm_loader::types::Address;

fn account(tag: u8) -> AccountInfo {
    AccountInfo {
        key: [0xaa; 32],
        owner: [0xbb; 32],
        data: vec![tag, 0, 1, 2, 3],
    }
}

#[test]
fn slots_below_the_limit_stay_in_the_contract() {
    match storage_slot(U256::new(5), 64) {
        StorageSlot::Contract(index) => assert_eq!(index, 5),
        other => panic!("unexpected {:?}", other),
    }
    match storage_slot(U256::new(63), 64) {
        StorageSlot::Contract(index) => assert_eq!(index, 63),
        other => panic!("unexpected {:?}", other),
    }
}

#[test]
fn slots_from_the_limit_go_to_cells_of_256() {
    match storage_slot(U256::new(64), 64) {
        StorageSlot::Cell { base, subindex } => {
            assert_eq!(base, U256::ZERO);
            assert_eq!(subindex, 64);
        }
        other => panic!("unexpected {:?}", other),
    }
    match storage_slot(U256::new(0x1234), 64) {
        StorageSlot::Cell { base, subindex } => {
            assert_eq!(base, U256::new(0x1200));
            assert_eq!(subindex, 0x34);
        }
        other => panic!("unexpected {:?}", other),
    }
    match storage_slot(U256::MAX, 64) {
        StorageSlot::Cell { base, subindex } => {
            assert_eq!(base, U256::MAX - U256::new(0xff));
            assert_eq!(subindex, 0xff);
        }
        other => panic!("unexpected {:?}", other),
    }
}

#[test]
fn the_last_storage_write_wins_and_comes_after_the_other_actions() {
    let a = Address([1; 20]);
    let b = Address([2; 20]);
    let actions = vec![
        Action::EvmSetStorage { address: a, index: U256::new(1), value: [1; 32] },
        Action::Transfer { source: a, target: b, chain_id: 7, value: U256::new(10) },
        Action::EvmSetStorage { address: a, index: U256::new(1), value: [2; 32] },
        Action::EvmSetStorage { address: b, index: U256::new(1), value: [3; 32] },
        Action::EvmIncrementNonce { address: a, chain_id: 7 },
        Action::EvmSetStorage { address: a, index: U256::new(2), value: [4; 32] },
    ];
    let (others, writes) = plan_state_change(actions);
    assert_eq!(others.len(), 2);
    assert!(matches!(others[0], Action::Transfer { chain_id: 7, .. }));
    assert!(matches!(others[1], Action::EvmIncrementNonce { chain_id: 7, .. }));
    assert_eq!(writes.len(), 3);
    assert_eq!((writes[0].address, writes[0].index, writes[0].value), (a, U256::new(1), [2; 32]));
    assert_eq!((writes[1].address, writes[1].index, writes[1].value), (b, U256::new(1), [3; 32]));
    assert_eq!((writes[2].address, writes[2].index, writes[2].value), (a, U256::new(2), [4; 32]));
}

#[test]
fn a_plan_without_storage_writes_keeps_every_action() {
    let a = Address([1; 20]);
    let actions = vec![
        Action::EvmSelfDestruct { address: a },
        Action::Burn { source: a, chain_id: 1, value: U256::new(3) },
    ];
    let (others, writes) = plan_state_change(actions);
    assert_eq!(others.len(), 2);
    assert!(matches!(others[0], Action::EvmSelfDestruct { .. }));
    assert!(matches!(others[1], Action::Burn { chain_id: 1, .. }));
    assert!(writes.is_empty());
}

#[test]
fn an_empty_account_is_created_with_the_rent_minimum() {
    assert_eq!(seed_account_plan(0, 890_880), SeedAccountPlan::Create { lamports: 890_880 });
    assert_eq!(seed_account_plan(0, 0), SeedAccountPlan::Create { lamports: 1 });
}

#[test]
fn a_funded_account_gets_only_what_it_lacks() {
    assert_eq!(
        seed_account_plan(100, 890_880),
        SeedAccountPlan::AllocateAndAssign { top_up: 890_780 }
    );
    assert_eq!(
        seed_account_plan(1_000_000, 890_880),
        SeedAccountPlan::AllocateAndAssign { top_up: 0 }
    );
    assert_eq!(seed_account_plan(5, 0), SeedAccountPlan::AllocateAndAssign { top_up: 0 });
}

#[test]
fn a_state_account_is_made_from_a_holder_or_a_finalized_state() {
    let program_id = [0xbb; 32];
    assert_eq!(state_source(&program_id, &account(TAG_HOLDER)), Ok(StateSource::Holder));
    assert_eq!(
        state_source(&program_id, &account(TAG_STATE_FINALIZED)),
        Ok(StateSource::Finalized)
    );
    assert_eq!(
        state_source(&program_id, &account(TAG_STATE)),
        Err(Error::AccountInvalidTag([0xaa; 32], TAG_STATE))
    );
    assert_eq!(
        state_source(&[0xcc; 32], &account(TAG_HOLDER)),
        Err(Error::AccountInvalidOwner([0xaa; 32], [0xcc; 32]))
    );
}

#[test]
fn an_emulation_result_carries_the_actions() {
    let result = EmulationResult {
        exit_status: ExitStatus::Stop,
        steps_executed: 3,
        used_gas: 0,
        actions: vec![Action::EvmSelfDestruct { address: Address([9; 20]) }],
    };
    assert_eq!(result.steps_executed, 3);
    assert_eq!(result.actions.len(), 1);
    assert!(matches!(result.exit_status, ExitStatus::Stop));
}

fn accounts() -> StorageAccounts {
    StorageAccounts {
        contracts: vec![ContractStorage { address: Address([1; 20]), values: vec![[0; 32]; 4] }],
        cells: vec![],
    }
}

#[test]
fn slots_are_stored_in_the_contract_or_in_cells() {
    let a = Address([1; 20]);
    let mut acc = accounts();
    let writes = vec![
        StorageWrite { address: a, index: U256::new(2), value: [7; 32] },
        StorageWrite { address: a, index: U256::new(0x105), value: [8; 32] },
        StorageWrite { address: a, index: U256::new(0x1ff), value: [9; 32] },
        StorageWrite { address: a, index: U256::new(4), value: [6; 32] },
    ];
    acc.apply_storage(4, writes);
    assert_eq!(acc.contracts[0].values[2], [7; 32]);
    assert_eq!(acc.contracts[0].values[0], [0; 32]);
    assert_eq!(acc.cells.len(), 2);
    assert_eq!(acc.cells[0].base, U256::new(0x100));
    assert_eq!(acc.cells[0].cell.get(5), [8; 32]);
    assert_eq!(acc.cells[0].cell.get(0xff), [9; 32]);
    assert_eq!(acc.cells[1].base, U256::ZERO);
    assert_eq!(acc.cells[1].cell.get(4), [6; 32]);
    assert_eq!(acc.find_cell(&a, U256::new(0x100)), Some(0));
    assert_eq!(acc.find_contract(&Address([2; 20])), None);
}

#[test]
fn a_store_into_an_existing_cell_updates_it() {
    let a = Address([1; 20]);
    let mut acc = accounts();
    acc.store(4, a, U256::new(0x300), [1; 32]);
    acc.store(4, a, U256::new(0x300), [2; 32]);
    assert_eq!(acc.cells.len(), 1);
    assert_eq!(acc.cells[0].cell.cells.len(), 1);
    assert_eq!(acc.cells[0].cell.get(0), [2; 32]);
}

#[test]
fn a_contract_account_reads_back_its_slots() {
    let mut c = ContractStorage { address: Address([1; 20]), values: vec![[0; 32]; 2] };
    c.set_storage_value(1, &[5; 32]);
    assert_eq!(c.storage_value(1), [5; 32]);
    assert_eq!(c.storage_value(0), [0; 32]);
}
