use evm_loader::account::ether_storage::{Cell, StorageCell};
use evm_loader::account::holder::Holder;
use evm_loader::error::Error;

fn holder(room: usize) -> Holder {
    Holder {
        owner: [7; 32],
        transaction_hash: [0; 32],
        transaction_len: 0,
        buffer: vec![0xee; room],
    }
}

#[test]
fn parts_written_in_any_order_make_up_the_transaction() {
    let mut h = holder(8);
    h.clear();
    assert_eq!(h.write(3, &[4, 5, 6]), Ok(()));
    assert_eq!(h.transaction_len(), 6);
    assert_eq!(h.write(0, &[1, 2, 3]), Ok(()));
    assert_eq!(h.transaction_len(), 6);
    assert_eq!(h.transaction(), &[1, 2, 3, 4, 5, 6]);
    assert_eq!(h.buffer, vec![1, 2, 3, 4, 5, 6, 0, 0]);
}

#[test]
fn a_write_past_the_buffer_is_refused() {
    let mut h = holder(4);
    assert_eq!(h.write(2, &[1, 2, 3]), Err(Error::HolderInsufficientSize(4, 5)));
    assert_eq!(h.buffer, vec![0xee; 4]);
    assert_eq!(h.transaction_len(), 5);
    assert_eq!(h.write(usize::MAX, &[1]), Err(Error::IntegerOverflow));
    assert_eq!(h.transaction_len(), 5);
}

#[test]
fn clearing_forgets_the_transaction() {
    let mut h = holder(3);
    h.transaction_hash = [9; 32];
    h.transaction_len = 2;
    h.clear();
    assert_eq!(h.transaction_hash(), [0; 32]);
    assert_eq!(h.transaction_len(), 0);
    assert_eq!(h.buffer, vec![0; 3]);
    assert_eq!(h.owner(), [7; 32]);
}

#[test]
fn a_new_transaction_hash_starts_over_and_the_same_one_keeps_all() {
    let mut h = holder(3);
    h.clear();
    h.write(0, &[1, 2]).unwrap();
    h.update_transaction_hash([5; 32]);
    assert_eq!(h.transaction_hash(), [5; 32]);
    assert_eq!(h.transaction_len(), 0);
    assert_eq!(h.buffer, vec![0; 3]);
    h.write(0, &[1, 2]).unwrap();
    h.update_transaction_hash([5; 32]);
    assert_eq!(h.transaction(), &[1, 2]);
}

#[test]
fn only_the_owner_may_use_the_holder() {
    let h = holder(1);
    assert_eq!(h.validate_owner(&[7; 32]), Ok(()));
    assert_eq!(h.validate_owner(&[8; 32]), Err(Error::HolderInvalidOwner([7; 32], [8; 32])));
}

#[test]
fn a_storage_cell_reads_back_what_was_stored() {
    let mut cell = StorageCell { cells: vec![Cell { subindex: 3, value: [3; 32] }] };
    assert_eq!(cell.get(3), [3; 32]);
    assert_eq!(cell.get(4), [0; 32]);
    cell.update(4, &[4; 32]);
    cell.update(3, &[9; 32]);
    assert_eq!(cell.get(3), [9; 32]);
    assert_eq!(cell.get(4), [4; 32]);
    assert_eq!(cell.cells.len(), 2);
    assert_eq!(cell.cells[0], Cell { subindex: 3, value: [9; 32] });
    assert_eq!(cell.cells[1], Cell { subindex: 4, value: [4; 32] });
}
