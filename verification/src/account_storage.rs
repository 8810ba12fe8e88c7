//! How the changes that an execution leaves behind are laid out on accounts.

use vstd::prelude::*;

use ethnum::U256;

use crate::account::ether_storage::{
    cell_value, cells_updated, lemma_cell_value_after_update, Cell, StorageCell,
};
use crate::executor::Action;
use crate::types::{addresses_equal, be_value, Address};
use crate::uint::{
    u256_as_usize, u256_bytes, u256_eq, u256_from_be_bytes, u256_lt, u256_new, u256_to_be_bytes,
    u256_value,
};

verus! {

/// Where a storage slot of a contract lives.
#[derive(Debug, Clone, Copy)]
pub enum StorageSlot {
    /// In the contract account itself, at this index.
    Contract(usize),
    /// In the storage cell account of the group of 256 slots that starts at `base`, under
    /// `subindex`.
    Cell { base: U256, subindex: u8 },
}

/// The slot `index` of a contract whose account holds the first `static_limit` slots: those
/// below the limit stay in the contract account; the others go, 256 to a cell, to the cell
/// of their index with the low byte cleared, under that low byte.
pub fn storage_slot(index: U256, static_limit: usize) -> (r: StorageSlot)
    ensures
        u256_value(index) < static_limit ==> r == StorageSlot::Contract(
            u256_value(index) as usize,
        ),
        u256_value(index) >= static_limit ==> (r matches StorageSlot::Cell { base, subindex }
            && subindex == u256_value(index) % 256 && u256_value(base) == u256_value(index)
            - u256_value(index) % 256),
{
    if u256_lt(index, u256_new(static_limit as u128)) {
        proof {
            vstd::arithmetic::div_mod::lemma_small_mod(
                u256_value(index),
                (usize::MAX as nat + 1) as nat,
            );
        }
        StorageSlot::Contract(u256_as_usize(index))
    } else {
        let bytes = u256_to_be_bytes(index);
        let subindex = bytes[31];
        let mut cleared = bytes;
        cleared[31] = 0;
        let base = u256_from_be_bytes(cleared);
        proof {
            let s = u256_bytes(index);
            assert(s.drop_last() =~= cleared@.drop_last());
            assert(s.last() == subindex);
            assert(cleared@.last() == 0);
            vstd::arithmetic::div_mod::lemma_fundamental_div_mod_converse(
                be_value(s) as int,
                256,
                be_value(s.drop_last()) as int,
                subindex as int,
            );
        }
        StorageSlot::Cell { base, subindex }
    }
}

/// A value to store in a slot of a contract.
#[derive(Debug)]
pub struct StorageWrite {
    pub address: Address,
    pub index: U256,
    pub value: [u8; 32],
}

/// The actions of `actions` that are not storage writes, in their order.
pub open spec fn non_storage(actions: Seq<Action>) -> Seq<Action>
    decreases actions.len(),
{
    if actions.len() == 0 {
        Seq::empty()
    } else if actions.last() is EvmSetStorage {
        non_storage(actions.drop_last())
    } else {
        non_storage(actions.drop_last()).push(actions.last())
    }
}

/// The value that the last storage write of `actions` to the slot `index` of `address`
/// stores, if one writes there.
pub open spec fn last_write(actions: Seq<Action>, address: Address, index: nat) -> Option<
    [u8; 32],
>
    decreases actions.len(),
{
    if actions.len() == 0 {
        None
    } else {
        match actions.last() {
            Action::EvmSetStorage { address: a, index: i, value } => {
                if a == address && u256_value(i) == index {
                    Some(value)
                } else {
                    last_write(actions.drop_last(), address, index)
                }
            },
            _ => last_write(actions.drop_last(), address, index),
        }
    }
}

/// `writes` stores, once per slot, the last value that `actions` writes to each slot.
pub open spec fn final_writes(actions: Seq<Action>, writes: Seq<StorageWrite>) -> bool {
    &&& forall|i: int, j: int|
        0 <= i < j < writes.len() ==> !(writes[i].address == writes[j].address && u256_value(
            writes[i].index,
        ) == u256_value(writes[j].index))
    &&& forall|i: int|
        0 <= i < writes.len() ==> last_write(actions, writes[i].address, u256_value(writes[i].index))
            == Some(writes[i].value)
    &&& forall|a: Address, k: nat|
        #[trigger] last_write(actions, a, k) is Some ==> exists|i: int|
            0 <= i < writes.len() && writes[i].address == a && u256_value(writes[i].index) == k
}

/// Orders the changes of an execution for applying: first the actions that are not storage
/// writes, in their order; then the storage writes, one per slot, each slot with the value
/// that the last write to it stores.
pub fn plan_state_change(actions: Vec<Action>) -> (r: (Vec<Action>, Vec<StorageWrite>))
    ensures
        r.0@ == non_storage(actions@),
        final_writes(actions@, r.1@),
{
    let ghost all = actions@;
    let mut rest = actions;
    let mut others: Vec<Action> = Vec::new();
    let mut writes: Vec<StorageWrite> = Vec::new();
    let mut n: usize = 0;
    let total: usize = rest.len();
    assert(total == all.len());
    assert(all.take(0) =~= Seq::<Action>::empty());
    while rest.len() > 0
        invariant
            all.len() == n + rest@.len(),
            all.len() <= usize::MAX,
            rest@ == all.skip(n as int),
            others@ == non_storage(all.take(n as int)),
            final_writes(all.take(n as int), writes@),
        decreases rest.len(),
    {
        let action = rest.remove(0);
        let ghost before = all.take(n as int);
        let ghost after = all.take(n + 1);
        proof {
            assert(after.drop_last() =~= before);
            assert(after.last() == action);
            assert(rest@ =~= all.skip(n + 1));
        }
        match action {
            Action::EvmSetStorage { address, index, value } => {
                let mut j: usize = 0;
                let mut found = false;
                while j < writes.len()
                    invariant_except_break
                        !found,
                    invariant
                        j <= writes.len(),
                        forall|k: int|
                            0 <= k < j ==> !(writes@[k].address == address && u256_value(
                                writes@[k].index,
                            ) == u256_value(index)),
                    ensures
                        found ==> j < writes.len() && writes@[j as int].address == address
                            && u256_value(writes@[j as int].index) == u256_value(index),
                        !found ==> j == writes.len(),
                    decreases writes.len() - j,
                {
                    if addresses_equal(&writes[j].address, &address) && u256_eq(
                        writes[j].index,
                        index,
                    ) {
                        found = true;
                        break;
                    }
                    j += 1;
                }
                let ghost old_writes = writes@;
                let write = StorageWrite { address, index, value };
                if found {
                    writes.set(j, write);
                } else {
                    writes.push(write);
                }
                proof {
                    assert forall|i: int| 0 <= i < writes@.len() implies last_write(
                        after,
                        writes@[i].address,
                        u256_value(writes@[i].index),
                    ) == Some(writes@[i].value) by {
                        if !found && i == old_writes.len() {
                            assert(writes@[i] == write);
                        } else if found && i == j {
                            assert(writes@[i] == write);
                        } else {
                            assert(writes@[i] == old_writes[i]);
                        }
                    }
                    assert forall|i: int, i2: int|
                        0 <= i < i2 < writes@.len() implies !(writes@[i].address
                        == writes@[i2].address && u256_value(writes@[i].index) == u256_value(
                        writes@[i2].index,
                    )) by {
                        if found {
                            if i != j && i2 != j {
                                assert(writes@[i] == old_writes[i]);
                                assert(writes@[i2] == old_writes[i2]);
                            } else if i == j {
                                assert(writes@[i2] == old_writes[i2]);
                            } else {
                                assert(writes@[i] == old_writes[i]);
                            }
                        } else {
                            assert(writes@[i] == old_writes[i]);
                            if i2 < old_writes.len() {
                                assert(writes@[i2] == old_writes[i2]);
                            }
                        }
                    }
                    assert forall|a: Address, k: nat| #[trigger]
                        last_write(after, a, k) is Some implies exists|i: int|
                        0 <= i < writes@.len() && writes@[i].address == a && u256_value(
                            writes@[i].index,
                        ) == k by {
                        if !(a == address && u256_value(index) == k) {
                            assert(last_write(before, a, k) is Some);
                            let i = choose|i: int|
                                0 <= i < old_writes.len() && old_writes[i].address == a
                                    && u256_value(old_writes[i].index) == k;
                            assert(writes@[i] == old_writes[i]);
                        } else if found {
                            assert(writes@[j as int] == write);
                        } else {
                            assert(writes@[old_writes.len() as int] == write);
                        }
                    }
                }
            },
            other => {
                others.push(other);
                proof {
                    assert forall|a: Address, k: nat|
                        last_write(after, a, k) == last_write(before, a, k) by {}
                }
            },
        }
        n += 1;
    }
    assert(all.take(n as int) =~= all);
    (others, writes)
}

/// The slots that a contract keeps in its own account, the first ones.
pub struct ContractStorage {
    pub address: Address,
    pub values: Vec<[u8; 32]>,
}

impl ContractStorage {
    /// The value of the slot `index` of the contract account.
    pub fn storage_value(&self, index: usize) -> (r: [u8; 32])
        requires
            index < self.values@.len(),
        ensures
            r == self.values@[index as int],
    {
        self.values[index]
    }

    /// Writes `value` into the slot `index` of the contract account.
    pub fn set_storage_value(&mut self, index: usize, value: &[u8; 32])
        requires
            index < old(self).values@.len(),
        ensures
            final(self).address == old(self).address,
            final(self).values@ == old(self).values@.update(index as int, *value),
    {
        self.values.set(index, *value);
    }
}

/// The storage cell account of the group of 256 slots of `address` that starts at `base`.
pub struct CellAccount {
    pub address: Address,
    pub base: U256,
    pub cell: StorageCell,
}

/// The accounts that hold the storage of contracts: the contract accounts, and the storage
/// cell accounts for the slots past what a contract account holds.
pub struct StorageAccounts {
    pub contracts: Vec<ContractStorage>,
    pub cells: Vec<CellAccount>,
}

/// The first contract account of `address` from position `i` on.
pub open spec fn contract_from(cs: Seq<ContractStorage>, address: Address, i: int) -> Option<int>
    decreases cs.len() - i,
{
    if i < 0 || i >= cs.len() {
        None
    } else if cs[i].address == address {
        Some(i)
    } else {
        contract_from(cs, address, i + 1)
    }
}

/// The first storage cell account of the group of `address` from `base`, from position `i`
/// on.
pub open spec fn cell_from(cells: Seq<CellAccount>, address: Address, base: nat, i: int) -> Option<
    int,
>
    decreases cells.len() - i,
{
    if i < 0 || i >= cells.len() {
        None
    } else if cells[i].address == address && u256_value(cells[i].base) == base {
        Some(i)
    } else {
        cell_from(cells, address, base, i + 1)
    }
}

/// What the slot `index` of `address` holds, where the first `static_limit` slots of a
/// contract are in its account: the value there, or in its storage cell, if one holds it.
pub open spec fn slot_value(
    contracts: Seq<ContractStorage>,
    cells: Seq<CellAccount>,
    static_limit: nat,
    address: Address,
    index: nat,
) -> Option<[u8; 32]> {
    if index < static_limit {
        match contract_from(contracts, address, 0) {
            Some(i) => Some(contracts[i].values@[index as int]),
            None => None,
        }
    } else {
        match cell_from(cells, address, (index - index % 256) as nat, 0) {
            Some(i) => cell_value(cells[i].cell.cells@, (index % 256) as u8),
            None => None,
        }
    }
}

/// Finding does not depend on what the accounts hold, only on whom they belong to.
proof fn lemma_contract_from_keys(cs: Seq<ContractStorage>, cs2: Seq<ContractStorage>, a: Address, i: int)
    requires
        cs2.len() == cs.len(),
        forall|j: int| 0 <= j < cs.len() ==> #[trigger] cs2[j].address == cs[j].address,
    ensures
        contract_from(cs2, a, i) == contract_from(cs, a, i),
    decreases cs.len() - i,
{
    if 0 <= i < cs.len() {
        lemma_contract_from_keys(cs, cs2, a, i + 1);
    }
}

proof fn lemma_cell_from_keys(
    cells: Seq<CellAccount>,
    cells2: Seq<CellAccount>,
    a: Address,
    base: nat,
    i: int,
)
    requires
        cells2.len() >= cells.len(),
        forall|j: int|
            0 <= j < cells.len() ==> #[trigger] cells2[j].address == cells[j].address
                && cells2[j].base == cells[j].base,
        cell_from(cells, a, base, i) is Some || forall|j: int|
            cells.len() <= j < cells2.len() ==> !(cells2[j].address == a && u256_value(
                cells2[j].base,
            ) == base),
    ensures
        cell_from(cells2, a, base, i) == cell_from(cells, a, base, i),
    decreases cells2.len() - i,
{
    if 0 <= i < cells2.len() {
        if i < cells.len() {
            assert(cells2[i].address == cells[i].address && cells2[i].base == cells[i].base);
            if !(cells[i].address == a && u256_value(cells[i].base) == base) {
                lemma_cell_from_keys(cells, cells2, a, base, i + 1);
            }
        } else {
            lemma_cell_from_keys(cells, cells2, a, base, i + 1);
        }
    }
}

/// The first match from `i` on is at `i` or past it, and holds the key.
proof fn lemma_cell_from_found(cells: Seq<CellAccount>, a: Address, base: nat, i: int)
    requires
        0 <= i,
    ensures
        cell_from(cells, a, base, i) matches Some(k) ==> i <= k < cells.len()
            && cells[k].address == a && u256_value(cells[k].base) == base,
        cell_from(cells, a, base, i) is None ==> forall|j: int|
            i <= j < cells.len() ==> !(cells[j].address == a && u256_value(cells[j].base)
                == base),
    decreases cells.len() - i,
{
    if 0 <= i < cells.len() {
        lemma_cell_from_found(cells, a, base, i + 1);
    }
}

proof fn lemma_contract_from_found(cs: Seq<ContractStorage>, a: Address, i: int)
    ensures
        contract_from(cs, a, i) matches Some(k) ==> i <= k < cs.len() && cs[k].address == a,
    decreases cs.len() - i,
{
    if 0 <= i < cs.len() {
        lemma_contract_from_found(cs, a, i + 1);
    }
}

impl StorageAccounts {
    /// The contract account of `address`, if there is one.
    pub fn find_contract(&self, address: &Address) -> (r: Option<usize>)
        ensures
            r matches Some(i) ==> contract_from(self.contracts@, *address, 0) == Some(i as int),
            r is None <==> contract_from(self.contracts@, *address, 0) is None,
    {
        let mut i: usize = 0;
        while i < self.contracts.len()
            invariant
                i <= self.contracts@.len(),
                contract_from(self.contracts@, *address, 0) == contract_from(
                    self.contracts@,
                    *address,
                    i as int,
                ),
            decreases self.contracts@.len() - i,
        {
            if addresses_equal(&self.contracts[i].address, address) {
                return Some(i);
            }
            i += 1;
        }
        None
    }

    /// The storage cell account of the group of `address` from `base`, if there is one.
    pub fn find_cell(&self, address: &Address, base: U256) -> (r: Option<usize>)
        ensures
            r matches Some(i) ==> cell_from(self.cells@, *address, u256_value(base), 0) == Some(
                i as int,
            ),
            r is None <==> cell_from(self.cells@, *address, u256_value(base), 0) is None,
    {
        let mut i: usize = 0;
        while i < self.cells.len()
            invariant
                i <= self.cells@.len(),
                cell_from(self.cells@, *address, u256_value(base), 0) == cell_from(
                    self.cells@,
                    *address,
                    u256_value(base),
                    i as int,
                ),
            decreases self.cells@.len() - i,
        {
            if addresses_equal(&self.cells[i].address, address) && u256_eq(self.cells[i].base, base) {
                return Some(i);
            }
            i += 1;
        }
        None
    }

    /// Stores `value` in the slot `index` of `address`: in the contract account below the
    /// static limit, else in the storage cell of its group, which is created where there is
    /// none yet. No other slot changes.
    #[verifier::rlimit(40)]
    pub fn store(&mut self, static_limit: usize, address: Address, index: U256, value: [u8; 32])
        requires
            forall|i: int|
                0 <= i < old(self).contracts@.len() ==> (#[trigger] old(self).contracts@[i]).values@.len()
                    == static_limit,
            u256_value(index) < static_limit ==> contract_from(old(self).contracts@, address, 0) is Some,
        ensures
            final(self).contracts@.len() == old(self).contracts@.len(),
            forall|i: int|
                0 <= i < final(self).contracts@.len() ==> (#[trigger] final(self).contracts@[i]).address
                    == old(self).contracts@[i].address && final(self).contracts@[i].values@.len()
                    == static_limit,
            slot_value(
                final(self).contracts@,
                final(self).cells@,
                static_limit as nat,
                address,
                u256_value(index),
            ) == Some(value),
            forall|a: Address, k: nat|
                !(a == address && k == u256_value(index)) ==> #[trigger] slot_value(
                    final(self).contracts@,
                    final(self).cells@,
                    static_limit as nat,
                    a,
                    k,
                ) == slot_value(old(self).contracts@, old(self).cells@, static_limit as nat, a, k),
    {
        let ghost cs0 = self.contracts@;
        let ghost cells0 = self.cells@;
        let ghost k0 = u256_value(index);
        match storage_slot(index, static_limit) {
            StorageSlot::Contract(k) => {
                let i = self.find_contract(&address).unwrap();
                proof {
                    lemma_contract_from_found(cs0, address, 0);
                }
                let mut contract = self.contracts.remove(i);
                contract.values.set(k, value);
                self.contracts.insert(i, contract);
                proof {
                    let cs1 = self.contracts@;
                    assert(cs1 =~= cs0.update(i as int, cs1[i as int]));
                    assert forall|j: int| 0 <= j < cs0.len() implies #[trigger] cs1[j].address
                        == cs0[j].address by {}
                    assert forall|a: Address, kk: nat|
                        !(a == address && kk == k0) implies #[trigger] slot_value(
                        cs1,
                        self.cells@,
                        static_limit as nat,
                        a,
                        kk,
                    ) == slot_value(cs0, cells0, static_limit as nat, a, kk) by {
                        lemma_contract_from_keys(cs0, cs1, a, 0);
                        lemma_contract_from_found(cs0, a, 0);
                    }
                    lemma_contract_from_keys(cs0, cs1, address, 0);
                    assert(cs1[i as int].values@[k0 as int] == value);
                    assert(slot_value(cs1, cells0, static_limit as nat, address, k0) == Some(value));
                }
            },
            StorageSlot::Cell { base, subindex } => {
                let ghost b0 = u256_value(base);
                match self.find_cell(&address, base) {
                    Some(i) => {
                        proof {
                            lemma_cell_from_found(cells0, address, b0, 0);
                        }
                        let mut account = self.cells.remove(i);
                        let ghost old_cells = account.cell.cells@;
                        account.cell.update(subindex, &value);
                        self.cells.insert(i, account);
                        proof {
                            let cells1 = self.cells@;
                            assert(cells1 =~= cells0.update(i as int, cells1[i as int]));
                            assert forall|j: int| 0 <= j < cells0.len() implies #[trigger] cells1[j].address
                                == cells0[j].address && cells1[j].base == cells0[j].base by {}
                            lemma_cell_value_after_update(old_cells, subindex, value, subindex);
                            lemma_cell_from_keys(cells0, cells1, address, b0, 0);
                            assert((k0 % 256) as u8 == subindex);
                            assert((k0 - k0 % 256) as nat == b0);
                            assert(cells1[i as int].cell.cells@ == cells_updated(old_cells, subindex, value));
                            assert(cell_from(cells1, address, b0, 0) == Some(i as int));
                            assert(slot_value(cs0, cells1, static_limit as nat, address, k0) == Some(value));
                            assert forall|a: Address, kk: nat|
                                !(a == address && kk == k0) implies #[trigger] slot_value(
                                self.contracts@,
                                cells1,
                                static_limit as nat,
                                a,
                                kk,
                            ) == slot_value(cs0, cells0, static_limit as nat, a, kk) by {
                                let bb = (kk - kk % 256) as nat;
                                if kk >= static_limit {
                                    lemma_cell_from_keys(cells0, cells1, a, bb, 0);
                                    lemma_cell_from_found(cells0, a, bb, 0);
                                    match cell_from(cells0, a, bb, 0) {
                                        Some(j) => {
                                            if j == i {
                                                lemma_cell_from_found(cells0, address, b0, 0);
                                                assert(a == address && bb == b0);
                                                assert(kk % 256 != k0 % 256);
                                                assert((kk % 256) as u8 != subindex);
                                                lemma_cell_value_after_update(
                                                    old_cells,
                                                    subindex,
                                                    value,
                                                    (kk % 256) as u8,
                                                );
                                            } else {
                                                assert(cells1[j] == cells0[j]);
                                            }
                                        },
                                        None => {},
                                    }
                                }
                            }
                        }
                    },
                    None => {
                        proof {
                            lemma_cell_from_found(cells0, address, b0, 0);
                        }
                        let mut cells: Vec<Cell> = Vec::new();
                        cells.push(Cell { subindex, value });
                        self.cells.push(CellAccount { address, base, cell: StorageCell { cells } });
                        proof {
                            let cells1 = self.cells@;
                            let added = cells1[cells0.len() as int].cell.cells@;
                            assert(added.drop_first() =~= Seq::<Cell>::empty());
                            assert(cell_value(added, subindex) == Some(value));
                            assert forall|j: int| 0 <= j < cells0.len() implies #[trigger] cells1[j].address
                                == cells0[j].address && cells1[j].base == cells0[j].base by {}
                            assert(cell_from(cells1, address, b0, 0) == Some(cells0.len() as int)) by {
                                lemma_cell_from_keys(cells0, cells1.drop_last(), address, b0, 0);
                                lemma_cell_from_found(cells1, address, b0, 0);
                                lemma_cell_from_found(cells0, address, b0, 0);
                                if cell_from(cells1, address, b0, 0) is None {
                                    assert(false);
                                }
                            }
                            assert((k0 % 256) as u8 == subindex);
                            assert((k0 - k0 % 256) as nat == b0);
                            assert(cells1[cells0.len() as int].cell.cells@ == added);
                            assert(slot_value(cs0, cells1, static_limit as nat, address, k0) == Some(value));
                            assert forall|a: Address, kk: nat|
                                !(a == address && kk == k0) implies #[trigger] slot_value(
                                self.contracts@,
                                cells1,
                                static_limit as nat,
                                a,
                                kk,
                            ) == slot_value(cs0, cells0, static_limit as nat, a, kk) by {
                                let bb = (kk - kk % 256) as nat;
                                assert(self.contracts@ == cs0);
                                if kk >= static_limit {
                                    if a == address && bb == b0 {
                                        assert(kk % 256 != k0 % 256);
                                        assert((kk % 256) as u8 != subindex);
                                        assert(cell_value(added, (kk % 256) as u8) == cell_value(
                                            added.drop_first(),
                                            (kk % 256) as u8,
                                        ));
                                        assert(cell_value(added, (kk % 256) as u8) is None);
                                        assert(cells1[cells0.len() as int].cell.cells@ == added);
                                        assert(slot_value(
                                            self.contracts@,
                                            cells1,
                                            static_limit as nat,
                                            a,
                                            kk,
                                        ) is None);
                                        assert(cell_from(cells0, a, bb, 0) is None);
                                    } else {
                                        assert(cells1.len() == cells0.len() + 1);
                                        assert(cells1[cells0.len() as int].address == address);
                                        assert(cells1[cells0.len() as int].base == base);
                                        lemma_cell_from_keys(cells0, cells1, a, bb, 0);
                                        lemma_cell_from_found(cells0, a, bb, 0);
                                        match cell_from(cells0, a, bb, 0) {
                                            Some(j) => {
                                                assert(cells1[j] == cells0[j]);
                                            },
                                            None => {},
                                        }
                                    }
                                }
                            }
                        }
                    },
                }
            },
        }
    }

    /// Stores every write in its slot, as `store` does. The writes go to distinct slots, so
    /// each slot holds the value written to it, and the slots not written keep theirs.
    pub fn apply_storage(&mut self, static_limit: usize, writes: Vec<StorageWrite>)
        requires
            forall|i: int|
                0 <= i < old(self).contracts@.len() ==> (#[trigger] old(self).contracts@[i]).values@.len()
                    == static_limit,
            forall|i: int, j: int|
                0 <= i < j < writes@.len() ==> !(writes@[i].address == writes@[j].address
                    && u256_value(writes@[i].index) == u256_value(writes@[j].index)),
            forall|j: int|
                0 <= j < writes@.len() && u256_value(#[trigger] writes@[j].index) < static_limit
                    ==> contract_from(old(self).contracts@, writes@[j].address, 0) is Some,
        ensures
            forall|j: int|
                0 <= j < writes@.len() ==> slot_value(
                    final(self).contracts@,
                    final(self).cells@,
                    static_limit as nat,
                    (#[trigger] writes@[j]).address,
                    u256_value(writes@[j].index),
                ) == Some(writes@[j].value),
            forall|a: Address, k: nat|
                (forall|j: int|
                    0 <= j < writes@.len() ==> !(#[trigger] writes@[j].address == a && u256_value(
                        writes@[j].index,
                    ) == k)) ==> #[trigger] slot_value(
                    final(self).contracts@,
                    final(self).cells@,
                    static_limit as nat,
                    a,
                    k,
                ) == slot_value(old(self).contracts@, old(self).cells@, static_limit as nat, a, k),
    {
        let ghost cs0 = self.contracts@;
        let ghost cells0 = self.cells@;
        let mut n: usize = 0;
        while n < writes.len()
            invariant
                n <= writes@.len(),
                self.contracts@.len() == cs0.len(),
                forall|i: int|
                    0 <= i < self.contracts@.len() ==> (#[trigger] self.contracts@[i]).address
                        == cs0[i].address && self.contracts@[i].values@.len() == static_limit,
                forall|i: int, j: int|
                    0 <= i < j < writes@.len() ==> !(writes@[i].address == writes@[j].address
                        && u256_value(writes@[i].index) == u256_value(writes@[j].index)),
                forall|j: int|
                    0 <= j < writes@.len() && u256_value(#[trigger] writes@[j].index) < static_limit
                        ==> contract_from(cs0, writes@[j].address, 0) is Some,
                forall|j: int|
                    0 <= j < n ==> slot_value(
                        self.contracts@,
                        self.cells@,
                        static_limit as nat,
                        (#[trigger] writes@[j]).address,
                        u256_value(writes@[j].index),
                    ) == Some(writes@[j].value),
                forall|a: Address, k: nat|
                    (forall|j: int|
                        0 <= j < n ==> !(#[trigger] writes@[j].address == a && u256_value(
                            writes@[j].index,
                        ) == k)) ==> #[trigger] slot_value(
                        self.contracts@,
                        self.cells@,
                        static_limit as nat,
                        a,
                        k,
                    ) == slot_value(cs0, cells0, static_limit as nat, a, k),
            decreases writes@.len() - n,
        {
            let ghost csn = self.contracts@;
            let ghost cellsn = self.cells@;
            let w = &writes[n];
            proof {
                lemma_contract_from_keys(cs0, csn, w.address, 0);
            }
            self.store(static_limit, w.address, w.index, w.value);
            proof {
                assert forall|j: int| 0 <= j < n + 1 implies slot_value(
                    self.contracts@,
                    self.cells@,
                    static_limit as nat,
                    (#[trigger] writes@[j]).address,
                    u256_value(writes@[j].index),
                ) == Some(writes@[j].value) by {
                    if j < n {
                        assert(!(writes@[j].address == w.address && u256_value(writes@[j].index)
                            == u256_value(w.index)));
                    }
                }
                assert forall|a: Address, k: nat|
                    (forall|j: int|
                        0 <= j < n + 1 ==> !(#[trigger] writes@[j].address == a && u256_value(
                            writes@[j].index,
                        ) == k)) implies #[trigger] slot_value(
                    self.contracts@,
                    self.cells@,
                    static_limit as nat,
                    a,
                    k,
                ) == slot_value(cs0, cells0, static_limit as nat, a, k) by {
                    assert(!(writes@[n as int].address == a && u256_value(writes@[n as int].index)
                        == k));
                    assert(forall|j: int|
                        0 <= j < n ==> !(#[trigger] writes@[j].address == a && u256_value(
                            writes@[j].index,
                        ) == k));
                }
            }
            n += 1;
        }
    }
}

} // verus!
