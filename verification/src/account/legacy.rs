use vstd::prelude::*;

use ethnum::U256;

use vstd::bytes::{spec_u32_from_le_bytes, spec_u64_from_le_bytes, u32_from_le_bytes, u64_from_le_bytes};

use crate::account::ether_account::Data;
use crate::account::ether_storage::Cell;
use crate::account::{spec_tag, validate_tag, AccountInfo};
use crate::error::Error;
use crate::types::Address;
use crate::utils::word_at;
use crate::uint::{u256_from_le_bytes, u256_of};

verus! {

pub const TAG_STATE_DEPRECATED: u8 = 22;

pub const TAG_STATE_FINALIZED_DEPRECATED: u8 = 31;

pub const TAG_HOLDER_DEPRECATED: u8 = 51;

pub const TAG_ACCOUNT_CONTRACT_DEPRECATED: u8 = 12;

pub const TAG_STORAGE_CELL_DEPRECATED: u8 = 42;

pub const TAG_STATE_BEFORE_REVISION: u8 = 23;

/// The tags that only accounts of an earlier layout carry.
pub open spec fn legacy_tags() -> Set<u8> {
    set![
        TAG_ACCOUNT_CONTRACT_DEPRECATED,
        TAG_STORAGE_CELL_DEPRECATED,
        TAG_HOLDER_DEPRECATED,
        TAG_STATE_FINALIZED_DEPRECATED,
        TAG_STATE_DEPRECATED,
        TAG_STATE_BEFORE_REVISION,
    ]
}

/// Whether `tag` marks an account of an earlier layout.
pub fn is_legacy_tag(tag: u8) -> (r: bool)
    ensures
        r == legacy_tags().contains(tag),
{
    tag == TAG_ACCOUNT_CONTRACT_DEPRECATED || tag == TAG_STORAGE_CELL_DEPRECATED || tag
        == TAG_HOLDER_DEPRECATED || tag == TAG_STATE_FINALIZED_DEPRECATED || tag
        == TAG_STATE_DEPRECATED || tag == TAG_STATE_BEFORE_REVISION
}

/// The data of an Ethereum account of the earlier layout: laid out as the current one.
pub struct LegacyEtherData {
    pub address: Address,
    pub bump_seed: u8,
    pub trx_count: u64,
    pub balance: U256,
    pub generation: u32,
    pub code_size: u32,
    pub rw_blocked: bool,
}

impl LegacyEtherData {
    pub const TAG: u8 = TAG_ACCOUNT_CONTRACT_DEPRECATED;

    pub const SIZE: usize = 70;

    /// `d` is what the stored form `b` holds: the layout of the current account data.
    pub open spec fn decodes(b: Seq<u8>, d: LegacyEtherData) -> bool {
        &&& d.address.0@ == b.subrange(0, 20)
        &&& d.bump_seed == b[20]
        &&& d.trx_count == spec_u64_from_le_bytes(b.subrange(21, 29))
        &&& u256_of(b.subrange(29, 61).reverse(), d.balance)
        &&& d.generation == spec_u32_from_le_bytes(b.subrange(61, 65))
        &&& d.code_size == spec_u32_from_le_bytes(b.subrange(65, 69))
        &&& d.rw_blocked == (b[69] != 0)
    }

    /// Reads the data from the first `SIZE` bytes of `input`.
    pub fn unpack(input: &[u8]) -> (r: Self)
        requires
            input@.len() >= LegacyEtherData::SIZE,
        ensures
            LegacyEtherData::decodes(input@, r),
    {
        let d = Data::unpack(input);
        LegacyEtherData {
            address: d.address,
            bump_seed: d.bump_seed,
            trx_count: d.trx_count,
            balance: d.balance,
            generation: d.generation,
            code_size: d.code_size,
            rw_blocked: d.rw_blocked,
        }
    }

    /// Reads the data of an account of the earlier layout: its tag, then the data.
    pub fn from_account(program_id: &[u8; 32], account: &AccountInfo) -> (r: Result<Self, Error>)
        requires
            spec_tag(*program_id, *account) == Ok::<u8, Error>(LegacyEtherData::TAG)
                ==> account.data@.len() >= 1 + LegacyEtherData::SIZE,
        ensures
            match spec_tag(*program_id, *account) {
                Err(e) => r == Err::<Self, Error>(e),
                Ok(t) => if t == LegacyEtherData::TAG {
                    r matches Ok(v) && LegacyEtherData::decodes(account.data@.skip(1), v)
                } else {
                    r == Err::<Self, Error>(Error::AccountInvalidTag(account.key, LegacyEtherData::TAG))
                },
            },
    {
        validate_tag(program_id, account, Self::TAG)?;
        let rest = vstd::slice::slice_subrange(account.data.as_slice(), 1, account.data.len());
        assert(rest@ =~= account.data@.skip(1));
        Ok(Self::unpack(rest))
    }
}

/// The number of bytes of a stored cell: its subindex, then its value.
pub const CELL_SIZE: usize = 33;

/// The value of the first of the cells stored in `b` from cell `i` on whose subindex is
/// `subindex`; zero where none is.
pub open spec fn stored_cell_value(b: Seq<u8>, subindex: u8, i: nat) -> Seq<u8>
    decreases b.len() / 33 - i,
{
    if i >= b.len() / 33 {
        Seq::new(32, |k: int| 0u8)
    } else if b[33 * i as int] == subindex {
        b.subrange(33 * i as int + 1, 33 * i as int + 33)
    } else {
        stored_cell_value(b, subindex, i + 1)
    }
}

/// A storage cell of the earlier layout: the contract, its generation and the slot index.
pub struct LegacyStorageData {
    pub address: Address,
    pub generation: u32,
    pub index: U256,
}

impl LegacyStorageData {
    pub const TAG: u8 = TAG_STORAGE_CELL_DEPRECATED;

    pub const SIZE: usize = 56;

    /// `d` is what the stored form `b` holds: the address, the generation and the index in
    /// little-endian.
    pub open spec fn decodes(b: Seq<u8>, d: LegacyStorageData) -> bool {
        &&& d.address.0@ == b.subrange(0, 20)
        &&& d.generation == spec_u32_from_le_bytes(b.subrange(20, 24))
        &&& u256_of(b.subrange(24, 56).reverse(), d.index)
    }

    /// Reads the data from the first `SIZE` bytes of `input`.
    pub fn unpack(input: &[u8]) -> (r: Self)
        requires
            input@.len() >= LegacyStorageData::SIZE,
        ensures
            LegacyStorageData::decodes(input@, r),
    {
        let mut address = [0u8; 20];
        let mut i: usize = 0;
        while i < 20
            invariant
                i <= 20,
                input@.len() >= 56,
                forall|j: int| 0 <= j < i ==> address@[j] == input@[j],
            decreases 20 - i,
        {
            address[i] = input[i];
            i += 1;
        }
        assert(address@ =~= input@.subrange(0, 20));
        let mut index = [0u8; 32];
        let mut k: usize = 0;
        while k < 32
            invariant
                k <= 32,
                input@.len() >= 56,
                forall|j: int| 0 <= j < k ==> index@[j] == input@[24 + j],
            decreases 32 - k,
        {
            index[k] = input[24 + k];
            k += 1;
        }
        assert(index@ =~= input@.subrange(24, 56));
        LegacyStorageData {
            address: Address(address),
            generation: u32_from_le_bytes(vstd::slice::slice_subrange(input, 20, 24)),
            index: u256_from_le_bytes(index),
        }
    }

    /// Reads the data of a storage account of the earlier layout: its tag, then the data.
    pub fn from_account(program_id: &[u8; 32], account: &AccountInfo) -> (r: Result<Self, Error>)
        requires
            spec_tag(*program_id, *account) == Ok::<u8, Error>(LegacyStorageData::TAG)
                ==> account.data@.len() >= 1 + LegacyStorageData::SIZE,
        ensures
            match spec_tag(*program_id, *account) {
                Err(e) => r == Err::<Self, Error>(e),
                Ok(t) => if t == LegacyStorageData::TAG {
                    r matches Ok(v) && LegacyStorageData::decodes(account.data@.skip(1), v)
                } else {
                    r == Err::<Self, Error>(
                        Error::AccountInvalidTag(account.key, LegacyStorageData::TAG),
                    )
                },
            },
    {
        validate_tag(program_id, account, Self::TAG)?;
        let rest = vstd::slice::slice_subrange(account.data.as_slice(), 1, account.data.len());
        assert(rest@ =~= account.data@.skip(1));
        Ok(Self::unpack(rest))
    }

    /// The cells that follow the data in the account, each a subindex and a value.
    pub fn read_cells(&self, account: &AccountInfo) -> (r: Vec<Cell>)
        requires
            account.data@.len() >= 1 + LegacyStorageData::SIZE,
            (account.data@.len() - (1 + LegacyStorageData::SIZE)) % 33 == 0,
        ensures
            ({
                let b = account.data@.skip(1 + LegacyStorageData::SIZE);
                &&& r@.len() == b.len() / 33
                &&& forall|i: int|
                    0 <= i < r@.len() ==> (#[trigger] r@[i]).subindex == b[33 * i] && r@[i].value@
                        == b.subrange(33 * i + 1, 33 * i + 33)
            }),
    {
        let offset: usize = 1 + Self::SIZE;
        let data = vstd::slice::slice_subrange(account.data.as_slice(), offset, account.data.len());
        let ghost b = account.data@.skip(1 + LegacyStorageData::SIZE);
        assert(data@ =~= b);
        let n: usize = data.len() / CELL_SIZE;
        let mut cells: Vec<Cell> = Vec::new();
        let mut i: usize = 0;
        while i < n
            invariant
                i <= n,
                n == b.len() / 33,
                data@ == b,
                b.len() % 33 == 0,
                b.len() <= usize::MAX,
                cells@.len() == i,
                forall|k: int|
                    0 <= k < i ==> (#[trigger] cells@[k]).subindex == b[33 * k] && cells@[k].value@
                        == b.subrange(33 * k + 1, 33 * k + 33),
            decreases n - i,
        {
            assert(33 * i + 33 <= b.len()) by (nonlinear_arith)
                requires
                    i < n,
                    n == b.len() / 33,
                    b.len() % 33 == 0,
            ;
            let at: usize = CELL_SIZE * i;
            let value = word_at(data, at + 1);
            cells.push(Cell { subindex: data[at], value });
            i += 1;
        }
        cells
    }

    /// The value of the first cell with `subindex`; zero where no cell has it.
    pub fn read_value(&self, subindex: u8, account: &AccountInfo) -> (r: [u8; 32])
        requires
            account.data@.len() >= 1 + LegacyStorageData::SIZE,
            (account.data@.len() - (1 + LegacyStorageData::SIZE)) % 33 == 0,
        ensures
            r@ == stored_cell_value(account.data@.skip(1 + LegacyStorageData::SIZE), subindex, 0),
    {
        let ghost b = account.data@.skip(1 + LegacyStorageData::SIZE);
        let cells = self.read_cells(account);
        let mut i: usize = 0;
        while i < cells.len()
            invariant
                i <= cells@.len(),
                b == account.data@.skip(1 + LegacyStorageData::SIZE),
                cells@.len() == b.len() / 33,
                forall|k: int|
                    0 <= k < cells@.len() ==> (#[trigger] cells@[k]).subindex == b[33 * k]
                        && cells@[k].value@ == b.subrange(33 * k + 1, 33 * k + 33),
                stored_cell_value(b, subindex, 0) == stored_cell_value(b, subindex, i as nat),
            decreases cells@.len() - i,
        {
            if cells[i].subindex == subindex {
                assert(cells@[i as int].subindex == b[33 * i as int]);
                return cells[i].value;
            }
            i += 1;
        }
        let zero = [0u8; 32];
        assert(zero@ =~= Seq::new(32, |k: int| 0u8));
        zero
    }
}

/// A holder account of the earlier layout: its owner, the hash of the transaction it holds
/// and the length of that transaction.
pub struct LegacyHolderData {
    pub owner: [u8; 32],
    pub transaction_hash: [u8; 32],
    pub transaction_len: usize,
}

impl LegacyHolderData {
    pub const TAG: u8 = TAG_HOLDER_DEPRECATED;

    pub const SIZE: usize = 72;

    /// `d` is what the stored form `b` holds: owner, hash and the length in little-endian.
    pub open spec fn decodes(b: Seq<u8>, d: LegacyHolderData) -> bool {
        &&& d.owner@ == b.subrange(0, 32)
        &&& d.transaction_hash@ == b.subrange(32, 64)
        &&& d.transaction_len == spec_u64_from_le_bytes(b.subrange(64, 72)) as usize
    }

    /// Reads the data from the first `SIZE` bytes of `input`.
    pub fn unpack(input: &[u8]) -> (r: Self)
        requires
            input@.len() >= LegacyHolderData::SIZE,
        ensures
            LegacyHolderData::decodes(input@, r),
    {
        LegacyHolderData {
            owner: word_at(input, 0),
            transaction_hash: word_at(input, 32),
            transaction_len: u64_from_le_bytes(vstd::slice::slice_subrange(input, 64, 72)) as usize,
        }
    }

    /// Reads the data of a holder account of the earlier layout: its tag, then the data.
    pub fn from_account(program_id: &[u8; 32], account: &AccountInfo) -> (r: Result<Self, Error>)
        requires
            spec_tag(*program_id, *account) == Ok::<u8, Error>(LegacyHolderData::TAG)
                ==> account.data@.len() >= 1 + LegacyHolderData::SIZE,
        ensures
            match spec_tag(*program_id, *account) {
                Err(e) => r == Err::<Self, Error>(e),
                Ok(t) => if t == LegacyHolderData::TAG {
                    r matches Ok(v) && LegacyHolderData::decodes(account.data@.skip(1), v)
                } else {
                    r == Err::<Self, Error>(
                        Error::AccountInvalidTag(account.key, LegacyHolderData::TAG),
                    )
                },
            },
    {
        validate_tag(program_id, account, Self::TAG)?;
        let rest = vstd::slice::slice_subrange(account.data.as_slice(), 1, account.data.len());
        assert(rest@ =~= account.data@.skip(1));
        Ok(Self::unpack(rest))
    }
}

/// A finalized state account of the earlier layout: its owner and the hash of the
/// transaction it finished.
pub struct LegacyFinalizedData {
    pub owner: [u8; 32],
    pub transaction_hash: [u8; 32],
}

impl LegacyFinalizedData {
    pub const TAG: u8 = TAG_STATE_FINALIZED_DEPRECATED;

    pub const SIZE: usize = 64;

    /// `d` is what the stored form `b` holds: owner, then hash.
    pub open spec fn decodes(b: Seq<u8>, d: LegacyFinalizedData) -> bool {
        &&& d.owner@ == b.subrange(0, 32)
        &&& d.transaction_hash@ == b.subrange(32, 64)
    }

    /// Reads the data from the first `SIZE` bytes of `input`.
    pub fn unpack(input: &[u8]) -> (r: Self)
        requires
            input@.len() >= LegacyFinalizedData::SIZE,
        ensures
            LegacyFinalizedData::decodes(input@, r),
    {
        LegacyFinalizedData { owner: word_at(input, 0), transaction_hash: word_at(input, 32) }
    }

    /// Reads the data of a finalized state account of the earlier layout: its tag, then the
    /// data.
    pub fn from_account(program_id: &[u8; 32], account: &AccountInfo) -> (r: Result<Self, Error>)
        requires
            spec_tag(*program_id, *account) == Ok::<u8, Error>(LegacyFinalizedData::TAG)
                ==> account.data@.len() >= 1 + LegacyFinalizedData::SIZE,
        ensures
            match spec_tag(*program_id, *account) {
                Err(e) => r == Err::<Self, Error>(e),
                Ok(t) => if t == LegacyFinalizedData::TAG {
                    r matches Ok(v) && LegacyFinalizedData::decodes(account.data@.skip(1), v)
                } else {
                    r == Err::<Self, Error>(
                        Error::AccountInvalidTag(account.key, LegacyFinalizedData::TAG),
                    )
                },
            },
    {
        validate_tag(program_id, account, Self::TAG)?;
        let rest = vstd::slice::slice_subrange(account.data.as_slice(), 1, account.data.len());
        assert(rest@ =~= account.data@.skip(1));
        Ok(Self::unpack(rest))
    }
}

} // verus!
