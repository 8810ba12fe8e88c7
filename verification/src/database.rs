//! The account database that the interpreter reads and changes, and the conveniences built
//! on it.

use vstd::prelude::*;

use ethnum::U256;

use crate::buffer::Buffer;
use crate::error::Error;
use crate::solana::{keccak256_digest, keccak_hash};
use crate::types::Address;
use crate::uint::{u256_lt, u256_value, u256_zero};
use vstd::pervasive::arbitrary;

verus! {

/// The accounts, their code and storage, and the block, as the interpreter sees them. The
/// program and the emulator each implement it.
///
/// What a method answers is named by the `spec_` function of the same name, applied to the
/// database before the call and to the method's arguments; what a method that changes the
/// database leaves is named by its `spec_after_` function (`spec_reverted` and
/// `spec_committed` for the snapshots), applied the same way. An implementation that Verus
/// checks gives each name its meaning. Nothing else is promised of the answers.
pub trait Database: Sized {
    /// What `default_chain_id` answers.
    open spec fn spec_default_chain_id(&self) -> u64 {
        arbitrary()
    }

    /// The chain of a transaction without one.
    fn default_chain_id(&self) -> (r: u64)
        ensures
            r == self.spec_default_chain_id(),
    ;

    /// What `is_valid_chain_id` answers.
    open spec fn spec_is_valid_chain_id(&self, chain_id: u64) -> bool {
        arbitrary()
    }

    /// Whether `chain_id` is a chain of this database.
    fn is_valid_chain_id(&self, chain_id: u64) -> (r: bool)
        ensures
            r == self.spec_is_valid_chain_id(chain_id),
    ;

    /// What `contract_chain_id` answers.
    open spec fn spec_contract_chain_id(&self, address: Address) -> Result<u64, Error> {
        arbitrary()
    }

    /// The chain that the contract `address` belongs to.
    fn contract_chain_id(&self, address: Address) -> (r: Result<u64, Error>)
        ensures
            r == self.spec_contract_chain_id(address),
    ;

    /// What `nonce` answers.
    open spec fn spec_nonce(&self, address: Address, chain_id: u64) -> Result<u64, Error> {
        arbitrary()
    }

    /// The number of transactions that `address` has sent on `chain_id`.
    fn nonce(&self, address: Address, chain_id: u64) -> (r: Result<u64, Error>)
        ensures
            r == self.spec_nonce(address, chain_id),
    ;

    /// What `increment_nonce` answers.
    open spec fn spec_increment_nonce(&self, address: Address, chain_id: u64) -> Result<(), Error> {
        arbitrary()
    }

    /// What the database is after `increment_nonce`.
    open spec fn spec_after_increment_nonce(&self, address: Address, chain_id: u64) -> Self {
        arbitrary()
    }

    /// Counts one more transaction of `address` on `chain_id`.
    fn increment_nonce(&mut self, address: Address, chain_id: u64) -> (r: Result<(), Error>)
        ensures
            r == old(self).spec_increment_nonce(address, chain_id),
            *final(self) == old(self).spec_after_increment_nonce(address, chain_id),
    ;

    /// What `balance` answers.
    open spec fn spec_balance(&self, address: Address, chain_id: u64) -> Result<U256, Error> {
        arbitrary()
    }

    /// The balance of `address` on `chain_id`.
    fn balance(&self, address: Address, chain_id: u64) -> (r: Result<U256, Error>)
        ensures
            r == self.spec_balance(address, chain_id),
    ;

    /// What `transfer` answers.
    open spec fn spec_transfer(
        &self,
        source: Address,
        target: Address,
        chain_id: u64,
        value: U256,
    ) -> Result<(), Error> {
        arbitrary()
    }

    /// What the database is after `transfer`.
    open spec fn spec_after_transfer(&self, source: Address, target: Address, chain_id: u64, value: U256) -> Self {
        arbitrary()
    }

    /// Moves `value` from `source` to `target` on `chain_id`.
    fn transfer(&mut self, source: Address, target: Address, chain_id: u64, value: U256) -> (r:
        Result<(), Error>)
        ensures
            r == old(self).spec_transfer(source, target, chain_id, value),
            *final(self) == old(self).spec_after_transfer(source, target, chain_id, value),
    ;

    /// What `code_size` answers.
    open spec fn spec_code_size(&self, address: Address) -> Result<usize, Error> {
        arbitrary()
    }

    /// The size of the code of `address`.
    fn code_size(&self, address: Address) -> (r: Result<usize, Error>)
        ensures
            r == self.spec_code_size(address),
    ;

    /// What `code` answers.
    open spec fn spec_code(&self, address: Address) -> Result<Buffer, Error> {
        arbitrary()
    }

    /// The code of `address`. Its bytes are read at once, so they are attached.
    fn code(&self, address: Address) -> (r: Result<Buffer, Error>)
        ensures
            r == self.spec_code(address),
            r matches Ok(b) ==> b.spec_is_initialized(),
    ;

    /// What `set_code` answers.
    open spec fn spec_set_code(&self, address: Address, chain_id: u64, code: Seq<u8>) -> Result<
        (),
        Error,
    > {
        arbitrary()
    }

    /// What the database is after `set_code`.
    open spec fn spec_after_set_code(&self, address: Address, chain_id: u64, code: Seq<u8>) -> Self {
        arbitrary()
    }

    /// Deploys `code` at `address`.
    fn set_code(&mut self, address: Address, chain_id: u64, code: Vec<u8>) -> (r: Result<
        (),
        Error,
    >)
        ensures
            r == old(self).spec_set_code(address, chain_id, code@),
            *final(self) == old(self).spec_after_set_code(address, chain_id, code@),
    ;

    /// What `selfdestruct` answers.
    open spec fn spec_selfdestruct(&self, address: Address) -> Result<(), Error> {
        arbitrary()
    }

    /// What the database is after `selfdestruct`.
    open spec fn spec_after_selfdestruct(&self, address: Address) -> Self {
        arbitrary()
    }

    /// Destroys the contract `address`.
    fn selfdestruct(&mut self, address: Address) -> (r: Result<(), Error>)
        ensures
            r == old(self).spec_selfdestruct(address),
            *final(self) == old(self).spec_after_selfdestruct(address),
    ;

    /// What `storage` answers.
    open spec fn spec_storage(&self, address: Address, index: U256) -> Result<[u8; 32], Error> {
        arbitrary()
    }

    /// The storage slot `index` of `address`.
    fn storage(&self, address: Address, index: U256) -> (r: Result<[u8; 32], Error>)
        ensures
            r == self.spec_storage(address, index),
    ;

    /// What `set_storage` answers.
    open spec fn spec_set_storage(&self, address: Address, index: U256, value: [u8; 32]) -> Result<
        (),
        Error,
    > {
        arbitrary()
    }

    /// What the database is after `set_storage`.
    open spec fn spec_after_set_storage(&self, address: Address, index: U256, value: [u8; 32]) -> Self {
        arbitrary()
    }

    /// Writes `value` into the storage slot `index` of `address`.
    fn set_storage(&mut self, address: Address, index: U256, value: [u8; 32]) -> (r: Result<
        (),
        Error,
    >)
        ensures
            r == old(self).spec_set_storage(address, index, value),
            *final(self) == old(self).spec_after_set_storage(address, index, value),
    ;

    /// What `block_hash` answers.
    open spec fn spec_block_hash(&self, number: U256) -> Result<[u8; 32], Error> {
        arbitrary()
    }

    /// The hash of block `number`.
    fn block_hash(&self, number: U256) -> (r: Result<[u8; 32], Error>)
        ensures
            r == self.spec_block_hash(number),
    ;

    /// What `block_number` answers.
    open spec fn spec_block_number(&self) -> Result<U256, Error> {
        arbitrary()
    }

    /// The number of the current block.
    fn block_number(&self) -> (r: Result<U256, Error>)
        ensures
            r == self.spec_block_number(),
    ;

    /// What `block_timestamp` answers.
    open spec fn spec_block_timestamp(&self) -> Result<U256, Error> {
        arbitrary()
    }

    /// The time of the current block.
    fn block_timestamp(&self) -> (r: Result<U256, Error>)
        ensures
            r == self.spec_block_timestamp(),
    ;

    /// What the database is after `snapshot`.
    open spec fn spec_after_snapshot(&self) -> Self {
        arbitrary()
    }

    /// Opens a level of changes that can be undone.
    fn snapshot(&mut self)
        ensures
            *final(self) == old(self).spec_after_snapshot(),
    ;

    /// What the database is after `revert_snapshot`: the changes since the last snapshot
    /// undone.
    open spec fn spec_reverted(&self) -> Self {
        arbitrary()
    }

    /// Undoes the changes since the last snapshot.
    fn revert_snapshot(&mut self)
        ensures
            *final(self) == old(self).spec_reverted(),
    ;

    /// What the database is after `commit_snapshot`: the changes since the last snapshot
    /// kept.
    open spec fn spec_committed(&self) -> Self {
        arbitrary()
    }

    /// Keeps the changes since the last snapshot.
    fn commit_snapshot(&mut self)
        ensures
            *final(self) == old(self).spec_committed(),
    ;
}

/// Whether an account with `nonce` and `balance` exists and is non-empty (EIP-161): it has
/// sent a transaction or it holds a balance.
pub fn exists_with(nonce: u64, balance: U256) -> (r: bool)
    ensures
        r == (nonce > 0 || u256_value(balance) > 0),
{
    proof {
        crate::types::lemma_be_value_zeros(32);
    }
    nonce > 0 || u256_lt(u256_zero(), balance)
}

/// The bytes whose hash is the code hash of an account (EIP-1052): its code where it has
/// any, no bytes for an existing account without code, and none for an account that does
/// not exist, whose code hash is zero.
pub fn code_hash_input<'a>(code: &'a [u8], exists: bool) -> (r: Option<&'a [u8]>)
    ensures
        code@.len() > 0 ==> r == Some(code),
        code@.len() == 0 && exists ==> (r matches Some(b) && b@.len() == 0),
        code@.len() == 0 && !exists ==> r is None,
{
    if !code.is_empty() {
        Some(code)
    } else if exists {
        Some(&[])
    } else {
        None
    }
}

/// The code hash (EIP-1052) of an account with `code`, given whether it exists: the
/// Keccak-256 digest of its code, that of no bytes for an existing account without code, and
/// zero for an account that does not exist.
pub open spec fn code_hash_of(code: Seq<u8>, exists: bool) -> Seq<u8> {
    if code.len() > 0 {
        keccak256_digest(code)
    } else if exists {
        keccak256_digest(Seq::empty())
    } else {
        Seq::new(32, |i: int| 0u8)
    }
}

/// The code hash of an account with `code`, given whether it exists.
pub fn code_hash_with(code: &[u8], exists: bool) -> (r: [u8; 32])
    ensures
        r@ == code_hash_of(code@, exists),
{
    match code_hash_input(code, exists) {
        Some(bytes) => {
            proof {
                if code@.len() == 0 {
                    assert(bytes@ =~= Seq::<u8>::empty());
                }
            }
            keccak_hash(bytes)
        },
        None => {
            let r = [0u8; 32];
            assert(r@ =~= Seq::new(32, |i: int| 0u8));
            r
        },
    }
}

/// What asking `db` whether `address` exists on `chain_id` answers: its nonce is asked,
/// and its balance only where it has sent no transaction.
pub open spec fn spec_account_exists<B: Database>(db: &B, address: Address, chain_id: u64) -> Result<
    bool,
    Error,
> {
    match db.spec_nonce(address, chain_id) {
        Err(e) => Err(e),
        Ok(n) => if n > 0 {
            Ok(true)
        } else {
            match db.spec_balance(address, chain_id) {
                Err(e) => Err(e),
                Ok(b) => Ok(u256_value(b) > 0),
            }
        },
    }
}

/// What asking `db` for the code hash of `address` on `chain_id` answers: its code is asked,
/// and whether it exists only where it has no code.
pub open spec fn spec_code_hash<B: Database>(db: &B, address: Address, chain_id: u64) -> Result<
    Seq<u8>,
    Error,
> {
    match db.spec_code(address) {
        Err(e) => Err(e),
        Ok(code) => if code.bytes().len() > 0 {
            Ok(code_hash_of(code.bytes(), true))
        } else {
            match spec_account_exists(db, address, chain_id) {
                Err(e) => Err(e),
                Ok(exists) => Ok(code_hash_of(Seq::empty(), exists)),
            }
        },
    }
}

/// EIP-161: where the database answers both the nonce `n` and the balance `b` of `address`,
/// the account exists exactly when it has sent a transaction or holds a balance.
pub proof fn lemma_account_exists_eip161<B: Database>(
    db: &B,
    address: Address,
    chain_id: u64,
    n: u64,
    b: U256,
)
    requires
        db.spec_nonce(address, chain_id) == Ok::<u64, Error>(n),
        db.spec_balance(address, chain_id) == Ok::<U256, Error>(b),
    ensures
        spec_account_exists(db, address, chain_id) == Ok::<bool, Error>(n > 0 || u256_value(b) > 0),
{
}

/// EIP-1052: where the database answers the code, the nonce `n` and the balance `b` of
/// `address`, its code hash is the Keccak-256 digest of its code where it has code; of no
/// bytes where it has none but has sent a transaction or holds a balance; and zero where it
/// does not exist.
pub proof fn lemma_code_hash_eip1052<B: Database>(
    db: &B,
    address: Address,
    chain_id: u64,
    code: Buffer,
    n: u64,
    b: U256,
)
    requires
        db.spec_code(address) == Ok::<Buffer, Error>(code),
        db.spec_nonce(address, chain_id) == Ok::<u64, Error>(n),
        db.spec_balance(address, chain_id) == Ok::<U256, Error>(b),
    ensures
        spec_code_hash(db, address, chain_id) == Ok::<Seq<u8>, Error>(
            if code.bytes().len() > 0 {
                keccak256_digest(code.bytes())
            } else if n > 0 || u256_value(b) > 0 {
                keccak256_digest(Seq::empty())
            } else {
                Seq::new(32, |i: int| 0u8)
            },
        ),
{
    lemma_account_exists_eip161(db, address, chain_id, n, b);
}

/// The conveniences that are built on [`Database`].
pub trait DatabaseExt {
    /// Whether an account exists and is non-empty (EIP-161).
    fn account_exists(&self, address: Address, chain_id: u64) -> Result<bool, Error>;

    /// The code hash of an account (EIP-1052).
    fn code_hash(&self, address: Address, chain_id: u64) -> Result<[u8; 32], Error>;
}

impl<T: Database> DatabaseExt for T {
    fn account_exists(&self, address: Address, chain_id: u64) -> (r: Result<bool, Error>)
        ensures
            r == spec_account_exists(self, address, chain_id),
    {
        let nonce = self.nonce(address, chain_id)?;
        if nonce > 0 {
            return Ok(true);
        }
        let balance = self.balance(address, chain_id)?;
        Ok(exists_with(nonce, balance))
    }

    fn code_hash(&self, address: Address, chain_id: u64) -> (r: Result<[u8; 32], Error>)
        ensures
            match r {
                Ok(h) => spec_code_hash(self, address, chain_id) == Ok::<Seq<u8>, Error>(h@),
                Err(e) => spec_code_hash(self, address, chain_id) == Err::<Seq<u8>, Error>(e),
            },
    {
        let code = self.code(address)?;
        let exists = if code.len() > 0 {
            true
        } else {
            self.account_exists(address, chain_id)?
        };
        let bytes = code.as_slice();
        proof {
            if code.bytes().len() == 0 {
                assert(bytes@ =~= Seq::<u8>::empty());
            }
        }
        Ok(code_hash_with(bytes, exists))
    }
}

} // verus!
