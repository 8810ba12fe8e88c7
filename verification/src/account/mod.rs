//! Account layouts and tags.

pub mod ether_account;
pub mod ether_contract;
pub mod ether_storage;
pub mod holder;
pub mod legacy;
pub mod program;
pub mod state;

use vstd::prelude::*;

use crate::error::Error;
use crate::types::keys_equal;
use legacy::is_legacy_tag;
use legacy::legacy_tags;

verus! {

pub const TAG_EMPTY: u8 = 0;

pub const TAG_STATE: u8 = 23;

pub const TAG_STATE_FINALIZED: u8 = 32;

pub const TAG_HOLDER: u8 = 52;

pub const TAG_ACCOUNT_BALANCE: u8 = 60;

pub const TAG_ACCOUNT_CONTRACT: u8 = 70;

pub const TAG_STORAGE_CELL: u8 = 43;

/// The tag byte and the block byte that open every account's data.
pub const ACCOUNT_PREFIX_LEN: usize = 2;

/// What the account logic reads and writes of an account: its key, its owner and its data.
pub struct AccountInfo {
    pub key: [u8; 32],
    pub owner: [u8; 32],
    pub data: Vec<u8>,
}

/// What reading the tag of `info` for `program_id` answers.
pub open spec fn spec_tag(program_id: [u8; 32], info: AccountInfo) -> Result<u8, Error> {
    if info.owner != program_id {
        Err(Error::AccountInvalidOwner(info.key, program_id))
    } else if info.data@.len() < ACCOUNT_PREFIX_LEN {
        Err(Error::AccountInvalidData(info.key))
    } else {
        Ok(info.data@[0])
    }
}

/// What asking whether `info` is blocked answers: legacy accounts are refused.
pub open spec fn spec_is_blocked(program_id: [u8; 32], info: AccountInfo) -> Result<bool, Error> {
    if info.owner != program_id {
        Err(Error::AccountInvalidOwner(info.key, program_id))
    } else if info.data@.len() < ACCOUNT_PREFIX_LEN {
        Err(Error::AccountInvalidData(info.key))
    } else if legacy_tags().contains(info.data@[0]) {
        Err(Error::AccountLegacy(info.key))
    } else {
        Ok(info.data@[1] == 1)
    }
}

/// The tag of the account, the first byte of its data.
pub fn tag(program_id: &[u8; 32], info: &AccountInfo) -> (r: Result<u8, Error>)
    ensures
        r == spec_tag(*program_id, *info),
{
    if !keys_equal(&info.owner, program_id) {
        return Err(Error::AccountInvalidOwner(info.key, *program_id));
    }
    if info.data.len() < ACCOUNT_PREFIX_LEN {
        return Err(Error::AccountInvalidData(info.key));
    }
    Ok(info.data[0])
}

/// Sets the tag of an account of the program.
pub fn set_tag(program_id: &[u8; 32], info: &mut AccountInfo, tag: u8) -> (r: Result<(), Error>)
    requires
        old(info).owner == *program_id,
        old(info).data@.len() >= ACCOUNT_PREFIX_LEN,
    ensures
        r is Ok,
        final(info).key == old(info).key,
        final(info).owner == old(info).owner,
        final(info).data@ == old(info).data@.update(0, tag),
{
    info.data.set(0, tag);
    Ok(())
}

/// `Ok` iff the account's tag is `tag`.
pub fn validate_tag(program_id: &[u8; 32], info: &AccountInfo, tag: u8) -> (r: Result<(), Error>)
    ensures
        r == match spec_tag(*program_id, *info) {
            Err(e) => Err(e),
            Ok(t) => if t == tag {
                Ok(())
            } else {
                Err(Error::AccountInvalidTag(info.key, tag))
            },
        },
{
    let account_tag = self::tag(program_id, info)?;
    if account_tag == tag {
        Ok(())
    } else {
        Err(Error::AccountInvalidTag(info.key, tag))
    }
}

/// Whether the account is blocked, the second byte of its data being 1.
pub fn is_blocked(program_id: &[u8; 32], info: &AccountInfo) -> (r: Result<bool, Error>)
    ensures
        r == spec_is_blocked(*program_id, *info),
{
    if !keys_equal(&info.owner, program_id) {
        return Err(Error::AccountInvalidOwner(info.key, *program_id));
    }
    if info.data.len() < ACCOUNT_PREFIX_LEN {
        return Err(Error::AccountInvalidData(info.key));
    }
    if is_legacy_tag(info.data[0]) {
        return Err(Error::AccountLegacy(info.key));
    }
    Ok(info.data[1] == 1)
}

/// Marks the account blocked or not; blocking a blocked account is refused, and so are
/// legacy accounts.
fn set_block(program_id: &[u8; 32], info: &mut AccountInfo, block: bool) -> (r: Result<(), Error>)
    requires
        old(info).owner == *program_id,
    ensures
        final(info).key == old(info).key,
        final(info).owner == old(info).owner,
        old(info).data@.len() < ACCOUNT_PREFIX_LEN ==> r == Err::<(), Error>(
            Error::AccountInvalidData(old(info).key),
        ) && final(info).data@ == old(info).data@,
        old(info).data@.len() >= ACCOUNT_PREFIX_LEN ==> {
            let data = old(info).data@;
            if legacy_tags().contains(data[0]) {
                r == Err::<(), Error>(Error::AccountLegacy(old(info).key)) && final(info).data@
                    == data
            } else if block && data[1] != 0 {
                r == Err::<(), Error>(Error::AccountBlocked(old(info).key)) && final(info).data@
                    == data
            } else {
                r is Ok && final(info).data@ == data.update(1, if block { 1u8 } else { 0u8 })
            }
        },
{
    if info.data.len() < ACCOUNT_PREFIX_LEN {
        return Err(Error::AccountInvalidData(info.key));
    }
    if is_legacy_tag(info.data[0]) {
        return Err(Error::AccountLegacy(info.key));
    }
    if block && (info.data[1] != 0) {
        return Err(Error::AccountBlocked(info.key));
    }
    info.data.set(1, if block { 1u8 } else { 0u8 });
    Ok(())
}

/// Blocks an account of the program.
pub fn block(program_id: &[u8; 32], info: &mut AccountInfo) -> (r: Result<(), Error>)
    requires
        old(info).owner == *program_id,
    ensures
        final(info).key == old(info).key,
        final(info).owner == old(info).owner,
        old(info).data@.len() < ACCOUNT_PREFIX_LEN ==> r == Err::<(), Error>(
            Error::AccountInvalidData(old(info).key),
        ) && final(info).data@ == old(info).data@,
        old(info).data@.len() >= ACCOUNT_PREFIX_LEN ==> {
            let data = old(info).data@;
            if legacy_tags().contains(data[0]) {
                r == Err::<(), Error>(Error::AccountLegacy(old(info).key)) && final(info).data@
                    == data
            } else if data[1] != 0 {
                r == Err::<(), Error>(Error::AccountBlocked(old(info).key)) && final(info).data@
                    == data
            } else {
                r is Ok && final(info).data@ == data.update(1, 1u8)
            }
        },
{
    set_block(program_id, info, true)
}

/// Unblocks an account of the program.
pub fn unblock(program_id: &[u8; 32], info: &mut AccountInfo) -> (r: Result<(), Error>)
    requires
        old(info).owner == *program_id,
    ensures
        final(info).key == old(info).key,
        final(info).owner == old(info).owner,
        old(info).data@.len() < ACCOUNT_PREFIX_LEN ==> r == Err::<(), Error>(
            Error::AccountInvalidData(old(info).key),
        ) && final(info).data@ == old(info).data@,
        old(info).data@.len() >= ACCOUNT_PREFIX_LEN ==> {
            let data = old(info).data@;
            if legacy_tags().contains(data[0]) {
                r == Err::<(), Error>(Error::AccountLegacy(old(info).key)) && final(info).data@
                    == data
            } else {
                r is Ok && final(info).data@ == data.update(1, 0u8)
            }
        },
{
    set_block(program_id, info, false)
}

/// Blocking an account that is not blocked, then unblocking it, leaves its data as it was
/// but for the block byte, which reads 0 again.
pub proof fn lemma_block_then_unblock(data: Seq<u8>, blocked: Seq<u8>, unblocked: Seq<u8>)
    requires
        data.len() >= ACCOUNT_PREFIX_LEN,
        !legacy_tags().contains(data[0]),
        data[1] == 0,
        blocked == data.update(1, 1u8),
        unblocked == blocked.update(1, 0u8),
    ensures
        unblocked == data,
        blocked[1] == 1,
{
    assert(unblocked =~= data);
}

} // verus!
