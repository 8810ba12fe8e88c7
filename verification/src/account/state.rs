use vstd::prelude::*;

use super::{spec_tag, tag, AccountInfo, TAG_HOLDER, TAG_STATE_FINALIZED};
use crate::error::Error;

verus! {

/// Whether the accounts of an iterative transaction are as the last step left them.
#[derive(Debug, Clone, Copy, PartialEq, Eq, Structural)]
pub enum AccountsStatus {
    Valid,
    RevisionChanged,
}

/// The account that a new state account is made from, which holds its owner.
#[derive(Debug, Clone, Copy, PartialEq, Eq, Structural)]
pub enum StateSource {
    /// A holder account, which holds the transaction.
    Holder,
    /// The state account of a transaction that has been finalized.
    Finalized,
}

/// What a state account can be made from, by the tag of `info`: a holder or a finalized state
/// account; every other tag is refused.
pub open spec fn spec_state_source(program_id: [u8; 32], info: AccountInfo) -> Result<
    StateSource,
    Error,
> {
    match spec_tag(program_id, info) {
        Err(e) => Err(e),
        Ok(t) => if t == TAG_HOLDER {
            Ok(StateSource::Holder)
        } else if t == TAG_STATE_FINALIZED {
            Ok(StateSource::Finalized)
        } else {
            Err(Error::AccountInvalidTag(info.key, t))
        },
    }
}

/// Which kind of account `info` is, as the making of a state account from it asks.
pub fn state_source(program_id: &[u8; 32], info: &AccountInfo) -> (r: Result<StateSource, Error>)
    ensures
        r == spec_state_source(*program_id, *info),
{
    let t = tag(program_id, info)?;
    if t == TAG_HOLDER {
        Ok(StateSource::Holder)
    } else if t == TAG_STATE_FINALIZED {
        Ok(StateSource::Finalized)
    } else {
        Err(Error::AccountInvalidTag(info.key, t))
    }
}

} // verus!
