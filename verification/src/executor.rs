//! The changes that an execution leaves for the accounts.

use vstd::prelude::*;

use ethnum::U256;

use crate::types::Address;

verus! {

/// An account that an external instruction passes on, with its permissions.
#[derive(Debug, Clone, Copy, PartialEq, Eq)]
pub struct AccountMeta {
    pub pubkey: [u8; 32],
    pub is_signer: bool,
    pub is_writable: bool,
}

/// A change that an execution asks of the accounts once it has ended.
#[derive(Debug)]
pub enum Action {
    Transfer { source: Address, target: Address, chain_id: u64, value: U256 },
    Burn { source: Address, chain_id: u64, value: U256 },
    EvmSetStorage { address: Address, index: U256, value: [u8; 32] },
    EvmIncrementNonce { address: Address, chain_id: u64 },
    EvmSetCode { address: Address, chain_id: u64, code: Vec<u8> },
    EvmSelfDestruct { address: Address },
    ExternalInstruction {
        program_id: [u8; 32],
        accounts: Vec<AccountMeta>,
        data: Vec<u8>,
        seeds: Vec<Vec<u8>>,
    },
}

} // verus!
