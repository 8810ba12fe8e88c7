//! What the system program is asked to do for the accounts that the loader creates.

use vstd::prelude::*;

verus! {

/// The instructions that give an account, addressed by a seed, its space and its owner.
#[derive(Debug, Clone, Copy, PartialEq, Eq, Structural)]
pub enum SeedAccountPlan {
    /// The account holds nothing yet: create it, funded with `lamports`.
    Create { lamports: u64 },
    /// The account already holds lamports: transfer `top_up` more to it where that is not
    /// zero, then allocate its space and assign its owner.
    AllocateAndAssign { top_up: u64 },
}

/// The balance that makes an account exempt from rent, and never less than one lamport.
pub open spec fn funded_balance(rent_minimum: u64) -> u64 {
    if rent_minimum > 1 {
        rent_minimum
    } else {
        1
    }
}

/// The instructions for an account that holds `lamports`, where `rent_minimum` is the
/// balance that the rent asks of its space: an account that holds nothing is created with
/// the balance it needs; one that holds something gets what it lacks of that balance, then
/// its space and its owner.
pub open spec fn planned(lamports: u64, rent_minimum: u64) -> SeedAccountPlan {
    let needed = funded_balance(rent_minimum);
    if lamports == 0 {
        SeedAccountPlan::Create { lamports: needed }
    } else if needed > lamports {
        SeedAccountPlan::AllocateAndAssign { top_up: (needed - lamports) as u64 }
    } else {
        SeedAccountPlan::AllocateAndAssign { top_up: 0 }
    }
}

/// How to give the account that now holds `lamports` its space (see `planned`).
pub fn seed_account_plan(lamports: u64, rent_minimum: u64) -> (r: SeedAccountPlan)
    ensures
        r == planned(lamports, rent_minimum),
{
    let minimum_balance = if rent_minimum > 1 {
        rent_minimum
    } else {
        1
    };
    if lamports > 0 {
        SeedAccountPlan::AllocateAndAssign { top_up: minimum_balance.saturating_sub(lamports) }
    } else {
        SeedAccountPlan::Create { lamports: minimum_balance }
    }
}

} // verus!
