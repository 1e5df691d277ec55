//! Records that successful mutating operations hand back for the hosting
//! environment to publish. Emission is fire-and-forget and not part of the
//! accounting contract; the ledger only builds the records.

use vstd::prelude::*;

verus! {

/// A successful deposit: who paid in, how much, and the shares minted.
#[derive(Clone, Copy, Debug, PartialEq, Eq, Structural)]
pub struct Deposit {
    pub user: u64,
    pub amount: u64,
    pub shares: u64,
    pub timestamp: u64,
}

/// A successful withdrawal: who was paid out, how much, and the shares burned.
#[derive(Clone, Copy, Debug, PartialEq, Eq, Structural)]
pub struct Withdrawal {
    pub user: u64,
    pub amount: u64,
    pub shares: u64,
    pub timestamp: u64,
}

/// A successful reallocation between two pools' bookkeeping buckets.
#[derive(Debug)]
pub struct Rebalance {
    pub from_pool: String,
    pub to_pool: String,
    pub amount: u64,
    pub timestamp: u64,
}

/// A successful harvest: externally realized yield credited to the pool.
#[derive(Debug)]
pub struct RewardsHarvested {
    pub pool: String,
    pub amount: u64,
    pub timestamp: u64,
}

} // verus!
