//! The closed set of reasons for which a ledger operation is refused.

use vstd::prelude::*;

verus! {

/// Every failing operation returns exactly one of these kinds and leaves the
/// ledger unchanged; no operation applies a partial update.
#[derive(Clone, Copy, Debug, PartialEq, Eq, Structural)]
pub enum Error {
    /// A withdrawal asked for more shares than the caller holds.
    InsufficientShares,
    /// The ledger's total value is below the computed withdrawal amount
    /// (defensive; unreachable from a well-formed ledger).
    InsufficientBalance,
    /// A deposit, withdrawal, allocation, rebalance or harvest of zero.
    ZeroAmount,
    /// An owner-only operation was invoked by another caller.
    NotOwner,
    /// A deposit or withdrawal was attempted while the ledger is paused.
    ContractPaused,
    /// The named pool does not exist.
    PoolNotFound,
    /// An allocation asked for more than the current total value locked.
    InsufficientTvl,
    /// A rebalance asked for more than the source pool's allocation.
    InsufficientAllocation,
}

} // verus!
