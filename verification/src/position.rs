//! A user's claim on the pooled fund.

use vstd::prelude::*;

verus! {

/// One depositor's position. A position that was never written, or was fully
/// withdrawn, reads as the all-zero default.
#[derive(Clone, Copy, Debug, PartialEq, Eq, Structural)]
pub struct UserPosition {
    /// This user's proportional claim on the pool.
    pub shares: u64,
    /// Cumulative principal deposited; reset to zero when shares reach zero.
    pub deposited_amount: u64,
    /// Timestamp of the most recent deposit.
    pub last_deposit_time: u64,
    /// Reserved accounting field; no current operation populates it.
    pub total_rewards: u64,
}

/// The all-zero position that an absent key reads as.
pub open spec fn zero_position() -> UserPosition {
    UserPosition { shares: 0, deposited_amount: 0, last_deposit_time: 0, total_rewards: 0 }
}

impl Default for UserPosition {
    /// The default position is the all-zero sentinel for "no position".
    fn default() -> (r: Self)
        ensures
            r == zero_position(),
    {
        UserPosition { shares: 0, deposited_amount: 0, last_deposit_time: 0, total_rewards: 0 }
    }
}

} // verus!
