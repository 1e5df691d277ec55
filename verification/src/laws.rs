//! The ledger's global guarantees, stated over its model so they read
//! directly against the operations' contracts.

use vstd::prelude::*;

use crate::math::{
    amount_for_shares, lemma_harvest_value_monotone, lemma_round_trip, shares_for_deposit,
};
use crate::model::{find_position, lemma_found_position_le_sum, sum_shares, Ledger};

verus! {

/// Proportionality: in a well-formed ledger every outstanding share is
/// attributed — the stored positions' share counts sum to `total_shares`
/// exactly. Every operation requires and re-establishes well-formedness, so
/// this holds after any sequence of deposits, withdrawals, and harvests.
pub proof fn lemma_shares_fully_attributed(ledger: Ledger)
    requires
        ledger.wf(),
    ensures
        sum_shares(ledger.positions) == ledger.total_shares,
{
}

/// Round trip: in a well-formed ledger in which no rewards were ever
/// harvested while nobody held shares (so value without shares cannot
/// exist), depositing `amount` and immediately burning every share it
/// minted pays back at most `amount`; into an empty ledger, exactly
/// `amount`. The shortfall is the floor division's rounding, which always
/// favors the remaining holders.
pub proof fn lemma_deposit_withdraw_round_trip(pre: Ledger, amount: u64)
    requires
        pre.wf(),
        pre.total_shares == 0 ==> pre.total_tvl == 0,
        amount > 0,
    ensures
        ({
            let minted = shares_for_deposit(
                amount as int,
                pre.total_shares as int,
                pre.total_tvl as int,
            );
            minted > 0 ==> amount_for_shares(
                minted,
                pre.total_shares + minted,
                pre.total_tvl + amount,
            ) <= amount
        }),
        pre.total_shares == 0 ==> ({
            let minted = shares_for_deposit(
                amount as int,
                pre.total_shares as int,
                pre.total_tvl as int,
            );
            amount_for_shares(minted, pre.total_shares + minted, pre.total_tvl + amount) == amount
        }),
{
    lemma_round_trip(amount as int, pre.total_shares as int, pre.total_tvl as int);
}

/// Reward dilution resistance: a harvest — which raises the total value
/// locked and touches nothing else, exactly as `harvest_rewards` ensures —
/// never lowers the value of any existing position. The gain all goes to
/// the holders of record, since no shares are minted.
pub proof fn lemma_harvest_resists_dilution(pre: Ledger, post: Ledger, user: u64, reward: u64)
    requires
        pre.wf(),
        pre.total_tvl + reward <= u64::MAX,
        post == (Ledger { total_tvl: (pre.total_tvl + reward) as u64, ..pre }),
    ensures
        post.user_value(user) >= pre.user_value(user),
{
    let held = pre.position_of(user).shares;
    if held != 0 {
        lemma_found_position_le_sum(pre.positions, user);
        assert(find_position(pre.positions, user) == Some(pre.position_of(user)));
        assert(pre.total_shares > 0);
        lemma_harvest_value_monotone(
            held as int,
            pre.total_shares as int,
            pre.total_tvl as int,
            reward as int,
        );
    }
}

} // verus!
