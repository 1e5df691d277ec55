//! The share-price arithmetic: how a deposit converts to shares, how shares
//! convert back to an amount, and the facts about the floor divisions that
//! the ledger's invariants and the round-trip guarantees rest on.

use vstd::prelude::*;

use vstd::arithmetic::div_mod::{
    lemma_div_is_ordered, lemma_div_multiples_vanish, lemma_div_pos_is_pos, lemma_remainder_lower,
};
use vstd::arithmetic::mul::{
    lemma_mul_inequality, lemma_mul_is_distributive_add, lemma_mul_nonnegative,
};

verus! {

/// Shares minted for depositing `amount` into a ledger holding `total_shares`
/// shares against `total_tvl` of value: one-to-one on the first deposit,
/// otherwise `floor(amount * total_shares / total_tvl)`.
pub open spec fn shares_for_deposit(amount: int, total_shares: int, total_tvl: int) -> int {
    if total_shares == 0 || total_tvl == 0 {
        amount
    } else {
        (amount * total_shares) / total_tvl
    }
}

/// Amount paid out for burning `shares`:
/// `floor(shares * total_tvl / total_shares)`, zero when no shares exist.
pub open spec fn amount_for_shares(shares: int, total_shares: int, total_tvl: int) -> int {
    if total_shares == 0 {
        0
    } else {
        (shares * total_tvl) / total_shares
    }
}

/// While the share price is at least one (shares covered by value), a deposit
/// never mints more shares than the amount paid in.
pub proof fn lemma_shares_le_amount(amount: int, total_shares: int, total_tvl: int)
    requires
        0 <= amount,
        0 <= total_shares,
        0 <= total_tvl,
        total_shares == 0 || total_shares <= total_tvl,
    ensures
        0 <= shares_for_deposit(amount, total_shares, total_tvl) <= amount,
{
    if total_shares != 0 && total_tvl != 0 {
        lemma_mul_nonnegative(amount, total_shares);
        lemma_div_pos_is_pos(amount * total_shares, total_tvl);
        lemma_mul_inequality(total_shares, total_tvl, amount);
        assert(total_shares * amount == amount * total_shares);
        assert(total_tvl * amount == amount * total_tvl);
        lemma_div_is_ordered(amount * total_shares, amount * total_tvl, total_tvl);
        lemma_div_multiples_vanish(amount, total_tvl);
    }
}

/// Burning at most all outstanding shares never pays out more than the total
/// value locked.
pub proof fn lemma_amount_le_tvl(shares: int, total_shares: int, total_tvl: int)
    requires
        0 <= shares <= total_shares,
        0 <= total_tvl,
    ensures
        0 <= amount_for_shares(shares, total_shares, total_tvl) <= total_tvl,
{
    if total_shares != 0 {
        lemma_mul_nonnegative(shares, total_tvl);
        lemma_div_pos_is_pos(shares * total_tvl, total_shares);
        lemma_mul_inequality(shares, total_shares, total_tvl);
        assert(total_shares * total_tvl == total_tvl * total_shares);
        lemma_div_is_ordered(shares * total_tvl, total_shares * total_tvl, total_shares);
        lemma_div_multiples_vanish(total_tvl, total_shares);
    }
}

/// Burning every outstanding share pays out the total value locked exactly.
pub proof fn lemma_full_withdrawal_drains(total_shares: int, total_tvl: int)
    requires
        0 < total_shares,
        0 <= total_tvl,
    ensures
        amount_for_shares(total_shares, total_shares, total_tvl) == total_tvl,
{
    lemma_div_multiples_vanish(total_tvl, total_shares);
}

/// A partial withdrawal keeps the remaining shares covered by the remaining
/// value: the payout never exceeds `total_tvl - total_shares + shares`.
pub proof fn lemma_withdraw_keeps_cover(shares: int, total_shares: int, total_tvl: int)
    requires
        0 < shares < total_shares <= total_tvl,
    ensures
        amount_for_shares(shares, total_shares, total_tvl) <= total_tvl - total_shares + shares,
{
    assert(shares * total_tvl <= total_shares * (total_tvl - total_shares + shares))
        by (nonlinear_arith)
        requires
            0 < shares < total_shares <= total_tvl,
    ;
    lemma_div_is_ordered(
        shares * total_tvl,
        total_shares * (total_tvl - total_shares + shares),
        total_shares,
    );
    lemma_div_multiples_vanish(total_tvl - total_shares + shares, total_shares);
}

/// Round trip: depositing `amount` and immediately burning every share it
/// minted pays back at most `amount`; starting from an empty ledger it pays
/// back exactly `amount`.
pub proof fn lemma_round_trip(amount: int, total_shares: int, total_tvl: int)
    requires
        0 < amount,
        0 <= total_shares <= total_tvl,
        total_shares == 0 ==> total_tvl == 0,
    ensures
        ({
            let minted = shares_for_deposit(amount, total_shares, total_tvl);
            amount_for_shares(minted, total_shares + minted, total_tvl + amount) <= amount
        }),
        total_shares == 0 ==> ({
            let minted = shares_for_deposit(amount, total_shares, total_tvl);
            amount_for_shares(minted, total_shares + minted, total_tvl + amount) == amount
        }),
{
    let minted = shares_for_deposit(amount, total_shares, total_tvl);
    if total_shares == 0 || total_tvl == 0 {
        assert(total_shares == 0 && total_tvl == 0);
        assert(minted == amount);
        lemma_div_multiples_vanish(amount, amount);
        assert((amount * amount) / amount == amount);
    } else {
        lemma_mul_nonnegative(amount, total_shares);
        lemma_div_pos_is_pos(amount * total_shares, total_tvl);
        lemma_remainder_lower(amount * total_shares, total_tvl);
        assert(minted * total_tvl <= amount * total_shares);
        lemma_mul_is_distributive_add(minted, total_tvl, amount);
        lemma_mul_is_distributive_add(amount, total_shares, minted);
        assert(minted * amount == amount * minted);
        assert(minted * (total_tvl + amount) <= amount * (total_shares + minted));
        lemma_div_is_ordered(
            minted * (total_tvl + amount),
            amount * (total_shares + minted),
            total_shares + minted,
        );
        assert(amount * (total_shares + minted) == (total_shares + minted) * amount);
        lemma_div_multiples_vanish(amount, total_shares + minted);
    }
}

/// Harvested rewards never lower the payout value of a fixed share count.
pub proof fn lemma_harvest_value_monotone(shares: int, total_shares: int, total_tvl: int, reward: int)
    requires
        0 <= shares,
        0 < total_shares,
        0 <= total_tvl,
        0 <= reward,
    ensures
        amount_for_shares(shares, total_shares, total_tvl)
            <= amount_for_shares(shares, total_shares, total_tvl + reward),
{
    lemma_mul_inequality(total_tvl, total_tvl + reward, shares);
    assert(total_tvl * shares == shares * total_tvl);
    assert((total_tvl + reward) * shares == shares * (total_tvl + reward));
    lemma_div_is_ordered(shares * total_tvl, shares * (total_tvl + reward), total_shares);
}

} // verus!
