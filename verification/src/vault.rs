//! The vault ledger itself: one owned value holding every persisted field,
//! mutated one operation at a time. Every operation validates before it
//! writes, so a refused operation leaves the ledger exactly as it was.

use vstd::prelude::*;

use crate::errors::Error;
use crate::events::{Deposit, Rebalance, RewardsHarvested, Withdrawal};
use crate::math::{
    amount_for_shares, lemma_amount_le_tvl, lemma_full_withdrawal_drains, lemma_shares_le_amount,
    lemma_withdraw_keeps_cover, shares_for_deposit,
};
use crate::model::{
    find_pool, find_position, lemma_find_pool_at, lemma_find_pool_none,
    lemma_find_pool_push_other, lemma_find_pool_update_other, lemma_find_position_at,
    lemma_find_position_none, lemma_find_position_push_other, lemma_find_position_update_other,
    lemma_found_position_le_sum, lemma_sum_push, lemma_sum_update, Ledger,
};
use crate::pool::{PoolInfo, PoolModel};
use crate::position::{zero_position, UserPosition};

verus! {

/// What a successful deposit does: mints shares at the pre-deposit ratio,
/// credits them and the principal to the caller's position, stamps the
/// deposit time, raises the aggregates, and touches nothing else.
pub open spec fn deposit_applied(
    pre: Ledger,
    post: Ledger,
    caller: u64,
    amount: u64,
    now: u64,
    ev: Deposit,
) -> bool {
    let minted = shares_for_deposit(amount as int, pre.total_shares as int, pre.total_tvl as int);
    &&& ev.user == caller
    &&& ev.amount == amount
    &&& ev.timestamp == now
    &&& ev.shares == minted
    &&& post.total_tvl == pre.total_tvl + amount
    &&& post.total_shares == pre.total_shares + minted
    &&& post.position_of(caller) == (UserPosition {
        shares: (pre.position_of(caller).shares + minted) as u64,
        deposited_amount: (pre.position_of(caller).deposited_amount + amount) as u64,
        last_deposit_time: now,
        total_rewards: pre.position_of(caller).total_rewards,
    })
    &&& forall|u: u64| u != caller ==> post.position_of(u) == pre.position_of(u)
    &&& post.pools == pre.pools
    &&& post.owner == pre.owner
    &&& post.management_fee == pre.management_fee
    &&& post.paused == pre.paused
}

/// What a successful withdrawal does: burns the shares, pays out at the
/// pre-withdrawal ratio, closes the position when its shares reach zero,
/// lowers the aggregates, and touches nothing else.
pub open spec fn withdraw_applied(
    pre: Ledger,
    post: Ledger,
    caller: u64,
    shares_to_withdraw: u64,
    now: u64,
    ev: Withdrawal,
) -> bool {
    let paid = amount_for_shares(
        shares_to_withdraw as int,
        pre.total_shares as int,
        pre.total_tvl as int,
    );
    let remaining = pre.position_of(caller).shares - shares_to_withdraw;
    &&& ev.user == caller
    &&& ev.amount == paid
    &&& ev.shares == shares_to_withdraw
    &&& ev.timestamp == now
    &&& post.total_tvl == pre.total_tvl - paid
    &&& post.total_shares == pre.total_shares - shares_to_withdraw
    &&& post.position_of(caller) == (if remaining == 0 {
        UserPosition {
            shares: 0,
            deposited_amount: 0,
            last_deposit_time: pre.position_of(caller).last_deposit_time,
            total_rewards: 0,
        }
    } else {
        UserPosition { shares: remaining as u64, ..pre.position_of(caller) }
    })
    &&& forall|u: u64| u != caller ==> post.position_of(u) == pre.position_of(u)
    &&& post.pools == pre.pools
    &&& post.owner == pre.owner
    &&& post.management_fee == pre.management_fee
    &&& post.paused == pre.paused
}

/// Everything outside the pool table is unchanged.
pub open spec fn non_pool_state_unchanged(pre: Ledger, post: Ledger) -> bool {
    &&& post.positions == pre.positions
    &&& post.total_tvl == pre.total_tvl
    &&& post.total_shares == pre.total_shares
    &&& post.owner == pre.owner
    &&& post.management_fee == pre.management_fee
    &&& post.paused == pre.paused
}

/// The share-based pooled-fund ledger.
pub struct YieldOptimizer {
    owner: Option<u64>,
    total_tvl: u64,
    total_shares: u64,
    positions: Vec<(u64, UserPosition)>,
    pools: Vec<PoolInfo>,
    management_fee: u32,
    paused: bool,
}

impl View for YieldOptimizer {
    type V = Ledger;

    closed spec fn view(&self) -> Ledger {
        Ledger {
            owner: self.owner,
            total_tvl: self.total_tvl,
            total_shares: self.total_shares,
            positions: self.positions@,
            pools: self.pools@.map_values(|p: PoolInfo| p@),
            management_fee: self.management_fee,
            paused: self.paused,
        }
    }
}

impl YieldOptimizer {
    /// The ledger's invariant, stated on its model.
    pub open spec fn wf(&self) -> bool {
        self@.wf()
    }

    /// Creates a ledger owned by `caller`: no value, no shares, no positions,
    /// no pools, not paused, with the given management fee on record.
    pub fn init(caller: u64, management_fee_bp: u32) -> (v: YieldOptimizer)
        ensures
            v.wf(),
            v@.owner == Some(caller),
            v@.total_tvl == 0,
            v@.total_shares == 0,
            v@.management_fee == management_fee_bp,
            !v@.paused,
            v@.positions =~= Seq::<(u64, UserPosition)>::empty(),
            v@.pools =~= Seq::<PoolModel>::empty(),
            forall|u: u64| v@.position_of(u) == zero_position(),
            forall|n: Seq<char>| v@.pool_of(n) is None,
    {
        let v = YieldOptimizer {
            owner: Some(caller),
            total_tvl: 0,
            total_shares: 0,
            positions: Vec::new(),
            pools: Vec::new(),
            management_fee: management_fee_bp,
            paused: false,
        };
        proof {
            assert(v@.positions =~= Seq::<(u64, UserPosition)>::empty());
            assert(v@.pools =~= Seq::<PoolModel>::empty());
        }
        v
    }

    /// The total value locked.
    pub fn get_tvl(&self) -> (r: u64)
        ensures
            r == self@.total_tvl,
    {
        self.total_tvl
    }

    /// The total number of outstanding shares.
    pub fn get_total_shares(&self) -> (r: u64)
        ensures
            r == self@.total_shares,
    {
        self.total_shares
    }

    /// The owner address, if one was recorded.
    pub fn get_owner(&self) -> (r: Option<u64>)
        ensures
            r == self@.owner,
    {
        self.owner
    }

    /// The stored management fee in basis points. It is reported only; no
    /// operation applies it to any calculation.
    pub fn get_management_fee(&self) -> (r: u32)
        ensures
            r == self@.management_fee,
    {
        self.management_fee
    }

    /// Whether deposits and withdrawals are currently refused.
    pub fn is_paused(&self) -> (r: bool)
        ensures
            r == self@.paused,
    {
        self.paused
    }

    /// The index of the stored entry for `user`, if one exists.
    fn position_index(&self, user: u64) -> (r: Option<usize>)
        ensures
            match r {
                Some(i) => i < self.positions@.len() && self.positions@[i as int].0 == user
                    && forall|j: int| 0 <= j < i ==> (#[trigger] self.positions@[j]).0 != user,
                None => forall|j: int|
                    0 <= j < self.positions@.len() ==> (#[trigger] self.positions@[j]).0 != user,
            },
    {
        let mut i: usize = 0;
        while i < self.positions.len()
            invariant
                i <= self.positions@.len(),
                forall|j: int| 0 <= j < i ==> (#[trigger] self.positions@[j]).0 != user,
            decreases self.positions@.len() - i,
        {
            if self.positions[i].0 == user {
                return Some(i);
            }
            i = i + 1;
        }
        None
    }

    /// The index of the stored pool named `name`, if one exists.
    fn pool_index(&self, name: &String) -> (r: Option<usize>)
        ensures
            match r {
                Some(i) => i < self.pools@.len() && self.pools@[i as int]@.name == name@
                    && forall|j: int| 0 <= j < i ==> (#[trigger] self.pools@[j])@.name != name@,
                None => forall|j: int|
                    0 <= j < self.pools@.len() ==> (#[trigger] self.pools@[j])@.name != name@,
            },
    {
        let mut i: usize = 0;
        while i < self.pools.len()
            invariant
                i <= self.pools@.len(),
                forall|j: int| 0 <= j < i ==> (#[trigger] self.pools@[j])@.name != name@,
            decreases self.pools@.len() - i,
        {
            if self.pools[i].name == *name {
                return Some(i);
            }
            i = i + 1;
        }
        None
    }

    /// Shares minted for a deposit of `amount` at the current ratio, computed
    /// with a wide intermediate so the multiplication cannot overflow.
    fn calculate_shares(&self, amount: u64) -> (r: u64)
        requires
            self@.total_shares == 0 || self@.total_shares <= self@.total_tvl,
        ensures
            r == shares_for_deposit(
                amount as int,
                self@.total_shares as int,
                self@.total_tvl as int,
            ),
    {
        if self.total_shares == 0 || self.total_tvl == 0 {
            amount
        } else {
            proof {
                lemma_shares_le_amount(
                    amount as int,
                    self.total_shares as int,
                    self.total_tvl as int,
                );
                assert((amount as int) * (self.total_shares as int) <= u128::MAX as int)
                    by (nonlinear_arith)
                    requires
                        amount <= u64::MAX,
                        self.total_shares <= u64::MAX,
                ;
            }
            let wide: u128 = (amount as u128) * (self.total_shares as u128);
            let q: u128 = wide / (self.total_tvl as u128);
            q as u64
        }
    }

    /// Amount paid out for burning `shares` at the current ratio, computed
    /// with a wide intermediate so the multiplication cannot overflow.
    fn calculate_withdrawal_amount(&self, shares: u64) -> (r: u64)
        requires
            shares <= self@.total_shares,
        ensures
            r == amount_for_shares(
                shares as int,
                self@.total_shares as int,
                self@.total_tvl as int,
            ),
    {
        if self.total_shares == 0 {
            0
        } else {
            proof {
                lemma_amount_le_tvl(
                    shares as int,
                    self.total_shares as int,
                    self.total_tvl as int,
                );
                assert((shares as int) * (self.total_tvl as int) <= u128::MAX as int)
                    by (nonlinear_arith)
                    requires
                        shares <= u64::MAX,
                        self.total_tvl <= u64::MAX,
                ;
            }
            let wide: u128 = (shares as u128) * (self.total_tvl as u128);
            let q: u128 = wide / (self.total_shares as u128);
            q as u64
        }
    }

    /// The stored position for `user`, or the zero default for an absent key.
    fn get_user_position(&self, user: u64) -> (r: UserPosition)
        ensures
            r == self@.position_of(user),
    {
        match self.position_index(user) {
            Some(i) => {
                proof {
                    lemma_find_position_at(self.positions@, user, i as int);
                }
                self.positions[i].1
            },
            None => {
                proof {
                    lemma_find_position_none(self.positions@, user);
                }
                UserPosition::default()
            },
        }
    }

    /// The position of `user`; an address that never deposited reads as the
    /// all-zero position.
    pub fn get_position(&self, user: u64) -> (r: UserPosition)
        ensures
            r == self@.position_of(user),
    {
        self.get_user_position(user)
    }

    /// The amount `user`'s shares are currently worth: the withdrawal
    /// equivalent of the whole position, zero if the user holds no shares.
    pub fn get_user_value(&self, user: u64) -> (r: u64)
        requires
            self.wf(),
        ensures
            r == self@.user_value(user),
    {
        let position = self.get_user_position(user);
        if position.shares == 0 {
            0
        } else {
            proof {
                lemma_found_position_le_sum(self.positions@, user);
            }
            self.calculate_withdrawal_amount(position.shares)
        }
    }

    /// Refuses callers other than the recorded owner.
    fn require_owner(&self, caller: u64) -> (r: Result<(), Error>)
        ensures
            r is Ok <==> self@.owner == Some(caller),
            self@.owner != Some(caller) ==> r == Err::<(), Error>(Error::NotOwner),
    {
        match self.owner {
            Some(owner) => {
                if caller == owner {
                    Ok(())
                } else {
                    Err(Error::NotOwner)
                }
            },
            None => Err(Error::NotOwner),
        }
    }

    /// Refuses deposits and withdrawals while the ledger is paused.
    fn require_not_paused(&self) -> (r: Result<(), Error>)
        ensures
            r is Ok <==> !self@.paused,
            self@.paused ==> r == Err::<(), Error>(Error::ContractPaused),
    {
        if self.paused {
            Err(Error::ContractPaused)
        } else {
            Ok(())
        }
    }

    /// Refuses zero amounts before any share arithmetic runs.
    fn require_positive_amount(&self, amount: u64) -> (r: Result<(), Error>)
        ensures
            r is Ok <==> amount > 0,
            amount == 0 ==> r == Err::<(), Error>(Error::ZeroAmount),
    {
        if amount == 0 {
            Err(Error::ZeroAmount)
        } else {
            Ok(())
        }
    }

    /// Pauses deposits and withdrawals. Owner only; administrative
    /// operations remain available while paused.
    pub fn pause(&mut self, caller: u64) -> (r: Result<(), Error>)
        requires
            old(self).wf(),
        ensures
            final(self).wf(),
            old(self)@.owner != Some(caller) ==> r == Err::<(), Error>(Error::NotOwner)
                && *final(self) == *old(self),
            old(self)@.owner == Some(caller) ==> r == Ok::<(), Error>(())
                && final(self)@ == (Ledger { paused: true, ..old(self)@ }),
    {
        if let Err(e) = self.require_owner(caller) {
            return Err(e);
        }
        self.paused = true;
        Ok(())
    }

    /// Lifts the pause. Owner only.
    pub fn unpause(&mut self, caller: u64) -> (r: Result<(), Error>)
        requires
            old(self).wf(),
        ensures
            final(self).wf(),
            old(self)@.owner != Some(caller) ==> r == Err::<(), Error>(Error::NotOwner)
                && *final(self) == *old(self),
            old(self)@.owner == Some(caller) ==> r == Ok::<(), Error>(())
                && final(self)@ == (Ledger { paused: false, ..old(self)@ }),
    {
        if let Err(e) = self.require_owner(caller) {
            return Err(e);
        }
        self.paused = false;
        Ok(())
    }

    /// Deposits `amount` for `caller` at time `now`, minting shares at the
    /// pre-deposit ratio: one share per unit on the first deposit, otherwise
    /// `floor(amount * total_shares / total_tvl)`. Returns the record to
    /// publish; refused while paused and for a zero amount.
    pub fn deposit(&mut self, caller: u64, amount: u64, now: u64) -> (r: Result<Deposit, Error>)
        requires
            old(self).wf(),
            !old(self)@.paused && amount > 0 ==> old(self)@.total_tvl + amount <= u64::MAX,
            !old(self)@.paused && amount > 0 ==> old(self)@.position_of(caller).deposited_amount
                + amount <= u64::MAX,
        ensures
            final(self).wf(),
            old(self)@.paused ==> r == Err::<Deposit, Error>(Error::ContractPaused)
                && *final(self) == *old(self),
            !old(self)@.paused && amount == 0 ==> r == Err::<Deposit, Error>(Error::ZeroAmount)
                && *final(self) == *old(self),
            !old(self)@.paused && amount > 0 ==> (r matches Ok(ev)
                && deposit_applied(old(self)@, final(self)@, caller, amount, now, ev)),
            !old(self)@.paused && amount > 0 && old(self)@.total_shares == 0 ==> (r matches Ok(ev)
                && ev.shares == amount),
    {
        if let Err(e) = self.require_not_paused() {
            return Err(e);
        }
        if let Err(e) = self.require_positive_amount(amount) {
            return Err(e);
        }

        let minted = self.calculate_shares(amount);
        proof {
            lemma_shares_le_amount(
                amount as int,
                self.total_shares as int,
                self.total_tvl as int,
            );
        }

        match self.position_index(caller) {
            Some(i) => {
                proof {
                    lemma_find_position_at(self.positions@, caller, i as int);
                    lemma_found_position_le_sum(self.positions@, caller);
                }
                let p = self.positions[i].1;
                let updated = UserPosition {
                    shares: p.shares + minted,
                    deposited_amount: p.deposited_amount + amount,
                    last_deposit_time: now,
                    total_rewards: p.total_rewards,
                };
                self.positions[i] = (caller, updated);
                proof {
                    lemma_sum_update(old(self).positions@, i as int, (caller, updated));
                    lemma_find_position_at(self.positions@, caller, i as int);
                    assert forall|u: u64| u != caller implies find_position(self.positions@, u)
                        == find_position(old(self).positions@, u) by {
                        lemma_find_position_update_other(
                            old(self).positions@,
                            i as int,
                            (caller, updated),
                            u,
                        );
                    };
                }
            },
            None => {
                proof {
                    lemma_find_position_none(self.positions@, caller);
                }
                let fresh = UserPosition {
                    shares: minted,
                    deposited_amount: amount,
                    last_deposit_time: now,
                    total_rewards: 0,
                };
                self.positions.push((caller, fresh));
                proof {
                    lemma_sum_push(old(self).positions@, (caller, fresh));
                    lemma_find_position_at(
                        self.positions@,
                        caller,
                        old(self).positions@.len() as int,
                    );
                    assert forall|u: u64| u != caller implies find_position(self.positions@, u)
                        == find_position(old(self).positions@, u) by {
                        lemma_find_position_push_other(
                            old(self).positions@,
                            (caller, fresh),
                            u,
                        );
                    };
                }
            },
        }

        self.total_tvl = self.total_tvl + amount;
        self.total_shares = self.total_shares + minted;
        Ok(Deposit { user: caller, amount, shares: minted, timestamp: now })
    }

    /// Withdraws `shares_to_withdraw` of `caller`'s shares at time `now`,
    /// paying out `floor(shares * total_tvl / total_shares)` at the
    /// pre-withdrawal ratio. A position whose shares reach zero is closed:
    /// its principal and reward fields reset to zero. Returns the record to
    /// publish; refused while paused, for zero shares, and for more shares
    /// than the caller holds.
    pub fn withdraw(
        &mut self,
        caller: u64,
        shares_to_withdraw: u64,
        now: u64,
    ) -> (r: Result<Withdrawal, Error>)
        requires
            old(self).wf(),
        ensures
            final(self).wf(),
            old(self)@.paused ==> r == Err::<Withdrawal, Error>(Error::ContractPaused)
                && *final(self) == *old(self),
            !old(self)@.paused && shares_to_withdraw == 0 ==> r == Err::<Withdrawal, Error>(
                Error::ZeroAmount,
            ) && *final(self) == *old(self),
            !old(self)@.paused && shares_to_withdraw > 0 && old(self)@.position_of(caller).shares
                < shares_to_withdraw ==> r == Err::<Withdrawal, Error>(Error::InsufficientShares)
                && *final(self) == *old(self),
            !old(self)@.paused && shares_to_withdraw > 0 && shares_to_withdraw <= old(
                self,
            )@.position_of(caller).shares ==> (r matches Ok(ev) && withdraw_applied(
                old(self)@,
                final(self)@,
                caller,
                shares_to_withdraw,
                now,
                ev,
            )),
    {
        if let Err(e) = self.require_not_paused() {
            return Err(e);
        }
        if let Err(e) = self.require_positive_amount(shares_to_withdraw) {
            return Err(e);
        }

        match self.position_index(caller) {
            None => {
                proof {
                    lemma_find_position_none(self.positions@, caller);
                }
                Err(Error::InsufficientShares)
            },
            Some(i) => {
                proof {
                    lemma_find_position_at(self.positions@, caller, i as int);
                    lemma_found_position_le_sum(self.positions@, caller);
                }
                let p = self.positions[i].1;
                if p.shares < shares_to_withdraw {
                    return Err(Error::InsufficientShares);
                }
                let amount = self.calculate_withdrawal_amount(shares_to_withdraw);
                proof {
                    lemma_amount_le_tvl(
                        shares_to_withdraw as int,
                        self.total_shares as int,
                        self.total_tvl as int,
                    );
                }
                if self.total_tvl < amount {
                    return Err(Error::InsufficientBalance);
                }
                let remaining = p.shares - shares_to_withdraw;
                let updated = if remaining == 0 {
                    UserPosition {
                        shares: 0,
                        deposited_amount: 0,
                        last_deposit_time: p.last_deposit_time,
                        total_rewards: 0,
                    }
                } else {
                    UserPosition {
                        shares: remaining,
                        deposited_amount: p.deposited_amount,
                        last_deposit_time: p.last_deposit_time,
                        total_rewards: p.total_rewards,
                    }
                };
                self.positions[i] = (caller, updated);
                proof {
                    lemma_sum_update(old(self).positions@, i as int, (caller, updated));
                    lemma_find_position_at(self.positions@, caller, i as int);
                    assert forall|u: u64| u != caller implies find_position(self.positions@, u)
                        == find_position(old(self).positions@, u) by {
                        lemma_find_position_update_other(
                            old(self).positions@,
                            i as int,
                            (caller, updated),
                            u,
                        );
                    };
                    if shares_to_withdraw < self.total_shares {
                        lemma_withdraw_keeps_cover(
                            shares_to_withdraw as int,
                            self.total_shares as int,
                            self.total_tvl as int,
                        );
                    } else {
                        lemma_full_withdrawal_drains(
                            self.total_shares as int,
                            self.total_tvl as int,
                        );
                    }
                }
                self.total_tvl = self.total_tvl - amount;
                self.total_shares = self.total_shares - shares_to_withdraw;
                Ok(Withdrawal { user: caller, amount, shares: shares_to_withdraw, timestamp: now })
            },
        }
    }

    /// The stored pool named `pool_name`, if it exists.
    pub fn get_pool_info(&self, pool_name: String) -> (r: Option<PoolInfo>)
        ensures
            match r {
                Some(p) => self@.pool_of(pool_name@) == Some(p@),
                None => self@.pool_of(pool_name@) is None,
            },
    {
        match self.pool_index(&pool_name) {
            Some(i) => {
                proof {
                    lemma_find_pool_at(self@.pools, pool_name@, i as int);
                }
                Some(self.pools[i].clone())
            },
            None => {
                proof {
                    lemma_find_pool_none(self@.pools, pool_name@);
                }
                None
            },
        }
    }

    /// Creates the pool named `name` with a zero allocation, or overwrites an
    /// existing pool of that name — which silently discards its allocation
    /// bookkeeping. Owner only.
    pub fn add_pool(
        &mut self,
        caller: u64,
        name: String,
        initial_apy: u32,
        risk_level: u8,
    ) -> (r: Result<(), Error>)
        requires
            old(self).wf(),
        ensures
            final(self).wf(),
            old(self)@.owner != Some(caller) ==> r == Err::<(), Error>(Error::NotOwner)
                && *final(self) == *old(self),
            old(self)@.owner == Some(caller) ==> r == Ok::<(), Error>(()) && final(self)@.pool_of(
                name@,
            ) == Some(
                PoolModel {
                    name: name@,
                    total_allocated: 0,
                    current_apy: initial_apy,
                    risk_level,
                },
            ) && (forall|n: Seq<char>|
                n != name@ ==> final(self)@.pool_of(n) == old(self)@.pool_of(n))
                && non_pool_state_unchanged(old(self)@, final(self)@),
    {
        if let Err(e) = self.require_owner(caller) {
            return Err(e);
        }

        match self.pool_index(&name) {
            Some(i) => {
                let ghost pre = self@.pools;
                let ghost key = name@;
                let pool = PoolInfo { name, total_allocated: 0, current_apy: initial_apy, risk_level };
                self.pools[i] = pool;
                proof {
                    assert(self@.pools =~= pre.update(i as int, self@.pools[i as int]));
                    lemma_find_pool_at(self@.pools, key, i as int);
                    assert forall|n: Seq<char>| n != key implies find_pool(self@.pools, n)
                        == find_pool(pre, n) by {
                        lemma_find_pool_update_other(pre, i as int, self@.pools[i as int], n);
                    };
                    assert forall|a: int, b: int| 0 <= a < b < self@.pools.len() implies (
                    #[trigger] self@.pools[a]).name != (#[trigger] self@.pools[b]).name by {
                        assert(self@.pools[a].name == pre[a].name);
                        assert(self@.pools[b].name == pre[b].name);
                        assert(pre[a] != pre[b]);
                    };
                }
            },
            None => {
                let ghost pre = self@.pools;
                let ghost key = name@;
                let pool = PoolInfo { name, total_allocated: 0, current_apy: initial_apy, risk_level };
                self.pools.push(pool);
                proof {
                    assert(self@.pools =~= pre.push(self@.pools[pre.len() as int]));
                    lemma_find_pool_at(self@.pools, key, pre.len() as int);
                    assert forall|n: Seq<char>| n != key implies find_pool(self@.pools, n)
                        == find_pool(pre, n) by {
                        lemma_find_pool_push_other(pre, self@.pools[pre.len() as int], n);
                    };
                    assert forall|a: int, b: int| 0 <= a < b < self@.pools.len() implies (
                    #[trigger] self@.pools[a]).name != (#[trigger] self@.pools[b]).name by {
                        if b < pre.len() as int {
                            assert(self@.pools[a] == pre[a]);
                            assert(self@.pools[b] == pre[b]);
                            assert(pre[a] != pre[b]);
                        } else {
                            assert(self@.pools[a] == pre[a]);
                            assert(self@.pools[b].name == key);
                        }
                    };
                }
            },
        }
        Ok(())
    }

    /// Replaces the stored APY of the pool named `pool_name`. Owner only;
    /// refused if the pool does not exist.
    pub fn update_pool_apy(
        &mut self,
        caller: u64,
        pool_name: String,
        new_apy: u32,
    ) -> (r: Result<(), Error>)
        requires
            old(self).wf(),
        ensures
            final(self).wf(),
            old(self)@.owner != Some(caller) ==> r == Err::<(), Error>(Error::NotOwner)
                && *final(self) == *old(self),
            old(self)@.owner == Some(caller) && old(self)@.pool_of(pool_name@) is None ==> r
                == Err::<(), Error>(Error::PoolNotFound) && *final(self) == *old(self),
            old(self)@.owner == Some(caller) ==> (old(self)@.pool_of(pool_name@) matches Some(p)
                ==> r == Ok::<(), Error>(()) && final(self)@.pool_of(pool_name@) == Some(
                (PoolModel { current_apy: new_apy, ..p }),
            ) && (forall|n: Seq<char>|
                n != pool_name@ ==> final(self)@.pool_of(n) == old(self)@.pool_of(n))
                && non_pool_state_unchanged(old(self)@, final(self)@)),
    {
        if let Err(e) = self.require_owner(caller) {
            return Err(e);
        }

        match self.pool_index(&pool_name) {
            Some(i) => {
                proof {
                    lemma_find_pool_at(self@.pools, pool_name@, i as int);
                }
                let mut pool = self.pools[i].clone();
                pool.current_apy = new_apy;
                self.pools[i] = pool;
                proof {
                    assert(self@.pools =~= old(self)@.pools.update(
                        i as int,
                        self@.pools[i as int],
                    ));
                    lemma_find_pool_at(self@.pools, pool_name@, i as int);
                    assert forall|n: Seq<char>| n != pool_name@ implies find_pool(self@.pools, n)
                        == find_pool(old(self)@.pools, n) by {
                        lemma_find_pool_update_other(
                            old(self)@.pools,
                            i as int,
                            self@.pools[i as int],
                            n,
                        );
                    };
                }
                Ok(())
            },
            None => {
                proof {
                    lemma_find_pool_none(self@.pools, pool_name@);
                }
                Err(Error::PoolNotFound)
            },
        }
    }

    /// Adds `amount` to the allocation bookkeeping of the pool named
    /// `pool_name`. Owner only; the amount must be positive, the pool must
    /// exist, and the amount is checked against the total value locked at
    /// this moment only — allocation does not debit TVL, so the allocations
    /// of several pools may in aggregate exceed it.
    pub fn allocate_to_pool(
        &mut self,
        caller: u64,
        pool_name: String,
        amount: u64,
    ) -> (r: Result<(), Error>)
        requires
            old(self).wf(),
            old(self)@.owner == Some(caller) && amount > 0 && old(self)@.total_tvl >= amount ==> (
            old(self)@.pool_of(pool_name@) matches Some(p) ==> p.total_allocated + amount
                <= u64::MAX),
        ensures
            final(self).wf(),
            old(self)@.owner != Some(caller) ==> r == Err::<(), Error>(Error::NotOwner)
                && *final(self) == *old(self),
            old(self)@.owner == Some(caller) && amount == 0 ==> r == Err::<(), Error>(
                Error::ZeroAmount,
            ) && *final(self) == *old(self),
            old(self)@.owner == Some(caller) && amount > 0 && old(self)@.pool_of(pool_name@)
                is None ==> r == Err::<(), Error>(Error::PoolNotFound) && *final(self) == *old(
                self,
            ),
            old(self)@.owner == Some(caller) && amount > 0 && old(self)@.total_tvl < amount
                && old(self)@.pool_of(pool_name@) is Some ==> r == Err::<(), Error>(
                Error::InsufficientTvl,
            ) && *final(self) == *old(self),
            old(self)@.owner == Some(caller) && amount > 0 && old(self)@.total_tvl >= amount ==> (
            old(self)@.pool_of(pool_name@) matches Some(p) ==> r == Ok::<(), Error>(())
                && final(self)@.pool_of(pool_name@) == Some(
                (PoolModel { total_allocated: (p.total_allocated + amount) as u64, ..p }),
            ) && (forall|n: Seq<char>|
                n != pool_name@ ==> final(self)@.pool_of(n) == old(self)@.pool_of(n))
                && non_pool_state_unchanged(old(self)@, final(self)@)),
    {
        if let Err(e) = self.require_owner(caller) {
            return Err(e);
        }
        if let Err(e) = self.require_positive_amount(amount) {
            return Err(e);
        }

        match self.pool_index(&pool_name) {
            Some(i) => {
                proof {
                    lemma_find_pool_at(self@.pools, pool_name@, i as int);
                }
                if self.total_tvl < amount {
                    return Err(Error::InsufficientTvl);
                }
                let mut pool = self.pools[i].clone();
                pool.total_allocated = pool.total_allocated + amount;
                self.pools[i] = pool;
                proof {
                    assert(self@.pools =~= old(self)@.pools.update(
                        i as int,
                        self@.pools[i as int],
                    ));
                    lemma_find_pool_at(self@.pools, pool_name@, i as int);
                    assert forall|n: Seq<char>| n != pool_name@ implies find_pool(self@.pools, n)
                        == find_pool(old(self)@.pools, n) by {
                        lemma_find_pool_update_other(
                            old(self)@.pools,
                            i as int,
                            self@.pools[i as int],
                            n,
                        );
                    };
                }
                Ok(())
            },
            None => {
                proof {
                    lemma_find_pool_none(self@.pools, pool_name@);
                }
                Err(Error::PoolNotFound)
            },
        }
    }

    /// Moves `amount` between the allocation buckets of two pools: a pure
    /// reclassification that conserves the total allocation and changes no
    /// position, share count, or value. Owner only; both pools must exist
    /// and the source must have at least `amount` allocated. Naming the same
    /// pool twice takes the amount out and puts it straight back, leaving
    /// the pool as it was. Returns the record to publish.
    pub fn rebalance_pools(
        &mut self,
        caller: u64,
        from_pool: String,
        to_pool: String,
        amount: u64,
        now: u64,
    ) -> (r: Result<Rebalance, Error>)
        requires
            old(self).wf(),
            old(self)@.owner == Some(caller) && amount > 0 && from_pool@ != to_pool@ && (old(
                self,
            )@.pool_of(from_pool@) matches Some(f) && f.total_allocated >= amount) ==> (old(
                self,
            )@.pool_of(to_pool@) matches Some(t) ==> t.total_allocated + amount <= u64::MAX),
        ensures
            final(self).wf(),
            old(self)@.owner != Some(caller) ==> r == Err::<Rebalance, Error>(Error::NotOwner)
                && *final(self) == *old(self),
            old(self)@.owner == Some(caller) && amount == 0 ==> r == Err::<Rebalance, Error>(
                Error::ZeroAmount,
            ) && *final(self) == *old(self),
            old(self)@.owner == Some(caller) && amount > 0 && old(self)@.pool_of(from_pool@)
                is None ==> r == Err::<Rebalance, Error>(Error::PoolNotFound) && *final(self)
                == *old(self),
            old(self)@.owner == Some(caller) && amount > 0 && old(self)@.pool_of(from_pool@)
                is Some && old(self)@.pool_of(to_pool@) is None ==> r == Err::<Rebalance, Error>(
                Error::PoolNotFound,
            ) && *final(self) == *old(self),
            old(self)@.owner == Some(caller) && amount > 0 ==> (old(self)@.pool_of(from_pool@)
                matches Some(f) ==> (old(self)@.pool_of(to_pool@) matches Some(t) ==> {
                &&& f.total_allocated < amount ==> r == Err::<Rebalance, Error>(
                    Error::InsufficientAllocation,
                ) && *final(self) == *old(self)
                &&& f.total_allocated >= amount ==> (r matches Ok(ev) && ev.from_pool@
                    == from_pool@ && ev.to_pool@ == to_pool@ && ev.amount == amount && ev.timestamp
                    == now && (from_pool@ == to_pool@ ==> final(self)@.pool_of(from_pool@) == old(
                    self,
                )@.pool_of(from_pool@)) && (from_pool@ != to_pool@ ==> final(self)@.pool_of(
                    from_pool@,
                ) == Some(
                    (PoolModel { total_allocated: (f.total_allocated - amount) as u64, ..f }),
                ) && final(self)@.pool_of(to_pool@) == Some(
                    (PoolModel { total_allocated: (t.total_allocated + amount) as u64, ..t }),
                )) && (forall|n: Seq<char>|
                    n != from_pool@ && n != to_pool@ ==> final(self)@.pool_of(n) == old(
                        self,
                    )@.pool_of(n)) && non_pool_state_unchanged(old(self)@, final(self)@))
            })),
    {
        if let Err(e) = self.require_owner(caller) {
            return Err(e);
        }
        if let Err(e) = self.require_positive_amount(amount) {
            return Err(e);
        }

        let ghost pre = self@.pools;
        let ghost fkey = from_pool@;
        let ghost tkey = to_pool@;

        let from_i = match self.pool_index(&from_pool) {
            Some(i) => i,
            None => {
                proof {
                    lemma_find_pool_none(pre, fkey);
                }
                return Err(Error::PoolNotFound);
            },
        };
        proof {
            lemma_find_pool_at(pre, fkey, from_i as int);
        }

        let to_i = match self.pool_index(&to_pool) {
            Some(i) => i,
            None => {
                proof {
                    lemma_find_pool_none(pre, tkey);
                }
                return Err(Error::PoolNotFound);
            },
        };
        proof {
            lemma_find_pool_at(pre, tkey, to_i as int);
        }

        if self.pools[from_i].total_allocated < amount {
            return Err(Error::InsufficientAllocation);
        }

        let mut from_entry = self.pools[from_i].clone();
        from_entry.total_allocated = from_entry.total_allocated - amount;
        self.pools[from_i] = from_entry;
        let ghost mid = self@.pools;

        // The destination is read after the source write, so moving a pool's
        // allocation onto itself puts back exactly what was taken out.
        proof {
            assert(mid =~= pre.update(from_i as int, mid[from_i as int]));
            if from_i != to_i {
                assert(mid[to_i as int] == pre[to_i as int]);
                assert(fkey != tkey);
            }
        }
        let mut to_entry = self.pools[to_i].clone();
        to_entry.total_allocated = to_entry.total_allocated + amount;
        self.pools[to_i] = to_entry;
        let ghost fin = self@.pools;

        proof {
            assert(fin =~= mid.update(to_i as int, fin[to_i as int]));
            assert(mid[from_i as int].name == fkey);
            assert(fin[to_i as int].name == tkey);
            if from_i == to_i {
                assert(fin[to_i as int] == pre[to_i as int]);
                assert(fin =~= pre);
            } else {
                assert(fkey != tkey);
                lemma_find_pool_at(fin, fkey, from_i as int);
                lemma_find_pool_at(fin, tkey, to_i as int);
                assert(find_pool(fin, fkey) == Some(fin[from_i as int]));
                assert(find_pool(fin, tkey) == Some(fin[to_i as int]));
                assert forall|n: Seq<char>| n != fkey && n != tkey implies find_pool(fin, n)
                    == find_pool(pre, n) by {
                    lemma_find_pool_update_other(pre, from_i as int, mid[from_i as int], n);
                    lemma_find_pool_update_other(mid, to_i as int, fin[to_i as int], n);
                };
            }
            assert forall|a: int, b: int| 0 <= a < b < fin.len() implies (
            #[trigger] fin[a]).name != (#[trigger] fin[b]).name by {
                assert(fin[a].name == pre[a].name);
                assert(fin[b].name == pre[b].name);
                assert(pre[a] != pre[b]);
            };
        }

        Ok(Rebalance { from_pool, to_pool, amount, timestamp: now })
    }

    /// Credits `amount` of externally realized yield to the ledger: the total
    /// value locked rises while the share count stays put, so every existing
    /// share gains value. The named pool must exist, but the reward is not
    /// attributed to its allocation. Owner only. Returns the record to
    /// publish.
    pub fn harvest_rewards(
        &mut self,
        caller: u64,
        pool_name: String,
        amount: u64,
        now: u64,
    ) -> (r: Result<RewardsHarvested, Error>)
        requires
            old(self).wf(),
            old(self)@.owner == Some(caller) && amount > 0 && old(self)@.pool_of(pool_name@)
                is Some ==> old(self)@.total_tvl + amount <= u64::MAX,
        ensures
            final(self).wf(),
            old(self)@.owner != Some(caller) ==> r == Err::<RewardsHarvested, Error>(
                Error::NotOwner,
            ) && *final(self) == *old(self),
            old(self)@.owner == Some(caller) && amount == 0 ==> r == Err::<RewardsHarvested, Error>(
                Error::ZeroAmount,
            ) && *final(self) == *old(self),
            old(self)@.owner == Some(caller) && amount > 0 && old(self)@.pool_of(pool_name@)
                is None ==> r == Err::<RewardsHarvested, Error>(Error::PoolNotFound) && *final(self)
                == *old(self),
            old(self)@.owner == Some(caller) && amount > 0 && old(self)@.pool_of(pool_name@)
                is Some ==> (r matches Ok(ev) && ev.pool@ == pool_name@ && ev.amount == amount
                && ev.timestamp == now && final(self)@ == (Ledger {
                total_tvl: (old(self)@.total_tvl + amount) as u64,
                ..old(self)@
            })),
    {
        if let Err(e) = self.require_owner(caller) {
            return Err(e);
        }
        if let Err(e) = self.require_positive_amount(amount) {
            return Err(e);
        }

        match self.pool_index(&pool_name) {
            Some(i) => {
                proof {
                    lemma_find_pool_at(self@.pools, pool_name@, i as int);
                }
                self.total_tvl = self.total_tvl + amount;
                Ok(RewardsHarvested { pool: pool_name, amount, timestamp: now })
            },
            None => {
                proof {
                    lemma_find_pool_none(self@.pools, pool_name@);
                }
                Err(Error::PoolNotFound)
            },
        }
    }
}

} // verus!
