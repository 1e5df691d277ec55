//! The mathematical model of the ledger: a snapshot of every persisted field,
//! with the two key-value mappings as sequences of entries, together with the
//! well-formedness invariant and the lemmas that relate entry lookups and the
//! share sum to sequence edits.

use vstd::prelude::*;

use crate::math::amount_for_shares;
use crate::pool::PoolModel;
use crate::position::{zero_position, UserPosition};

verus! {

/// Everything the ledger persists, as one ghost value.
pub ghost struct Ledger {
    /// The single privileged address, set at initialization.
    pub owner: Option<u64>,
    /// Total value locked: everything currently owned by depositors.
    pub total_tvl: u64,
    /// Sum of all outstanding shares.
    pub total_shares: u64,
    /// Stored positions, keyed by user address; absent keys read as zero.
    pub positions: Seq<(u64, UserPosition)>,
    /// Stored pools; a pool's name is its key.
    pub pools: Seq<PoolModel>,
    /// Management fee in basis points; stored and reported, never applied.
    pub management_fee: u32,
    /// While set, deposits and withdrawals are refused.
    pub paused: bool,
}

/// The stored position for `user`: the first entry with that key, if any.
pub open spec fn find_position(s: Seq<(u64, UserPosition)>, user: u64) -> Option<UserPosition>
    decreases s.len(),
{
    if s.len() == 0 {
        None
    } else if s[0].0 == user {
        Some(s[0].1)
    } else {
        find_position(s.drop_first(), user)
    }
}

/// The sum of the share counts of all stored positions.
pub open spec fn sum_shares(s: Seq<(u64, UserPosition)>) -> int
    decreases s.len(),
{
    if s.len() == 0 {
        0
    } else {
        sum_shares(s.drop_last()) + s.last().1.shares
    }
}

/// The stored pool named `name`: the first entry with that name, if any.
pub open spec fn find_pool(s: Seq<PoolModel>, name: Seq<char>) -> Option<PoolModel>
    decreases s.len(),
{
    if s.len() == 0 {
        None
    } else if s[0].name == name {
        Some(s[0])
    } else {
        find_pool(s.drop_first(), name)
    }
}

/// No two stored positions share a key.
pub open spec fn positions_unique(s: Seq<(u64, UserPosition)>) -> bool {
    forall|i: int, j: int|
        #![trigger s[i], s[j]]
        0 <= i < j < s.len() ==> s[i].0 != s[j].0
}

/// No two stored pools share a name.
pub open spec fn pools_unique(s: Seq<PoolModel>) -> bool {
    forall|i: int, j: int|
        #![trigger s[i], s[j]]
        0 <= i < j < s.len() ==> s[i].name != s[j].name
}

impl Ledger {
    /// The position of `user`, with the zero default for an absent key.
    pub open spec fn position_of(self, user: u64) -> UserPosition {
        match find_position(self.positions, user) {
            Some(p) => p,
            None => zero_position(),
        }
    }

    /// The pool named `name`, if it exists.
    pub open spec fn pool_of(self, name: Seq<char>) -> Option<PoolModel> {
        find_pool(self.pools, name)
    }

    /// What `user`'s shares are currently worth: the withdrawal equivalent
    /// of the whole position, zero if the user holds no shares.
    pub open spec fn user_value(self, user: u64) -> int {
        if self.position_of(user).shares == 0 {
            0
        } else {
            amount_for_shares(
                self.position_of(user).shares as int,
                self.total_shares as int,
                self.total_tvl as int,
            )
        }
    }

    /// Well-formedness: keys are unique, the stored share counts add up to
    /// `total_shares` exactly, and the share price never falls below one —
    /// whenever shares are outstanding, the total value locked covers them.
    pub open spec fn wf(self) -> bool {
        &&& positions_unique(self.positions)
        &&& sum_shares(self.positions) == self.total_shares
        &&& self.total_shares == 0 || self.total_shares <= self.total_tvl
        &&& pools_unique(self.pools)
    }
}

/// A key that occurs first at index `i` is what lookup returns.
pub proof fn lemma_find_position_at(s: Seq<(u64, UserPosition)>, user: u64, i: int)
    requires
        0 <= i < s.len(),
        s[i].0 == user,
        forall|j: int| 0 <= j < i ==> (#[trigger] s[j]).0 != user,
    ensures
        find_position(s, user) == Some(s[i].1),
    decreases i,
{
    if i > 0 {
        lemma_find_position_at(s.drop_first(), user, i - 1);
    }
}

/// A key that occurs nowhere is not found.
pub proof fn lemma_find_position_none(s: Seq<(u64, UserPosition)>, user: u64)
    requires
        forall|j: int| 0 <= j < s.len() ==> (#[trigger] s[j]).0 != user,
    ensures
        find_position(s, user) is None,
    decreases s.len(),
{
    if s.len() > 0 {
        lemma_find_position_none(s.drop_first(), user);
    }
}

/// Overwriting an entry in place, keeping its key, does not change the lookup
/// of any other key.
pub proof fn lemma_find_position_update_other(
    s: Seq<(u64, UserPosition)>,
    i: int,
    entry: (u64, UserPosition),
    user: u64,
)
    requires
        0 <= i < s.len(),
        entry.0 == s[i].0,
        s[i].0 != user,
    ensures
        find_position(s.update(i, entry), user) == find_position(s, user),
    decreases s.len(),
{
    if i == 0 {
        assert(s.update(0, entry).drop_first() =~= s.drop_first());
    } else {
        assert(s.update(i, entry).drop_first() =~= s.drop_first().update(i - 1, entry));
        lemma_find_position_update_other(s.drop_first(), i - 1, entry, user);
    }
}

/// Appending an entry with a different key does not change a lookup.
pub proof fn lemma_find_position_push_other(
    s: Seq<(u64, UserPosition)>,
    entry: (u64, UserPosition),
    user: u64,
)
    requires
        entry.0 != user,
    ensures
        find_position(s.push(entry), user) == find_position(s, user),
    decreases s.len(),
{
    if s.len() == 0 {
        assert(s.push(entry)[0] == entry);
        assert(s.push(entry).drop_first() =~= s);
    } else {
        assert(s.push(entry).drop_first() =~= s.drop_first().push(entry));
        lemma_find_position_push_other(s.drop_first(), entry, user);
    }
}

/// The share sum is never negative.
pub proof fn lemma_sum_nonneg(s: Seq<(u64, UserPosition)>)
    ensures
        sum_shares(s) >= 0,
    decreases s.len(),
{
    if s.len() > 0 {
        lemma_sum_nonneg(s.drop_last());
    }
}

/// Overwriting one entry changes the sum by the difference of its shares.
pub proof fn lemma_sum_update(s: Seq<(u64, UserPosition)>, i: int, entry: (u64, UserPosition))
    requires
        0 <= i < s.len(),
    ensures
        sum_shares(s.update(i, entry)) == sum_shares(s) - s[i].1.shares + entry.1.shares,
    decreases s.len(),
{
    if i == s.len() - 1 {
        assert(s.update(i, entry).drop_last() =~= s.drop_last());
    } else {
        assert(s.update(i, entry).drop_last() =~= s.drop_last().update(i, entry));
        lemma_sum_update(s.drop_last(), i, entry);
    }
}

/// Appending an entry adds its shares to the sum.
pub proof fn lemma_sum_push(s: Seq<(u64, UserPosition)>, entry: (u64, UserPosition))
    ensures
        sum_shares(s.push(entry)) == sum_shares(s) + entry.1.shares,
{
    assert(s.push(entry).drop_last() =~= s);
}

/// The sum can equally be peeled off at the front.
pub proof fn lemma_sum_drop_first(s: Seq<(u64, UserPosition)>)
    requires
        s.len() > 0,
    ensures
        sum_shares(s) == s[0].1.shares + sum_shares(s.drop_first()),
    decreases s.len(),
{
    if s.len() == 1 {
        assert(s.drop_last() =~= s.drop_first());
        assert(s.last() == s[0]);
    } else {
        lemma_sum_drop_first(s.drop_last());
        assert(s.drop_last().drop_first() =~= s.drop_first().drop_last());
        assert(s.drop_last()[0] == s[0]);
        assert(s.drop_first().last() == s.last());
        assert(sum_shares(s.drop_first()) == sum_shares(s.drop_first().drop_last())
            + s.drop_first().last().1.shares);
    }
}

/// No single position holds more shares than the sum of all of them.
pub proof fn lemma_found_position_le_sum(s: Seq<(u64, UserPosition)>, user: u64)
    ensures
        match find_position(s, user) {
            Some(p) => p.shares <= sum_shares(s),
            None => true,
        },
    decreases s.len(),
{
    if s.len() > 0 {
        lemma_sum_drop_first(s);
        if s[0].0 == user {
            lemma_sum_nonneg(s.drop_first());
        } else {
            lemma_found_position_le_sum(s.drop_first(), user);
        }
    }
}

/// A pool name that occurs first at index `i` is what lookup returns.
pub proof fn lemma_find_pool_at(s: Seq<PoolModel>, name: Seq<char>, i: int)
    requires
        0 <= i < s.len(),
        s[i].name == name,
        forall|j: int| 0 <= j < i ==> (#[trigger] s[j]).name != name,
    ensures
        find_pool(s, name) == Some(s[i]),
    decreases i,
{
    if i > 0 {
        lemma_find_pool_at(s.drop_first(), name, i - 1);
    }
}

/// A pool name that occurs nowhere is not found.
pub proof fn lemma_find_pool_none(s: Seq<PoolModel>, name: Seq<char>)
    requires
        forall|j: int| 0 <= j < s.len() ==> (#[trigger] s[j]).name != name,
    ensures
        find_pool(s, name) is None,
    decreases s.len(),
{
    if s.len() > 0 {
        lemma_find_pool_none(s.drop_first(), name);
    }
}

/// Overwriting a pool in place, keeping its name, does not change the lookup
/// of any other name.
pub proof fn lemma_find_pool_update_other(s: Seq<PoolModel>, i: int, p: PoolModel, name: Seq<char>)
    requires
        0 <= i < s.len(),
        p.name == s[i].name,
        s[i].name != name,
    ensures
        find_pool(s.update(i, p), name) == find_pool(s, name),
    decreases s.len(),
{
    if i == 0 {
        assert(s.update(0, p).drop_first() =~= s.drop_first());
    } else {
        assert(s.update(i, p).drop_first() =~= s.drop_first().update(i - 1, p));
        lemma_find_pool_update_other(s.drop_first(), i - 1, p, name);
    }
}

/// Appending a pool with a different name does not change a lookup.
pub proof fn lemma_find_pool_push_other(s: Seq<PoolModel>, p: PoolModel, name: Seq<char>)
    requires
        p.name != name,
    ensures
        find_pool(s.push(p), name) == find_pool(s, name),
    decreases s.len(),
{
    if s.len() == 0 {
        assert(s.push(p)[0] == p);
        assert(s.push(p).drop_first() =~= s);
    } else {
        assert(s.push(p).drop_first() =~= s.drop_first().push(p));
        lemma_find_pool_push_other(s.drop_first(), p, name);
    }
}

} // verus!
