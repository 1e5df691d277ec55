//! A named strategy pool and its allocation bookkeeping.

use vstd::prelude::*;

verus! {

/// One strategy pool. The pool's name doubles as its key in the ledger; the
/// allocation counter is a bookkeeping split of the total value locked, not a
/// transfer of funds out of the ledger.
#[derive(Debug)]
pub struct PoolInfo {
    /// Display label; always equals the key the pool is stored under.
    pub name: String,
    /// Capital currently assigned to this pool.
    pub total_allocated: u64,
    /// Annual yield in basis points; informational only.
    pub current_apy: u32,
    /// Risk rating from 1 (lowest) to 5; informational only.
    pub risk_level: u8,
}

/// The mathematical image of a pool: the same fields with the name as a
/// sequence of characters.
pub ghost struct PoolModel {
    pub name: Seq<char>,
    pub total_allocated: u64,
    pub current_apy: u32,
    pub risk_level: u8,
}

impl View for PoolInfo {
    type V = PoolModel;

    open spec fn view(&self) -> PoolModel {
        PoolModel {
            name: self.name@,
            total_allocated: self.total_allocated,
            current_apy: self.current_apy,
            risk_level: self.risk_level,
        }
    }
}

impl Clone for PoolInfo {
    fn clone(&self) -> (r: Self)
        ensures
            r@ == self@,
    {
        PoolInfo {
            name: self.name.clone(),
            total_allocated: self.total_allocated,
            current_apy: self.current_apy,
            risk_level: self.risk_level,
        }
    }
}

} // verus!
