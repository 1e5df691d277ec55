//! Share-based pooled-fund accounting ledger.
//!
//! Users deposit a fungible asset and receive proportional ownership units
//! ("shares"); an owner allocates the pooled capital across named strategy
//! pools, harvests rewards back into the pool (raising the share price), and
//! rebalances allocation between pools. The ledger is a single owned value:
//! the hosting environment supplies caller identity and timestamps as plain
//! arguments and persists the state between operations.

pub mod errors;
pub mod events;
pub mod laws;
pub mod math;
pub mod model;
pub mod pool;
pub mod position;
pub mod vault;

pub use errors::Error;
pub use events::{Deposit, Rebalance, RewardsHarvested, Withdrawal};
pub use pool::PoolInfo;
pub use position::UserPosition;
pub use vault::YieldOptimizer;
