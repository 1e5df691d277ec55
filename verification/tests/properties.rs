//! Scenario tests for the ledger's accounting guarantees: bootstrap ratio,
//! round trips, reward dilution resistance, pause gating, and the
//! independence of allocation bookkeeping from custody.

use yield_optimizer::{Error, YieldOptimizer};

const OWNER: u64 = 0;
const USER: u64 = 1;
const USER2: u64 = 2;

fn setup() -> YieldOptimizer {
    YieldOptimizer::init(OWNER, 100)
}

#[test]
fn test_share_calculation_with_rewards() {
    let mut contract = setup();

    // User 1 deposits 10 CSPR
    contract.deposit(USER, 10_000_000_000, 0).unwrap();

    // Simulate rewards (owner harvests)
    contract.add_pool(OWNER, "Pool A".to_string(), 1250, 2).unwrap();
    contract
        .harvest_rewards(OWNER, "Pool A".to_string(), 1_000_000_000, 0)
        .unwrap(); // +1 CSPR

    // Now TVL is 11 CSPR but shares are still 10
    // User 2 deposits 11 CSPR
    contract.deposit(USER2, 11_000_000_000, 0).unwrap();

    let pos1 = contract.get_position(USER);
    let pos2 = contract.get_position(USER2);

    // User 1 should have 10 shares
    assert_eq!(pos1.shares, 10_000_000_000);

    // User 2 should have 10 shares (11 CSPR / 1.1 CSPR per share = 10 shares)
    assert_eq!(pos2.shares, 10_000_000_000);
}

#[test]
fn test_bootstrap_first_deposit_is_one_to_one() {
    let mut contract = setup();

    let ev = contract.deposit(USER, 123_456_789, 0).unwrap();
    assert_eq!(ev.shares, 123_456_789);
    assert_eq!(contract.get_total_shares(), 123_456_789);
}

#[test]
fn test_withdraw_half_exact() {
    let mut contract = setup();

    // Deposit 1,000,000,000: TVL and shares both 1,000,000,000 at price 1.
    contract.deposit(USER, 1_000_000_000, 0).unwrap();
    assert_eq!(contract.get_tvl(), 1_000_000_000);
    assert_eq!(contract.get_total_shares(), 1_000_000_000);

    // Withdraw 500,000,000 shares: exactly 500,000,000 paid out.
    let ev = contract.withdraw(USER, 500_000_000, 0).unwrap();
    assert_eq!(ev.amount, 500_000_000);
    assert_eq!(contract.get_total_shares(), 500_000_000);
    assert_eq!(contract.get_tvl(), 500_000_000);
}

#[test]
fn test_round_trip_single_depositor_exact() {
    let mut contract = setup();

    let ev = contract.deposit(USER, 987_654_321, 0).unwrap();
    let back = contract.withdraw(USER, ev.shares, 0).unwrap();
    assert_eq!(back.amount, 987_654_321);
    assert_eq!(contract.get_tvl(), 0);
    assert_eq!(contract.get_total_shares(), 0);
}

#[test]
fn test_round_trip_never_profits() {
    let mut contract = setup();

    // Set an awkward share price of 15/10 before the probe deposits.
    contract.deposit(USER, 10, 0).unwrap();
    contract.add_pool(OWNER, "Pool A".to_string(), 1250, 2).unwrap();
    contract.harvest_rewards(OWNER, "Pool A".to_string(), 5, 0).unwrap();

    // Deposit 7 at price 1.5: floor(7 * 10 / 15) = 4 shares. Withdrawing
    // those 4 shares pays floor(4 * 22 / 14) = 6, less than the 7 paid in.
    let ev = contract.deposit(USER2, 7, 0).unwrap();
    assert_eq!(ev.shares, 4);
    let back = contract.withdraw(USER2, 4, 0).unwrap();
    assert_eq!(back.amount, 6);
    assert!(back.amount <= 7);
}

#[test]
fn test_harvest_raises_existing_value() {
    let mut contract = setup();

    contract.deposit(USER, 10_000_000_000, 0).unwrap();
    contract.deposit(USER2, 5_000_000_000, 0).unwrap();
    contract.add_pool(OWNER, "Pool A".to_string(), 1250, 2).unwrap();

    let value1_before = contract.get_user_value(USER);
    let value2_before = contract.get_user_value(USER2);

    contract
        .harvest_rewards(OWNER, "Pool A".to_string(), 3_000_000_000, 0)
        .unwrap();

    // Shares are untouched and each position's value rises in proportion.
    assert_eq!(contract.get_total_shares(), 15_000_000_000);
    assert_eq!(contract.get_user_value(USER), value1_before + 2_000_000_000);
    assert_eq!(contract.get_user_value(USER2), value2_before + 1_000_000_000);
}

#[test]
fn test_share_accounting_across_operations() {
    let mut contract = setup();

    contract.add_pool(OWNER, "Pool A".to_string(), 1250, 2).unwrap();

    // After every operation the stored positions' shares add up to the
    // ledger's total.
    let sum = |c: &YieldOptimizer| c.get_position(USER).shares + c.get_position(USER2).shares;

    contract.deposit(USER, 1_000_000, 0).unwrap();
    assert_eq!(sum(&contract), contract.get_total_shares());

    contract.deposit(USER2, 3_000_000, 0).unwrap();
    assert_eq!(sum(&contract), contract.get_total_shares());

    contract.harvest_rewards(OWNER, "Pool A".to_string(), 999_999, 0).unwrap();
    assert_eq!(sum(&contract), contract.get_total_shares());

    contract.withdraw(USER, 777_777, 0).unwrap();
    assert_eq!(sum(&contract), contract.get_total_shares());

    contract.deposit(USER, 123_456, 0).unwrap();
    assert_eq!(sum(&contract), contract.get_total_shares());

    contract.withdraw(USER2, 3_000_000, 0).unwrap();
    assert_eq!(sum(&contract), contract.get_total_shares());
}

#[test]
fn test_admin_operations_remain_available_while_paused() {
    let mut contract = setup();

    contract.deposit(USER, 10_000, 0).unwrap();
    contract.pause(OWNER).unwrap();

    // Deposits and withdrawals are gated...
    assert_eq!(contract.deposit(USER, 1, 0), Err(Error::ContractPaused));
    assert_eq!(contract.withdraw(USER, 1, 0), Err(Error::ContractPaused));

    // ...while every administrative operation still works.
    contract.add_pool(OWNER, "Pool A".to_string(), 1250, 2).unwrap();
    contract.add_pool(OWNER, "Pool B".to_string(), 1500, 3).unwrap();
    contract.update_pool_apy(OWNER, "Pool A".to_string(), 1300).unwrap();
    contract.allocate_to_pool(OWNER, "Pool A".to_string(), 4_000).unwrap();
    contract
        .rebalance_pools(OWNER, "Pool A".to_string(), "Pool B".to_string(), 1_000, 0)
        .unwrap();
    contract.harvest_rewards(OWNER, "Pool A".to_string(), 500, 0).unwrap();
    contract.pause(OWNER).unwrap();
    contract.unpause(OWNER).unwrap();

    // Lifting the pause restores deposits.
    contract.deposit(USER, 1, 0).unwrap();
}

#[test]
fn test_allocations_can_exceed_tvl_in_aggregate() {
    let mut contract = setup();

    contract.deposit(USER, 10_000, 0).unwrap();
    contract.add_pool(OWNER, "Pool A".to_string(), 1250, 2).unwrap();
    contract.add_pool(OWNER, "Pool B".to_string(), 1500, 3).unwrap();

    // Each call passes the instantaneous TVL check, so two pools may in
    // aggregate be "allocated" more than the TVL: allocation is bookkeeping,
    // not custody, and does not debit the TVL.
    contract.allocate_to_pool(OWNER, "Pool A".to_string(), 8_000).unwrap();
    contract.allocate_to_pool(OWNER, "Pool B".to_string(), 8_000).unwrap();

    let pool_a = contract.get_pool_info("Pool A".to_string()).unwrap();
    let pool_b = contract.get_pool_info("Pool B".to_string()).unwrap();
    assert_eq!(pool_a.total_allocated, 8_000);
    assert_eq!(pool_b.total_allocated, 8_000);
    assert!(pool_a.total_allocated + pool_b.total_allocated > contract.get_tvl());
    assert_eq!(contract.get_tvl(), 10_000);
}

#[test]
fn test_withdrawals_do_not_revalidate_allocations() {
    let mut contract = setup();

    contract.deposit(USER, 10_000, 0).unwrap();
    contract.add_pool(OWNER, "Pool A".to_string(), 1250, 2).unwrap();
    contract.allocate_to_pool(OWNER, "Pool A".to_string(), 9_000).unwrap();

    // A withdrawal can take the TVL below an existing allocation.
    contract.withdraw(USER, 8_000, 0).unwrap();
    let pool = contract.get_pool_info("Pool A".to_string()).unwrap();
    assert_eq!(pool.total_allocated, 9_000);
    assert_eq!(contract.get_tvl(), 2_000);
}

#[test]
fn test_deposit_after_orphan_rewards() {
    let mut contract = setup();

    // Rewards harvested with no depositors leave value that no share claims.
    contract.add_pool(OWNER, "Pool A".to_string(), 1250, 2).unwrap();
    contract.harvest_rewards(OWNER, "Pool A".to_string(), 5_000, 0).unwrap();
    assert_eq!(contract.get_tvl(), 5_000);
    assert_eq!(contract.get_total_shares(), 0);

    // The next deposit bootstraps one-to-one and its shares absorb the
    // orphaned value.
    let ev = contract.deposit(USER, 10_000, 0).unwrap();
    assert_eq!(ev.shares, 10_000);
    assert_eq!(contract.get_user_value(USER), 15_000);

    let back = contract.withdraw(USER, 10_000, 0).unwrap();
    assert_eq!(back.amount, 15_000);
    assert_eq!(contract.get_tvl(), 0);
}
