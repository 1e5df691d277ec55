//! Deposit, withdrawal, and lifecycle behavior of the ledger.

use yield_optimizer::{Error, UserPosition, YieldOptimizer};

const OWNER: u64 = 0;
const USER: u64 = 1;
const USER2: u64 = 2;

fn setup() -> YieldOptimizer {
    YieldOptimizer::init(OWNER, 100) // 1% management fee
}

#[test]
fn test_initialization() {
    let contract = setup();

    assert_eq!(contract.get_tvl(), 0);
    assert_eq!(contract.get_total_shares(), 0);
    assert_eq!(contract.is_paused(), false);
    assert_eq!(contract.get_management_fee(), 100);
}

#[test]
fn test_deposit() {
    let mut contract = setup();

    let deposit_amount: u64 = 1_000_000_000; // 1 CSPR in motes

    contract.deposit(USER, deposit_amount, 0).unwrap();

    assert_eq!(contract.get_tvl(), deposit_amount);

    let position = contract.get_position(USER);
    assert_eq!(position.deposited_amount, deposit_amount);
    assert_eq!(position.shares, deposit_amount); // First deposit: 1:1 ratio
}

#[test]
fn test_multiple_deposits_same_user() {
    let mut contract = setup();

    let deposit1: u64 = 1_000_000_000;
    let deposit2: u64 = 500_000_000;

    contract.deposit(USER, deposit1, 0).unwrap();
    contract.deposit(USER, deposit2, 0).unwrap();

    let position = contract.get_position(USER);
    assert_eq!(position.deposited_amount, deposit1 + deposit2);
    assert_eq!(contract.get_tvl(), deposit1 + deposit2);
}

#[test]
fn test_multiple_users_deposit() {
    let mut contract = setup();

    contract.deposit(USER, 1_000_000_000, 0).unwrap(); // 1 CSPR
    contract.deposit(USER2, 2_000_000_000, 0).unwrap(); // 2 CSPR

    assert_eq!(contract.get_tvl(), 3_000_000_000);

    let pos1 = contract.get_position(USER);
    let pos2 = contract.get_position(USER2);

    assert_eq!(pos1.deposited_amount, 1_000_000_000);
    assert_eq!(pos2.deposited_amount, 2_000_000_000);
}

#[test]
fn test_withdraw() {
    let mut contract = setup();

    let deposit_amount: u64 = 1_000_000_000;
    contract.deposit(USER, deposit_amount, 0).unwrap();

    let position = contract.get_position(USER);
    let shares = position.shares;

    // Withdraw half
    let withdraw_shares = shares / 2;
    contract.withdraw(USER, withdraw_shares, 0).unwrap();

    let new_position = contract.get_position(USER);
    assert_eq!(new_position.shares, shares - withdraw_shares);

    // TVL should be reduced by approximately half
    let remaining_tvl = contract.get_tvl();
    assert!(remaining_tvl > 400_000_000); // Allow some margin
    assert!(remaining_tvl < 600_000_000);
}

#[test]
fn test_full_withdrawal() {
    let mut contract = setup();

    let deposit_amount: u64 = 1_000_000_000;
    contract.deposit(USER, deposit_amount, 0).unwrap();

    let position = contract.get_position(USER);
    contract.withdraw(USER, position.shares, 0).unwrap();

    let new_position = contract.get_position(USER);
    assert_eq!(new_position.shares, 0);
    assert_eq!(new_position.deposited_amount, 0);
    assert_eq!(contract.get_tvl(), 0);
}

#[test]
fn test_withdraw_insufficient_shares() {
    let mut contract = setup();

    contract.deposit(USER, 1_000_000_000, 0).unwrap();

    // Try to withdraw more than deposited
    let result = contract.withdraw(USER, 2_000_000_000, 0);
    assert_eq!(result, Err(Error::InsufficientShares));
}

#[test]
fn test_deposit_zero_amount() {
    let mut contract = setup();

    let result = contract.deposit(USER, 0, 0);
    assert_eq!(result, Err(Error::ZeroAmount));
}

#[test]
fn test_pause_unpause() {
    let mut contract = setup();

    contract.pause(OWNER).unwrap();
    assert_eq!(contract.is_paused(), true);

    contract.unpause(OWNER).unwrap();
    assert_eq!(contract.is_paused(), false);
}

#[test]
fn test_deposit_when_paused() {
    let mut contract = setup();

    contract.pause(OWNER).unwrap();

    let result = contract.deposit(USER, 1_000_000_000, 0);
    assert_eq!(result, Err(Error::ContractPaused));
}

#[test]
fn test_non_owner_cannot_pause() {
    let mut contract = setup();

    let result = contract.pause(USER);
    assert_eq!(result, Err(Error::NotOwner));
}

#[test]
fn test_get_user_value() {
    let mut contract = setup();

    let deposit_amount: u64 = 5_000_000_000;
    contract.deposit(USER, deposit_amount, 0).unwrap();

    let user_value = contract.get_user_value(USER);
    assert_eq!(user_value, deposit_amount);
}

#[test]
fn test_owner_is_set_correctly() {
    let contract = setup();

    assert_eq!(contract.get_owner(), Some(OWNER));
}

#[test]
fn test_withdraw_zero_amount() {
    let mut contract = setup();

    contract.deposit(USER, 1_000_000_000, 0).unwrap();

    let result = contract.withdraw(USER, 0, 0);
    assert_eq!(result, Err(Error::ZeroAmount));
}

#[test]
fn test_withdraw_when_paused() {
    let mut contract = setup();

    contract.deposit(USER, 1_000_000_000, 0).unwrap();
    contract.pause(OWNER).unwrap();

    let result = contract.withdraw(USER, 1_000_000_000, 0);
    assert_eq!(result, Err(Error::ContractPaused));
}

#[test]
fn test_withdraw_without_position() {
    let mut contract = setup();

    contract.deposit(USER, 1_000_000_000, 0).unwrap();

    // A user who never deposited holds zero shares
    let result = contract.withdraw(USER2, 1, 0);
    assert_eq!(result, Err(Error::InsufficientShares));
}

#[test]
fn test_unknown_user_has_zero_position() {
    let contract = setup();

    let position = contract.get_position(USER);
    assert_eq!(
        position,
        UserPosition { shares: 0, deposited_amount: 0, last_deposit_time: 0, total_rewards: 0 }
    );
    assert_eq!(contract.get_user_value(USER), 0);
}

#[test]
fn test_deposit_event_fields() {
    let mut contract = setup();

    let ev = contract.deposit(USER, 750, 42).unwrap();
    assert_eq!(ev.user, USER);
    assert_eq!(ev.amount, 750);
    assert_eq!(ev.shares, 750);
    assert_eq!(ev.timestamp, 42);

    let position = contract.get_position(USER);
    assert_eq!(position.last_deposit_time, 42);
}

#[test]
fn test_withdrawal_event_fields() {
    let mut contract = setup();

    contract.deposit(USER, 1_000, 1).unwrap();
    let ev = contract.withdraw(USER, 400, 9).unwrap();
    assert_eq!(ev.user, USER);
    assert_eq!(ev.amount, 400);
    assert_eq!(ev.shares, 400);
    assert_eq!(ev.timestamp, 9);
}

#[test]
fn test_full_withdrawal_resets_principal_only() {
    let mut contract = setup();

    contract.deposit(USER, 1_000, 5).unwrap();
    contract.withdraw(USER, 1_000, 6).unwrap();

    // The closed position keeps its deposit timestamp but loses its
    // principal and reward bookkeeping.
    let position = contract.get_position(USER);
    assert_eq!(position.shares, 0);
    assert_eq!(position.deposited_amount, 0);
    assert_eq!(position.total_rewards, 0);
    assert_eq!(position.last_deposit_time, 5);
}
