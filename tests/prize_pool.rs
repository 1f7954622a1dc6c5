use stellarcade::error::ArcadeError;
use stellarcade::pool::PrizePool;

#[test]
fn test_initialize() {
    let mut pool = PrizePool::new();
    assert_eq!(pool.initialize(1), Ok(()));
    assert_eq!(pool.initialize(2), Err(ArcadeError::AlreadyInitialized));
    assert_eq!(pool.set_fee(1, true, 100), Ok(()));
    assert_eq!(pool.set_fee(2, true, 200), Err(ArcadeError::Unauthorized));
}

#[test]
fn deposit_credits_and_creates_account() {
    let mut pool = PrizePool::new();
    assert_eq!(pool.get_balance(5), 0);
    assert_eq!(pool.deposit(5, 1000), Ok(1000));
    assert_eq!(pool.deposit(5, 50), Ok(1050));
    assert_eq!(pool.get_balance(5), 1050);
    assert_eq!(pool.get_locked(5), 0);
}

#[test]
fn deposit_rejects_non_positive_amount() {
    let mut pool = PrizePool::new();
    assert_eq!(pool.deposit(5, 0), Err(ArcadeError::InvalidAmount));
    assert_eq!(pool.deposit(5, -3), Err(ArcadeError::InvalidAmount));
    assert_eq!(pool.get_balance(5), 0);
}

#[test]
fn deposit_rejects_overflow() {
    let mut pool = PrizePool::new();
    assert_eq!(pool.deposit(5, i128::MAX), Ok(i128::MAX));
    assert_eq!(pool.deposit(5, 1), Err(ArcadeError::Overflow));
    assert_eq!(pool.get_balance(5), i128::MAX);
}

#[test]
fn withdraw_respects_available_funds() {
    let mut pool = PrizePool::new();
    pool.deposit(7, 1000).unwrap();
    pool.lock(7, 100).unwrap();
    assert_eq!(pool.withdraw(7, 900, true), Ok(100));
    assert_eq!(pool.get_balance(7), 100);
    assert_eq!(pool.get_locked(7), 100);
    assert_eq!(pool.withdraw(7, 1, true), Err(ArcadeError::InsufficientFunds));
    assert_eq!(pool.get_balance(7), 100);
}

#[test]
fn withdraw_needs_verified_caller() {
    let mut pool = PrizePool::new();
    pool.deposit(7, 1000).unwrap();
    assert_eq!(pool.withdraw(7, 10, false), Err(ArcadeError::Unauthorized));
    assert_eq!(pool.withdraw(7, 0, true), Err(ArcadeError::InvalidAmount));
    assert_eq!(pool.withdraw(8, 1, true), Err(ArcadeError::InsufficientFunds));
    assert_eq!(pool.get_balance(7), 1000);
}

#[test]
fn lock_reserves_funds() {
    let mut pool = PrizePool::new();
    pool.deposit(7, 300).unwrap();
    assert_eq!(pool.lock(7, 200), Ok(()));
    assert_eq!(pool.lock(7, 101), Err(ArcadeError::InsufficientFunds));
    assert_eq!(pool.lock(7, 0), Err(ArcadeError::InvalidAmount));
    assert_eq!(pool.lock(7, 100), Ok(()));
    assert_eq!(pool.get_locked(7), 300);
    assert_eq!(pool.get_balance(7), 300);
}

#[test]
fn release_and_settle_applies_delta() {
    let mut pool = PrizePool::new();
    pool.deposit(7, 1000).unwrap();
    pool.lock(7, 100).unwrap();
    assert_eq!(pool.release_and_settle(7, 100, -100), Ok(()));
    assert_eq!(pool.get_balance(7), 900);
    assert_eq!(pool.get_locked(7), 0);
    assert_eq!(pool.get_house_net(), 100);
}

#[test]
fn release_and_settle_rejects_inconsistent_release() {
    let mut pool = PrizePool::new();
    pool.deposit(7, 1000).unwrap();
    pool.lock(7, 100).unwrap();
    assert_eq!(pool.release_and_settle(7, 101, 0), Err(ArcadeError::InvariantViolation));
    assert_eq!(pool.release_and_settle(7, 100, -101), Err(ArcadeError::InvariantViolation));
    assert_eq!(pool.release_and_settle(7, -1, 0), Err(ArcadeError::InvariantViolation));
    assert_eq!(pool.release_and_settle(9, 0, 0), Err(ArcadeError::InvariantViolation));
    assert_eq!(pool.settle_check(7, 100, i128::MAX), Err(ArcadeError::Overflow));
    assert_eq!(pool.get_balance(7), 1000);
    assert_eq!(pool.get_locked(7), 100);
}

#[test]
fn calculate_payout_applies_fee() {
    let mut pool = PrizePool::new();
    assert_eq!(pool.calculate_payout(100), Ok(200));
    pool.initialize(1).unwrap();
    pool.set_fee(1, true, 250).unwrap();
    assert_eq!(pool.calculate_payout(100), Ok(195));
    assert_eq!(pool.calculate_payout(3), Ok(5));
    assert_eq!(pool.calculate_payout(0), Err(ArcadeError::InvalidAmount));
    assert_eq!(pool.calculate_payout(i128::MAX), Err(ArcadeError::Overflow));
    pool.set_fee(1, true, 10000).unwrap();
    assert_eq!(pool.calculate_payout(100), Ok(0));
}

#[test]
fn set_fee_by_non_admin_is_unauthorized() {
    let mut pool = PrizePool::new();
    pool.initialize(1).unwrap();
    pool.set_fee(1, true, 300).unwrap();
    assert_eq!(pool.set_fee(2, true, 100), Err(ArcadeError::Unauthorized));
    assert_eq!(pool.set_fee(1, false, 100), Err(ArcadeError::Unauthorized));
    assert_eq!(pool.get_fee(), 300);
    assert_eq!(pool.calculate_payout(100), Ok(194));
}

#[test]
fn set_fee_rejects_above_full() {
    let mut pool = PrizePool::new();
    pool.initialize(1).unwrap();
    assert_eq!(pool.set_fee(1, true, 10001), Err(ArcadeError::InvalidFee));
    assert_eq!(pool.get_fee(), 0);
    let mut bare = PrizePool::new();
    assert_eq!(bare.set_fee(1, true, 10), Err(ArcadeError::Unauthorized));
}

#[test]
fn balances_cover_locks_and_funds_are_conserved() {
    let mut pool = PrizePool::new();
    pool.deposit(1, 500).unwrap();
    pool.deposit(2, 300).unwrap();
    pool.lock(1, 200).unwrap();
    pool.lock(2, 300).unwrap();
    pool.release_and_settle(1, 200, 150).unwrap();
    pool.release_and_settle(2, 100, -100).unwrap();
    pool.withdraw(1, 650, true).unwrap();
    for id in [1u64, 2] {
        assert!(pool.get_balance(id) >= pool.get_locked(id));
        assert!(pool.get_locked(id) >= 0);
    }
    let held = pool.get_balance(1) + pool.get_balance(2) + pool.get_house_net();
    assert_eq!(held, 500 + 300 - 650);
}
