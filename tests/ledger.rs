use dpos::{Currency, CurrencyError, Error, Event, Ledger, Pallet, STAKING_ID};

const A: u64 = 1;
const B: u64 = 2;
const C: u64 = 3;
const D: u64 = 4;

fn ledger() -> Ledger {
    let mut l = Ledger::new(10, 4);
    for who in [A, B, C, D] {
        l.endow(who, 1000);
    }
    l
}

#[test]
fn selection_orders_by_total_weight_and_truncates() {
    let mut l = ledger();
    let mut p = Pallet::new(2, 2).unwrap();
    assert_eq!(p.bond(&mut l, A, 100), Ok(Event::Bonded(A, 100)));
    assert_eq!(p.bond(&mut l, B, 200), Ok(Event::Bonded(B, 200)));
    assert_eq!(p.bond(&mut l, C, 50), Ok(Event::Bonded(C, 50)));
    assert_eq!(p.vote(&mut l, D, A, 500), Ok(Event::Voted(D, A, 500)));
    assert_eq!(p.new_session(1), Some(vec![A, B]));
}

#[test]
fn selection_without_enough_stashes_keeps_current_set() {
    let mut l = ledger();
    let mut p = Pallet::new(2, 2).unwrap();
    assert!(p.bond(&mut l, A, 100).is_ok());
    assert_eq!(p.new_session(1), None);
}

#[test]
fn selection_keeps_bond_order_among_equal_weights() {
    let mut l = ledger();
    let mut p = Pallet::new(1, 3).unwrap();
    assert!(p.bond(&mut l, C, 100).is_ok());
    assert!(p.bond(&mut l, A, 100).is_ok());
    assert!(p.bond(&mut l, B, 300).is_ok());
    assert_eq!(p.new_session(7), Some(vec![B, C, A]));
    assert!(p.vote(&mut l, D, A, 1).is_ok());
    assert_eq!(p.new_session(8), Some(vec![B, A, C]));
}

#[test]
fn selection_with_maximum_above_stash_count_takes_all() {
    let mut l = ledger();
    let mut p = Pallet::new(1, 5).unwrap();
    assert!(p.bond(&mut l, A, 10).is_ok());
    assert!(p.bond(&mut l, B, 20).is_ok());
    assert_eq!(p.new_session(1), Some(vec![B, A]));
}

#[test]
fn maximum_below_minimum_is_rejected() {
    let mut p = Pallet::new(2, 4).unwrap();
    assert_eq!(p.set_maximum_validator_count(1), Err(Error::InvalidNumberOfValidators));
    assert_eq!(p.minimum_validator_count(), 2);
    assert_eq!(p.maximum_validator_count(), 4);
    assert_eq!(p.set_maximum_validator_count(2), Ok(()));
    assert_eq!(p.maximum_validator_count(), 2);
}

#[test]
fn minimum_must_be_positive_and_within_maximum() {
    let mut p = Pallet::new(2, 4).unwrap();
    assert_eq!(p.set_minimum_validator_count(0), Err(Error::InvalidNumberOfValidators));
    assert_eq!(p.set_minimum_validator_count(5), Err(Error::InvalidNumberOfValidators));
    assert_eq!(p.minimum_validator_count(), 2);
    assert_eq!(p.set_minimum_validator_count(4), Ok(()));
    assert_eq!(p.minimum_validator_count(), 4);
    assert!(p.minimum_validator_count() <= p.maximum_validator_count());
}

#[test]
fn new_rejects_invalid_bounds() {
    assert!(matches!(Pallet::new(0, 3), Err(Error::InvalidNumberOfValidators)));
    assert!(matches!(Pallet::new(3, 2), Err(Error::InvalidNumberOfValidators)));
    assert!(Pallet::new(3, 3).is_ok());
}

#[test]
fn vote_beyond_free_balance_fails_without_effect() {
    let mut l = ledger();
    l.endow(D, 5);
    let mut p = Pallet::new(1, 1).unwrap();
    assert_eq!(
        p.vote(&mut l, D, A, 10),
        Err(Error::Currency(CurrencyError::InsufficientBalance))
    );
    assert_eq!(p.user_staked(D, A), None);
    assert_eq!(p.staked(A), None);
    assert_eq!(l.account_of(D).reserved, 0);
}

#[test]
fn bond_then_unbond_removes_stash_and_lock() {
    let mut l = ledger();
    let mut p = Pallet::new(1, 1).unwrap();
    assert_eq!(l.lock(A, STAKING_ID), 0);
    assert!(p.bond(&mut l, A, 300).is_ok());
    assert_eq!(p.bonded(A), Some(300));
    assert_eq!(l.lock(A, STAKING_ID), 300);
    assert_eq!(l.account_of(A).consumers, 1);
    assert_eq!(p.unbond(&mut l, A), Ok(Event::Unbonded(A)));
    assert_eq!(p.bonded(A), None);
    assert_eq!(l.lock(A, STAKING_ID), 0);
    assert_eq!(l.account_of(A).consumers, 0);
}

#[test]
fn vote_then_unvote_restores_stake_and_reserve() {
    let mut l = ledger();
    let mut p = Pallet::new(1, 1).unwrap();
    assert!(p.vote(&mut l, C, A, 40).is_ok());
    let before = p.staked(A);
    let reserved = l.account_of(D).reserved;
    assert!(p.vote(&mut l, D, A, 100).is_ok());
    assert_eq!(p.staked(A), Some(140));
    assert_eq!(l.account_of(D).reserved, reserved + 100);
    assert_eq!(l.account_of(D).free, 900);
    assert_eq!(p.unvote(&mut l, D, A), Ok(Some(Event::Unvoted(D, A))));
    assert_eq!(p.staked(A), before);
    assert_eq!(l.account_of(D).reserved, reserved);
    assert_eq!(l.account_of(D).free, 1000);
    assert_eq!(p.user_staked(D, A), None);
}

#[test]
fn unvote_twice_is_a_no_op() {
    let mut l = ledger();
    let mut p = Pallet::new(1, 1).unwrap();
    assert!(p.vote(&mut l, D, A, 100).is_ok());
    assert_eq!(p.unvote(&mut l, D, A), Ok(Some(Event::Unvoted(D, A))));
    assert_eq!(p.unvote(&mut l, D, A), Ok(None));
    assert_eq!(p.staked(A), Some(0));
    assert_eq!(l.account_of(D).reserved, 0);
}

#[test]
fn unvote_without_vote_succeeds() {
    let mut l = ledger();
    let mut p = Pallet::new(1, 1).unwrap();
    assert_eq!(p.unvote(&mut l, D, A), Ok(None));
    assert_eq!(p.staked(A), None);
}

#[test]
fn bond_twice_is_rejected() {
    let mut l = ledger();
    let mut p = Pallet::new(1, 1).unwrap();
    assert!(p.bond(&mut l, A, 100).is_ok());
    assert_eq!(p.bond(&mut l, A, 200), Err(Error::AlreadyBonded));
    assert_eq!(p.bonded(A), Some(100));
    assert_eq!(l.lock(A, STAKING_ID), 100);
}

#[test]
fn vote_twice_for_same_target_is_rejected() {
    let mut l = ledger();
    let mut p = Pallet::new(1, 1).unwrap();
    assert!(p.vote(&mut l, D, A, 100).is_ok());
    assert_eq!(p.vote(&mut l, D, A, 50), Err(Error::AlreadyVoted));
    assert_eq!(p.user_staked(D, A), Some(100));
    assert_eq!(p.staked(A), Some(100));
    assert_eq!(l.account_of(D).reserved, 100);
    assert!(p.vote(&mut l, D, B, 50).is_ok());
    assert_eq!(p.user_staked(D, B), Some(50));
}

#[test]
fn aggregate_stake_is_sum_of_delegations() {
    let mut l = ledger();
    let mut p = Pallet::new(1, 1).unwrap();
    assert!(p.vote(&mut l, B, A, 30).is_ok());
    assert!(p.vote(&mut l, C, A, 70).is_ok());
    assert!(p.vote(&mut l, D, A, 5).is_ok());
    assert!(p.vote(&mut l, D, B, 9).is_ok());
    assert_eq!(p.staked(A), Some(105));
    assert_eq!(p.staked(B), Some(9));
    assert!(p.unvote(&mut l, C, A).is_ok());
    assert_eq!(p.staked(A), Some(35));
}

#[test]
fn bond_below_minimum_balance_is_rejected() {
    let mut l = ledger();
    let mut p = Pallet::new(1, 1).unwrap();
    assert_eq!(p.bond(&mut l, A, 9), Err(Error::InsufficientBond));
    assert_eq!(p.bonded(A), None);
    assert_eq!(l.account_of(A).consumers, 0);
}

#[test]
fn bond_is_capped_at_free_balance() {
    let mut l = ledger();
    l.endow(A, 70);
    let mut p = Pallet::new(1, 1).unwrap();
    assert_eq!(p.bond(&mut l, A, 100), Ok(Event::Bonded(A, 70)));
    assert_eq!(p.bonded(A), Some(70));
    assert_eq!(l.lock(A, STAKING_ID), 70);
}

#[test]
fn bond_without_consumer_room_is_bad_state() {
    let mut l = Ledger::new(10, 0);
    l.endow(A, 1000);
    let mut p = Pallet::new(1, 1).unwrap();
    assert_eq!(p.bond(&mut l, A, 100), Err(Error::BadState));
    assert_eq!(p.bonded(A), None);
    assert_eq!(l.lock(A, STAKING_ID), 0);
    let mut absent = ledger();
    assert_eq!(p.bond(&mut absent, 99, 100), Err(Error::BadState));
}

#[test]
fn unbond_of_non_stash_is_rejected() {
    let mut l = ledger();
    let mut p = Pallet::new(1, 1).unwrap();
    assert_eq!(p.unbond(&mut l, A), Err(Error::NotStash));
}

#[test]
fn vote_past_balance_range_is_stake_overflow() {
    let mut l = ledger();
    l.endow(C, u64::MAX);
    let mut p = Pallet::new(1, 1).unwrap();
    assert!(p.vote(&mut l, D, A, 10).is_ok());
    assert_eq!(p.vote(&mut l, C, A, u64::MAX - 5), Err(Error::StakeOverflow));
    assert_eq!(p.staked(A), Some(10));
    assert_eq!(l.account_of(C).reserved, 0);
    assert!(p.vote(&mut l, C, A, u64::MAX - 10).is_ok());
    assert_eq!(p.staked(A), Some(u64::MAX));
}

#[test]
fn locked_funds_cannot_be_reserved() {
    let mut l = ledger();
    let mut p = Pallet::new(1, 1).unwrap();
    assert!(p.bond(&mut l, A, 600).is_ok());
    assert_eq!(
        p.vote(&mut l, A, B, 500),
        Err(Error::Currency(CurrencyError::LiquidityRestrictions))
    );
    assert!(p.vote(&mut l, A, B, 400).is_ok());
    assert_eq!(l.free_balance(A), 600);
}

#[test]
fn delegated_stake_counts_only_for_stashes() {
    let mut l = ledger();
    let mut p = Pallet::new(1, 1).unwrap();
    assert!(p.bond(&mut l, B, 100).is_ok());
    assert!(p.vote(&mut l, D, C, 900).is_ok());
    assert_eq!(p.new_session(3), Some(vec![B]));
}

#[test]
fn unreservable_vote_reports_currency_error_before_overflow() {
    let mut l = ledger();
    l.endow(C, u64::MAX);
    l.endow(D, 5);
    let mut p = Pallet::new(1, 1).unwrap();
    assert!(p.vote(&mut l, C, A, u64::MAX - 3).is_ok());
    assert_eq!(
        p.vote(&mut l, D, A, 10),
        Err(Error::Currency(CurrencyError::InsufficientBalance))
    );
    assert_eq!(p.user_staked(D, A), None);
    assert_eq!(p.staked(A), Some(u64::MAX - 3));
    assert_eq!(l.account_of(D).free, 5);
    assert_eq!(l.account_of(D).reserved, 0);
}

#[test]
fn failed_bond_leaves_consumers_unchanged() {
    let mut l = ledger();
    let mut p = Pallet::new(1, 1).unwrap();
    assert!(p.bond(&mut l, A, 100).is_ok());
    assert_eq!(p.bond(&mut l, A, 100), Err(Error::AlreadyBonded));
    assert_eq!(l.account_of(A).consumers, 1);
    assert_eq!(p.bond(&mut l, B, 1), Err(Error::InsufficientBond));
    assert_eq!(l.account_of(B).consumers, 0);
    let mut full = Ledger::new(10, 1);
    full.endow(A, 500);
    assert_eq!(full.inc_consumers(A), Ok(()));
    let mut q = Pallet::new(1, 1).unwrap();
    assert_eq!(q.bond(&mut full, A, 100), Err(Error::BadState));
    assert_eq!(full.account_of(A).consumers, 1);
    assert_eq!(full.lock(A, STAKING_ID), 0);
}

#[test]
fn second_unbond_releases_nothing() {
    let mut l = ledger();
    let mut p = Pallet::new(1, 1).unwrap();
    assert_eq!(l.inc_consumers(A), Ok(()));
    assert!(p.bond(&mut l, A, 100).is_ok());
    assert_eq!(l.account_of(A).consumers, 2);
    assert!(p.unbond(&mut l, A).is_ok());
    assert_eq!(l.account_of(A).consumers, 1);
    assert_eq!(p.unbond(&mut l, A), Err(Error::NotStash));
    assert_eq!(l.account_of(A).consumers, 1);
}

#[test]
fn bond_touches_no_other_account() {
    let mut l = ledger();
    let mut p = Pallet::new(1, 1).unwrap();
    let before = l.account_of(B);
    assert!(p.bond(&mut l, A, 100).is_ok());
    assert_eq!(l.account_of(B), before);
    assert!(p.bond(&mut l, B, 100).is_ok());
    assert_eq!(l.account_of(B).consumers, 1);
}

#[test]
fn ledger_reports_missing_account() {
    let mut l = Ledger::new(10, 4);
    assert_eq!(l.inc_consumers(A), Err(CurrencyError::NoProviders));
    assert_eq!(l.reserve(A, 1), Err(CurrencyError::InsufficientBalance));
    assert!(!l.can_reserve(A, 0));
}

#[test]
fn unbond_keeps_locks_of_other_identifiers() {
    let mut l = ledger();
    let mut p = Pallet::new(1, 1).unwrap();
    l.set_lock(7, A, 250);
    assert!(p.bond(&mut l, A, 100).is_ok());
    assert_eq!(l.lock(A, STAKING_ID), 100);
    assert_eq!(l.lock(A, 7), 250);
    assert!(p.unbond(&mut l, A).is_ok());
    assert_eq!(l.lock(A, STAKING_ID), 0);
    assert_eq!(l.lock(A, 7), 250);
}

#[test]
fn largest_lock_limits_reservation() {
    let mut l = ledger();
    l.set_lock(7, D, 300);
    l.set_lock(8, D, 600);
    assert!(!l.can_reserve(D, 401));
    assert_eq!(l.reserve(D, 401), Err(CurrencyError::LiquidityRestrictions));
    assert!(l.can_reserve(D, 400));
    l.remove_lock(8, D);
    assert_eq!(l.lock(D, 8), 0);
    assert_eq!(l.reserve(D, 700), Ok(()));
    assert_eq!(l.account_of(D).reserved, 700);
}
