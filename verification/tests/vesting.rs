use tokenlock::calculator::calculate_unlocked_0;
use tokenlock::processor::{Processor, TokenLockError};
use tokenlock::types::{Identity, TokenLockAccount};

fn id(n: u64) -> Identity {
    Identity { w0: n, w1: 0, w2: 0, w3: 0 }
}

fn processor(caller: Identity, now: u32, account: TokenLockAccount) -> Processor {
    Processor { account_key: caller, current_time: now, account_info: account, modified: false }
}

#[test]
fn calculator_scenario() {
    // schedule: count=4, delay=100, initial=2500 bips, period=100; amount=1000,
    // commenced at 0.
    assert_eq!(calculate_unlocked_0(0, 50, 1000, 4, 100, 2500, 100), 0);
    assert_eq!(calculate_unlocked_0(0, 100, 1000, 4, 100, 2500, 100), 250);
    assert_eq!(calculate_unlocked_0(0, 150, 1000, 4, 100, 2500, 100), 250);
    assert_eq!(calculate_unlocked_0(0, 250, 1000, 4, 100, 2500, 100), 500);
    assert_eq!(calculate_unlocked_0(0, 500, 1000, 4, 100, 2500, 100), 1000);
}

#[test]
fn calculator_is_pure() {
    let a = calculate_unlocked_0(7, 1234, 100_000, 12, 60, 700, 3600);
    let b = calculate_unlocked_0(7, 1234, 100_000, 12, 60, 700, 3600);
    assert_eq!(a, b);
}

#[test]
fn calculator_monotonic_and_bounded() {
    let mut prev = 0u32;
    for t in 0..700u32 {
        let u = calculate_unlocked_0(10, t, 997, 5, 50, 1000, 100);
        assert!(u >= prev);
        assert!(u <= 997);
        prev = u;
    }
    // fully matured: 10 + 50 + 100 * 4 = 460
    assert_eq!(calculate_unlocked_0(10, 460, 997, 5, 50, 1000, 100), 997);
}

#[test]
fn single_release_unlocks_everything() {
    // one release, 10000 bips: the whole amount as soon as the delay passes
    assert_eq!(calculate_unlocked_0(5, 5, 777, 1, 0, 10000, 0), 777);
    assert_eq!(calculate_unlocked_0(5, 4, 777, 1, 0, 10000, 0), 0);
    assert_eq!(calculate_unlocked_0(0, 30, 777, 1, 30, 10000, 9), 777);
}

#[test]
fn create_schedule_validation() {
    let account = TokenLockAccount::new(3650, 100);
    let mut p = processor(id(1), 0, account);
    // delay beyond the account cap
    assert_eq!(
        p.process_create_release_schedule(4, 4000, 2500, 100),
        Err(TokenLockError::InvalidArgument)
    );
    // zero releases
    assert_eq!(
        p.process_create_release_schedule(0, 0, 2500, 100),
        Err(TokenLockError::InvalidArgument)
    );
    // more than 100%
    assert_eq!(
        p.process_create_release_schedule(4, 0, 10001, 100),
        Err(TokenLockError::InvalidArgument)
    );
    // several releases but no period
    assert_eq!(
        p.process_create_release_schedule(4, 0, 2500, 0),
        Err(TokenLockError::InvalidArgument)
    );
    // a single release must release everything
    assert_eq!(
        p.process_create_release_schedule(1, 0, 9999, 0),
        Err(TokenLockError::InvalidArgument)
    );
    assert!(!p.modified);
    assert_eq!(p.process_create_release_schedule(1, 0, 10000, 0), Ok(()));
    assert!(p.modified);
    assert_eq!(p.account_info.release_schedules.len(), 1);
}

#[test]
fn fund_below_minimum_is_invalid() {
    let account = TokenLockAccount::new(3650, 100);
    let mut p = processor(id(1), 0, account);
    assert_eq!(p.process_create_release_schedule(4, 100, 2500, 100), Ok(()));
    let r = p.fund_release_schedule(&id(2), 50, 0, 0, &vec![]);
    assert_eq!(r, Err(TokenLockError::InvalidArgument));
    assert!(p.account_info.get_timelock(&id(2), 0).is_none());
}

#[test]
fn fund_validation_errors() {
    let account = TokenLockAccount::new(3650, 100);
    let mut p = processor(id(1), 0, account);
    assert_eq!(p.process_create_release_schedule(4, 100, 2500, 100), Ok(()));
    // unknown schedule
    assert_eq!(
        p.fund_release_schedule(&id(2), 1000, 0, 7, &vec![]),
        Err(TokenLockError::NotFound)
    );
    // more than ten cancelers
    let many: Vec<Identity> = (0..11).map(id).collect();
    assert_eq!(
        p.fund_release_schedule(&id(2), 1000, 0, 0, &many),
        Err(TokenLockError::InvalidArgument)
    );
    // fewer than one token unit per release event
    assert_eq!(p.process_create_release_schedule(200, 0, 2500, 10), Ok(()));
    assert_eq!(
        p.fund_release_schedule(&id(2), 150, 0, 1, &vec![]),
        Err(TokenLockError::InvalidArgument)
    );
}

#[test]
fn funding_a_new_recipient_succeeds() {
    // A recipient with no prior timelocks gets a sequence created on first
    // funding.
    let account = TokenLockAccount::new(3650, 100);
    let mut p = processor(id(1), 0, account);
    assert_eq!(p.process_create_release_schedule(4, 100, 2500, 100), Ok(()));
    assert_eq!(p.fund_release_schedule(&id(2), 1000, 0, 0, &vec![id(1)]), Ok(()));
    assert!(p.modified);
    let t = p.account_info.get_timelock(&id(2), 0).expect("timelock exists");
    assert_eq!(t.total_amount, 1000);
    assert_eq!(t.tokens_transferred, 0);
    assert_eq!(t.schedule_id, 0);
    assert_eq!(t.cancelable_by, vec![id(1)]);
    // a second grant for the same recipient lands at index 1
    assert_eq!(p.fund_release_schedule(&id(2), 500, 0, 0, &vec![]), Ok(()));
    let t1 = p.account_info.get_timelock(&id(2), 1).expect("second timelock");
    assert_eq!(t1.total_amount, 500);
    assert!(t1.cancelable_by.is_empty());
}

#[test]
fn balances_follow_the_calculator() {
    let account = TokenLockAccount::new(3650, 100);
    let mut p = processor(id(1), 150, account);
    assert_eq!(p.process_create_release_schedule(4, 100, 2500, 100), Ok(()));
    assert_eq!(p.fund_release_schedule(&id(2), 1000, 0, 0, &vec![id(1)]), Ok(()));
    // at t=150 the initial tranche of 250 has unlocked
    assert_eq!(p.total_unlocked_to_date_of_timelock(&id(2), 0), 250);
    assert_eq!(p.unlocked_balance_of_timelock(&id(2), 0), 250);
    assert_eq!(p.locked_balance_of_timelock(&id(2), 0), 750);
    // absent timelocks have zero balances
    assert_eq!(p.unlocked_balance_of_timelock(&id(9), 0), 0);
    assert_eq!(p.locked_balance_of_timelock(&id(2), 3), 0);
}

#[test]
fn cancel_by_stranger_is_unauthorized() {
    let account = TokenLockAccount::new(3650, 100);
    let mut p = processor(id(1), 150, account);
    assert_eq!(p.process_create_release_schedule(4, 100, 2500, 100), Ok(()));
    assert_eq!(p.fund_release_schedule(&id(2), 1000, 0, 0, &vec![id(5)]), Ok(()));
    // the caller id(1) is not in the canceler set {id(5)}
    let r = p.cancel_timelock(&id(2), 0, &id(1));
    assert_eq!(r, Err(TokenLockError::Unauthorized));
    let t = p.account_info.get_timelock(&id(2), 0).expect("timelock exists");
    assert_eq!(t.tokens_transferred, 0);
}

#[test]
fn cancel_missing_timelock_is_not_found() {
    let account = TokenLockAccount::new(3650, 100);
    let mut p = processor(id(1), 150, account);
    assert_eq!(p.cancel_timelock(&id(2), 0, &id(1)), Err(TokenLockError::NotFound));
}

#[test]
fn cancel_exhausted_timelock_has_nothing_to_cancel() {
    let account = TokenLockAccount::new(3650, 100);
    let mut p = processor(id(1), 150, account);
    assert_eq!(p.process_create_release_schedule(4, 100, 2500, 100), Ok(()));
    assert_eq!(p.fund_release_schedule(&id(2), 1000, 0, 0, &vec![id(1)]), Ok(()));
    // first cancellation succeeds and marks the timelock exhausted
    assert_eq!(p.cancel_timelock(&id(2), 0, &id(1)), Ok(()));
    let t = p.account_info.get_timelock(&id(2), 0).expect("timelock exists");
    assert_eq!(t.tokens_transferred, t.total_amount);
    // tokens_transferred == total_amount: nothing left to cancel
    assert_eq!(p.cancel_timelock(&id(2), 0, &id(1)), Err(TokenLockError::NothingToCancel));
}

#[test]
fn canceled_timelock_stops_unlocking() {
    let account = TokenLockAccount::new(3650, 100);
    let mut p = processor(id(1), 150, account);
    assert_eq!(p.process_create_release_schedule(4, 100, 2500, 100), Ok(()));
    assert_eq!(p.fund_release_schedule(&id(2), 1000, 0, 0, &vec![id(1)]), Ok(()));
    assert_eq!(p.cancel_timelock(&id(2), 0, &id(1)), Ok(()));
    // even with time far past full maturity, nothing remains to pay out
    let mut later = processor(id(1), 100_000, p.account_info);
    assert_eq!(later.unlocked_balance_of_timelock(&id(2), 0), 0);
    assert_eq!(later.locked_balance_of_timelock(&id(2), 0), 0);
    assert_eq!(later.cancel_timelock(&id(2), 0, &id(1)), Err(TokenLockError::NothingToCancel));
}

#[test]
fn canceler_set_membership() {
    let account = TokenLockAccount::new(3650, 100);
    let mut p = processor(id(1), 0, account);
    assert_eq!(p.process_create_release_schedule(4, 100, 2500, 100), Ok(()));
    assert_eq!(p.fund_release_schedule(&id(2), 1000, 0, 0, &vec![]), Ok(()));
    let t = p.account_info.get_timelock_mut(&id(2), 0);
    assert!(!t.has_cancelable_by(&id(5)));
    t.set_cancelable_by(&vec![id(5), id(6)]);
    assert!(t.has_cancelable_by(&id(5)));
    assert!(t.has_cancelable_by(&id(6)));
    assert!(!t.has_cancelable_by(&id(7)));
}

#[test]
fn greeting_increments_counter() {
    let account = TokenLockAccount::new(3650, 100);
    let mut p = processor(id(1), 0, account);
    assert_eq!(p.account_info.counter, 0);
    assert_eq!(p.process_greeting(), Ok(()));
    assert_eq!(p.account_info.counter, 1);
    assert!(p.modified);
    assert_eq!(p.process_greeting(), Ok(()));
    assert_eq!(p.account_info.counter, 2);
}
