use githubfs::pending::{Admission, FetchRegistry, RequestLimiter, Role};

#[test]
fn the_first_caller_leads_and_the_rest_follow() {
    let mut registry = FetchRegistry::new();
    assert_eq!(registry.begin(3), Role::Leader);
    assert_eq!(registry.begin(3), Role::Follower);
    assert_eq!(registry.begin(3), Role::Follower);
    assert!(registry.is_pending(3));
}

#[test]
fn targets_do_not_hold_each_other_up() {
    let mut registry = FetchRegistry::new();
    assert_eq!(registry.begin(3), Role::Leader);
    assert_eq!(registry.begin(4), Role::Leader);
    assert!(!registry.is_pending(5));
    registry.finish(3);
    assert!(!registry.is_pending(3));
    assert!(registry.is_pending(4));
    assert_eq!(registry.begin(4), Role::Follower);
}

#[test]
fn a_finished_target_is_fetched_anew() {
    let mut registry = FetchRegistry::new();
    assert_eq!(registry.begin(3), Role::Leader);
    registry.finish(3);
    assert_eq!(registry.begin(3), Role::Leader);
    registry.finish(3);
    registry.finish(3);
    assert!(!registry.is_pending(3));
}

#[test]
fn calls_beyond_the_limit_are_queued_in_order() {
    let mut limiter = RequestLimiter::new(2);
    assert_eq!(limiter.acquire(10), Admission::Granted);
    assert_eq!(limiter.acquire(11), Admission::Granted);
    assert_eq!(limiter.acquire(12), Admission::Queued);
    assert_eq!(limiter.acquire(13), Admission::Queued);
    assert_eq!(limiter.active(), 2);
    assert_eq!(limiter.waiting(), 2);
    assert_eq!(limiter.release(), Some(12));
    assert_eq!(limiter.active(), 2);
    assert_eq!(limiter.release(), Some(13));
    assert_eq!(limiter.release(), None);
    assert_eq!(limiter.active(), 1);
    assert_eq!(limiter.release(), None);
    assert_eq!(limiter.active(), 0);
    assert_eq!(limiter.waiting(), 0);
}

#[test]
fn a_limit_of_zero_still_lets_one_call_run() {
    let mut limiter = RequestLimiter::new(0);
    assert_eq!(limiter.acquire(1), Admission::Granted);
    assert_eq!(limiter.acquire(2), Admission::Queued);
    assert_eq!(limiter.release(), Some(2));
    assert_eq!(limiter.release(), None);
    assert_eq!(limiter.active(), 0);
}
