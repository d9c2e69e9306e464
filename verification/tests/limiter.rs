use seitai::limiter::RateLimiter;

// Policy used by most tests: at most 2 messages per 60 s window, 20 s base
// cooldown, 60 s cap, multiplier 3/2, violation reset after one quiet hour.
fn limiter() -> RateLimiter {
    RateLimiter::new(2, 60_000, 20_000, 60_000, 3, 2, 3_600_000)
}

#[test]
fn admits_up_to_max_then_rejects() {
    let mut rl = limiter();
    assert!(rl.check_rate_limit(7, 0));
    assert!(rl.check_rate_limit(7, 1_000));
    assert!(!rl.check_rate_limit(7, 2_000));
}

#[test]
fn first_violation_cooldown_is_base_times_multiplier() {
    let mut rl = limiter();
    assert!(rl.check_rate_limit(7, 0));
    assert!(rl.check_rate_limit(7, 1_000));
    assert!(!rl.check_rate_limit(7, 2_000));
    // base 20 s * 3/2 = 30 s of cooldown, expiring at t = 32 s.
    assert_eq!(rl.get_user_state(7, 2_000), Some((1, Some(30_000))));
}

#[test]
fn rejected_until_expiry_then_evaluated_fresh() {
    let mut rl = limiter();
    assert!(rl.check_rate_limit(7, 0));
    assert!(rl.check_rate_limit(7, 1_000));
    assert!(!rl.check_rate_limit(7, 2_000));
    // Strictly before the expiry at 32 s: rejected, state untouched.
    assert!(!rl.check_rate_limit(7, 31_999));
    assert_eq!(rl.get_user_state(7, 31_999), Some((1, Some(1))));
    // At the expiry the call is evaluated fresh; the two admitted instants
    // are still inside the window, so it is a fresh violation.
    assert!(!rl.check_rate_limit(7, 32_000));
    assert_eq!(rl.get_user_state(7, 32_000), Some((2, Some(45_000))));
    // Once the history has aged out of the window, a call is admitted again.
    assert!(rl.check_rate_limit(7, 77_000));
    assert_eq!(rl.get_user_state(7, 77_000), Some((2, Some(0))));
}

#[test]
fn cooldown_escalates_and_caps() {
    // max_messages of zero rejects every evaluated call.
    let mut rl = RateLimiter::new(0, 1_000, 20_000, 60_000, 3, 2, 1_000_000);
    assert!(!rl.check_rate_limit(3, 0));
    assert_eq!(rl.get_user_state(3, 0), Some((1, Some(30_000))));
    assert!(!rl.check_rate_limit(3, 30_000));
    assert_eq!(rl.get_user_state(3, 30_000), Some((2, Some(45_000))));
    assert!(!rl.check_rate_limit(3, 75_000));
    // 45 s * 3/2 = 67.5 s, capped at 60 s.
    assert_eq!(rl.get_user_state(3, 75_000), Some((3, Some(60_000))));
    assert!(!rl.check_rate_limit(3, 135_000));
    assert_eq!(rl.get_user_state(3, 135_000), Some((4, Some(60_000))));
}

#[test]
fn violations_reset_after_quiet_period() {
    // 1 message per 1 s window, 1 s base, 10 s cap, multiplier 2, reset 5 s.
    let mut rl = RateLimiter::new(1, 1_000, 1_000, 10_000, 2, 1, 5_000);
    assert!(rl.check_rate_limit(1, 0));
    assert!(!rl.check_rate_limit(1, 100));
    assert_eq!(rl.get_user_state(1, 100), Some((1, Some(2_000))));
    // Cooldown long over and 5 s of quiet since the last admitted message:
    // the violation count resets and the call is admitted.
    assert!(rl.check_rate_limit(1, 6_000));
    assert_eq!(rl.get_user_state(1, 6_000), Some((0, Some(0))));
}

#[test]
fn users_are_independent() {
    let mut rl = limiter();
    assert!(rl.check_rate_limit(1, 0));
    assert!(rl.check_rate_limit(1, 10));
    assert!(!rl.check_rate_limit(1, 20));
    assert!(rl.check_rate_limit(2, 30));
    assert_eq!(rl.get_user_state(1, 30), Some((1, Some(29_990))));
    assert_eq!(rl.get_user_state(2, 30), Some((0, None)));
}

#[test]
fn unknown_user_has_no_state() {
    let rl = limiter();
    assert_eq!(rl.get_user_state(42, 0), None);
}
