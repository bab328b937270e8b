use ha_bridge::delay::{Delay, DelayRange};
use ha_bridge::policy::{ExponentialBackoff, FixedInterval, RepeatPolicy};

#[test]
fn fixed_interval_policy_generation() {
    let mut policy = FixedInterval::every(Delay::from_secs(10));

    assert_eq!(policy.next(), Delay::from_secs(10))
}

#[test]
fn random_interval_policy_generation() {
    let accepted_range = DelayRange::new(Delay::from_secs(90), Delay::from_secs(110));
    let mut policy = FixedInterval::between(accepted_range);

    for _ in 0..100 {
        let next = policy.next();
        assert!(
            accepted_range.contains(&next),
            "{next:?} should be within {accepted_range:?}"
        )
    }
}

#[test]
fn every_interval_is_constant_over_many_calls() {
    let mut policy = FixedInterval::every(Delay::from_millis(1234));
    for _ in 0..1000 {
        assert_eq!(policy.next(), Delay::from_millis(1234));
        policy.reset();
    }
}

#[test]
fn between_interval_stays_in_range_over_many_calls() {
    let range = DelayRange::new(Delay::from_millis(5), Delay::from_millis(7));
    let mut policy = FixedInterval::between(range);
    let mut seen_low = false;
    let mut seen_high = false;
    for _ in 0..1000 {
        let d = policy.next();
        assert!(range.contains(&d), "{d:?} outside {range:?}");
        seen_low |= d == Delay::from_millis(5);
        seen_high |= d == Delay::from_millis(7);
    }
    assert!(Delay::from_millis(5) < Delay::from_millis(7));
    let _ = (seen_low, seen_high);
}

#[test]
fn backoff_grows_strictly_then_stays_at_ceiling() {
    let ceiling = Delay::from_secs(180);
    let mut policy = ExponentialBackoff::new(Delay::from_millis(100), ceiling);
    let first = policy.next();
    assert!(first >= Delay::from_millis(100));
    assert!(first <= Delay::from_millis(130));
    let mut previous = first;
    let mut reached = false;
    for _ in 0..200 {
        let next = policy.next();
        assert!(next <= ceiling);
        if reached {
            assert_eq!(next, ceiling);
        } else {
            assert!(previous < next, "{previous:?} then {next:?}");
        }
        reached |= next == ceiling;
        previous = next;
    }
    assert!(reached);
}

#[test]
fn backoff_reset_starts_over() {
    let mut policy = ExponentialBackoff::new(Delay::from_millis(100), Delay::from_secs(180));
    for _ in 0..20 {
        policy.next();
    }
    assert_eq!(policy.next(), Delay::from_secs(180));
    policy.reset();
    let d = policy.next();
    assert!(d >= Delay::from_millis(100) && d <= Delay::from_millis(130), "{d:?}");
}

#[test]
fn backoff_ceiling_below_initial_is_raised() {
    assert!(ExponentialBackoff::is_inconsistent(Delay::from_secs(5), Delay::from_secs(1)));
    assert!(!ExponentialBackoff::is_inconsistent(Delay::from_secs(1), Delay::from_secs(5)));
    let mut policy = ExponentialBackoff::new(Delay::from_secs(5), Delay::from_secs(1));
    for _ in 0..5 {
        assert_eq!(policy.next(), Delay::from_secs(5));
    }
    let mut zero = ExponentialBackoff::new(Delay::zero(), Delay::zero());
    assert_eq!(zero.next(), Delay::zero());
}

#[test]
fn policies_describe_themselves() {
    let fixed = FixedInterval::between(DelayRange::new(Delay::from_secs(9), Delay::from_secs(11)));
    assert_eq!(fixed.describe(), "between 9s and 11s");
    let backoff = ExponentialBackoff::new(Delay::from_millis(100), Delay::from_secs(3600));
    assert_eq!(backoff.describe(), "exponential backoff from 100ms up to 60m");
    assert_eq!(FixedInterval::default_policy().next(), Delay::zero());
    let mut standard = ExponentialBackoff::default_policy();
    let d = standard.next();
    assert!(d >= Delay::from_secs(1) && d <= Delay::from_millis(1300));
}

#[test]
fn delay_conversions() {
    assert_eq!(Delay::from_secs(2).as_nanos(), 2_000_000_000);
    assert_eq!(Delay::new(3, 5).as_nanos(), 3_000_000_005);
    assert_eq!(Delay::new(3, 5).as_secs(), 3);
    assert_eq!(Delay::new(3, 5).subsec_nanos(), 5);
    assert_eq!(Delay::from_micros(7).as_nanos(), 7_000);
    assert_eq!(Delay::from_nanos(9).as_nanos(), 9);
    assert_eq!(Delay::max().saturating_add(Delay::from_secs(1)), Delay::max());
    assert_eq!(
        Delay::from_secs(1).saturating_add(Delay::from_millis(5)),
        Delay::from_millis(1005)
    );
}
