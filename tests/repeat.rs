use ha_bridge::delay::{Delay, DelayRange};
use ha_bridge::policy::{ExponentialBackoff, FixedInterval};
use ha_bridge::repeat::{ExecutionFailure, RepeatableExecutor};

#[test]
fn can_schedule_repeated_successful_tasks() {
    let mut executor = RepeatableExecutor::<FixedInterval, ExponentialBackoff>::new()
        .with_repeat_policy(FixedInterval::every(Delay::from_millis(500)))
        .with_backoff_policy(ExponentialBackoff::new(Delay::zero(), Delay::zero()));

    let mut sleep_requests = Vec::new();
    for id in 0..50u8 {
        sleep_requests.push(executor.next_interval());
        match executor.complete(Ok::<u8, ()>(id)) {
            Ok(got) => assert_eq!(got, id),
            Err(ExecutionFailure((), next_delay)) => {
                panic!("unexpected failure, retrying in {next_delay:?}")
            }
        }
    }

    assert_eq!(sleep_requests.len(), 50, "50 sleep requests have been made");
    assert_eq!(sleep_requests[0], Delay::zero(), "first sleep request is 0");
    sleep_requests.iter().skip(1).for_each(|request| {
        assert_eq!(request, &Delay::from_millis(500), "sleep requested 500ms")
    });
}

#[test]
fn executor_switches_between_repeat_and_backoff_delays() {
    let repeat_range = DelayRange::new(Delay::from_secs(9), Delay::from_secs(11));
    let ceiling = Delay::from_secs(3600);
    let mut executor = RepeatableExecutor::new()
        .with_repeat_policy(FixedInterval::between(repeat_range))
        .with_backoff_policy(ExponentialBackoff::new(Delay::from_millis(100), ceiling));

    let mut sleep_requests = Vec::new();
    for id in 0..100u8 {
        sleep_requests.push(executor.next_interval());
        let outcome = match id {
            10..20 | 30..70 => Err(format!("E{id}")),
            id => Ok(id),
        };
        match executor.complete(outcome) {
            Ok(got) => assert_eq!(got, id),
            Err(ExecutionFailure(error, next_delay)) => {
                assert_eq!(error, format!("E{id}"));
                assert_eq!(next_delay, executor.next_interval());
            }
        }
    }

    assert_eq!(sleep_requests.len(), 100, "100 sleep requests have been made");
    assert_eq!(sleep_requests[0], Delay::zero(), "first sleep request is 0");
    for request in sleep_requests.iter().skip(1).take(10) {
        assert!(repeat_range.contains(request), "[1-10] {request:?}");
    }
    let mut last_backoff = Delay::zero();
    for request in sleep_requests.iter().skip(11).take(10) {
        assert!(&last_backoff < request, "{last_backoff:?} then {request:?}");
        last_backoff = *request;
    }
    for request in sleep_requests.iter().skip(21).take(10) {
        assert!(repeat_range.contains(request), "[21-30] {request:?}");
    }
    let mut last_backoff = Delay::zero();
    let mut reached = false;
    for request in sleep_requests.iter().skip(31).take(40) {
        assert!(request <= &ceiling);
        if reached {
            assert_eq!(request, &ceiling, "stays at the ceiling once reached");
        } else {
            assert!(&last_backoff < request, "{last_backoff:?} then {request:?}");
        }
        reached |= request == &ceiling;
        last_backoff = *request;
    }
    assert!(reached, "a 40 failures run reaches the ceiling");
    for request in sleep_requests.iter().skip(71) {
        assert!(repeat_range.contains(request), "[71-99] {request:?}");
    }
}

#[test]
fn execution_failure_message_names_delay_and_error() {
    let failure = ExecutionFailure("boom", Delay::from_secs(150));
    assert_eq!(failure.message(), "postponing next retry in 2m 30s due to last error: \"boom\"");
}
