use ha_bridge::delay::Delay;
use ha_bridge::reconnect::{ReconnectingStream, StreamStep};

#[test]
fn reconnecting_stream_backs_off_then_yields() {
    let mut stream = ReconnectingStream::new();
    let failures = 20;
    let mut sleeps = Vec::new();
    let mut events = Vec::new();
    for attempt in 0..=failures {
        let polled: Result<&str, String> = if attempt < failures {
            Err(format!("connection refused #{attempt}"))
        } else {
            Ok("connack")
        };
        match stream.on_poll(polled) {
            StreamStep::Yield(event) => events.push(event),
            StreamStep::Retry(error, delay) => {
                assert_eq!(error, format!("connection refused #{attempt}"));
                sleeps.push(delay);
            }
        }
    }
    assert_eq!(events, vec!["connack"]);
    assert_eq!(sleeps.len(), failures);
    assert!(sleeps[0] >= Delay::from_millis(50) && sleeps[0] <= Delay::from_millis(65));
    for pair in sleeps.windows(2) {
        assert!(pair[0] <= pair[1], "{:?} then {:?}", pair[0], pair[1]);
    }
    assert_eq!(sleeps[failures - 1], Delay::from_secs(300));
}
