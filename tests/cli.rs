use ha_bridge::cli::{parse_time_delta, parse_time_delta_range, ParseError};
use ha_bridge::delay::{Delay, DelayRange};

fn range(start: Delay, end: Delay) -> DelayRange {
    DelayRange::new(start, end)
}

#[test]
fn can_parse_valid_time_deltas() {
    assert_eq!(parse_time_delta("32d").unwrap(), Delay::from_secs(32 * 86400));
    assert_eq!(parse_time_delta("   21h ").unwrap(), Delay::from_secs(21 * 3600));
    assert_eq!(parse_time_delta("37m").unwrap(), Delay::from_secs(37 * 60));
    assert_eq!(parse_time_delta("53s").unwrap(), Delay::from_secs(53));
    assert_eq!(parse_time_delta("738ms").unwrap(), Delay::from_millis(738));
}

#[test]
fn can_raise_invalid_format_messages() {
    assert_eq!(
        parse_time_delta("32 d").unwrap_err().to_string(),
        "invalid duration: 32 d"
    );
    assert_eq!(
        parse_time_delta("  food").unwrap_err().to_string(),
        "invalid duration: food"
    );
    assert_eq!(
        parse_time_delta("32y").unwrap_err().to_string(),
        "invalid duration: 32y"
    );
    assert_eq!(
        parse_time_delta("32 y").unwrap_err().to_string(),
        "invalid duration: 32 y"
    );
}

#[test]
fn time_delta_limits() {
    assert_eq!(parse_time_delta("0s").unwrap(), Delay::zero());
    assert_eq!(
        parse_time_delta("99999999999999999999s").unwrap_err(),
        ParseError::NumberTooLarge
    );
    assert_eq!(
        parse_time_delta("99999999999999999999s").unwrap_err().to_string(),
        "number too large to fit in target type"
    );
    assert_eq!(
        parse_time_delta("9223372036854775807ms").unwrap(),
        Delay::from_millis(9223372036854775807)
    );
    assert_eq!(
        parse_time_delta("9223372036854775s").unwrap(),
        Delay::from_secs(9223372036854775)
    );
    assert_eq!(
        parse_time_delta("9223372036854776s").unwrap_err(),
        ParseError::InvalidDuration("9223372036854776s".to_string())
    );
    assert!(parse_time_delta("ms").is_err());
    assert!(parse_time_delta("").is_err());
    assert!(parse_time_delta("-5s").is_err());
    assert!(parse_time_delta("5mss").is_err());
}

#[test]
fn can_parse_valid_time_delta_rangess() {
    assert_eq!(
        parse_time_delta_range(" 8m..12m   ").unwrap(),
        range(Delay::from_secs(8 * 60), Delay::from_secs(12 * 60))
    );
    assert_eq!(
        parse_time_delta_range("21h..40d").unwrap(),
        range(Delay::from_secs(21 * 3600), Delay::from_secs(40 * 86400))
    );
    assert_eq!(
        parse_time_delta_range("1s..5h").unwrap(),
        range(Delay::from_secs(1), Delay::from_secs(5 * 3600))
    );
    assert_eq!(
        parse_time_delta_range("25h..1d").unwrap(),
        range(Delay::from_secs(25 * 3600), Delay::from_secs(24 * 3600))
    );
}

#[test]
fn can_raise_invalid_time_delta_rangess() {
    assert_eq!(
        parse_time_delta_range("   8m-12m").unwrap_err().to_string(),
        "invalid range syntax: 8m-12m"
    );
    assert_eq!(
        parse_time_delta_range("1s ..5h").unwrap_err().to_string(),
        "invalid range syntax: 1s ..5h"
    );
    assert_eq!(
        parse_time_delta_range("21h..foo").unwrap_err().to_string(),
        "invalid end duration: 21h..foo"
    );
    assert_eq!(
        parse_time_delta_range("1y..5h").unwrap_err().to_string(),
        "invalid start duration: 1y..5h"
    );
    assert_eq!(
        parse_time_delta_range("foo..bar").unwrap_err().to_string(),
        "invalid start and end durations: foo..bar"
    );
}

#[test]
fn range_with_extra_dots() {
    assert_eq!(
        parse_time_delta_range("1s...5h").unwrap_err(),
        ParseError::InvalidStartDuration("1s...5h".to_string())
    );
    assert_eq!(
        parse_time_delta_range("1s..5h..").unwrap_err().to_string(),
        "invalid range syntax: 1s..5h.."
    );
    assert_eq!(
        parse_time_delta_range("1s.. 5h").unwrap_err().to_string(),
        "invalid range syntax: 1s.. 5h"
    );
}
