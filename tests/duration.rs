use std::time::Duration;

use act::duration::{duration_from_string, string_from_duration, ParseError};

fn parsed(s: &str) -> Duration {
    Duration::from_secs(duration_from_string(s).unwrap())
}

#[test]
fn parse_seconds() {
    assert_eq!(parsed("30s"), Duration::from_secs(30));
}

#[test]
fn parse_minutes() {
    assert_eq!(parsed("35m"), Duration::from_secs(35 * 60));
}

#[test]
fn parse_hours() {
    assert_eq!(parsed("3h"), Duration::from_secs(3 * 60 * 60));
}

#[test]
fn parse_seconds_and_minutes_and_hours() {
    assert_eq!(parsed("25m100s"), Duration::from_secs(25 * 60 + 100));
    assert_eq!(parsed("1h1h1h"), Duration::from_secs(3 * 60 * 60));
}

#[test]
fn parse_days_and_spaces() {
    assert_eq!(duration_from_string("10d 3h 21m 10s"), Ok(10 * 86400 + 3 * 3600 + 21 * 60 + 10));
    assert_eq!(duration_from_string("3d4h"), Ok(3 * 86400 + 4 * 3600));
    assert_eq!(duration_from_string(" 1 0s "), Ok(10));
}

#[test]
fn parse_empty_is_zero() {
    assert_eq!(duration_from_string(""), Ok(0));
    assert_eq!(duration_from_string("   "), Ok(0));
}

#[test]
fn parse_unknown_unit_fails() {
    assert_eq!(duration_from_string("1x"), Err(ParseError::Malformed));
    assert_eq!(duration_from_string("1H"), Err(ParseError::Malformed));
}

#[test]
fn parse_unit_without_digits_fails() {
    assert_eq!(duration_from_string("h"), Err(ParseError::Malformed));
    assert_eq!(duration_from_string("5m s"), Err(ParseError::Malformed));
}

#[test]
fn parse_digits_without_unit_fails() {
    assert_eq!(duration_from_string("30"), Err(ParseError::Malformed));
    assert_eq!(duration_from_string("1m30"), Err(ParseError::Malformed));
}

#[test]
fn parse_too_large() {
    assert_eq!(duration_from_string("18446744073709551615s"), Ok(u64::MAX));
    assert_eq!(duration_from_string("18446744073709551616s"), Err(ParseError::TooLarge));
    assert_eq!(duration_from_string("213503982334602d"), Err(ParseError::TooLarge));
    assert_eq!(duration_from_string("99999999999999999999999s x"), Err(ParseError::Malformed));
}

#[test]
fn format_examples() {
    assert_eq!(string_from_duration(0), "0s");
    assert_eq!(string_from_duration(90), "1m30s");
    assert_eq!(string_from_duration(3661), "1h1m1s");
    assert_eq!(string_from_duration(90061), "1d1h1m1s");
}

#[test]
fn format_keeps_lower_units_once_a_higher_one_shows() {
    assert_eq!(string_from_duration(86400), "1d0h0m0s");
    assert_eq!(string_from_duration(3600), "1h0m0s");
    assert_eq!(string_from_duration(60), "1m0s");
    assert_eq!(string_from_duration(59), "59s");
    assert_eq!(string_from_duration(10 * 86400 + 3 * 3600 + 21 * 60 + 10), "10d3h21m10s");
    assert_eq!(string_from_duration(u64::MAX), "213503982334601d7h0m15s");
}

#[test]
fn format_of_parse_is_canonical() {
    let d = duration_from_string("1h1h1h").unwrap();
    assert_eq!(string_from_duration(d), "3h0m0s");
    let d = duration_from_string("25m100s").unwrap();
    assert_eq!(string_from_duration(d), "26m40s");
    for secs in [0u64, 1, 59, 60, 61, 3599, 3600, 86399, 86400, 90061, 1_000_000] {
        assert_eq!(duration_from_string(&string_from_duration(secs)), Ok(secs));
    }
}
