use std::time::Duration;
use tstick::duration::{parse, DurationError};

fn assert_parse(arg: &str, expected: &str) {
    let span = parse(arg).unwrap();
    assert_eq!(format!("{:?}", Duration::new(span.secs, span.nanos)), expected);
}

#[test]
fn smoke_parse() {
    assert_parse("2", "2s");
    assert_parse("1.234", "1.234s");
    assert_parse("0.", "0ns");

    assert_parse("12:45.4", "765.4s");
    assert_parse("00:00.5", "500ms");

    assert_parse("00:00:00.5", "500ms");
    assert_parse("00:01:30.5", "90.5s");
    assert_parse("00:20:10.5", "1210.5s");
}

#[test]
fn negative_durations_are_rejected() {
    assert_eq!(parse("-2"), Err(DurationError::InvalidNumber));
}

#[test]
fn malformed_time_codes_are_rejected() {
    assert_eq!(parse("1:2:3:4"), Err(DurationError::UnknownFormat));
    assert_eq!(parse(""), Err(DurationError::InvalidNumber));
    assert_eq!(parse("."), Err(DurationError::InvalidNumber));
    assert_eq!(parse("1.2.3"), Err(DurationError::InvalidNumber));
    assert_eq!(parse("1.5:30"), Err(DurationError::InvalidNumber));
    assert_eq!(parse("a"), Err(DurationError::InvalidNumber));
    assert_eq!(parse("4294967296:00"), Err(DurationError::InvalidNumber));
    assert_eq!(parse("18446744073709551616"), Err(DurationError::InvalidNumber));
}

#[test]
fn fields_may_carry_a_plus_and_long_fractions() {
    let span = parse("+1:+2.1234567899").unwrap();
    assert_eq!((span.secs, span.nanos), (62, 123_456_789));
    let span = parse(".25").unwrap();
    assert_eq!((span.secs, span.nanos), (0, 250_000_000));
    let span = parse("4294967295:59:18446744073709551615");
    assert_eq!(span, Err(DurationError::InvalidNumber));
    let span = parse("1:00:00").unwrap();
    assert_eq!((span.secs, span.nanos), (3600, 0));
}
