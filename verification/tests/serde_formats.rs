use ephyr::{seconds, timelike, timezone};
use ephyr::timezone::TimeZone;

#[test]
fn seconds_serializes_correctly() {
    for (input, expected) in &[
        (0, "0"),
        (1, "1"),
        (60, "60"),
        (3600, "3600"),
        (86400, "86400"),
        (10 * 86400 + 67, "864067"),
    ] {
        let actual = seconds::serialize(*input);
        assert_eq!(actual, expected.to_string());
    }
}

#[test]
fn seconds_deserializes_correctly() {
    for (input, expected) in &[
        ("0", 0),
        ("1", 1),
        ("60", 60),
        ("3600", 3600),
        ("86400", 86400),
        ("864067", 10 * 86400 + 67),
    ] {
        let actual = seconds::deserialize(input).expect("Failed to deserialize");
        assert_eq!(actual, *expected);
    }
}

#[test]
fn timelike_serializes_correctly() {
    for (input, expected) in &[
        (0, r#""00:00:00""#),
        (1, r#""00:00:01""#),
        (60, r#""00:01:00""#),
        (3600, r#""01:00:00""#),
        (86400, r#""24:00:00""#),
        (10 * 86400 + 67, r#""240:01:07""#),
        (324, r#""00:05:24""#),
    ] {
        let actual = serde_json::to_string(&timelike::serialize(*input))
            .expect("Failed to serialize");
        assert_eq!(actual, expected.to_string());
    }
}

#[test]
fn timelike_deserializes_correctly() {
    for (input, expected) in &[
        (r#""00:00:00""#, 0),
        (r#""00:00:01""#, 1),
        (r#""00:01:00""#, 60),
        (r#""01:00:00""#, 3600),
        (r#""24:00:00""#, 86400),
        (r#""240:01:07""#, 10 * 86400 + 67),
        (r#""00:05:24""#, 324),
    ] {
        let text: String = serde_json::from_str(input).expect("Failed to deserialize");
        let actual = timelike::deserialize(&text).expect("Failed to deserialize");
        assert_eq!(actual, *expected);
    }
}

#[test]
fn timezone_serializes_correctly() {
    let (sec, min, hour) = (1, 60, 3600);
    for (input, expected) in &[
        (0, r#""+00:00""#),
        (sec, r#""+00:00:01""#),
        (-sec, r#""-00:00:01""#),
        (min, r#""+00:01""#),
        (-min, r#""-00:01""#),
        (hour, r#""+01:00""#),
        (-hour, r#""-01:00""#),
        (5 * hour + 30 * min, r#""+05:30""#),
        (-(5 * hour + 30 * min + 15 * sec), r#""-05:30:15""#),
    ] {
        let tz = TimeZone::east_opt(*input).expect("Invalid offset");
        let actual = serde_json::to_string(&timezone::serialize(&tz))
            .expect("Failed to serialize");
        assert_eq!(actual, expected.to_string());
    }
}

#[test]
fn timezone_deserializes_correctly() {
    let (sec, min, hour) = (1, 60, 3600);
    for (input, expected) in &[
        (r#""+00:00""#, 0),
        (r#""00:00""#, 0),
        (r#""00:00:00""#, 0),
        (r#""-00:00""#, 0),
        (r#""+00:00:01""#, sec),
        (r#""-00:00:01""#, -sec),
        (r#""+00:01""#, min),
        (r#""+00:01:00""#, min),
        (r#""-00:01""#, -min),
        (r#""+01:00""#, hour),
        (r#""-01:00""#, -hour),
        (r#""-01:00:00""#, -hour),
        (r#""+05:30""#, 5 * hour + 30 * min),
        (r#""-05:30:15""#, -(5 * hour + 30 * min + 15 * sec)),
    ] {
        let text: String = serde_json::from_str(input).expect("Failed to deserialize");
        let actual = timezone::deserialize(&text).expect("Failed to deserialize");
        assert_eq!(actual.local_minus_utc(), *expected);
    }
}

#[test]
fn timelike_formats_hours_past_a_day() {
    assert_eq!(timelike::format(10 * 86400 + 67), "240:01:07");
    assert_eq!(timelike::format(59), "00:00:59");
}

#[test]
fn timelike_roundtrips() {
    for secs in &[0u64, 59, 3599, 86399, 360000, 12345678] {
        let text = timelike::serialize(*secs);
        assert_eq!(timelike::deserialize(&text).unwrap(), *secs);
    }
}

#[test]
fn timelike_refuses_malformed_text() {
    for input in &["", "00:00", "00:60:00", "00:00:60", "a0:00:00", "00:00:00:00"] {
        assert!(timelike::deserialize(input).is_err(), "allows {}", input);
    }
}

#[test]
fn timelike_options() {
    assert_eq!(timelike::opt::serialize(None), None);
    assert_eq!(timelike::opt::serialize(Some(61)), Some("00:01:01".to_string()));
    assert_eq!(timelike::opt::deserialize(None).unwrap(), None);
    assert_eq!(timelike::opt::deserialize(Some("00:01:01")).unwrap(), Some(61));
}

#[test]
fn seconds_roundtrips_and_refuses() {
    for secs in &[0u64, 7, 86400, u64::MAX] {
        assert_eq!(seconds::deserialize(&seconds::serialize(*secs)), Some(*secs));
    }
    assert_eq!(seconds::deserialize(""), None);
    assert_eq!(seconds::deserialize("1a"), None);
    assert_eq!(seconds::deserialize("-1"), None);
}

#[test]
fn timezone_roundtrips_and_refuses() {
    for secs in &[0, 1, -1, 3600, -19815, 86399, -86399] {
        let tz = TimeZone::east_opt(*secs).unwrap();
        let back = timezone::deserialize(&timezone::serialize(&tz)).unwrap();
        assert_eq!(back.local_minus_utc(), *secs);
    }
    assert!(TimeZone::east_opt(86400).is_none());
    assert!(TimeZone::east_opt(-86400).is_none());
    for input in &["", "*00:00", "+24:00", "+00:60", "+00:00:60", "+00"] {
        assert!(timezone::deserialize(input).is_err(), "allows {}", input);
    }
    // Hours need not have two digits, but nothing may follow the seconds.
    assert_eq!(timezone::deserialize("+1:00").unwrap().local_minus_utc(), 3600);
    assert_eq!(timezone::deserialize("-00:00:01").unwrap().local_minus_utc(), -1);
    assert_eq!(timezone::deserialize("-00:00:01:99"), Err(timezone::TimezoneError::InvalidFormat));
    assert_eq!(timezone::deserialize("+01:00:00:99"), Err(timezone::TimezoneError::InvalidFormat));
    // Hours whose seconds overflow any integer type are refused, not wrapped.
    assert_eq!(
        timezone::deserialize("+4294967295:00"),
        Err(timezone::TimezoneError::InvalidTimezone),
    );
}

#[test]
fn timelike_refuses_overflowing_durations() {
    assert_eq!(
        timelike::deserialize("5124095576030432:00:00"),
        Err(timelike::TimelikeError::TooLong),
    );
    assert_eq!(
        timelike::deserialize("18446744073709551615:00:00"),
        Err(timelike::TimelikeError::TooLong),
    );
    assert_eq!(timelike::deserialize("5124095576030431:00:00").unwrap(), 5124095576030431 * 3600);
    assert_eq!(
        timelike::opt::deserialize(Some("5124095576030432:00:00")),
        Err(timelike::TimelikeError::TooLong),
    );
}
