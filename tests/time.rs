use todoism::greet;
use todoism::time::{
    date_label, iso_week, local_day, parse_duration, parse_weekday_token, weekday_label, DurationError,
    Instant,
};

#[test]
fn test_parse_weekday_token() {
    assert_eq!(parse_weekday_token("fri"), Some((1, "fri")));
    assert_eq!(parse_weekday_token("2:fri"), Some((2, "fri")));
    assert_eq!(parse_weekday_token("10:mon"), Some((10, "mon")));
    assert_eq!(parse_weekday_token("invalid"), Some((1, "invalid")));
}

#[test]
fn weekday_token_rejects_bad_counts() {
    assert_eq!(parse_weekday_token("x:fri"), None);
    assert_eq!(parse_weekday_token("1:2:fri"), None);
    assert_eq!(parse_weekday_token("-3:sun"), Some((-3, "sun")));
}

#[test]
fn parse_duration_units() {
    assert_eq!(parse_duration("30m"), Ok(1800));
    assert_eq!(parse_duration(" 2h "), Ok(7200));
    assert_eq!(parse_duration("1D"), Ok(86_400));
    assert_eq!(parse_duration("1w"), Ok(604_800));
    assert_eq!(parse_duration("-5m"), Ok(-300));
    assert_eq!(parse_duration("+5m"), Ok(300));
}

#[test]
fn parse_duration_errors() {
    assert_eq!(parse_duration("   "), Err(DurationError::Empty));
    assert_eq!(parse_duration("h"), Err(DurationError::InvalidNumber));
    assert_eq!(parse_duration("1.5h"), Err(DurationError::InvalidNumber));
    assert_eq!(parse_duration("3x"), Err(DurationError::UnknownUnit));
    assert_eq!(parse_duration("99999999999999999w"), Err(DurationError::OutOfRange));
    assert_eq!(parse_duration("99999999999999999999m"), Err(DurationError::InvalidNumber));
}

#[test]
fn local_days_and_labels() {
    // 2024-01-07 23:59 UTC.
    let t = Instant::new(1_704_671_940, 0);
    assert_eq!(local_day(t, 0), 19729);
    assert_eq!(local_day(t, 3600), 19730);
    assert_eq!(local_day(Instant::new(-1, 0), 0), -1);
    assert_eq!(date_label(19729), "2024-01-07");
    assert_eq!(date_label(19730), "2024-01-08");
    assert_eq!(weekday_label(19729), "Sun");
    assert_eq!(weekday_label(0), "Thu");
    assert_eq!(iso_week(19729), (2024, 1));
    assert_eq!(iso_week(19730), (2024, 2));
}

#[test]
fn greeting() {
    assert_eq!(greet(), "Hello from Todoism Core!");
}
