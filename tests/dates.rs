use todoism::date_phrase::{parse_human_date, parse_human_date_at, parse_weekday_str, DateError};
use todoism::time::Instant;

const TODAY: i64 = 19787; // Tuesday 2024-03-05

fn eod(secs: i64) -> Result<Instant, DateError> {
    Ok(Instant::new(secs, 0))
}

#[test]
fn keywords() {
    assert_eq!(parse_human_date_at("today", TODAY, 0), eod(1_709_683_199));
    assert_eq!(parse_human_date_at("Tod", TODAY, 0), eod(1_709_683_199));
    assert_eq!(parse_human_date_at("TOMORROW", TODAY, 0), eod(1_709_769_599));
    assert_eq!(parse_human_date_at("tom", TODAY, 0), eod(1_709_769_599));
    assert_eq!(parse_human_date_at("eow", TODAY, 0), eod(1_710_115_199));
    assert_eq!(parse_human_date_at("eom", TODAY, 0), eod(1_711_929_599));
    // The end of the local day, an hour east of UTC.
    assert_eq!(parse_human_date_at("today", TODAY, 3600), eod(1_709_683_199 - 3600));
}

#[test]
fn relative_forms() {
    assert_eq!(parse_human_date_at("+3d", TODAY, 0), eod(1_709_942_399));
    assert_eq!(parse_human_date_at("+2w", TODAY, 0), eod(1_710_892_799));
    assert_eq!(parse_human_date_at("+1m", TODAY, 0), eod(1_712_361_599));
    assert_eq!(parse_human_date_at("+11m", TODAY, 0), eod(1_738_799_999));
    assert_eq!(parse_human_date_at("-3m", TODAY, 0), Err(DateError::Unparseable));
    assert_eq!(parse_human_date_at("+-3m", TODAY, 0), eod(1_701_820_799));
    // January 31 plus a month is the last day of February.
    assert_eq!(parse_human_date_at("+1m", 19753, 0), eod(1_709_251_199));
    assert_eq!(parse_human_date_at("+5x", TODAY, 0), Err(DateError::UnknownUnit));
    assert_eq!(parse_human_date_at("+d", TODAY, 0), Err(DateError::InvalidRelative));
    assert_eq!(parse_human_date_at("+", TODAY, 0), Err(DateError::InvalidRelative));
    assert_eq!(parse_human_date_at("+99999999999d", TODAY, 0), Err(DateError::OutOfRange));
}

#[test]
fn weekdays() {
    assert_eq!(parse_human_date_at("fri", TODAY, 0), eod(1_709_942_399));
    assert_eq!(parse_human_date_at("2:Friday", TODAY, 0), eod(1_710_547_199));
    assert_eq!(parse_human_date_at("tue", TODAY, 0), eod(1_710_287_999));
    assert_eq!(parse_weekday_str("SUNDAY"), Some(0));
    assert_eq!(parse_weekday_str("sat"), Some(6));
    assert_eq!(parse_weekday_str("funday"), None);
}

#[test]
fn formats_and_failures() {
    assert_eq!(parse_human_date_at("2024-05-01", TODAY, 0), eod(1_714_607_999));
    assert_eq!(parse_human_date_at("2024-05-01 14:30:00", TODAY, 0), eod(1_714_573_800));
    assert_eq!(parse_human_date_at("2024-05-01 14:30:00", TODAY, -7200), eod(1_714_573_800 + 7200));
    assert_eq!(parse_human_date_at("soon", TODAY, 0), Err(DateError::Unparseable));
    assert_eq!(parse_human_date_at("2024-02-30", TODAY, 0), Err(DateError::Unparseable));
    assert!(parse_human_date("tomorrow").is_ok());
}
