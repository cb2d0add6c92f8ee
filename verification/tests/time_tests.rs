use chrono::NaiveDate;
use optionsbot::text::IntParseError;
use optionsbot::time::{
    calendar_of, edited_date, expiry_from_parsed, expiry_from_text, parse_iso_date, utc_at,
    DateEditError, ExpiryError, Moment,
};

#[test]
fn utc_at_gives_the_unix_timestamp() {
    assert_eq!(utc_at(2024, 12, 30, 20, 0, 0), Some(Moment { secs: 1735588800, nanos: 0 }));
    assert_eq!(utc_at(1970, 1, 1, 0, 0, 0), Some(Moment { secs: 0, nanos: 0 }));
}

#[test]
fn utc_at_refuses_days_and_times_that_do_not_exist() {
    assert_eq!(utc_at(2023, 2, 29, 0, 0, 0), None);
    assert!(utc_at(2024, 2, 29, 0, 0, 0).is_some());
    assert_eq!(utc_at(1900, 2, 29, 0, 0, 0), None);
    assert!(utc_at(2000, 2, 29, 0, 0, 0).is_some());
    assert_eq!(utc_at(2024, 4, 31, 0, 0, 0), None);
    assert_eq!(utc_at(2024, 13, 1, 0, 0, 0), None);
    assert_eq!(utc_at(2024, 0, 1, 0, 0, 0), None);
    assert_eq!(utc_at(2024, 1, 0, 0, 0, 0), None);
    assert_eq!(utc_at(2024, 1, 1, 24, 0, 0), None);
    assert_eq!(utc_at(2024, 1, 1, 0, 60, 0), None);
    assert_eq!(utc_at(2024, 1, 1, 0, 0, 60), None);
    assert!(utc_at(262142, 12, 31, 0, 0, 0).is_some());
    assert_eq!(utc_at(262143, 1, 1, 0, 0, 0), None);
    assert!(utc_at(-262143, 1, 1, 0, 0, 0).is_some());
    assert_eq!(utc_at(-262144, 12, 31, 0, 0, 0), None);
}

#[test]
fn calendar_of_reads_back_the_day() {
    let t = utc_at(2024, 3, 5, 17, 0, 0).unwrap();
    assert_eq!(calendar_of(t), Some((2024, 3, 5)));
    assert_eq!(calendar_of(Moment { secs: 0, nanos: 0 }), Some((1970, 1, 1)));
    assert_eq!(calendar_of(Moment { secs: i64::MAX, nanos: 0 }), None);
}

fn chrono_message(t: &str) -> String {
    NaiveDate::parse_from_str(t, "%Y-%m-%d").unwrap_err().to_string()
}

#[test]
fn expiry_is_eight_in_the_evening_utc() {
    assert_eq!(expiry_from_text("2024-12-30"), Ok(Moment { secs: 1735588800, nanos: 0 }));
    for t in ["2024-13-01", "12/30/2024", "2023-02-29", "2024-12", "2024-12-30x", ""] {
        assert_eq!(expiry_from_text(t), Err(ExpiryError::Unparsable(chrono_message(t))), "{:?}", t);
    }
    assert_eq!(
        expiry_from_text("12/30/2024"),
        Err(ExpiryError::Unparsable("input contains invalid characters".to_string()))
    );
    assert_eq!(parse_iso_date("2024-02-29"), Ok((2024, 2, 29)));
}

#[test]
fn expiry_of_a_year_before_one_uses_its_ce_number() {
    // Year 0 is 1 BCE, whose year_ce number is 1.
    assert_eq!(expiry_from_parsed(Ok((0, 1, 2))), Ok(utc_at(1, 1, 2, 20, 0, 0).unwrap()));
    // Year -4 (5 BCE) is a leap year, but its number 5 is not one.
    assert_eq!(expiry_from_parsed(Ok((-4, 2, 29))), Err(ExpiryError::InvalidDate));
    assert_eq!(expiry_from_parsed(Ok((-4, 2, 28))), Ok(utc_at(5, 2, 28, 20, 0, 0).unwrap()));
    assert_eq!(
        expiry_from_parsed(Err("trailing input".to_string())),
        Err(ExpiryError::Unparsable("trailing input".to_string()))
    );
}

#[test]
fn edited_date_replaces_typed_fields() {
    let cur = (2024, 3, 5);
    assert_eq!(edited_date(cur, None, None, None), Ok(None));
    assert_eq!(
        edited_date(cur, Some("2025".to_string()), None, None),
        Ok(Some(utc_at(2025, 3, 5, 17, 0, 0).unwrap()))
    );
    assert_eq!(
        edited_date(cur, None, Some("12".to_string()), Some("31".to_string())),
        Ok(Some(utc_at(2024, 12, 31, 17, 0, 0).unwrap()))
    );
}

#[test]
fn edited_date_errors() {
    let cur = (2024, 3, 5);
    assert_eq!(edited_date(cur, None, Some("x".to_string()), None), Err(DateEditError::InvalidNumber(IntParseError::InvalidDigit)));
    assert_eq!(edited_date(cur, None, None, Some("-1".to_string())), Err(DateEditError::InvalidNumber(IntParseError::InvalidDigit)));
    assert_eq!(edited_date(cur, Some("".to_string()), Some("x".to_string()), None), Err(DateEditError::InvalidNumber(IntParseError::Empty)));
    assert_eq!(edited_date(cur, None, Some("4294967296".to_string()), None), Err(DateEditError::InvalidNumber(IntParseError::PosOverflow)));
    assert_eq!(edited_date(cur, None, Some("2".to_string()), Some("30".to_string())), Err(DateEditError::InvalidDate));
    assert_eq!(edited_date((2024, 2, 29), Some("2023".to_string()), None, None), Err(DateEditError::InvalidDate));
}

#[test]
fn timestamps_before_1970_and_far_away() {
    assert_eq!(utc_at(1969, 12, 31, 23, 59, 59), Some(Moment { secs: -1, nanos: 0 }));
    assert_eq!(utc_at(1600, 2, 29, 0, 0, 0), Some(Moment { secs: -11670998400, nanos: 0 }));
    assert_eq!(utc_at(2000, 3, 1, 17, 0, 0), Some(Moment { secs: 951930000, nanos: 0 }));
    let far = utc_at(262142, 12, 31, 23, 59, 59).unwrap();
    assert_eq!(calendar_of(far), Some((262142, 12, 31)));
    assert_eq!(calendar_of(Moment { secs: far.secs + 1, nanos: 0 }), None);
}

#[test]
fn calendar_of_rounds_down_and_checks_the_fraction() {
    assert_eq!(calendar_of(Moment { secs: -1, nanos: 0 }), Some((1969, 12, 31)));
    assert_eq!(calendar_of(Moment { secs: 86399, nanos: 999_999_999 }), Some((1970, 1, 1)));
    assert_eq!(calendar_of(Moment { secs: 59, nanos: 1_500_000_000 }), Some((1970, 1, 1)));
    assert_eq!(calendar_of(Moment { secs: 58, nanos: 1_500_000_000 }), None);
    assert_eq!(calendar_of(Moment { secs: 59, nanos: 2_000_000_000 }), None);
}
