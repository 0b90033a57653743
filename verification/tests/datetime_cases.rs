use chrono::{Datelike, TimeZone, Timelike, Utc};
use unit_parser::{parse_datetime, DatetimeError};

fn micros_of(t: chrono::DateTime<Utc>) -> i64 {
    t.timestamp_micros()
}

fn expect(pairs: &Vec<(&str, chrono::DateTime<Utc>)>) {
    for (input, expected) in pairs {
        let parsed = parse_datetime(input).unwrap();
        assert_eq!(parsed.epoch_micros, micros_of(*expected), "{}", input);
    }
}

#[test]
fn test_datetime() {
    let pairs = vec![
        (
            "Fri 2012-11-23 11:12:13",
            Utc.with_ymd_and_hms(2012, 11, 23, 11, 12, 13).unwrap(),
        ),
        (
            "2012-11-23 11:12:13",
            Utc.with_ymd_and_hms(2012, 11, 23, 11, 12, 13).unwrap(),
        ),
        (
            "2012-11-23 11:12:13 UTC",
            Utc.with_ymd_and_hms(2012, 11, 23, 11, 12, 13).unwrap(),
        ),
        (
            "2012-11-23",
            Utc.with_ymd_and_hms(2012, 11, 23, 0, 0, 0).unwrap(),
        ),
        (
            "12-11-23",
            Utc.with_ymd_and_hms(2012, 11, 23, 0, 0, 0).unwrap(),
        ),
        (
            "11:12:13",
            Utc::now()
                .with_hour(11)
                .unwrap()
                .with_minute(12)
                .unwrap()
                .with_second(13)
                .unwrap()
                .with_nanosecond(0)
                .unwrap(),
        ),
        (
            "11:12",
            Utc::now()
                .with_hour(11)
                .unwrap()
                .with_minute(12)
                .unwrap()
                .with_second(0)
                .unwrap()
                .with_nanosecond(0)
                .unwrap(),
        ),
        (
            "today",
            Utc::now()
                .with_hour(0)
                .unwrap()
                .with_minute(0)
                .unwrap()
                .with_second(0)
                .unwrap()
                .with_nanosecond(0)
                .unwrap(),
        ),
        (
            "@1395716396",
            Utc.with_ymd_and_hms(2014, 3, 25, 2, 59, 56).unwrap(),
        ),
    ];
    expect(&pairs);
}

#[test]
fn absolute_epoch_is_exact() {
    let parsed = parse_datetime("@1395716396").unwrap();
    assert_eq!(parsed.epoch_micros, 1_395_716_396_000_000);
    let negative = parse_datetime("@-1").unwrap();
    assert_eq!(negative.epoch_micros, -1_000_000);
}

#[test]
fn weekday_mismatch_is_an_error() {
    // 2012-11-23 was a Friday
    assert_eq!(
        parse_datetime("Mon 2012-11-23 11:12:13").unwrap_err(),
        DatetimeError::WeekdayMismatch
    );
    assert!(parse_datetime("Fri 2012-11-23 11:12:13").is_ok());
}

#[test]
fn unknown_timezone_is_an_error() {
    match parse_datetime("2012-11-23 11:12:13 Atlantis/Nowhere") {
        Err(DatetimeError::UnknownTimezone { name }) => {
            assert_eq!(name, "Atlantis/Nowhere");
        }
        other => panic!("expected an unknown-timezone error, got {:?}", other),
    }
}

#[test]
fn named_timezone_shifts_the_wall_clock() {
    let parsed = parse_datetime("2012-11-23 11:12:13 Europe/Berlin").unwrap();
    let expected = chrono_tz::Europe::Berlin
        .with_ymd_and_hms(2012, 11, 23, 11, 12, 13)
        .unwrap()
        .with_timezone(&Utc);
    assert_eq!(parsed.epoch_micros, expected.timestamp_micros());
    // one hour ahead of UTC in November
    assert_eq!(
        parsed.epoch_micros + 3_600_000_000,
        parse_datetime("2012-11-23 11:12:13").unwrap().epoch_micros
    );
}

#[test]
fn relative_times_move_from_now() {
    let before = Utc::now().timestamp_micros();
    let plus = parse_datetime("+3h30m").unwrap().epoch_micros;
    let after = Utc::now().timestamp_micros();
    let offset: i64 = (3 * 3600 + 30 * 60) * 1_000_000;
    assert!(plus >= before + offset && plus <= after + offset);
    let minus = parse_datetime("-5s").unwrap().epoch_micros;
    let after2 = Utc::now().timestamp_micros();
    assert!(minus <= after2 - 5_000_000);
}

#[test]
fn tomorrow_and_yesterday_are_a_day_apart() {
    let today = parse_datetime("today").unwrap().epoch_micros;
    let tomorrow = parse_datetime("tomorrow").unwrap().epoch_micros;
    let yesterday = parse_datetime("yesterday").unwrap().epoch_micros;
    assert_eq!(tomorrow - today, 86_400_000_000);
    assert_eq!(today - yesterday, 86_400_000_000);
}

#[test]
fn datetime_syntax_errors() {
    assert_eq!(parse_datetime("").unwrap_err(), DatetimeError::Syntax);
    assert_eq!(parse_datetime("@").unwrap_err(), DatetimeError::Syntax);
    assert_eq!(parse_datetime("+5x").unwrap_err(), DatetimeError::Syntax);
    assert_eq!(
        parse_datetime("now extra junk").unwrap_err(),
        DatetimeError::Syntax
    );
}

#[test]
fn impossible_dates_are_calendar_errors() {
    assert_eq!(
        parse_datetime("2012-13-45").unwrap_err(),
        DatetimeError::InvalidCalendar
    );
    // the current date is always a valid weekday carrier
    let _ = Utc::now().weekday();
}
