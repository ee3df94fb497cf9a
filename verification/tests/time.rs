use chrono::{Datelike, TimeZone, Utc};
use sat_tracker::error::ParseField;
use sat_tracker::time::{
    day_of, parse_coinbase_timestamp, parse_river_timestamp, time_key_of, weekday_index,
    weeks_between, year_start_secs, CivilDate, IsoWeek, Timestamp,
};

fn at(secs: i64) -> Timestamp {
    Timestamp::new(secs, 0)
}

#[test]
fn coinbase_timestamp_in_rfc3339() {
    assert_eq!(parse_coinbase_timestamp("2024-01-15T10:00:00Z").unwrap(), at(1705312800));
    assert_eq!(parse_coinbase_timestamp("2024-01-15T10:30:45Z").unwrap(), at(1705314645));
    assert_eq!(
        parse_coinbase_timestamp("2024-01-15T12:00:00+02:00").unwrap(),
        at(1705312800)
    );
    assert_eq!(
        parse_coinbase_timestamp("2024-01-15T10:00:05.010Z").unwrap(),
        Timestamp::new(1705312805, 10_000_000)
    );
}

#[test]
fn coinbase_timestamp_with_utc_suffix() {
    assert_eq!(parse_coinbase_timestamp("2025-10-10 21:28:40 UTC").unwrap(), at(1760131720));
    assert_eq!(parse_coinbase_timestamp("2025-10-10 21:28:40").unwrap(), at(1760131720));
    assert_eq!(parse_coinbase_timestamp("2025-10-10 21:28:40 UTC UTC").unwrap(), at(1760131720));
}

#[test]
fn coinbase_timestamp_that_cannot_be_read() {
    for text in ["", "yesterday", "2025-10-10", "2025-13-10 21:28:40 UTC", "2025-10-10 21:28:40 GMT"] {
        let e = parse_coinbase_timestamp(text).unwrap_err();
        assert_eq!(e.field, ParseField::CoinbaseTimestamp);
        assert_eq!(e.value, text);
    }
    let e = parse_coinbase_timestamp("soon").unwrap_err();
    assert_eq!(e.message(), "Failed to parse Coinbase timestamp 'soon'");
}

#[test]
fn river_timestamp_is_a_plain_date_and_time() {
    assert_eq!(parse_river_timestamp("2024-01-15 10:30:45").unwrap(), at(1705314645));
    assert_eq!(parse_river_timestamp("1970-01-01 00:00:00").unwrap(), at(0));
}

#[test]
fn river_timestamp_that_cannot_be_read() {
    for text in ["", "2024-01-15T10:30:45Z", "2024-01-15 10:30:45 UTC", "2024-01-15", "15/01/2024 10:30:45"] {
        let e = parse_river_timestamp(text).unwrap_err();
        assert_eq!(e.field, ParseField::RiverTimestamp);
        assert_eq!(e.value, text);
    }
    let e = parse_river_timestamp("soon").unwrap_err();
    assert_eq!(e.message(), "Failed to parse River timestamp 'soon'");
}

#[test]
fn iso_week_of_an_instant() {
    assert_eq!(at(1705312800).iso_week(), Some(IsoWeek { year: 2024, week: 3 }));
    assert_eq!(at(1672531200).iso_week(), Some(IsoWeek { year: 2022, week: 52 }));
    assert_eq!(at(1735560000).iso_week(), Some(IsoWeek { year: 2025, week: 1 }));
    assert_eq!(at(1609632000).iso_week(), Some(IsoWeek { year: 2020, week: 53 }));
    assert_eq!(at(-1).iso_week(), Some(IsoWeek { year: 1970, week: 1 }));
    assert_eq!(at(i64::MAX).iso_week(), None);
    assert_eq!(at(i64::MIN).iso_week(), None);
}

#[test]
fn civil_date_of_an_instant() {
    assert_eq!(at(1705312800).civil_date(), Some(CivilDate { year: 2024, month: 1, day: 15 }));
    assert_eq!(at(0).civil_date(), Some(CivilDate { year: 1970, month: 1, day: 1 }));
    assert_eq!(at(-1).civil_date(), Some(CivilDate { year: 1969, month: 12, day: 31 }));
    assert_eq!(at(1709164800).civil_date(), Some(CivilDate { year: 2024, month: 2, day: 29 }));
    assert_eq!(at(i64::MAX).civil_date(), None);
}

#[test]
fn weekday_counts_from_monday() {
    assert_eq!(weekday_index(0), 3);
    assert_eq!(weekday_index(-1), 2);
    assert_eq!(weekday_index(1705312800), 0);
    assert_eq!(weekday_index(1760131720), 4);
    assert_eq!(weekday_index(1672531200), 6);
    assert_eq!(at(1710028800).weekday(), 6);
}

#[test]
fn weekday_agrees_with_the_calendar() {
    let mut secs: i64 = -5_000_000_000;
    while secs < 5_000_000_000 {
        let want = chrono::DateTime::from_timestamp(secs, 0).unwrap().weekday().num_days_from_monday();
        assert_eq!(weekday_index(secs) as u32, want, "{secs}");
        secs += 7_654_321;
    }
}

#[test]
fn day_of_counts_days_since_the_epoch() {
    assert_eq!(day_of(0), 0);
    assert_eq!(day_of(86_399), 0);
    assert_eq!(day_of(86_400), 1);
    assert_eq!(day_of(-1), -1);
    assert_eq!(day_of(-86_400), -1);
    assert_eq!(day_of(-86_401), -2);
}

#[test]
fn year_start_is_midnight_of_january_first() {
    assert_eq!(year_start_secs(1970), 0);
    assert_eq!(year_start_secs(2000), 946684800);
    assert_eq!(year_start_secs(2024), 1704067200);
    assert_eq!(year_start_secs(2025), 1735689600);
    assert_eq!(year_start_secs(1900), -2208988800);
    assert_eq!(year_start_secs(1), -62135596800);
}

#[test]
fn year_start_agrees_with_the_calendar() {
    for year in -3000..3000 {
        let want = Utc.with_ymd_and_hms(year, 1, 1, 0, 0, 0).unwrap().timestamp();
        assert_eq!(year_start_secs(year), want, "{year}");
    }
    for year in [-262143, -100000, 100000, 262142] {
        let want = Utc.with_ymd_and_hms(year, 1, 1, 0, 0, 0).unwrap().timestamp();
        assert_eq!(year_start_secs(year), want, "{year}");
    }
}

#[test]
fn weeks_between_counts_whole_weeks_towards_zero() {
    let week = 604_800;
    assert_eq!(weeks_between(&at(0), &at(0)), 0);
    assert_eq!(weeks_between(&at(0), &at(week - 1)), 0);
    assert_eq!(weeks_between(&at(0), &at(week)), 1);
    assert_eq!(weeks_between(&at(0), &at(52 * week + 5)), 52);
    assert_eq!(weeks_between(&at(week), &at(0)), -1);
    assert_eq!(weeks_between(&at(week - 1), &at(0)), 0);
    assert_eq!(weeks_between(&Timestamp::new(0, 1), &at(week)), 0);
    assert_eq!(weeks_between(&at(0), &Timestamp::new(week - 1, 999_999_999)), 0);
}

#[test]
fn time_keys_order_instants() {
    let a = Timestamp::new(10, 5);
    let b = Timestamp::new(10, 6);
    let c = Timestamp::new(11, 0);
    let d = Timestamp::new(-1, 999_999_999);
    assert!(time_key_of(&a) < time_key_of(&b));
    assert!(time_key_of(&b) < time_key_of(&c));
    assert!(time_key_of(&d) < time_key_of(&a));
    assert_eq!(time_key_of(&a), time_key_of(&Timestamp::new(10, 5)));
}
