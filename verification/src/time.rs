//! Instants and calendar values.
//!
//! An instant is a count of seconds since 1970-01-01T00:00:00Z and a count of
//! nanoseconds within the second. Reading a date out of text and finding the
//! calendar date or the ISO week of an instant are left to `chrono`; the
//! arithmetic on instants, the day of the week and the start of a year are
//! computed here.
use crate::error::{ParseError, ParseErrorView, ParseField};
use crate::text::{chars_of, string_from_chars, strip_suffix_repeated, without_suffix};
use chrono::Datelike;
use vstd::prelude::*;

verus! {

/// An instant in UTC.
#[derive(Clone, Copy, Debug, PartialEq, Eq, Structural)]
pub struct Timestamp {
    /// Whole seconds since 1970-01-01T00:00:00Z, leap seconds not counted.
    pub secs: i64,
    /// Nanoseconds since the last whole second.
    pub nanos: u32,
}

/// A week of the ISO 8601 week calendar.
#[derive(Clone, Copy, Debug, PartialEq, Eq, Structural)]
pub struct IsoWeek {
    /// The year that the week belongs to.
    pub year: i32,
    /// The number of the week within that year, from 1.
    pub week: u32,
}

/// A date of the proleptic Gregorian calendar.
#[derive(Clone, Copy, Debug, PartialEq, Eq, Structural)]
pub struct CivilDate {
    pub year: i32,
    /// From 1 for January.
    pub month: u32,
    /// From 1.
    pub day: u32,
}

/// The instant that `chrono` reads out of an RFC 3339 date and time, if it
/// reads one.
pub uninterp spec fn rfc3339_instant(text: Seq<char>) -> Option<Timestamp>;

/// The instant that `chrono` reads out of `text` by the `strftime` pattern
/// `format`, taking the date and time as UTC, if it reads one.
pub uninterp spec fn naive_datetime_instant(text: Seq<char>, format: Seq<char>) -> Option<
    Timestamp,
>;

/// The instant that `chrono` reads out of `text` by the `strftime` pattern
/// `format`, which names a zone, if it reads one.
pub uninterp spec fn zoned_datetime_instant(text: Seq<char>, format: Seq<char>) -> Option<
    Timestamp,
>;

/// The ISO week in which `secs` seconds since the epoch fall, if `chrono`'s
/// calendar reaches that far.
pub uninterp spec fn iso_week_at(secs: int) -> Option<IsoWeek>;

/// The calendar date on which `secs` seconds since the epoch fall, if
/// `chrono`'s calendar reaches that far.
pub uninterp spec fn civil_date_at(secs: int) -> Option<CivilDate>;

/// `chrono::DateTime::parse_from_rfc3339`, the result taken as seconds and
/// nanoseconds since the epoch. The contract gives the result its name, so
/// that the same text is read the same way each time, and claims of the
/// nanoseconds what `chrono` documents: below a thousand million, or, for a
/// leap second, below twice that.
#[verifier::external_body]
pub(crate) fn chrono_parse_rfc3339(text: &str) -> (r: Option<Timestamp>)
    ensures
        r == rfc3339_instant(text@),
        r matches Some(t) ==> t.nanos < 2_000_000_000,
{
    chrono::DateTime::parse_from_rfc3339(text).ok().map(
        |dt| Timestamp { secs: dt.timestamp(), nanos: dt.timestamp_subsec_nanos() },
    )
}

/// `chrono::NaiveDateTime::parse_from_str` followed by `and_utc`, the result
/// taken as seconds and nanoseconds since the epoch. The contract gives the
/// result its name and claims of the nanoseconds what `chrono` documents.
#[verifier::external_body]
pub(crate) fn chrono_parse_naive(text: &str, format: &str) -> (r: Option<Timestamp>)
    ensures
        r == naive_datetime_instant(text@, format@),
        r matches Some(t) ==> t.nanos < 2_000_000_000,
{
    chrono::NaiveDateTime::parse_from_str(text, format).ok().map(|dt| dt.and_utc()).map(
        |dt| Timestamp { secs: dt.timestamp(), nanos: dt.timestamp_subsec_nanos() },
    )
}

/// `chrono::DateTime::parse_from_str`, the result taken as seconds and
/// nanoseconds since the epoch. The contract gives the result its name and
/// claims of the nanoseconds what `chrono` documents.
#[verifier::external_body]
pub(crate) fn chrono_parse_zoned(text: &str, format: &str) -> (r: Option<Timestamp>)
    ensures
        r == zoned_datetime_instant(text@, format@),
        r matches Some(t) ==> t.nanos < 2_000_000_000,
{
    chrono::DateTime::parse_from_str(text, format).ok().map(
        |dt| Timestamp { secs: dt.timestamp(), nanos: dt.timestamp_subsec_nanos() },
    )
}

/// `Datelike::iso_week` of the `chrono::DateTime` that `from_timestamp` makes
/// of `secs`; `None` where `from_timestamp` gives none. The contract gives
/// the result its name and claims of the week what `chrono` documents: a
/// number from 1 to 53.
#[verifier::external_body]
pub(crate) fn chrono_iso_week(secs: i64) -> (r: Option<IsoWeek>)
    ensures
        r == iso_week_at(secs as int),
        r matches Some(w) ==> 1 <= w.week <= 53,
{
    chrono::DateTime::from_timestamp(secs, 0).map(|dt| dt.iso_week()).map(
        |w| IsoWeek { year: w.year(), week: w.week() },
    )
}

/// `Datelike::year`, `month` and `day` of the `chrono::DateTime` that
/// `from_timestamp` makes of `secs`; `None` where `from_timestamp` gives
/// none. The contract gives the result its name and claims of month and day
/// what `chrono` documents: a month from 1 to 12, a day from 1 to 31.
#[verifier::external_body]
pub(crate) fn chrono_civil_date(secs: i64) -> (r: Option<CivilDate>)
    ensures
        r == civil_date_at(secs as int),
        r matches Some(d) ==> 1 <= d.month <= 12 && 1 <= d.day <= 31,
{
    chrono::DateTime::from_timestamp(secs, 0).map(
        |dt| CivilDate { year: dt.year(), month: dt.month(), day: dt.day() },
    )
}

impl Timestamp {
    /// The instant `secs` seconds and `nanos` nanoseconds after the epoch.
    pub fn new(secs: i64, nanos: u32) -> (t: Timestamp)
        ensures
            t == (Timestamp { secs, nanos }),
    {
        Timestamp { secs, nanos }
    }

    /// Nanoseconds since the epoch.
    pub open spec fn total_nanos(self) -> int {
        self.secs * 1_000_000_000 + self.nanos
    }

    /// Nanoseconds since the epoch.
    pub fn nanos_since_epoch(&self) -> (n: i128)
        ensures
            n == self.total_nanos(),
    {
        self.secs as i128 * 1_000_000_000i128 + self.nanos as i128
    }

    /// The ISO week in which the instant falls.
    pub fn iso_week(&self) -> (r: Option<IsoWeek>)
        ensures
            r == iso_week_at(self.secs as int),
            r matches Some(w) ==> 1 <= w.week <= 53,
    {
        chrono_iso_week(self.secs)
    }

    /// The calendar date on which the instant falls.
    pub fn civil_date(&self) -> (r: Option<CivilDate>)
        ensures
            r == civil_date_at(self.secs as int),
            r matches Some(d) ==> 1 <= d.month <= 12 && 1 <= d.day <= 31,
    {
        chrono_civil_date(self.secs)
    }

    /// The day of the week on which the instant falls, 0 for Monday up to 6
    /// for Sunday.
    pub fn weekday(&self) -> (r: u8)
        ensures
            r == weekday_of(self.secs as int),
    {
        weekday_index(self.secs)
    }
}

/// Nanoseconds from `from` to `to`; negative where `to` is the earlier one.
pub open spec fn nanos_between(from: Timestamp, to: Timestamp) -> int {
    to.total_nanos() - from.total_nanos()
}

/// The number of the day on which `secs` falls: 0 for 1970-01-01.
pub open spec fn day_number(secs: int) -> int {
    secs / 86_400
}

/// The day of the week of an instant, 0 for Monday up to 6 for Sunday:
/// 1970-01-01 was a Thursday, and the days of the week repeat every 7 days.
pub open spec fn weekday_of(secs: int) -> int {
    (day_number(secs) + 3) % 7
}

/// The number of the day on which `secs` falls: 0 for 1970-01-01.
pub fn day_of(secs: i64) -> (d: i64)
    ensures
        d == day_number(secs as int),
{
    match secs.checked_div_euclid(86_400) {
        Some(d) => d,
        None => 0,
    }
}

/// The day of the week of an instant, 0 for Monday up to 6 for Sunday.
pub fn weekday_index(secs: i64) -> (r: u8)
    ensures
        r == weekday_of(secs as int),
        r < 7,
{
    let d = day_of(secs);
    match (d + 3).checked_rem_euclid(7) {
        Some(m) => m as u8,
        None => 0,
    }
}

/// The days from 0001-01-01 up to the first day of `year`, in the proleptic
/// Gregorian calendar: 365 for each year before, and one more for each leap
/// year among them.
pub open spec fn days_before_year(year: int) -> int {
    let p = year - 1;
    365 * p + p / 4 - p / 100 + p / 400
}

/// Seconds since the epoch at which `year` starts (00:00:00 on January 1).
pub open spec fn year_start(year: int) -> int {
    (days_before_year(year) - 719_162) * 86_400
}

/// Seconds since the epoch at which `year` starts.
pub fn year_start_secs(year: i32) -> (secs: i64)
    ensures
        secs == year_start(year as int),
{
    let p: i64 = year as i64 - 1;
    let by4 = match p.checked_div_euclid(4) {
        Some(q) => q,
        None => 0,
    };
    let by100 = match p.checked_div_euclid(100) {
        Some(q) => q,
        None => 0,
    };
    let by400 = match p.checked_div_euclid(400) {
        Some(q) => q,
        None => 0,
    };
    (365 * p + by4 - by100 + by400 - 719_162) * 86_400
}

/// The whole weeks from `from` to `to`, cut towards zero: negative where
/// `to` is a week or more before `from`.
pub open spec fn whole_weeks_between(from: Timestamp, to: Timestamp) -> int {
    let n = nanos_between(from, to);
    if n >= 0 {
        n / 604_800_000_000_000
    } else {
        -((-n) / 604_800_000_000_000)
    }
}

/// The whole weeks from `from` to `to`, cut towards zero.
pub fn weeks_between(from: &Timestamp, to: &Timestamp) -> (w: i64)
    ensures
        w == whole_weeks_between(*from, *to),
{
    let n: i128 = to.nanos_since_epoch() - from.nanos_since_epoch();
    if n >= 0 {
        (n / 604_800_000_000_000i128) as i64
    } else {
        (-((-n) / 604_800_000_000_000i128)) as i64
    }
}

/// `a` is not later than `b`.
pub open spec fn not_later(a: Timestamp, b: Timestamp) -> bool {
    a.secs < b.secs || (a.secs == b.secs && a.nanos <= b.nanos)
}

/// A number that orders instants as time does: the seconds count before the
/// nanoseconds.
pub open spec fn time_key(t: Timestamp) -> i128 {
    (t.secs * 4_294_967_296 + t.nanos) as i128
}

/// The keys order instants as time does.
pub proof fn lemma_time_key_orders(a: Timestamp, b: Timestamp)
    ensures
        time_key(a) <= time_key(b) <==> not_later(a, b),
        time_key(a) == time_key(b) <==> a == b,
{
}

/// The number that orders `t` among instants.
pub fn time_key_of(t: &Timestamp) -> (k: i128)
    ensures
        k == time_key(*t),
{
    t.secs as i128 * 4_294_967_296i128 + t.nanos as i128
}

/// The pattern of a date and time without zone: `2024-01-15 10:30:45`.
pub open spec fn plain_format() -> Seq<char> {
    "%Y-%m-%d %H:%M:%S"@
}

/// The instant that a Coinbase export writes as `text`: an RFC 3339 date and
/// time, or else, with every trailing ` UTC` taken off, a plain date and time
/// meant as UTC.
pub open spec fn coinbase_instant(text: Seq<char>) -> Option<Timestamp> {
    if rfc3339_instant(text) is Some {
        rfc3339_instant(text)
    } else {
        naive_datetime_instant(without_suffix(text, " UTC"@), plain_format())
    }
}

/// The instant that a River export writes as `text`: a plain date and time
/// meant as UTC.
pub open spec fn river_instant(text: Seq<char>) -> Option<Timestamp> {
    naive_datetime_instant(text, plain_format())
}

/// Reads the time of a Coinbase row.
pub fn parse_coinbase_timestamp(timestamp_str: &str) -> (r: Result<Timestamp, ParseError>)
    ensures
        match r {
            Ok(t) => coinbase_instant(timestamp_str@) == Some(t),
            Err(e) => coinbase_instant(timestamp_str@) is None && e@ == (ParseErrorView {
                field: ParseField::CoinbaseTimestamp,
                value: timestamp_str@,
            }),
        },
{
    if let Some(t) = chrono_parse_rfc3339(timestamp_str) {
        return Ok(t);
    }
    let chars = chars_of(timestamp_str);
    let suffix = chars_of(" UTC");
    let bare = strip_suffix_repeated(&chars, &suffix);
    let bare_text = string_from_chars(&bare);
    match chrono_parse_naive(bare_text.as_str(), "%Y-%m-%d %H:%M:%S") {
        Some(t) => Ok(t),
        None => Err(ParseError::new(ParseField::CoinbaseTimestamp, timestamp_str)),
    }
}

/// Reads the date of a River row.
pub fn parse_river_timestamp(date_str: &str) -> (r: Result<Timestamp, ParseError>)
    ensures
        match r {
            Ok(t) => river_instant(date_str@) == Some(t),
            Err(e) => river_instant(date_str@) is None && e@ == (ParseErrorView {
                field: ParseField::RiverTimestamp,
                value: date_str@,
            }),
        },
{
    match chrono_parse_naive(date_str, "%Y-%m-%d %H:%M:%S") {
        Some(t) => Ok(t),
        None => Err(ParseError::new(ParseField::RiverTimestamp, date_str)),
    }
}

} // verus!
