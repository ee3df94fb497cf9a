//! Purchases of the past of which only the sum is known: a total over a
//! span of time is spread evenly over the days, weeks or months of the span.
use crate::models::{CreateBitcoinTransactionRequest, RequestView, TransactionType};
use crate::text::{
    append_str, decimal_text, push_decimal, same_text, string_from_chars,
};
use crate::time::{chrono_parse_rfc3339, nanos_between, rfc3339_instant, Timestamp};
use vstd::prelude::*;

verus! {

/// Why a total cannot be spread.
#[derive(Clone, Copy, Debug, PartialEq, Eq, Structural)]
pub enum LumpsumError {
    /// The start of the span is no RFC 3339 date and time.
    InvalidStartDate,
    /// The end of the span is no RFC 3339 date and time.
    InvalidEndDate,
    /// The span does not start before it ends.
    StartNotBeforeEnd,
    /// The frequency is none of `daily`, `weekly` and `monthly`.
    InvalidFrequency,
}

/// The message of an error.
pub open spec fn lumpsum_error_message(e: LumpsumError) -> Seq<char> {
    match e {
        LumpsumError::InvalidStartDate => "Invalid start date"@,
        LumpsumError::InvalidEndDate => "Invalid end date"@,
        LumpsumError::StartNotBeforeEnd => "Start date must be before end date"@,
        LumpsumError::InvalidFrequency => "Invalid frequency. Use 'daily', 'weekly', or 'monthly'"@,
    }
}

impl LumpsumError {
    /// The message for the user.
    pub fn message(&self) -> (m: String)
        ensures
            m@ == lumpsum_error_message(*self),
    {
        match self {
            LumpsumError::InvalidStartDate => String::from_str("Invalid start date"),
            LumpsumError::InvalidEndDate => String::from_str("Invalid end date"),
            LumpsumError::StartNotBeforeEnd => String::from_str(
                "Start date must be before end date",
            ),
            LumpsumError::InvalidFrequency => String::from_str(
                "Invalid frequency. Use 'daily', 'weekly', or 'monthly'",
            ),
        }
    }
}

/// The days from one purchase to the next for a frequency: a month counts 30
/// days.
pub open spec fn interval_days(frequency: Seq<char>) -> Option<int> {
    if frequency == "daily"@ {
        Some(1)
    } else if frequency == "weekly"@ {
        Some(7)
    } else if frequency == "monthly"@ {
        Some(30)
    } else {
        None
    }
}

/// The days from one purchase to the next for a frequency.
pub fn days_of_frequency(frequency: &str) -> (r: Option<i64>)
    ensures
        match r {
            Some(days) => interval_days(frequency@) == Some(days as int),
            None => interval_days(frequency@) is None,
        },
{
    if same_text(frequency, "daily") {
        Some(1)
    } else if same_text(frequency, "weekly") {
        Some(7)
    } else if same_text(frequency, "monthly") {
        Some(30)
    } else {
        None
    }
}

/// The whole days from `start` to `end`, `start` being the earlier one.
pub open spec fn whole_days_between(start: Timestamp, end: Timestamp) -> int {
    nanos_between(start, end) / 86_400_000_000_000
}

/// Into how many purchases a total is spread: one for each whole interval
/// within the span, and one at least.
pub open spec fn purchase_count(start: Timestamp, end: Timestamp, days: int) -> int {
    let intervals = whole_days_between(start, end) / days;
    if intervals < 1 {
        1
    } else {
        intervals
    }
}

/// `a` divided by `b`, cut towards zero.
pub open spec fn quotient(a: int, b: int) -> int {
    if a >= 0 {
        a / b
    } else {
        -((-a) / b)
    }
}

/// What is left of `a` when it is divided by `b`, with the sign of `a`.
pub open spec fn remainder(a: int, b: int) -> int {
    if a >= 0 {
        a % b
    } else {
        -((-a) % b)
    }
}

/// The part of `total` that falls to purchase `i` of `count`: every
/// purchase has the same part, and the last one what is left besides.
pub open spec fn part_of(total: int, count: int, i: int) -> int {
    if i == count - 1 {
        quotient(total, count) + remainder(total, count)
    } else {
        quotient(total, count)
    }
}

/// The parts of the first `upto` purchases, added up.
pub open spec fn parts_sum(total: int, count: int, upto: int) -> int
    decreases upto,
{
    if upto <= 0 {
        0
    } else {
        parts_sum(total, count, upto - 1) + part_of(total, count, upto - 1)
    }
}

/// Nothing is lost and nothing is made: the parts of all purchases add up to
/// the total.
pub proof fn lemma_parts_add_up(total: int, count: int)
    requires
        count >= 1,
    ensures
        parts_sum(total, count, count) == total,
{
    lemma_equal_parts(total, count, count - 1);
    let q = quotient(total, count);
    let r = remainder(total, count);
    assert(parts_sum(total, count, count) == (count - 1) * q + (q + r));
    assert((count - 1) * q + q == count * q) by (nonlinear_arith);
    if total >= 0 {
        vstd::arithmetic::div_mod::lemma_fundamental_div_mod(total, count);
    } else {
        vstd::arithmetic::div_mod::lemma_fundamental_div_mod(-total, count);
        assert(count * (-((-total) / count)) == -(count * ((-total) / count)))
            by (nonlinear_arith);
    }
}

proof fn lemma_equal_parts(total: int, count: int, upto: int)
    requires
        0 <= upto < count,
    ensures
        parts_sum(total, count, upto) == upto * quotient(total, count),
    decreases upto,
{
    let q = quotient(total, count);
    if upto > 0 {
        lemma_equal_parts(total, count, upto - 1);
        assert(part_of(total, count, upto - 1) == q);
        assert((upto - 1) * q + q == upto * q) by (nonlinear_arith);
    } else {
        assert(upto * q == 0) by (nonlinear_arith)
            requires
                upto == 0,
        ;
    }
}

/// The request for purchase `i` of `count`: its part of the satoshis and of
/// the cents, no fee, and its time `i` intervals behind the start.
pub open spec fn lumpsum_request(
    start: Timestamp,
    days: int,
    count: int,
    total_sats: int,
    total_usd_cents: int,
    memo: Seq<char>,
    i: int,
) -> RequestView {
    RequestView {
        kind: TransactionType::Buy,
        amount_sats: part_of(total_sats, count, i) as i64,
        subtotal_cents: Some(part_of(total_usd_cents, count, i) as i64),
        fee_cents: Some(0i64),
        memo: Some(memo),
        timestamp: Timestamp { secs: (start.secs + i * days * 86_400) as i64, nanos: start.nanos },
        provider_id: None,
    }
}

/// The requests into which a total is spread, or why it cannot be spread.
/// The dates are read first, then the span is looked at, then the
/// frequency.
pub open spec fn lumpsum_plan(
    start_date: Seq<char>,
    end_date: Seq<char>,
    total_sats: int,
    total_usd_cents: int,
    frequency: Seq<char>,
    memo: Seq<char>,
) -> Result<Seq<RequestView>, LumpsumError> {
    match rfc3339_instant(start_date) {
        None => Err(LumpsumError::InvalidStartDate),
        Some(start) => match rfc3339_instant(end_date) {
            None => Err(LumpsumError::InvalidEndDate),
            Some(end) => if nanos_between(start, end) <= 0 {
                Err(LumpsumError::StartNotBeforeEnd)
            } else {
                match interval_days(frequency) {
                    None => Err(LumpsumError::InvalidFrequency),
                    Some(days) => Ok(
                        spread(start, end, days, total_sats, total_usd_cents, memo),
                    ),
                }
            },
        },
    }
}

/// The requests into which a total is spread over the span from `start` to
/// `end`, a purchase every `days` days.
pub open spec fn spread(
    start: Timestamp,
    end: Timestamp,
    days: int,
    total_sats: int,
    total_usd_cents: int,
    memo: Seq<char>,
) -> Seq<RequestView> {
    let count = purchase_count(start, end, days);
    Seq::new(
        count as nat,
        |i: int| lumpsum_request(start, days, count, total_sats, total_usd_cents, memo, i),
    )
}

/// What the requests of a sequence hold.
pub open spec fn request_views(items: Seq<CreateBitcoinTransactionRequest>) -> Seq<RequestView> {
    items.map_values(|r: CreateBitcoinTransactionRequest| r@)
}

/// The part of `total` that falls to one purchase and what is left for the
/// last.
fn split_total(total: i64, count: i64) -> (r: (i64, i64))
    requires
        count >= 1,
    ensures
        r.0 == quotient(total as int, count as int),
        r.1 == remainder(total as int, count as int),
        i64::MIN <= r.0 + r.1 <= i64::MAX,
{
    let q = match total.checked_div(count) {
        Some(q) => q,
        None => 0,
    };
    let r = match total.checked_rem(count) {
        Some(r) => r,
        None => 0,
    };
    proof {
        let t = total as int;
        let c = count as int;
        if t >= 0 {
            vstd::arithmetic::div_mod::lemma_fundamental_div_mod(t, c);
            vstd::arithmetic::div_mod::lemma_mod_bound(t, c);
            vstd::arithmetic::div_mod::lemma_div_pos_is_pos(t, c);
            assert(c * (t / c) >= t / c) by (nonlinear_arith)
                requires
                    c >= 1,
                    t / c >= 0,
            ;
        } else {
            vstd::arithmetic::div_mod::lemma_fundamental_div_mod(-t, c);
            vstd::arithmetic::div_mod::lemma_mod_bound(-t, c);
            vstd::arithmetic::div_mod::lemma_div_pos_is_pos(-t, c);
            assert(c * ((-t) / c) >= (-t) / c) by (nonlinear_arith)
                requires
                    c >= 1,
                    (-t) / c >= 0,
            ;
        }
    }
    (q, r)
}

/// Spreads a total over the span from `start` to `end`, a purchase every
/// `days` days.
pub fn spread_total(
    start: Timestamp,
    end: Timestamp,
    days: i64,
    total_sats: i64,
    total_usd_cents: i64,
    memo: &str,
) -> (requests: Vec<CreateBitcoinTransactionRequest>)
    requires
        nanos_between(start, end) > 0,
        1 <= days <= 30,
    ensures
        request_views(requests@) == spread(
            start,
            end,
            days as int,
            total_sats as int,
            total_usd_cents as int,
            memo@,
        ),
{
    let span: i128 = end.nanos_since_epoch() - start.nanos_since_epoch();
    let total_days: i128 = span / 86_400_000_000_000i128;
    let intervals: i128 = total_days / (days as i128);
    let count: i64 = if intervals < 1 {
        1
    } else {
        intervals as i64
    };
    let sats = split_total(total_sats, count);
    let cents = split_total(total_usd_cents, count);
    let step: i128 = (days as i128) * 86_400;
    proof {
        let t = nanos_between(start, end);
        assert(t == span);
        vstd::arithmetic::div_mod::lemma_fundamental_div_mod(t, 86_400_000_000_000);
        vstd::arithmetic::div_mod::lemma_mod_bound(t, 86_400_000_000_000);
        vstd::arithmetic::div_mod::lemma_fundamental_div_mod(total_days as int, days as int);
        vstd::arithmetic::div_mod::lemma_mod_bound(total_days as int, days as int);
        assert(intervals * days <= total_days) by (nonlinear_arith)
            requires
                total_days == days * intervals + (total_days as int % days as int),
                0 <= (total_days as int % days as int),
        ;
    }
    let mut requests: Vec<CreateBitcoinTransactionRequest> = Vec::new();
    let mut i: i64 = 0;
    while i < count
        invariant
            0 <= i <= count,
            1 <= days <= 30,
            step == days * 86_400,
            count == purchase_count(start, end, days as int),
            count > 1 ==> count * days <= total_days,
            total_days * 86_400_000_000_000 <= nanos_between(start, end),
            sats.0 == quotient(total_sats as int, count as int),
            sats.1 == remainder(total_sats as int, count as int),
            i64::MIN <= sats.0 + sats.1 <= i64::MAX,
            cents.0 == quotient(total_usd_cents as int, count as int),
            cents.1 == remainder(total_usd_cents as int, count as int),
            i64::MIN <= cents.0 + cents.1 <= i64::MAX,
            requests@.len() == i,
            forall|k: int|
                0 <= k < i ==> (#[trigger] requests@[k])@ == lumpsum_request(
                    start,
                    days as int,
                    count as int,
                    total_sats as int,
                    total_usd_cents as int,
                    memo@,
                    k,
                ),
        decreases count - i,
    {
        let last = i == count - 1;
        let amount_sats = if last {
            sats.0 + sats.1
        } else {
            sats.0
        };
        let subtotal_cents = if last {
            cents.0 + cents.1
        } else {
            cents.0
        };
        proof {
            if i >= 1 {
                assert(i * days <= total_days - days) by (nonlinear_arith)
                    requires
                        i <= count - 1,
                        count * days <= total_days,
                        days >= 1,
                ;
                assert(i * days * 86_400 * 1_000_000_000 <= nanos_between(start, end)
                    - 86_400_000_000_000) by (nonlinear_arith)
                    requires
                        i * days <= total_days - days,
                        days >= 1,
                        total_days * 86_400_000_000_000 <= nanos_between(start, end),
                ;
            } else {
                assert(i * days * 86_400 == 0) by (nonlinear_arith)
                    requires
                        i == 0,
                ;
            }
            assert(i * step == i * days * 86_400) by (nonlinear_arith)
                requires
                    step == days * 86_400,
            ;
            assert(0 <= i * days * 86_400) by (nonlinear_arith)
                requires
                    i >= 0,
                    days >= 1,
            ;
        }
        let secs: i128 = start.secs as i128 + (i as i128) * step;
        let request = CreateBitcoinTransactionRequest {
            kind: TransactionType::Buy,
            amount_sats,
            subtotal_cents: Some(subtotal_cents),
            fee_cents: Some(0),
            memo: Some(String::from_str(memo)),
            timestamp: Timestamp { secs: secs as i64, nanos: start.nanos },
            provider_id: None,
        };
        requests.push(request);
        i += 1;
    }
    assert(request_views(requests@) =~= spread(
        start,
        end,
        days as int,
        total_sats as int,
        total_usd_cents as int,
        memo@,
    ));
    requests
}

/// Spreads `total_sats` satoshis bought for `total_usd_cents` cents over the
/// span from `start_date` to `end_date`, both RFC 3339 dates and times, a
/// purchase every day, week or month as `frequency` says, each with the memo
/// `memo`.
pub fn plan_lumpsum(
    start_date: &str,
    end_date: &str,
    total_sats: i64,
    total_usd_cents: i64,
    frequency: &str,
    memo: &str,
) -> (r: Result<Vec<CreateBitcoinTransactionRequest>, LumpsumError>)
    ensures
        match r {
            Ok(requests) => lumpsum_plan(
                start_date@,
                end_date@,
                total_sats as int,
                total_usd_cents as int,
                frequency@,
                memo@,
            ) == Ok::<Seq<RequestView>, LumpsumError>(request_views(requests@)),
            Err(e) => lumpsum_plan(
                start_date@,
                end_date@,
                total_sats as int,
                total_usd_cents as int,
                frequency@,
                memo@,
            ) == Err::<Seq<RequestView>, LumpsumError>(e),
        },
{
    let start = match chrono_parse_rfc3339(start_date) {
        Some(t) => t,
        None => { return Err(LumpsumError::InvalidStartDate); },
    };
    let end = match chrono_parse_rfc3339(end_date) {
        Some(t) => t,
        None => { return Err(LumpsumError::InvalidEndDate); },
    };
    if end.nanos_since_epoch() - start.nanos_since_epoch() <= 0 {
        return Err(LumpsumError::StartNotBeforeEnd);
    }
    let days = match days_of_frequency(frequency) {
        Some(d) => d,
        None => { return Err(LumpsumError::InvalidFrequency); },
    };
    Ok(spread_total(start, end, days, total_sats, total_usd_cents, memo))
}

/// The memo of purchases that were given none: `DCA` and a number.
pub open spec fn default_memo(id: u16) -> Seq<char> {
    "DCA "@ + decimal_text(id as nat)
}

/// The memo of purchases that were given none.
pub fn default_lumpsum_memo(id: u16) -> (memo: String)
    ensures
        memo@ == default_memo(id),
{
    let mut out: Vec<char> = Vec::new();
    append_str(&mut out, "DCA ");
    push_decimal(&mut out, id as u64);
    string_from_chars(&out)
}

} // verus!
