//! The day of the week on which most purchases fall.
//!
//! Purchases are counted, not weighed: a purchase of one satoshi counts as
//! much as any other.
use crate::time::{weekday_of, Timestamp};
use vstd::prelude::*;

verus! {

/// How many of the instants fall on the day of the week `day`, 0 being
/// Monday.
pub open spec fn purchases_on(dates: Seq<Timestamp>, day: int) -> nat
    decreases dates.len(),
{
    if dates.len() == 0 {
        0
    } else if weekday_of(dates.last().secs as int) == day {
        purchases_on(dates.drop_last(), day) + 1
    } else {
        purchases_on(dates.drop_last(), day)
    }
}

/// The day with the most purchases among the first `days` days of the week;
/// of several such days, the first.
pub open spec fn best_among(dates: Seq<Timestamp>, days: int) -> int
    decreases days,
{
    if days <= 1 {
        0
    } else if purchases_on(dates, days - 1) > purchases_on(dates, best_among(dates, days - 1)) {
        days - 1
    } else {
        best_among(dates, days - 1)
    }
}

/// The day of the week with the most purchases; of several such days, the
/// first from Monday on.
pub open spec fn best_day(dates: Seq<Timestamp>) -> int {
    best_among(dates, 7)
}

/// The best day has the most purchases, and no day before it has as many.
pub proof fn lemma_best_among(dates: Seq<Timestamp>, days: int)
    requires
        1 <= days,
    ensures
        0 <= best_among(dates, days) < days,
        forall|d: int|
            0 <= d < days ==> #[trigger] purchases_on(dates, d) <= purchases_on(
                dates,
                best_among(dates, days),
            ),
        forall|d: int|
            0 <= d < best_among(dates, days) ==> #[trigger] purchases_on(dates, d) < purchases_on(
                dates,
                best_among(dates, days),
            ),
    decreases days,
{
    if days > 1 {
        lemma_best_among(dates, days - 1);
    }
}

/// The name of a day of the week, 0 being Monday.
pub open spec fn day_name(day: int) -> Seq<char> {
    if day == 0 {
        "Monday"@
    } else if day == 1 {
        "Tuesday"@
    } else if day == 2 {
        "Wednesday"@
    } else if day == 3 {
        "Thursday"@
    } else if day == 4 {
        "Friday"@
    } else if day == 5 {
        "Saturday"@
    } else if day == 6 {
        "Sunday"@
    } else {
        "Unknown"@
    }
}

/// The name of a day of the week, 0 being Monday.
pub fn name_of_day(day: usize) -> (name: String)
    ensures
        name@ == day_name(day as int),
{
    if day == 0 {
        String::from_str("Monday")
    } else if day == 1 {
        String::from_str("Tuesday")
    } else if day == 2 {
        String::from_str("Wednesday")
    } else if day == 3 {
        String::from_str("Thursday")
    } else if day == 4 {
        String::from_str("Friday")
    } else if day == 5 {
        String::from_str("Saturday")
    } else if day == 6 {
        String::from_str("Sunday")
    } else {
        String::from_str("Unknown")
    }
}

/// The day of the week on which most purchases fall, with the numbers that
/// give its share of all purchases.
#[derive(Debug)]
pub struct BestStackingDay {
    /// The name of the day; none where there is no purchase.
    pub name: Option<String>,
    /// How many purchases fall on that day.
    pub purchases_on_day: usize,
    /// How many purchases there are.
    pub purchases: usize,
}

/// Finds the day of the week on which most purchases fall. Its share of all
/// purchases, in percent, is `100 * purchases_on_day / purchases`.
pub fn calculate_best_stacking_day(transaction_dates: &Vec<Timestamp>) -> (best: BestStackingDay)
    ensures
        best.purchases == transaction_dates@.len(),
        transaction_dates@.len() == 0 ==> best.name is None && best.purchases_on_day == 0,
        transaction_dates@.len() > 0 ==> best.name is Some && best.name->0@ == day_name(
            best_day(transaction_dates@),
        ) && best.purchases_on_day == purchases_on(
            transaction_dates@,
            best_day(transaction_dates@),
        ),
        best.purchases_on_day <= best.purchases,
{
    let n = transaction_dates.len();
    if n == 0 {
        return BestStackingDay { name: None, purchases_on_day: 0, purchases: 0 };
    }
    let mut counts: Vec<usize> = Vec::new();
    let mut d: usize = 0;
    while d < 7
        invariant
            d <= 7,
            counts@.len() == d,
            forall|k: int| 0 <= k < d ==> #[trigger] counts@[k] == 0,
        decreases 7 - d,
    {
        counts.push(0);
        d += 1;
    }
    let mut i: usize = 0;
    assert(transaction_dates@.take(0) =~= Seq::<Timestamp>::empty());
    while i < n
        invariant
            i <= n,
            n == transaction_dates.len(),
            counts@.len() == 7,
            forall|k: int|
                0 <= k < 7 ==> #[trigger] counts@[k] == purchases_on(
                    transaction_dates@.take(i as int),
                    k,
                ),
            forall|k: int| 0 <= k < 7 ==> #[trigger] counts@[k] <= i,
        decreases n - i,
    {
        let day = transaction_dates[i].weekday() as usize;
        proof {
            assert(transaction_dates@.take(i + 1).drop_last() =~= transaction_dates@.take(
                i as int,
            ));
            assert(transaction_dates@.take(i + 1).last() == transaction_dates@[i as int]);
        }
        let before = counts[day];
        counts.set(day, before + 1);
        i += 1;
    }
    assert(transaction_dates@.take(n as int) =~= transaction_dates@);
    let mut best: usize = 0;
    let mut k: usize = 1;
    while k < 7
        invariant
            1 <= k <= 7,
            counts@.len() == 7,
            best == best_among(transaction_dates@, k as int),
            best < k,
            forall|j: int|
                0 <= j < 7 ==> #[trigger] counts@[j] == purchases_on(transaction_dates@, j),
        decreases 7 - k,
    {
        if counts[k] > counts[best] {
            best = k;
        }
        k += 1;
    }
    BestStackingDay { name: Some(name_of_day(best)), purchases_on_day: counts[best], purchases: n }
}

} // verus!
