//! Streaks of weeks with a purchase.
//!
//! Weeks are ISO weeks. How far two weeks lie apart is reckoned with 52
//! weeks to every year; that a year may have 53 is left aside, so the last
//! week of such a year and the first of the next count as the same distance
//! from whatever came before.
use crate::time::{iso_week_at, IsoWeek, Timestamp};
use vstd::prelude::*;

verus! {

/// `a` comes before `b`: by year, then by number.
pub open spec fn week_before(a: IsoWeek, b: IsoWeek) -> bool {
    a.year < b.year || (a.year == b.year && a.week < b.week)
}

/// How many weeks `later` lies behind `earlier`, with 52 weeks to the year.
pub open spec fn week_gap(later: IsoWeek, earlier: IsoWeek) -> int {
    (later.year - earlier.year) * 52 + (later.week - earlier.week)
}

/// How many weeks `week1` lies behind `week2`, with 52 weeks to the year.
pub fn week_difference(week1: &IsoWeek, week2: &IsoWeek) -> (gap: i64)
    ensures
        gap == week_gap(*week1, *week2),
{
    let year_diff: i64 = week1.year as i64 - week2.year as i64;
    let week_diff: i64 = week1.week as i64 - week2.week as i64;
    year_diff * 52 + week_diff
}

/// Whether `a` comes before `b`.
pub fn is_week_before(a: &IsoWeek, b: &IsoWeek) -> (r: bool)
    ensures
        r == week_before(*a, *b),
{
    a.year < b.year || (a.year == b.year && a.week < b.week)
}

/// An ascending row of weeks with `w` put in its place, unless it is there
/// already.
pub open spec fn with_week(sorted: Seq<IsoWeek>, w: IsoWeek) -> Seq<IsoWeek>
    decreases sorted.len(),
{
    if sorted.len() == 0 {
        seq![w]
    } else if sorted.last() == w {
        sorted
    } else if week_before(sorted.last(), w) {
        sorted.push(w)
    } else {
        with_week(sorted.drop_last(), w).push(sorted.last())
    }
}

/// The weeks of `weeks`, each once, from the earliest to the latest.
pub open spec fn unique_weeks(weeks: Seq<IsoWeek>) -> Seq<IsoWeek>
    decreases weeks.len(),
{
    if weeks.len() == 0 {
        Seq::empty()
    } else {
        with_week(unique_weeks(weeks.drop_last()), weeks.last())
    }
}

/// Each week of the row comes before the next.
pub open spec fn ascending(weeks: Seq<IsoWeek>) -> bool {
    forall|i: int, j: int| 0 <= i < j < weeks.len() ==> week_before(weeks[i], weeks[j])
}

/// Putting a week into an ascending row leaves it ascending, with the same
/// weeks and the new one.
pub proof fn lemma_with_week(sorted: Seq<IsoWeek>, w: IsoWeek)
    requires
        ascending(sorted),
    ensures
        ascending(with_week(sorted, w)),
        with_week(sorted, w).contains(w),
        forall|x: IsoWeek| sorted.contains(x) ==> with_week(sorted, w).contains(x),
        forall|x: IsoWeek| with_week(sorted, w).contains(x) ==> x == w || sorted.contains(x),
        with_week(sorted, w).len() <= sorted.len() + 1,
    decreases sorted.len(),
{
    let next = with_week(sorted, w);
    if sorted.len() == 0 {
        assert(next[0] == w);
    } else if sorted.last() == w {
        assert(sorted[sorted.len() - 1] == w);
    } else if week_before(sorted.last(), w) {
        assert(next[sorted.len() as int] == w);
        assert forall|x: IsoWeek| sorted.contains(x) implies next.contains(x) by {
            let i = choose|i: int| 0 <= i < sorted.len() && sorted[i] == x;
            assert(next[i] == x);
        }
        assert forall|i: int, j: int| 0 <= i < j < next.len() implies week_before(
            next[i],
            next[j],
        ) by {
            if j == sorted.len() {
                if i < sorted.len() - 1 {
                    assert(week_before(sorted[i], sorted[sorted.len() - 1]));
                }
            }
        }
    } else {
        let front = sorted.drop_last();
        let last = sorted.last();
        assert forall|i: int, j: int| 0 <= i < j < front.len() implies week_before(
            front[i],
            front[j],
        ) by {
            assert(front[i] == sorted[i] && front[j] == sorted[j]);
        }
        lemma_with_week(front, w);
        let inner = with_week(front, w);
        assert(next == inner.push(last));
        assert forall|x: IsoWeek| inner.contains(x) implies week_before(x, last) by {
            if x == w {
            } else {
                assert(x == w || front.contains(x));
                assert(front.contains(x));
                let i = choose|i: int| 0 <= i < front.len() && front[i] == x;
                assert(week_before(sorted[i], sorted[sorted.len() - 1]));
            }
        }
        assert forall|i: int, j: int| 0 <= i < j < next.len() implies week_before(
            next[i],
            next[j],
        ) by {
            if j == inner.len() {
                assert(inner.contains(inner[i]));
            } else {
                assert(next[i] == inner[i] && next[j] == inner[j]);
            }
        }
        let k = choose|k: int| 0 <= k < inner.len() && inner[k] == w;
        assert(next[k] == w);
        assert forall|x: IsoWeek| sorted.contains(x) implies next.contains(x) by {
            let i = choose|i: int| 0 <= i < sorted.len() && sorted[i] == x;
            if i < front.len() {
                assert(front[i] == x);
                assert(front.contains(x));
                assert(inner.contains(x));
                let m = choose|m: int| 0 <= m < inner.len() && inner[m] == x;
                assert(next[m] == x);
            } else {
                assert(next[inner.len() as int] == x);
            }
        }
        assert forall|x: IsoWeek| next.contains(x) implies x == w || sorted.contains(x) by {
            let i = choose|i: int| 0 <= i < next.len() && next[i] == x;
            if i < inner.len() {
                assert(inner[i] == x);
                assert(inner.contains(x));
                if x != w {
                    assert(front.contains(x));
                    let m = choose|m: int| 0 <= m < front.len() && front[m] == x;
                    assert(sorted[m] == x);
                }
            } else {
                assert(sorted[sorted.len() - 1] == x);
            }
        }
    }
}

/// The unique weeks are the weeks given, each once, from the earliest to the
/// latest.
pub proof fn lemma_unique_weeks(weeks: Seq<IsoWeek>)
    ensures
        ascending(unique_weeks(weeks)),
        forall|x: IsoWeek| weeks.contains(x) <==> unique_weeks(weeks).contains(x),
        unique_weeks(weeks).len() <= weeks.len(),
    decreases weeks.len(),
{
    if weeks.len() > 0 {
        let front = weeks.drop_last();
        lemma_unique_weeks(front);
        lemma_with_week(unique_weeks(front), weeks.last());
        let next = unique_weeks(weeks);
        assert forall|x: IsoWeek| weeks.contains(x) implies next.contains(x) by {
            let i = choose|i: int| 0 <= i < weeks.len() && weeks[i] == x;
            if i < front.len() {
                assert(front[i] == x);
                assert(front.contains(x));
            }
        }
        assert forall|x: IsoWeek| next.contains(x) implies weeks.contains(x) by {
            if x == weeks.last() {
                assert(weeks[weeks.len() - 1] == x);
            } else {
                assert(front.contains(x));
                let i = choose|i: int| 0 <= i < front.len() && front[i] == x;
                assert(weeks[i] == x);
            }
        }
    }
}

/// Putting the rest back behind gives the same as putting the week into the
/// whole, as long as the week comes before all of the rest.
proof fn lemma_week_behind(sorted: Seq<IsoWeek>, w: IsoWeek, j: int)
    requires
        0 <= j <= sorted.len(),
        forall|k: int| j <= k < sorted.len() ==> week_before(w, #[trigger] sorted[k]),
    ensures
        with_week(sorted, w) == with_week(sorted.take(j), w) + sorted.skip(j),
    decreases sorted.len() - j,
{
    if j == sorted.len() {
        assert(sorted.take(j) =~= sorted);
        assert(with_week(sorted, w) + sorted.skip(j) =~= with_week(sorted, w));
    } else {
        let front = sorted.drop_last();
        assert(week_before(w, sorted[sorted.len() - 1]));
        assert forall|k: int| j <= k < front.len() implies week_before(w, #[trigger] front[k]) by {
            assert(front[k] == sorted[k]);
        }
        lemma_week_behind(front, w, j);
        assert(front.take(j) =~= sorted.take(j));
        assert(front.skip(j).push(sorted.last()) =~= sorted.skip(j));
        assert(with_week(sorted, w) =~= with_week(sorted.take(j), w) + sorted.skip(j));
    }
}

/// Finds the weeks of `weeks`, each once, from the earliest to the latest.
pub fn collect_unique_weeks(weeks: &Vec<IsoWeek>) -> (unique: Vec<IsoWeek>)
    ensures
        unique@ == unique_weeks(weeks@),
        unique@.len() <= weeks@.len(),
{
    let mut unique: Vec<IsoWeek> = Vec::new();
    let mut n: usize = 0;
    assert(weeks@.take(0) =~= Seq::<IsoWeek>::empty());
    while n < weeks.len()
        invariant
            n <= weeks.len(),
            unique@ == unique_weeks(weeks@.take(n as int)),
        decreases weeks.len() - n,
    {
        let w = weeks[n];
        let mut j: usize = unique.len();
        while j > 0 && is_week_before(&w, &unique[j - 1])
            invariant
                j <= unique.len(),
                forall|k: int| j <= k < unique.len() ==> week_before(w, #[trigger] unique@[k]),
            decreases j,
        {
            j -= 1;
        }
        proof {
            lemma_week_behind(unique@, w, j as int);
            assert(weeks@.take(n + 1).drop_last() =~= weeks@.take(n as int));
            assert(weeks@.take(n + 1).last() == w);
            let front = unique@.take(j as int);
            if j > 0 {
                assert(front.last() == unique@[j - 1]);
            }
        }
        if j > 0 && unique[j - 1].year == w.year && unique[j - 1].week == w.week {
            proof {
                let front = unique@.take(j as int);
                assert(with_week(front, w) == front);
                assert(front + unique@.skip(j as int) =~= unique@);
            }
        } else {
            proof {
                let front = unique@.take(j as int);
                assert(with_week(front, w) == front.push(w));
                assert(front.push(w) + unique@.skip(j as int) =~= unique@.insert(j as int, w));
            }
            unique.insert(j, w);
        }
        n += 1;
    }
    assert(weeks@.take(weeks.len() as int) =~= weeks@);
    proof {
        lemma_unique_weeks(weeks@);
    }
    unique
}

/// The length of the run of weeks that ends at position `at`: the weeks
/// back from there, each no more than one week behind the one before it.
pub open spec fn run_length(weeks: Seq<IsoWeek>, at: int) -> int
    decreases at,
{
    if at <= 0 {
        1
    } else if week_gap(weeks[at], weeks[at - 1]) <= 1 {
        run_length(weeks, at - 1) + 1
    } else {
        1
    }
}

/// The length of the longest run among the first `upto` weeks; 0 where
/// there is none.
pub open spec fn longest_run(weeks: Seq<IsoWeek>, upto: int) -> int
    decreases upto,
{
    if upto <= 0 {
        0
    } else if run_length(weeks, upto - 1) > longest_run(weeks, upto - 1) {
        run_length(weeks, upto - 1)
    } else {
        longest_run(weeks, upto - 1)
    }
}

/// The streak that is running in the week `current`, the weeks with a
/// purchase being `unique`: the run that ends with the latest of them, if
/// that week is the current one or the one before it; else 0.
pub open spec fn current_streak(unique: Seq<IsoWeek>, current: IsoWeek) -> int {
    if unique.len() > 0 && week_gap(current, unique.last()) <= 1 {
        run_length(unique, unique.len() - 1)
    } else {
        0
    }
}

/// The longest streak that the weeks with a purchase hold.
pub open spec fn longest_streak(unique: Seq<IsoWeek>) -> int {
    longest_run(unique, unique.len() as int)
}

/// A count as far as an `i32` holds it.
pub open spec fn clamp_i32(v: int) -> i32 {
    if v > i32::MAX {
        i32::MAX
    } else if v < i32::MIN {
        i32::MIN
    } else {
        v as i32
    }
}

/// A run is at least one week long and no longer than the weeks up to its
/// end.
pub proof fn lemma_run_length_bounds(weeks: Seq<IsoWeek>, at: int)
    requires
        0 <= at,
    ensures
        1 <= run_length(weeks, at) <= at + 1,
    decreases at,
{
    if at > 0 {
        lemma_run_length_bounds(weeks, at - 1);
    }
}

/// Weeks that follow one another without a gap make one run: where each of
/// the weeks up to `at` lies no more than one week behind the one before
/// it, the run that ends at `at` holds them all, and no run is longer.
pub proof fn lemma_unbroken_run(weeks: Seq<IsoWeek>, at: int)
    requires
        0 <= at < weeks.len(),
        forall|i: int| 0 < i <= at ==> week_gap(#[trigger] weeks[i], weeks[i - 1]) <= 1,
    ensures
        run_length(weeks, at) == at + 1,
        longest_run(weeks, at + 1) == at + 1,
    decreases at,
{
    if at > 0 {
        lemma_unbroken_run(weeks, at - 1);
    } else {
        assert(longest_run(weeks, 0) == 0);
        assert(run_length(weeks, 0) == 1);
    }
}

/// Streak law: if every week with a purchase lies no more than one week
/// behind the one before it, the longest streak counts them all; and if the
/// latest of them lies more than one week before the current week, no streak
/// is running, whatever the longest streak is.
pub proof fn lemma_streaks(unique: Seq<IsoWeek>, current: IsoWeek)
    requires
        unique.len() > 0,
    ensures
        (forall|i: int| 0 < i < unique.len() ==> week_gap(#[trigger] unique[i], unique[i - 1]) <= 1)
            ==> longest_streak(unique) == unique.len(),
        week_gap(current, unique.last()) > 1 ==> current_streak(unique, current) == 0,
        week_gap(current, unique.last()) <= 1 ==> 1 <= current_streak(unique, current)
            <= longest_streak(unique),
{
    if forall|i: int| 0 < i < unique.len() ==> week_gap(#[trigger] unique[i], unique[i - 1]) <= 1 {
        lemma_unbroken_run(unique, unique.len() - 1);
    }
    lemma_run_length_bounds(unique, unique.len() - 1);
}

/// The streaks that weeks with a purchase hold, the weeks standing each once
/// from the earliest to the latest: the one that is running in the week
/// `current`, and the longest.
pub fn streaks_of_unique_weeks(unique: &Vec<IsoWeek>, current: IsoWeek) -> (r: (i32, i32))
    ensures
        r.0 == clamp_i32(current_streak(unique@, current)),
        r.1 == clamp_i32(longest_streak(unique@)),
{
    if unique.len() == 0 {
        return (0, 0);
    }
    let mut run: usize = 1;
    let mut longest: usize = 1;
    let mut i: usize = 1;
    proof {
        assert(longest_run(unique@, 0) == 0);
        assert(run_length(unique@, 0) == 1);
    }
    while i < unique.len()
        invariant
            1 <= i <= unique.len(),
            run == run_length(unique@, i - 1),
            longest == longest_run(unique@, i as int),
            1 <= run <= i,
            1 <= longest <= i,
        decreases unique.len() - i,
    {
        if week_difference(&unique[i], &unique[i - 1]) <= 1 {
            run += 1;
        } else {
            run = 1;
        }
        if run > longest {
            longest = run;
        }
        i += 1;
    }
    let last = unique.len() - 1;
    let running: usize = if week_difference(&current, &unique[last]) <= 1 {
        run
    } else {
        0
    };
    (clamp_count(running), clamp_count(longest))
}

/// A count as far as an `i32` holds it.
pub fn clamp_count(n: usize) -> (r: i32)
    ensures
        r == clamp_i32(n as int),
{
    if n > 2147483647 {
        i32::MAX
    } else {
        n as i32
    }
}

/// The streaks that purchases in the weeks `weeks` hold, in whatever order
/// and however often the weeks are given: the one that is running in the
/// week `current`, and the longest.
pub fn streaks_of_weeks(weeks: &Vec<IsoWeek>, current: IsoWeek) -> (r: (i32, i32))
    ensures
        r.0 == clamp_i32(current_streak(unique_weeks(weeks@), current)),
        r.1 == clamp_i32(longest_streak(unique_weeks(weeks@))),
{
    let unique = collect_unique_weeks(weeks);
    streaks_of_unique_weeks(&unique, current)
}

/// The ISO weeks of instants, if the calendar reaches all of them.
pub open spec fn weeks_of(dates: Seq<Timestamp>) -> Option<Seq<IsoWeek>>
    decreases dates.len(),
{
    if dates.len() == 0 {
        Some(Seq::empty())
    } else {
        match (weeks_of(dates.drop_last()), iso_week_at(dates.last().secs as int)) {
            (Some(front), Some(w)) => Some(front.push(w)),
            _ => None,
        }
    }
}

/// A week out of reach among the first instants puts all out of reach.
pub proof fn lemma_weeks_of_none(dates: Seq<Timestamp>, n: int)
    requires
        0 <= n <= dates.len(),
    ensures
        weeks_of(dates.take(n)) is None ==> weeks_of(dates) is None,
    decreases dates.len() - n,
{
    if n == dates.len() {
        assert(dates.take(n) =~= dates);
    } else {
        assert(dates.take(n + 1).drop_last() =~= dates.take(n));
        lemma_weeks_of_none(dates, n + 1);
    }
}

/// Finds the ISO weeks of instants.
pub fn weeks_of_dates(dates: &Vec<Timestamp>) -> (r: Option<Vec<IsoWeek>>)
    ensures
        match r {
            Some(weeks) => weeks_of(dates@) == Some(weeks@),
            None => weeks_of(dates@) is None,
        },
{
    let mut weeks: Vec<IsoWeek> = Vec::new();
    let mut i: usize = 0;
    assert(dates@.take(0) =~= Seq::<Timestamp>::empty());
    while i < dates.len()
        invariant
            i <= dates.len(),
            weeks_of(dates@.take(i as int)) == Some(weeks@),
        decreases dates.len() - i,
    {
        proof {
            assert(dates@.take(i + 1).drop_last() =~= dates@.take(i as int));
            assert(dates@.take(i + 1).last() == dates@[i as int]);
            lemma_weeks_of_none(dates@, i + 1);
        }
        match dates[i].iso_week() {
            Some(w) => {
                weeks.push(w);
            },
            None => {
                return None;
            },
        }
        i += 1;
    }
    assert(dates@.take(dates.len() as int) =~= dates@);
    Some(weeks)
}

/// The streaks of purchases at the instants `dates`, seen at `now`, if the
/// calendar reaches all of these instants; `(0, 0)` where there is no
/// purchase.
pub open spec fn weekly_streaks(dates: Seq<Timestamp>, now: Timestamp) -> Option<(i32, i32)> {
    if dates.len() == 0 {
        Some((0i32, 0i32))
    } else {
        match (weeks_of(dates), iso_week_at(now.secs as int)) {
            (Some(weeks), Some(current)) => Some(
                (
                    clamp_i32(current_streak(unique_weeks(weeks), current)),
                    clamp_i32(longest_streak(unique_weeks(weeks))),
                ),
            ),
            _ => None,
        }
    }
}

/// The streak of weeks with a purchase that is running at `now`, and the
/// longest such streak. `None` where the calendar does not reach one of the
/// instants.
pub fn calculate_weekly_streaks(transaction_dates: &Vec<Timestamp>, now: Timestamp) -> (r: Option<
    (i32, i32),
>)
    ensures
        r == weekly_streaks(transaction_dates@, now),
{
    if transaction_dates.len() == 0 {
        return Some((0, 0));
    }
    let weeks = match weeks_of_dates(transaction_dates) {
        Some(w) => w,
        None => { return None; },
    };
    let current = match now.iso_week() {
        Some(w) => w,
        None => { return None; },
    };
    Some(streaks_of_weeks(&weeks, current))
}

} // verus!
