//! The weighted share of recent weeks with a purchase.
//!
//! The weeks counted are the current week and those before it, from the week
//! of the first purchase on and at most 52. A week weighs the more the
//! nearer it is: `0.5 + 0.5 * e^(-0.05 * k)` for the week `k` weeks back.
//! The weights are held in parts per billion, so that sums and comparisons
//! are exact; the share itself is the ratio of two such sums.
use crate::metrics::streaks::{weeks_of, weeks_of_dates};
use crate::time::{iso_week_at, not_later, weeks_between, whole_weeks_between, IsoWeek, Timestamp};
use vstd::prelude::*;

verus! {

/// The most weeks that are counted.
pub const WINDOW_WEEKS: usize = 52;

/// The weight of the week `offset` weeks back, in parts per billion:
/// `0.5 + 0.5 * e^(-0.05 * offset)`, rounded to the nearest part. For the
/// current week and all later ones it is the whole unit, for the 51st week
/// back and all earlier ones what it is for the 51st.
pub open spec fn week_weight(offset: int) -> nat {
    if offset <= 0 {
        1_000_000_000
    } else if offset <= 1 {
        975_614_712
    } else if offset <= 2 {
        952_418_709
    } else if offset <= 3 {
        930_353_988
    } else if offset <= 4 {
        909_365_377
    } else if offset <= 5 {
        889_400_392
    } else if offset <= 6 {
        870_409_110
    } else if offset <= 7 {
        852_344_045
    } else if offset <= 8 {
        835_160_023
    } else if offset <= 9 {
        818_814_076
    } else if offset <= 10 {
        803_265_330
    } else if offset <= 11 {
        788_474_905
    } else if offset <= 12 {
        774_405_818
    } else if offset <= 13 {
        761_022_888
    } else if offset <= 14 {
        748_292_652
    } else if offset <= 15 {
        736_183_276
    } else if offset <= 16 {
        724_664_482
    } else if offset <= 17 {
        713_707_466
    } else if offset <= 18 {
        703_284_830
    } else if offset <= 19 {
        693_370_512
    } else if offset <= 20 {
        683_939_721
    } else if offset <= 21 {
        674_968_875
    } else if offset <= 22 {
        666_435_542
    } else if offset <= 23 {
        658_318_385
    } else if offset <= 24 {
        650_597_106
    } else if offset <= 25 {
        643_252_398
    } else if offset <= 26 {
        636_265_897
    } else if offset <= 27 {
        629_620_130
    } else if offset <= 28 {
        623_298_482
    } else if offset <= 29 {
        617_285_144
    } else if offset <= 30 {
        611_565_080
    } else if offset <= 31 {
        606_123_987
    } else if offset <= 32 {
        600_948_259
    } else if offset <= 33 {
        596_024_954
    } else if offset <= 34 {
        591_341_762
    } else if offset <= 35 {
        586_886_972
    } else if offset <= 36 {
        582_649_444
    } else if offset <= 37 {
        578_618_583
    } else if offset <= 38 {
        574_784_310
    } else if offset <= 39 {
        571_137_036
    } else if offset <= 40 {
        567_667_642
    } else if offset <= 41 {
        564_367_452
    } else if offset <= 42 {
        561_228_214
    } else if offset <= 43 {
        558_242_079
    } else if offset <= 44 {
        555_401_579
    } else if offset <= 45 {
        552_699_612
    } else if offset <= 46 {
        550_129_422
    } else if offset <= 47 {
        547_684_581
    } else if offset <= 48 {
        545_358_977
    } else if offset <= 49 {
        543_146_793
    } else if offset <= 50 {
        541_042_499
    } else {
        539_040_833
    }}

/// The weight of the week `offset` weeks back, in parts per billion.
pub fn weight_of_week(offset: usize) -> (w: u64)
    ensures
        w == week_weight(offset as int),
        500_000_000 < w <= 1_000_000_000,
{
    if offset <= 0 {
        1_000_000_000
    } else if offset <= 1 {
        975_614_712
    } else if offset <= 2 {
        952_418_709
    } else if offset <= 3 {
        930_353_988
    } else if offset <= 4 {
        909_365_377
    } else if offset <= 5 {
        889_400_392
    } else if offset <= 6 {
        870_409_110
    } else if offset <= 7 {
        852_344_045
    } else if offset <= 8 {
        835_160_023
    } else if offset <= 9 {
        818_814_076
    } else if offset <= 10 {
        803_265_330
    } else if offset <= 11 {
        788_474_905
    } else if offset <= 12 {
        774_405_818
    } else if offset <= 13 {
        761_022_888
    } else if offset <= 14 {
        748_292_652
    } else if offset <= 15 {
        736_183_276
    } else if offset <= 16 {
        724_664_482
    } else if offset <= 17 {
        713_707_466
    } else if offset <= 18 {
        703_284_830
    } else if offset <= 19 {
        693_370_512
    } else if offset <= 20 {
        683_939_721
    } else if offset <= 21 {
        674_968_875
    } else if offset <= 22 {
        666_435_542
    } else if offset <= 23 {
        658_318_385
    } else if offset <= 24 {
        650_597_106
    } else if offset <= 25 {
        643_252_398
    } else if offset <= 26 {
        636_265_897
    } else if offset <= 27 {
        629_620_130
    } else if offset <= 28 {
        623_298_482
    } else if offset <= 29 {
        617_285_144
    } else if offset <= 30 {
        611_565_080
    } else if offset <= 31 {
        606_123_987
    } else if offset <= 32 {
        600_948_259
    } else if offset <= 33 {
        596_024_954
    } else if offset <= 34 {
        591_341_762
    } else if offset <= 35 {
        586_886_972
    } else if offset <= 36 {
        582_649_444
    } else if offset <= 37 {
        578_618_583
    } else if offset <= 38 {
        574_784_310
    } else if offset <= 39 {
        571_137_036
    } else if offset <= 40 {
        567_667_642
    } else if offset <= 41 {
        564_367_452
    } else if offset <= 42 {
        561_228_214
    } else if offset <= 43 {
        558_242_079
    } else if offset <= 44 {
        555_401_579
    } else if offset <= 45 {
        552_699_612
    } else if offset <= 46 {
        550_129_422
    } else if offset <= 47 {
        547_684_581
    } else if offset <= 48 {
        545_358_977
    } else if offset <= 49 {
        543_146_793
    } else if offset <= 50 {
        541_042_499
    } else {
        539_040_833
    }}

/// The weights of the first `upto` weeks of `window` in which a purchase
/// falls, added up; `window` holds the weeks from the current one back, and
/// `purchase_weeks` the weeks with a purchase.
pub open spec fn weighted_hits(purchase_weeks: Seq<IsoWeek>, window: Seq<IsoWeek>, upto: int) -> nat
    decreases upto,
{
    if upto <= 0 {
        0
    } else if purchase_weeks.contains(window[upto - 1]) {
        weighted_hits(purchase_weeks, window, upto - 1) + week_weight(upto - 1)
    } else {
        weighted_hits(purchase_weeks, window, upto - 1)
    }
}

/// The weights of the first `upto` weeks back, added up.
pub open spec fn total_weight(upto: int) -> nat
    decreases upto,
{
    if upto <= 0 {
        0
    } else {
        total_weight(upto - 1) + week_weight(upto - 1)
    }
}

/// The score stays within its bounds: the weeks with a purchase weigh no
/// more than all weeks, and as much where every week has one. In percent the
/// score is therefore between 0 and 100, and 100 where no week is missed.
pub proof fn lemma_score_bounds(purchase_weeks: Seq<IsoWeek>, window: Seq<IsoWeek>, upto: int)
    requires
        0 <= upto <= window.len(),
    ensures
        weighted_hits(purchase_weeks, window, upto) <= total_weight(upto),
        upto > 0 ==> total_weight(upto) > 0,
        total_weight(upto) <= upto * 1_000_000_000,
        (forall|k: int| 0 <= k < upto ==> purchase_weeks.contains(#[trigger] window[k]))
            ==> weighted_hits(purchase_weeks, window, upto) == total_weight(upto),
    decreases upto,
{
    if upto > 0 {
        lemma_score_bounds(purchase_weeks, window, upto - 1);
    }
}

/// A consistency score as the ratio of two weights: in percent it is
/// `100 * weighted_hits / total_weight`, and 0 where no week is counted.
#[derive(Clone, Copy, Debug, PartialEq, Eq, Structural)]
pub struct ConsistencyScore {
    /// The weights of the weeks with a purchase, added up.
    pub weighted_hits: u64,
    /// The weights of all weeks counted, added up.
    pub total_weight: u64,
}

/// Whether `w` is among `weeks`.
pub fn contains_week(weeks: &Vec<IsoWeek>, w: &IsoWeek) -> (found: bool)
    ensures
        found == weeks@.contains(*w),
{
    let mut i: usize = 0;
    while i < weeks.len()
        invariant
            i <= weeks.len(),
            forall|k: int| 0 <= k < i ==> weeks@[k] != *w,
        decreases weeks.len() - i,
    {
        if weeks[i].year == w.year && weeks[i].week == w.week {
            assert(weeks@[i as int] == *w);
            return true;
        }
        i += 1;
    }
    false
}

/// The score of purchases in the weeks `purchase_weeks`, the weeks counted
/// being `window`, from the current one back.
pub fn score_of_weeks(purchase_weeks: &Vec<IsoWeek>, window: &Vec<IsoWeek>) -> (score:
    ConsistencyScore)
    requires
        window.len() <= WINDOW_WEEKS,
    ensures
        score.weighted_hits == weighted_hits(purchase_weeks@, window@, window@.len() as int),
        score.total_weight == total_weight(window@.len() as int),
        score.weighted_hits <= score.total_weight,
        window@.len() > 0 ==> score.total_weight > 0,
{
    let mut hits: u64 = 0;
    let mut total: u64 = 0;
    let mut k: usize = 0;
    while k < window.len()
        invariant
            k <= window.len(),
            window.len() <= 52,
            hits == weighted_hits(purchase_weeks@, window@, k as int),
            total == total_weight(k as int),
            hits <= total,
            total <= k * 1_000_000_000,
            k > 0 ==> total > 0,
        decreases window.len() - k,
    {
        let w = weight_of_week(k);
        if contains_week(purchase_weeks, &window[k]) {
            hits += w;
        }
        total += w;
        k += 1;
    }
    ConsistencyScore { weighted_hits: hits, total_weight: total }
}

/// What a score is called: `Excellent` from 80 percent on, `Good` from 60,
/// `Fair` from 40, `Poor` below that and where no week is counted.
pub open spec fn rating_of(score: ConsistencyScore) -> Seq<char> {
    if score.total_weight == 0 {
        "Poor"@
    } else if 100 * score.weighted_hits >= 80 * score.total_weight {
        "Excellent"@
    } else if 100 * score.weighted_hits >= 60 * score.total_weight {
        "Good"@
    } else if 100 * score.weighted_hits >= 40 * score.total_weight {
        "Fair"@
    } else {
        "Poor"@
    }
}

/// What a score is called.
pub fn consistency_rating(score: &ConsistencyScore) -> (rating: String)
    ensures
        rating@ == rating_of(*score),
{
    let hits: u128 = 100 * (score.weighted_hits as u128);
    let total: u128 = score.total_weight as u128;
    if total == 0 {
        String::from_str("Poor")
    } else if hits >= 80 * total {
        String::from_str("Excellent")
    } else if hits >= 60 * total {
        String::from_str("Good")
    } else if hits >= 40 * total {
        String::from_str("Fair")
    } else {
        String::from_str("Poor")
    }
}

/// The earliest of the instants; the epoch where there is none.
pub open spec fn earliest(dates: Seq<Timestamp>) -> Timestamp
    decreases dates.len(),
{
    if dates.len() == 0 {
        Timestamp { secs: 0, nanos: 0 }
    } else if dates.len() == 1 {
        dates[0]
    } else if not_later(earliest(dates.drop_last()), dates.last()) {
        earliest(dates.drop_last())
    } else {
        dates.last()
    }
}

/// The earliest instant is one of the instants, and none of them is
/// earlier.
pub proof fn lemma_earliest(dates: Seq<Timestamp>)
    requires
        dates.len() > 0,
    ensures
        dates.contains(earliest(dates)),
        forall|i: int| 0 <= i < dates.len() ==> not_later(earliest(dates), #[trigger] dates[i]),
    decreases dates.len(),
{
    if dates.len() == 1 {
        assert(dates[0] == earliest(dates));
    } else {
        let front = dates.drop_last();
        lemma_earliest(front);
        let k = choose|k: int| 0 <= k < front.len() && front[k] == earliest(front);
        assert(dates[k] == earliest(front));
        assert(dates[dates.len() - 1] == dates.last());
        assert forall|i: int| 0 <= i < dates.len() implies not_later(
            earliest(dates),
            #[trigger] dates[i],
        ) by {
            if i < front.len() {
                assert(not_later(earliest(front), front[i]));
            }
        }
    }
}

/// Finds the earliest of the instants.
pub fn earliest_of(dates: &Vec<Timestamp>) -> (first: Timestamp)
    requires
        dates.len() > 0,
    ensures
        first == earliest(dates@),
{
    let mut first = dates[0];
    let mut i: usize = 1;
    assert(dates@.take(1) =~= seq![dates@[0]]);
    while i < dates.len()
        invariant
            1 <= i <= dates.len(),
            first == earliest(dates@.take(i as int)),
        decreases dates.len() - i,
    {
        let d = dates[i];
        proof {
            assert(dates@.take(i + 1).drop_last() =~= dates@.take(i as int));
            assert(dates@.take(i + 1).last() == d);
        }
        if !(first.secs < d.secs || (first.secs == d.secs && first.nanos <= d.nanos)) {
            first = d;
        }
        i += 1;
    }
    assert(dates@.take(dates.len() as int) =~= dates@);
    first
}

/// How many weeks are counted at `now`: the whole weeks since the first
/// purchase and one more, but no more than 52, and none where there is no
/// purchase or the first lies a week or more ahead.
pub open spec fn window_size(dates: Seq<Timestamp>, now: Timestamp) -> int {
    if dates.len() == 0 {
        0
    } else {
        let weeks = whole_weeks_between(earliest(dates), now) + 1;
        if weeks > 52 {
            52
        } else if weeks < 0 {
            0
        } else {
            weeks
        }
    }
}

/// How many weeks are counted at `now`.
pub fn size_of_window(dates: &Vec<Timestamp>, now: &Timestamp) -> (size: usize)
    ensures
        size == window_size(dates@, *now),
        size <= 52,
{
    if dates.len() == 0 {
        return 0;
    }
    let first = earliest_of(dates);
    let weeks = weeks_between(&first, now);
    if weeks >= 52 {
        52
    } else if weeks < 0 {
        0
    } else {
        (weeks + 1) as usize
    }
}

/// The ISO week that lies `offset` weeks before `now`, if the calendar
/// reaches that far.
pub open spec fn week_back(now: Timestamp, offset: int) -> Option<IsoWeek> {
    let secs = now.secs - offset * 604_800;
    if secs >= i64::MIN {
        iso_week_at(secs)
    } else {
        None
    }
}

/// The ISO weeks from that of `now` back, `size` of them, if the calendar
/// reaches all of them.
pub open spec fn window_weeks(now: Timestamp, size: int) -> Option<Seq<IsoWeek>>
    decreases size,
{
    if size <= 0 {
        Some(Seq::empty())
    } else {
        match (window_weeks(now, size - 1), week_back(now, size - 1)) {
            (Some(front), Some(w)) => Some(front.push(w)),
            _ => None,
        }
    }
}

/// A week out of reach puts every longer window out of reach.
pub proof fn lemma_window_none(now: Timestamp, n: int, size: int)
    requires
        0 <= n <= size,
    ensures
        window_weeks(now, n) is None ==> window_weeks(now, size) is None,
    decreases size - n,
{
    if n < size {
        lemma_window_none(now, n + 1, size);
    }
}

/// Finds the ISO weeks from that of `now` back.
pub fn weeks_of_window(now: &Timestamp, size: usize) -> (r: Option<Vec<IsoWeek>>)
    requires
        size <= 52,
    ensures
        match r {
            Some(weeks) => window_weeks(*now, size as int) == Some(weeks@) && weeks@.len() == size,
            None => window_weeks(*now, size as int) is None,
        },
{
    let mut weeks: Vec<IsoWeek> = Vec::new();
    let mut k: usize = 0;
    while k < size
        invariant
            k <= size,
            size <= 52,
            weeks@.len() == k,
            window_weeks(*now, k as int) == Some(weeks@),
        decreases size - k,
    {
        proof {
            lemma_window_none(*now, k + 1, size as int);
        }
        let back: i64 = (k as i64) * 604_800;
        let secs = match now.secs.checked_sub(back) {
            Some(s) => s,
            None => { return None; },
        };
        match crate::time::Timestamp::new(secs, 0).iso_week() {
            Some(w) => {
                weeks.push(w);
            },
            None => {
                return None;
            },
        }
        k += 1;
    }
    Some(weeks)
}

/// The consistency score of purchases at the instants `dates`, seen at
/// `now`, as its two weights, if the calendar reaches all the instants that
/// are asked for. Where no week is counted, both weights are 0 and the
/// calendar is not asked.
pub open spec fn weekly_consistency(dates: Seq<Timestamp>, now: Timestamp) -> Option<
    ConsistencyScore,
> {
    let size = window_size(dates, now);
    if size == 0 {
        Some(ConsistencyScore { weighted_hits: 0, total_weight: 0 })
    } else {
        match (weeks_of(dates), window_weeks(now, size)) {
            (Some(purchase_weeks), Some(window)) => Some(
                ConsistencyScore {
                    weighted_hits: weighted_hits(purchase_weeks, window, size) as u64,
                    total_weight: total_weight(size) as u64,
                },
            ),
            _ => None,
        }
    }
}

/// The weighted share of recent weeks with a purchase, seen at `now`.
/// `None` where the calendar does not reach one of the instants.
pub fn calculate_weekly_consistency_score(transaction_dates: &Vec<Timestamp>, now: Timestamp)
    -> (r: Option<ConsistencyScore>)
    ensures
        r == weekly_consistency(transaction_dates@, now),
        r matches Some(score) ==> score.weighted_hits <= score.total_weight,
{
    let size = size_of_window(transaction_dates, &now);
    if size == 0 {
        return Some(ConsistencyScore { weighted_hits: 0, total_weight: 0 });
    }
    let purchase_weeks = match weeks_of_dates(transaction_dates) {
        Some(w) => w,
        None => { return None; },
    };
    let window = match weeks_of_window(&now, size) {
        Some(w) => w,
        None => { return None; },
    };
    Some(score_of_weeks(&purchase_weeks, &window))
}

} // verus!
