//! The calendar heatmap: for each year, 52 weeks of 7 days from the Sunday
//! on or before January 1, each day with the satoshis bought on it and a
//! level from 0 to 4 that tells how much that is beside the best day of the
//! year.
//!
//! The grid has 364 days, so the last day or two of a year may fall off its
//! end.
use crate::models::BuyEvent;
use crate::text::{
    append_str, push_zero_padded, push_zero_padded_signed, string_from_chars, zero_padded,
    zero_padded_signed,
};
use crate::time::{
    chrono_civil_date, civil_date_at, weekday_index, weekday_of, year_start, year_start_secs,
    CivilDate, Timestamp,
};
use vstd::prelude::*;

verus! {

/// Days in the grid of a year.
pub const GRID_DAYS: usize = 364;

/// One day of the heatmap.
#[derive(Debug)]
pub struct DayData {
    /// The date as `YYYY-MM-DD`.
    pub date: String,
    /// The satoshis bought on the day.
    pub sats: i64,
    /// From 0, nothing bought, to 4, more than three quarters of the best
    /// day of the year.
    pub level: i32,
}

/// One week of the heatmap, from Sunday to Saturday.
#[derive(Debug)]
pub struct WeekData {
    pub days: Vec<DayData>,
}

/// The heatmap of one year.
#[derive(Debug)]
pub struct YearHeatmapData {
    pub year: i32,
    pub weeks: Vec<WeekData>,
    /// The most satoshis bought on one day of the year; 1 where nothing was
    /// bought.
    pub max_sats: i64,
}

/// What a [`DayData`] holds, as plain values.
pub struct DayView {
    pub date: Seq<char>,
    pub sats: i64,
    pub level: i32,
}

/// What a [`WeekData`] holds, as plain values.
pub struct WeekView {
    pub days: Seq<DayView>,
}

/// What a [`YearHeatmapData`] holds, as plain values.
pub struct YearView {
    pub year: i32,
    pub weeks: Seq<WeekView>,
    pub max_sats: i64,
}

impl View for DayData {
    type V = DayView;

    open spec fn view(&self) -> DayView {
        DayView { date: self.date@, sats: self.sats, level: self.level }
    }
}

impl View for WeekData {
    type V = WeekView;

    open spec fn view(&self) -> WeekView {
        WeekView { days: self.days@.map_values(|d: DayData| d@) }
    }
}

impl View for YearHeatmapData {
    type V = YearView;

    open spec fn view(&self) -> YearView {
        YearView {
            year: self.year,
            weeks: self.weeks@.map_values(|w: WeekData| w@),
            max_sats: self.max_sats,
        }
    }
}

/// What the years of a sequence hold.
pub open spec fn year_views(years: Seq<YearHeatmapData>) -> Seq<YearView> {
    years.map_values(|y: YearHeatmapData| y@)
}

/// The level of a day with `sats` satoshis in a year whose best day has
/// `max_sats`: 0 for nothing; else by the ratio of the two, 1 up to a
/// quarter, 2 up to a half, 3 up to three quarters, 4 above; and 1 where the
/// best day has nothing.
pub open spec fn intensity_level(sats: int, max_sats: int) -> int {
    if sats == 0 {
        0
    } else if max_sats == 0 {
        1
    } else if max_sats > 0 {
        if 4 * sats <= max_sats {
            1
        } else if 2 * sats <= max_sats {
            2
        } else if 4 * sats <= 3 * max_sats {
            3
        } else {
            4
        }
    } else {
        if 4 * sats >= max_sats {
            1
        } else if 2 * sats >= max_sats {
            2
        } else if 4 * sats >= 3 * max_sats {
            3
        } else {
            4
        }
    }
}

/// The level of a day with `sats` satoshis in a year whose best day has
/// `max_sats`.
pub fn get_intensity_level(sats: i64, max_sats: i64) -> (level: i32)
    ensures
        level == intensity_level(sats as int, max_sats as int),
        0 <= level <= 4,
{
    if sats == 0 {
        return 0;
    }
    if max_sats == 0 {
        return 1;
    }
    let s: i128 = sats as i128;
    let m: i128 = max_sats as i128;
    if max_sats > 0 {
        if 4 * s <= m {
            1
        } else if 2 * s <= m {
            2
        } else if 4 * s <= 3 * m {
            3
        } else {
            4
        }
    } else {
        if 4 * s >= m {
            1
        } else if 2 * s >= m {
            2
        } else if 4 * s >= 3 * m {
            3
        } else {
            4
        }
    }
}

/// Heatmap law: a day on which nothing was bought has level 0, and a day
/// that reaches the best day of its year has level 4, whatever the other
/// days hold, unless the best day itself bought nothing. Where the best day
/// bought something, levels rise with the amount.
pub proof fn lemma_intensity_levels(sats: int, more: int, max_sats: int)
    ensures
        intensity_level(0, max_sats) == 0,
        max_sats != 0 ==> intensity_level(max_sats, max_sats) == 4,
        sats != 0 ==> 1 <= intensity_level(sats, max_sats) <= 4,
        max_sats > 0 && 0 <= sats <= more ==> intensity_level(sats, max_sats) <= intensity_level(
            more,
            max_sats,
        ),
{
}

/// A date as `YYYY-MM-DD`: the year on four digits at least, month and day
/// on two.
pub open spec fn date_key(d: CivilDate) -> Seq<char> {
    zero_padded_signed(d.year as int, 4) + "-"@ + zero_padded(d.month as nat, 2) + "-"@
        + zero_padded(d.day as nat, 2)
}

/// Writes a date as `YYYY-MM-DD`.
pub fn date_key_of(d: &CivilDate) -> (key: String)
    ensures
        key@ == date_key(*d),
{
    let mut out: Vec<char> = Vec::new();
    push_zero_padded_signed(&mut out, d.year as i64, 4);
    append_str(&mut out, "-");
    push_zero_padded(&mut out, d.month as u64, 2);
    append_str(&mut out, "-");
    push_zero_padded(&mut out, d.day as u64, 2);
    assert(out@ =~= date_key(*d));
    string_from_chars(&out)
}

/// A purchase with the date on which it falls.
#[derive(Clone, Copy, Debug, PartialEq, Eq, Structural)]
pub struct DatedAmount {
    pub date: CivilDate,
    pub sats: i64,
}

/// The purchases that fall in `year`, in the order given.
pub open spec fn of_year(entries: Seq<DatedAmount>, year: i32) -> Seq<DatedAmount>
    decreases entries.len(),
{
    if entries.len() == 0 {
        Seq::empty()
    } else if entries.last().date.year == year {
        of_year(entries.drop_last(), year).push(entries.last())
    } else {
        of_year(entries.drop_last(), year)
    }
}

/// The satoshis bought on `day`, added up.
pub open spec fn day_total(entries: Seq<DatedAmount>, day: CivilDate) -> int
    decreases entries.len(),
{
    if entries.len() == 0 {
        0
    } else if entries.last().date == day {
        day_total(entries.drop_last(), day) + entries.last().sats
    } else {
        day_total(entries.drop_last(), day)
    }
}

/// A sum as far as an `i64` holds it.
pub open spec fn cap_total(v: int) -> i64 {
    if v > i64::MAX {
        i64::MAX
    } else if v < i64::MIN {
        i64::MIN
    } else {
        v as i64
    }
}

/// The greatest day total among the days of the first `upto` purchases;
/// none where there is no purchase.
pub open spec fn best_total(entries: Seq<DatedAmount>, upto: int) -> Option<int>
    decreases upto,
{
    if upto <= 0 {
        None
    } else {
        let here = day_total(entries, entries[upto - 1].date);
        match best_total(entries, upto - 1) {
            Some(best) => if here > best {
                Some(here)
            } else {
                Some(best)
            },
            None => Some(here),
        }
    }
}

/// The greatest day total is the total of a day with a purchase, and no day
/// with a purchase has more.
pub proof fn lemma_best_total(entries: Seq<DatedAmount>, upto: int)
    requires
        0 < upto <= entries.len(),
    ensures
        best_total(entries, upto) is Some,
        exists|k: int|
            0 <= k < upto && best_total(entries, upto) == Some(
                day_total(entries, #[trigger] entries[k].date),
            ),
        forall|k: int|
            0 <= k < upto ==> day_total(entries, #[trigger] entries[k].date) <= best_total(
                entries,
                upto,
            )->0,
    decreases upto,
{
    let here = day_total(entries, entries[upto - 1].date);
    if upto == 1 {
        assert(best_total(entries, 0) is None);
        assert(best_total(entries, 1) == Some(here));
    } else {
        lemma_best_total(entries, upto - 1);
        let before = best_total(entries, upto - 1)->0;
        if here > before {
            assert(best_total(entries, upto) == Some(here));
        } else {
            let k = choose|k: int|
                0 <= k < upto - 1 && best_total(entries, upto - 1) == Some(
                    day_total(entries, #[trigger] entries[k].date),
                );
            assert(best_total(entries, upto) == Some(day_total(entries, entries[k].date)));
        }
    }
}

/// The most satoshis bought on one day; 1 where there is no purchase.
pub open spec fn max_day_total(entries: Seq<DatedAmount>) -> i64 {
    match best_total(entries, entries.len() as int) {
        Some(best) => cap_total(best),
        None => 1,
    }
}

/// Picks the purchases that fall in `year`.
pub fn entries_of_year(entries: &Vec<DatedAmount>, year: i32) -> (own: Vec<DatedAmount>)
    ensures
        own@ == of_year(entries@, year),
{
    let mut own: Vec<DatedAmount> = Vec::new();
    let mut i: usize = 0;
    assert(entries@.take(0) =~= Seq::<DatedAmount>::empty());
    while i < entries.len()
        invariant
            i <= entries.len(),
            own@ == of_year(entries@.take(i as int), year),
        decreases entries.len() - i,
    {
        assert(entries@.take(i + 1).drop_last() =~= entries@.take(i as int));
        assert(entries@.take(i + 1).last() == entries@[i as int]);
        if entries[i].date.year == year {
            own.push(entries[i]);
        }
        i += 1;
    }
    assert(entries@.take(entries.len() as int) =~= entries@);
    own
}

/// Whether two dates are the same.
pub fn same_date(a: &CivilDate, b: &CivilDate) -> (r: bool)
    ensures
        r == (*a == *b),
{
    a.year == b.year && a.month == b.month && a.day == b.day
}

/// Adds up the satoshis bought on `day`.
pub fn total_on(entries: &Vec<DatedAmount>, day: &CivilDate) -> (total: i128)
    ensures
        total == day_total(entries@, *day),
{
    let mut total: i128 = 0;
    let mut i: usize = 0;
    assert(entries@.take(0) =~= Seq::<DatedAmount>::empty());
    while i < entries.len()
        invariant
            i <= entries.len(),
            total == day_total(entries@.take(i as int), *day),
            -(i * 9223372036854775808) <= total <= i * 9223372036854775807,
        decreases entries.len() - i,
    {
        assert(entries@.take(i + 1).drop_last() =~= entries@.take(i as int));
        assert(entries@.take(i + 1).last() == entries@[i as int]);
        if same_date(&entries[i].date, day) {
            total = total + entries[i].sats as i128;
        }
        i += 1;
    }
    assert(entries@.take(entries.len() as int) =~= entries@);
    total
}

/// A sum as far as an `i64` holds it.
pub fn cap_to_i64(v: i128) -> (r: i64)
    ensures
        r == cap_total(v as int),
{
    if v > 9223372036854775807i128 {
        i64::MAX
    } else if v < -9223372036854775808i128 {
        i64::MIN
    } else {
        v as i64
    }
}

/// Finds the most satoshis bought on one day.
pub fn max_total_of(entries: &Vec<DatedAmount>) -> (max: i64)
    ensures
        max == max_day_total(entries@),
{
    if entries.len() == 0 {
        return 1;
    }
    let mut best: i128 = total_on(entries, &entries[0].date);
    let mut i: usize = 1;
    assert(best_total(entries@, 0) is None);
    while i < entries.len()
        invariant
            1 <= i <= entries.len(),
            best_total(entries@, i as int) == Some(best as int),
        decreases entries.len() - i,
    {
        let here = total_on(entries, &entries[i].date);
        if here > best {
            best = here;
        }
        i += 1;
    }
    cap_to_i64(best)
}

/// The day of the heatmap for `date`, the purchases of the year being
/// `own` and the best day of the year having `max` satoshis.
pub open spec fn day_cell(own: Seq<DatedAmount>, max: i64, date: CivilDate) -> DayView {
    let sats = cap_total(day_total(own, date));
    DayView { date: date_key(date), sats, level: intensity_level(sats as int, max as int) as i32 }
}

/// The week `w` of the grid.
pub open spec fn week_cells(own: Seq<DatedAmount>, max: i64, grid: Seq<CivilDate>, w: int)
    -> WeekView {
    WeekView { days: Seq::new(7, |d: int| day_cell(own, max, grid[7 * w + d])) }
}

/// The heatmap of `year`, the days of its grid being `grid`: the purchases
/// that fall in the year, added up day by day.
pub open spec fn year_layout(year: i32, entries: Seq<DatedAmount>, grid: Seq<CivilDate>)
    -> YearView {
    let own = of_year(entries, year);
    let max = max_day_total(own);
    YearView { year, weeks: Seq::new(52, |w: int| week_cells(own, max, grid, w)), max_sats: max }
}

/// Lays out the heatmap of `year` on the days `grid`.
pub fn layout_year(year: i32, entries: &Vec<DatedAmount>, grid: &Vec<CivilDate>) -> (data:
    YearHeatmapData)
    requires
        grid.len() == GRID_DAYS,
    ensures
        data@ == year_layout(year, entries@, grid@),
{
    let own = entries_of_year(entries, year);
    let max = max_total_of(&own);
    let mut weeks: Vec<WeekData> = Vec::new();
    let mut w: usize = 0;
    while w < 52
        invariant
            w <= 52,
            grid.len() == 364,
            weeks@.len() == w,
            forall|k: int| 0 <= k < w ==> (#[trigger] weeks@[k])@ == week_cells(own@, max, grid@, k),
        decreases 52 - w,
    {
        let mut days: Vec<DayData> = Vec::new();
        let mut d: usize = 0;
        while d < 7
            invariant
                d <= 7,
                w < 52,
                grid.len() == 364,
                days@.len() == d,
                forall|k: int|
                    0 <= k < d ==> (#[trigger] days@[k])@ == day_cell(
                        own@,
                        max,
                        grid@[7 * w + k],
                    ),
            decreases 7 - d,
        {
            let date = grid[7 * w + d];
            let sats = cap_to_i64(total_on(&own, &date));
            let level = get_intensity_level(sats, max);
            days.push(DayData { date: date_key_of(&date), sats, level });
            d += 1;
        }
        let week = WeekData { days };
        assert(week@.days =~= week_cells(own@, max, grid@, w as int).days);
        weeks.push(week);
        w += 1;
    }
    let data = YearHeatmapData { year, weeks, max_sats: max };
    assert(data@.weeks =~= year_layout(year, entries@, grid@).weeks);
    data
}

/// Heatmap law, on the heatmap itself: in every year that was laid out, a
/// day on which nothing was bought has level 0, and, unless the best day of
/// the year bought nothing, a day that reaches it has level 4.
pub proof fn lemma_layout_levels(
    year: i32,
    entries: Seq<DatedAmount>,
    grid: Seq<CivilDate>,
    w: int,
    d: int,
)
    requires
        0 <= w < 52,
        0 <= d < 7,
    ensures
        ({
            let data = year_layout(year, entries, grid);
            let day = data.weeks[w].days[d];
            &&& day.level == intensity_level(day.sats as int, data.max_sats as int)
            &&& 0 <= day.level <= 4
            &&& day.sats == 0 ==> day.level == 0
            &&& day.sats == data.max_sats && data.max_sats != 0 ==> day.level == 4
        }),
{
}

/// The purchases with the dates on which they fall, if the calendar
/// reaches all of them.
pub open spec fn dated_amounts(events: Seq<BuyEvent>) -> Option<Seq<DatedAmount>>
    decreases events.len(),
{
    if events.len() == 0 {
        Some(Seq::empty())
    } else {
        match (dated_amounts(events.drop_last()), civil_date_at(events.last().timestamp.secs as int)) {
            (Some(front), Some(date)) => Some(
                front.push(DatedAmount { date, sats: events.last().amount_sats }),
            ),
            _ => None,
        }
    }
}

/// A date out of reach among the first purchases puts all out of reach.
pub proof fn lemma_dated_none(events: Seq<BuyEvent>, n: int)
    requires
        0 <= n <= events.len(),
    ensures
        dated_amounts(events.take(n)) is None ==> dated_amounts(events) is None,
    decreases events.len() - n,
{
    if n == events.len() {
        assert(events.take(n) =~= events);
    } else {
        assert(events.take(n + 1).drop_last() =~= events.take(n));
        lemma_dated_none(events, n + 1);
    }
}

/// Finds the dates on which purchases fall.
pub fn date_events(events: &Vec<BuyEvent>) -> (r: Option<Vec<DatedAmount>>)
    ensures
        match r {
            Some(entries) => dated_amounts(events@) == Some(entries@),
            None => dated_amounts(events@) is None,
        },
{
    let mut entries: Vec<DatedAmount> = Vec::new();
    let mut i: usize = 0;
    assert(events@.take(0) =~= Seq::<BuyEvent>::empty());
    while i < events.len()
        invariant
            i <= events.len(),
            dated_amounts(events@.take(i as int)) == Some(entries@),
        decreases events.len() - i,
    {
        proof {
            assert(events@.take(i + 1).drop_last() =~= events@.take(i as int));
            assert(events@.take(i + 1).last() == events@[i as int]);
            lemma_dated_none(events@, i + 1);
        }
        match events[i].timestamp.civil_date() {
            Some(date) => {
                entries.push(DatedAmount { date, sats: events[i].amount_sats });
            },
            None => {
                return None;
            },
        }
        i += 1;
    }
    assert(events@.take(events.len() as int) =~= events@);
    Some(entries)
}

/// Seconds since the epoch at which the grid of `year` starts: the start of
/// the Sunday on or before January 1.
pub open spec fn grid_start(year: int) -> int {
    year_start(year) - 86_400 * ((weekday_of(year_start(year)) + 1) % 7)
}

/// The dates of the first `count` days of the grid of `year`, if the
/// calendar reaches all of them.
pub open spec fn grid_dates(year: int, count: int) -> Option<Seq<CivilDate>>
    decreases count,
{
    if count <= 0 {
        Some(Seq::empty())
    } else {
        match (grid_dates(year, count - 1), civil_date_at(grid_start(year) + 86_400 * (count - 1))) {
            (Some(front), Some(date)) => Some(front.push(date)),
            _ => None,
        }
    }
}

/// A date out of reach puts every longer grid out of reach.
pub proof fn lemma_grid_none(year: int, n: int, count: int)
    requires
        0 <= n <= count,
    ensures
        grid_dates(year, n) is None ==> grid_dates(year, count) is None,
    decreases count - n,
{
    if n < count {
        lemma_grid_none(year, n + 1, count);
    }
}

/// Finds the dates of the grid of `year`.
pub fn dates_of_grid(year: i32) -> (r: Option<Vec<CivilDate>>)
    ensures
        match r {
            Some(grid) => grid_dates(year as int, 364) == Some(grid@) && grid@.len() == 364,
            None => grid_dates(year as int, 364) is None,
        },
{
    let start = year_start_secs(year);
    let back: i64 = ((weekday_index(start) as i64) + 1) % 7;
    let first: i64 = start - 86_400 * back;
    let mut grid: Vec<CivilDate> = Vec::new();
    let mut k: usize = 0;
    while k < 364
        invariant
            k <= 364,
            first == grid_start(year as int),
            -5_900_000_000_000_000_000 <= first <= 5_900_000_000_000_000_000,
            grid@.len() == k,
            grid_dates(year as int, k as int) == Some(grid@),
        decreases 364 - k,
    {
        proof {
            lemma_grid_none(year as int, k + 1, 364);
        }
        let secs: i64 = first + 86_400 * (k as i64);
        match chrono_civil_date(secs) {
            Some(date) => {
                grid.push(date);
            },
            None => {
                return None;
            },
        }
        k += 1;
    }
    Some(grid)
}

/// The heatmap of `year` for the purchases `events`, if the calendar
/// reaches every date that is asked for.
pub open spec fn year_heatmap(year: i32, events: Seq<BuyEvent>) -> Option<YearView> {
    match (dated_amounts(events), grid_dates(year as int, 364)) {
        (Some(entries), Some(grid)) => Some(year_layout(year, entries, grid)),
        _ => None,
    }
}

/// Makes the heatmap of `year`: the purchases that fall in the year are
/// added up day by day and laid out on the grid of the year. `None` where
/// the calendar does not reach one of the dates.
pub fn generate_year_heatmap_data(year: i32, transactions: &Vec<BuyEvent>) -> (r: Option<
    YearHeatmapData,
>)
    ensures
        match r {
            Some(data) => year_heatmap(year, transactions@) == Some(data@),
            None => year_heatmap(year, transactions@) is None,
        },
{
    let entries = match date_events(transactions) {
        Some(e) => e,
        None => { return None; },
    };
    let grid = match dates_of_grid(year) {
        Some(g) => g,
        None => { return None; },
    };
    Some(layout_year(year, &entries, &grid))
}

/// A descending row of years with `y` put in its place, unless it is there
/// already.
pub open spec fn with_year(sorted: Seq<i32>, y: i32) -> Seq<i32>
    decreases sorted.len(),
{
    if sorted.len() == 0 {
        seq![y]
    } else if sorted.last() == y {
        sorted
    } else if sorted.last() > y {
        sorted.push(y)
    } else {
        with_year(sorted.drop_last(), y).push(sorted.last())
    }
}

/// The years of `years`, each once, from the latest to the earliest.
pub open spec fn years_descending(years: Seq<i32>) -> Seq<i32>
    decreases years.len(),
{
    if years.len() == 0 {
        Seq::empty()
    } else {
        with_year(years_descending(years.drop_last()), years.last())
    }
}

/// Each year of the row is later than the next.
pub open spec fn descending(years: Seq<i32>) -> bool {
    forall|i: int, j: int| 0 <= i < j < years.len() ==> years[i] > years[j]
}

/// Putting a year into a descending row leaves it descending, with the same
/// years and the new one.
pub proof fn lemma_with_year(sorted: Seq<i32>, y: i32)
    requires
        descending(sorted),
    ensures
        descending(with_year(sorted, y)),
        with_year(sorted, y).contains(y),
        forall|x: i32| sorted.contains(x) ==> with_year(sorted, y).contains(x),
        forall|x: i32| with_year(sorted, y).contains(x) ==> x == y || sorted.contains(x),
    decreases sorted.len(),
{
    let next = with_year(sorted, y);
    if sorted.len() == 0 {
        assert(next[0] == y);
    } else if sorted.last() == y {
        assert(sorted[sorted.len() - 1] == y);
    } else if sorted.last() > y {
        assert(next[sorted.len() as int] == y);
        assert forall|x: i32| sorted.contains(x) implies next.contains(x) by {
            let i = choose|i: int| 0 <= i < sorted.len() && sorted[i] == x;
            assert(next[i] == x);
        }
        assert forall|i: int, j: int| 0 <= i < j < next.len() implies next[i] > next[j] by {
            if j == sorted.len() {
                if i < sorted.len() - 1 {
                    assert(sorted[i] > sorted[sorted.len() - 1]);
                }
            }
        }
    } else {
        let front = sorted.drop_last();
        let last = sorted.last();
        assert forall|i: int, j: int| 0 <= i < j < front.len() implies front[i] > front[j] by {
            assert(front[i] == sorted[i] && front[j] == sorted[j]);
        }
        lemma_with_year(front, y);
        let inner = with_year(front, y);
        assert(next == inner.push(last));
        assert forall|x: i32| inner.contains(x) implies x > last by {
            if x == y {
            } else {
                assert(x == y || front.contains(x));
                assert(front.contains(x));
                let i = choose|i: int| 0 <= i < front.len() && front[i] == x;
                assert(sorted[i] > sorted[sorted.len() - 1]);
            }
        }
        assert forall|i: int, j: int| 0 <= i < j < next.len() implies next[i] > next[j] by {
            if j == inner.len() {
                assert(inner.contains(inner[i]));
            } else {
                assert(next[i] == inner[i] && next[j] == inner[j]);
            }
        }
        let k = choose|k: int| 0 <= k < inner.len() && inner[k] == y;
        assert(next[k] == y);
        assert forall|x: i32| sorted.contains(x) implies next.contains(x) by {
            let i = choose|i: int| 0 <= i < sorted.len() && sorted[i] == x;
            if i < front.len() {
                assert(front[i] == x);
                assert(front.contains(x));
                assert(inner.contains(x));
                let m = choose|m: int| 0 <= m < inner.len() && inner[m] == x;
                assert(next[m] == x);
            } else {
                assert(next[inner.len() as int] == x);
            }
        }
        assert forall|x: i32| next.contains(x) implies x == y || sorted.contains(x) by {
            let i = choose|i: int| 0 <= i < next.len() && next[i] == x;
            if i < inner.len() {
                assert(inner[i] == x);
                assert(inner.contains(x));
                if x != y {
                    assert(front.contains(x));
                    let m = choose|m: int| 0 <= m < front.len() && front[m] == x;
                    assert(sorted[m] == x);
                }
            } else {
                assert(sorted[sorted.len() - 1] == x);
            }
        }
    }
}

/// The years of a heatmap are the years given, each once, the latest
/// first.
pub proof fn lemma_years_descending(years: Seq<i32>)
    ensures
        descending(years_descending(years)),
        forall|x: i32| years.contains(x) <==> years_descending(years).contains(x),
    decreases years.len(),
{
    if years.len() > 0 {
        let front = years.drop_last();
        lemma_years_descending(front);
        lemma_with_year(years_descending(front), years.last());
        let next = years_descending(years);
        assert forall|x: i32| years.contains(x) implies next.contains(x) by {
            let i = choose|i: int| 0 <= i < years.len() && years[i] == x;
            if i < front.len() {
                assert(front[i] == x);
                assert(front.contains(x));
            }
        }
        assert forall|x: i32| next.contains(x) implies years.contains(x) by {
            if x == years.last() {
                assert(years[years.len() - 1] == x);
            } else {
                assert(front.contains(x));
                let i = choose|i: int| 0 <= i < front.len() && front[i] == x;
                assert(years[i] == x);
            }
        }
    }
}

/// Putting the rest back behind gives the same as putting the year into the
/// whole, as long as the year is later than all of the rest.
proof fn lemma_year_behind(sorted: Seq<i32>, y: i32, j: int)
    requires
        0 <= j <= sorted.len(),
        forall|k: int| j <= k < sorted.len() ==> y > #[trigger] sorted[k],
    ensures
        with_year(sorted, y) == with_year(sorted.take(j), y) + sorted.skip(j),
    decreases sorted.len() - j,
{
    if j == sorted.len() {
        assert(sorted.take(j) =~= sorted);
        assert(with_year(sorted, y) + sorted.skip(j) =~= with_year(sorted, y));
    } else {
        let front = sorted.drop_last();
        assert(y > sorted[sorted.len() - 1]);
        assert forall|k: int| j <= k < front.len() implies y > #[trigger] front[k] by {
            assert(front[k] == sorted[k]);
        }
        lemma_year_behind(front, y, j);
        assert(front.take(j) =~= sorted.take(j));
        assert(front.skip(j).push(sorted.last()) =~= sorted.skip(j));
        assert(with_year(sorted, y) =~= with_year(sorted.take(j), y) + sorted.skip(j));
    }
}

/// Finds the years of `years`, each once, from the latest to the earliest.
pub fn collect_years_descending(years: &Vec<i32>) -> (unique: Vec<i32>)
    ensures
        unique@ == years_descending(years@),
{
    let mut unique: Vec<i32> = Vec::new();
    let mut n: usize = 0;
    assert(years@.take(0) =~= Seq::<i32>::empty());
    while n < years.len()
        invariant
            n <= years.len(),
            unique@ == years_descending(years@.take(n as int)),
        decreases years.len() - n,
    {
        let y = years[n];
        let mut j: usize = unique.len();
        while j > 0 && y > unique[j - 1]
            invariant
                j <= unique.len(),
                forall|k: int| j <= k < unique.len() ==> y > #[trigger] unique@[k],
            decreases j,
        {
            j -= 1;
        }
        proof {
            lemma_year_behind(unique@, y, j as int);
            assert(years@.take(n + 1).drop_last() =~= years@.take(n as int));
            assert(years@.take(n + 1).last() == y);
            let front = unique@.take(j as int);
            if j > 0 {
                assert(front.last() == unique@[j - 1]);
            }
        }
        if j > 0 && unique[j - 1] == y {
            proof {
                let front = unique@.take(j as int);
                assert(with_year(front, y) == front);
                assert(front + unique@.skip(j as int) =~= unique@);
            }
        } else {
            proof {
                let front = unique@.take(j as int);
                assert(with_year(front, y) == front.push(y));
                assert(front.push(y) + unique@.skip(j as int) =~= unique@.insert(j as int, y));
            }
            unique.insert(j, y);
        }
        n += 1;
    }
    assert(years@.take(years.len() as int) =~= years@);
    unique
}

/// The years in which the purchases fall.
pub open spec fn years_of(entries: Seq<DatedAmount>) -> Seq<i32> {
    entries.map_values(|e: DatedAmount| e.date.year)
}

/// The years that a heatmap shows: those in which a purchase falls and the
/// current one, the latest first.
pub open spec fn heatmap_years(entries: Seq<DatedAmount>, current_year: i32) -> Seq<i32> {
    years_descending(years_of(entries).push(current_year))
}

/// The heatmaps of `years`, if the calendar reaches all of their grids.
pub open spec fn layouts_of(years: Seq<i32>, entries: Seq<DatedAmount>) -> Option<Seq<YearView>>
    decreases years.len(),
{
    if years.len() == 0 {
        Some(Seq::empty())
    } else {
        match (layouts_of(years.drop_last(), entries), grid_dates(years.last() as int, 364)) {
            (Some(front), Some(grid)) => Some(
                front.push(year_layout(years.last(), entries, grid)),
            ),
            _ => None,
        }
    }
}

/// A grid out of reach among the first years puts all out of reach.
pub proof fn lemma_layouts_none(years: Seq<i32>, entries: Seq<DatedAmount>, n: int)
    requires
        0 <= n <= years.len(),
    ensures
        layouts_of(years.take(n), entries) is None ==> layouts_of(years, entries) is None,
    decreases years.len() - n,
{
    if n == years.len() {
        assert(years.take(n) =~= years);
    } else {
        assert(years.take(n + 1).drop_last() =~= years.take(n));
        lemma_layouts_none(years, entries, n + 1);
    }
}

/// The heatmap of dated purchases, the current year being `current_year`:
/// one year after the other, the latest first.
pub open spec fn heatmap_layouts(entries: Seq<DatedAmount>, current_year: i32) -> Option<
    Seq<YearView>,
> {
    layouts_of(heatmap_years(entries, current_year), entries)
}

/// Lays out the heatmap of dated purchases.
pub fn layout_heatmap(entries: &Vec<DatedAmount>, current_year: i32) -> (r: Option<
    Vec<YearHeatmapData>,
>)
    ensures
        match r {
            Some(data) => heatmap_layouts(entries@, current_year) == Some(year_views(data@)),
            None => heatmap_layouts(entries@, current_year) is None,
        },
{
    let mut all_years: Vec<i32> = Vec::new();
    let mut i: usize = 0;
    while i < entries.len()
        invariant
            i <= entries.len(),
            all_years@.len() == i,
            forall|k: int| 0 <= k < i ==> #[trigger] all_years@[k] == entries@[k].date.year,
        decreases entries.len() - i,
    {
        all_years.push(entries[i].date.year);
        i += 1;
    }
    assert(all_years@ =~= years_of(entries@));
    all_years.push(current_year);
    let years = collect_years_descending(&all_years);
    let mut data: Vec<YearHeatmapData> = Vec::new();
    let mut k: usize = 0;
    assert(years@.take(0) =~= Seq::<i32>::empty());
    assert(year_views(data@) =~= Seq::<YearView>::empty());
    while k < years.len()
        invariant
            k <= years.len(),
            years@ == heatmap_years(entries@, current_year),
            layouts_of(years@.take(k as int), entries@) == Some(year_views(data@)),
        decreases years.len() - k,
    {
        proof {
            assert(years@.take(k + 1).drop_last() =~= years@.take(k as int));
            assert(years@.take(k + 1).last() == years@[k as int]);
            lemma_layouts_none(years@, entries@, k + 1);
        }
        let grid = match dates_of_grid(years[k]) {
            Some(g) => g,
            None => { return None; },
        };
        let ghost before = year_views(data@);
        let year = layout_year(years[k], entries, &grid);
        let ghost added = year@;
        data.push(year);
        assert(year_views(data@) =~= before.push(added));
        k += 1;
    }
    assert(years@.take(years.len() as int) =~= years@);
    Some(data)
}

/// The heatmap of the purchases `events`, seen at `now`, if the calendar
/// reaches every date that is asked for.
pub open spec fn heatmap_of(events: Seq<BuyEvent>, now: Timestamp) -> Option<Seq<YearView>> {
    match (dated_amounts(events), civil_date_at(now.secs as int)) {
        (Some(entries), Some(today)) => heatmap_layouts(entries, today.year),
        _ => None,
    }
}

/// Makes the heatmap: one year for each year in which a purchase falls and
/// one for the year of `now`, the latest first. `None` where the calendar
/// does not reach one of the dates.
pub fn calculate_heatmap_data(buy_transactions: &Vec<BuyEvent>, now: Timestamp) -> (r: Option<
    Vec<YearHeatmapData>,
>)
    ensures
        match r {
            Some(data) => heatmap_of(buy_transactions@, now) == Some(year_views(data@)),
            None => heatmap_of(buy_transactions@, now) is None,
        },
{
    let entries = match date_events(buy_transactions) {
        Some(e) => e,
        None => { return None; },
    };
    let today = match now.civil_date() {
        Some(d) => d,
        None => { return None; },
    };
    layout_heatmap(&entries, today.year)
}

} // verus!
