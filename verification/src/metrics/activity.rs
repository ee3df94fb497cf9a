//! All activity metrics at once.
//!
//! Nothing is kept between two queries: the metrics are computed anew from
//! the purchases each time.
use crate::metrics::best_day::{best_day, calculate_best_stacking_day, day_name, purchases_on};
use crate::metrics::consistency::{
    calculate_weekly_consistency_score, consistency_rating, rating_of, weekly_consistency,
    ConsistencyScore,
};
use crate::metrics::heatmap::{
    cap_to_i64, cap_total, date_events, dated_amounts, heatmap_layouts, layout_heatmap,
    year_views, DatedAmount, YearHeatmapData, YearView,
};
use crate::metrics::milestone::{
    calculate_next_weekly_milestone, milestone_name, next_milestone_weeks,
};
use crate::metrics::streaks::{calculate_weekly_streaks, clamp_i32, weekly_streaks};
use crate::models::{opt_text, BuyEvent};
use crate::time::{civil_date_at, Timestamp};
use vstd::prelude::*;

verus! {

/// The activity metrics.
#[derive(Debug)]
pub struct ActivityMetrics {
    /// The streak of weeks with a purchase that is running.
    pub current_streak_weeks: i32,
    /// The longest streak of weeks with a purchase.
    pub longest_streak_weeks: i32,
    /// The satoshis bought in the current year.
    pub sats_stacked_this_year: i64,
    /// The weighted share of recent weeks with a purchase.
    pub consistency_score: ConsistencyScore,
    /// The day of the week on which most purchases fall.
    pub best_stacking_day: Option<String>,
    /// How many purchases fall on that day.
    pub best_day_purchases: usize,
    /// How many purchases there are.
    pub purchases: usize,
    /// What the consistency score is called.
    pub consistency_rating: String,
    /// The weeks that remain until the next milestone.
    pub weeks_to_next_milestone: Option<i32>,
    /// What the next milestone is called.
    pub next_milestone_description: Option<String>,
    /// The calendar heatmap, the latest year first.
    pub heatmap_data: Vec<YearHeatmapData>,
}

/// What [`ActivityMetrics`] hold, as plain values.
pub struct MetricsView {
    pub current_streak_weeks: i32,
    pub longest_streak_weeks: i32,
    pub sats_stacked_this_year: i64,
    pub consistency_score: ConsistencyScore,
    pub best_stacking_day: Option<Seq<char>>,
    pub best_day_purchases: nat,
    pub purchases: nat,
    pub consistency_rating: Seq<char>,
    pub weeks_to_next_milestone: Option<i32>,
    pub next_milestone_description: Option<Seq<char>>,
    pub heatmap_data: Seq<YearView>,
}

impl View for ActivityMetrics {
    type V = MetricsView;

    open spec fn view(&self) -> MetricsView {
        MetricsView {
            current_streak_weeks: self.current_streak_weeks,
            longest_streak_weeks: self.longest_streak_weeks,
            sats_stacked_this_year: self.sats_stacked_this_year,
            consistency_score: self.consistency_score,
            best_stacking_day: opt_text(self.best_stacking_day),
            best_day_purchases: self.best_day_purchases as nat,
            purchases: self.purchases as nat,
            consistency_rating: self.consistency_rating@,
            weeks_to_next_milestone: self.weeks_to_next_milestone,
            next_milestone_description: opt_text(self.next_milestone_description),
            heatmap_data: year_views(self.heatmap_data@),
        }
    }
}

/// The metrics of a store without purchases.
pub open spec fn no_data() -> MetricsView {
    MetricsView {
        current_streak_weeks: 0,
        longest_streak_weeks: 0,
        sats_stacked_this_year: 0,
        consistency_score: ConsistencyScore { weighted_hits: 0, total_weight: 0 },
        best_stacking_day: None,
        best_day_purchases: 0,
        purchases: 0,
        consistency_rating: "No Data"@,
        weeks_to_next_milestone: None,
        next_milestone_description: None,
        heatmap_data: Seq::empty(),
    }
}

/// The instants of purchases.
pub open spec fn instants_of(events: Seq<BuyEvent>) -> Seq<Timestamp> {
    events.map_values(|e: BuyEvent| e.timestamp)
}

/// The satoshis bought in `year`, added up.
pub open spec fn sats_in_year(entries: Seq<DatedAmount>, year: i32) -> int
    decreases entries.len(),
{
    if entries.len() == 0 {
        0
    } else if entries.last().date.year == year {
        sats_in_year(entries.drop_last(), year) + entries.last().sats
    } else {
        sats_in_year(entries.drop_last(), year)
    }
}

/// Adds up the satoshis bought in `year`.
pub fn sum_of_year(entries: &Vec<DatedAmount>, year: i32) -> (total: i64)
    ensures
        total == cap_total(sats_in_year(entries@, year)),
{
    let mut total: i128 = 0;
    let mut i: usize = 0;
    assert(entries@.take(0) =~= Seq::<DatedAmount>::empty());
    while i < entries.len()
        invariant
            i <= entries.len(),
            total == sats_in_year(entries@.take(i as int), year),
            -(i * 9223372036854775808) <= total <= i * 9223372036854775807,
        decreases entries.len() - i,
    {
        assert(entries@.take(i + 1).drop_last() =~= entries@.take(i as int));
        assert(entries@.take(i + 1).last() == entries@[i as int]);
        if entries[i].date.year == year {
            total = total + entries[i].sats as i128;
        }
        i += 1;
    }
    assert(entries@.take(entries.len() as int) =~= entries@);
    cap_to_i64(total)
}

/// The activity metrics of the purchases `events`, seen at `now`, if the
/// calendar reaches every instant that is asked for. Without purchases the
/// metrics are those of [`no_data`], and the calendar is not asked.
pub open spec fn activity_metrics(events: Seq<BuyEvent>, now: Timestamp) -> Option<MetricsView> {
    let dates = instants_of(events);
    if events.len() == 0 {
        Some(no_data())
    } else {
        match (
            dated_amounts(events),
            civil_date_at(now.secs as int),
            weekly_streaks(dates, now),
            weekly_consistency(dates, now),
        ) {
            (Some(entries), Some(today), Some(streaks), Some(score)) => match heatmap_layouts(
                entries,
                today.year,
            ) {
                Some(heatmap) => Some(
                    MetricsView {
                        current_streak_weeks: streaks.0,
                        longest_streak_weeks: streaks.1,
                        sats_stacked_this_year: cap_total(sats_in_year(entries, today.year)),
                        consistency_score: score,
                        best_stacking_day: Some(day_name(best_day(dates))),
                        best_day_purchases: purchases_on(dates, best_day(dates)),
                        purchases: dates.len(),
                        consistency_rating: rating_of(score),
                        weeks_to_next_milestone: Some(
                            clamp_i32(next_milestone_weeks(streaks.0 as int) - streaks.0),
                        ),
                        next_milestone_description: Some(
                            milestone_name(next_milestone_weeks(streaks.0 as int)),
                        ),
                        heatmap_data: heatmap,
                    },
                ),
                None => None,
            },
            _ => None,
        }
    }
}

/// Computes the activity metrics of the purchases `buy_transactions`, seen
/// at `now`. `None` where the calendar does not reach one of the instants.
pub fn get_activity_metrics(buy_transactions: &Vec<BuyEvent>, now: Timestamp) -> (r: Option<
    ActivityMetrics,
>)
    ensures
        match r {
            Some(metrics) => activity_metrics(buy_transactions@, now) == Some(metrics@),
            None => activity_metrics(buy_transactions@, now) is None,
        },
        buy_transactions@.len() == 0 ==> r is Some,
{
    if buy_transactions.len() == 0 {
        let metrics = ActivityMetrics {
            current_streak_weeks: 0,
            longest_streak_weeks: 0,
            sats_stacked_this_year: 0,
            consistency_score: ConsistencyScore { weighted_hits: 0, total_weight: 0 },
            best_stacking_day: None,
            best_day_purchases: 0,
            purchases: 0,
            consistency_rating: String::from_str("No Data"),
            weeks_to_next_milestone: None,
            next_milestone_description: None,
            heatmap_data: Vec::new(),
        };
        assert(metrics@.heatmap_data =~= Seq::<YearView>::empty());
        return Some(metrics);
    }
    let mut dates: Vec<Timestamp> = Vec::new();
    let mut i: usize = 0;
    while i < buy_transactions.len()
        invariant
            i <= buy_transactions.len(),
            dates@.len() == i,
            forall|k: int| 0 <= k < i ==> #[trigger] dates@[k] == buy_transactions@[k].timestamp,
        decreases buy_transactions.len() - i,
    {
        dates.push(buy_transactions[i].timestamp);
        i += 1;
    }
    assert(dates@ =~= instants_of(buy_transactions@));
    let entries = match date_events(buy_transactions) {
        Some(e) => e,
        None => { return None; },
    };
    let today = match now.civil_date() {
        Some(d) => d,
        None => { return None; },
    };
    let streaks = match calculate_weekly_streaks(&dates, now) {
        Some(s) => s,
        None => { return None; },
    };
    let score = match calculate_weekly_consistency_score(&dates, now) {
        Some(s) => s,
        None => { return None; },
    };
    let heatmap = match layout_heatmap(&entries, today.year) {
        Some(h) => h,
        None => { return None; },
    };
    let best = calculate_best_stacking_day(&dates);
    let milestone = calculate_next_weekly_milestone(streaks.0);
    let metrics = ActivityMetrics {
        current_streak_weeks: streaks.0,
        longest_streak_weeks: streaks.1,
        sats_stacked_this_year: sum_of_year(&entries, today.year),
        consistency_score: score,
        best_stacking_day: best.name,
        best_day_purchases: best.purchases_on_day,
        purchases: best.purchases,
        consistency_rating: consistency_rating(&score),
        weeks_to_next_milestone: milestone.0,
        next_milestone_description: milestone.1,
        heatmap_data: heatmap,
    };
    Some(metrics)
}

} // verus!
