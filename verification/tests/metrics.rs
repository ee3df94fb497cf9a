use sat_tracker::metrics::activity::get_activity_metrics;
use sat_tracker::metrics::best_day::calculate_best_stacking_day;
use sat_tracker::metrics::consistency::{
    calculate_weekly_consistency_score, consistency_rating, score_of_weeks, weight_of_week,
    ConsistencyScore,
};
use sat_tracker::metrics::heatmap::{
    calculate_heatmap_data, collect_years_descending, generate_year_heatmap_data,
    get_intensity_level,
};
use sat_tracker::metrics::milestone::calculate_next_weekly_milestone;
use sat_tracker::metrics::streaks::{
    calculate_weekly_streaks, collect_unique_weeks, streaks_of_weeks, week_difference,
};
use sat_tracker::models::BuyEvent;
use sat_tracker::time::{IsoWeek, Timestamp};

const DAY: i64 = 86_400;
const JAN_1_2024: i64 = 1_704_067_200;

fn at(secs: i64) -> Timestamp {
    Timestamp::new(secs, 0)
}

fn day_2024(day_of_year: i64) -> Timestamp {
    at(JAN_1_2024 + (day_of_year - 1) * DAY + 36_000)
}

fn week(year: i32, week: u32) -> IsoWeek {
    IsoWeek { year, week }
}

fn buy(t: Timestamp, sats: i64) -> BuyEvent {
    BuyEvent { timestamp: t, amount_sats: sats }
}

#[test]
fn week_difference_reckons_52_weeks_to_the_year() {
    assert_eq!(week_difference(&week(2024, 3), &week(2024, 1)), 2);
    assert_eq!(week_difference(&week(2024, 1), &week(2024, 3)), -2);
    assert_eq!(week_difference(&week(2025, 1), &week(2024, 52)), 1);
    assert_eq!(week_difference(&week(2021, 1), &week(2020, 53)), 0);
    assert_eq!(week_difference(&week(2026, 10), &week(2024, 10)), 104);
    assert_eq!(
        week_difference(&week(i32::MAX, u32::MAX), &week(i32::MIN, 0)),
        (i32::MAX as i64 - i32::MIN as i64) * 52 + u32::MAX as i64
    );
}

#[test]
fn unique_weeks_are_sorted_and_without_repetition() {
    let weeks = vec![week(2024, 3), week(2023, 52), week(2024, 3), week(2024, 1), week(2023, 52)];
    assert_eq!(collect_unique_weeks(&weeks), vec![week(2023, 52), week(2024, 1), week(2024, 3)]);
    assert_eq!(collect_unique_weeks(&vec![]), Vec::<IsoWeek>::new());
}

#[test]
fn three_weeks_in_a_row_make_a_streak_of_three() {
    let weeks = vec![week(2024, 1), week(2024, 2), week(2024, 3)];
    assert_eq!(streaks_of_weeks(&weeks, week(2024, 3)), (3, 3));
    assert_eq!(streaks_of_weeks(&weeks, week(2024, 4)), (3, 3));
}

#[test]
fn a_streak_that_ended_more_than_a_week_ago_is_not_running() {
    let weeks = vec![week(2024, 1), week(2024, 2), week(2024, 3)];
    assert_eq!(streaks_of_weeks(&weeks, week(2024, 5)), (0, 3));
    assert_eq!(streaks_of_weeks(&weeks, week(2025, 3)), (0, 3));
}

#[test]
fn a_gap_breaks_a_streak() {
    let weeks = vec![
        week(2024, 1),
        week(2024, 2),
        week(2024, 3),
        week(2024, 4),
        week(2024, 6),
        week(2024, 7),
    ];
    assert_eq!(streaks_of_weeks(&weeks, week(2024, 7)), (2, 4));
    assert_eq!(streaks_of_weeks(&weeks, week(2024, 8)), (2, 4));
    assert_eq!(streaks_of_weeks(&weeks, week(2024, 9)), (0, 4));
    assert_eq!(streaks_of_weeks(&vec![week(2024, 6)], week(2024, 6)), (1, 1));
    assert_eq!(streaks_of_weeks(&vec![], week(2024, 6)), (0, 0));
}

#[test]
fn streaks_run_across_the_turn_of_the_year() {
    let weeks = vec![week(2020, 52), week(2020, 53), week(2021, 1), week(2021, 2)];
    assert_eq!(streaks_of_weeks(&weeks, week(2021, 2)), (4, 4));
    let weeks = vec![week(2024, 51), week(2024, 52), week(2025, 1)];
    assert_eq!(streaks_of_weeks(&weeks, week(2025, 2)), (3, 3));
}

#[test]
fn a_purchase_in_a_later_week_keeps_the_streak_running() {
    let weeks = vec![week(2024, 9), week(2024, 10)];
    assert_eq!(streaks_of_weeks(&weeks, week(2024, 5)), (2, 2));
}

#[test]
fn weekly_streaks_of_instants() {
    let dates = vec![day_2024(15), day_2024(1), day_2024(8), day_2024(9)];
    assert_eq!(calculate_weekly_streaks(&dates, day_2024(17)), Some((3, 3)));
    assert_eq!(calculate_weekly_streaks(&dates, day_2024(32)), Some((0, 3)));
    assert_eq!(calculate_weekly_streaks(&vec![], day_2024(32)), Some((0, 0)));
    assert_eq!(calculate_weekly_streaks(&vec![], at(i64::MAX)), Some((0, 0)));
    assert_eq!(calculate_weekly_streaks(&dates, at(i64::MAX)), None);
    assert_eq!(calculate_weekly_streaks(&vec![at(i64::MIN)], day_2024(1)), None);
}

#[test]
fn best_day_is_the_day_with_most_purchases() {
    let dates = vec![day_2024(1), day_2024(8), day_2024(2)];
    let best = calculate_best_stacking_day(&dates);
    assert_eq!(best.name.as_deref(), Some("Monday"));
    assert_eq!(best.purchases_on_day, 2);
    assert_eq!(best.purchases, 3);
}

#[test]
fn best_day_of_a_tie_is_the_first_from_monday() {
    let dates = vec![day_2024(7), day_2024(5), day_2024(3), day_2024(12), day_2024(14)];
    let best = calculate_best_stacking_day(&dates);
    assert_eq!(best.name.as_deref(), Some("Friday"));
    assert_eq!(best.purchases_on_day, 2);
    assert_eq!(best.purchases, 5);
    let best = calculate_best_stacking_day(&vec![day_2024(7)]);
    assert_eq!(best.name.as_deref(), Some("Sunday"));
    assert_eq!(best.purchases_on_day, 1);
}

#[test]
fn best_day_without_purchases() {
    let best = calculate_best_stacking_day(&vec![]);
    assert_eq!(best.name, None);
    assert_eq!(best.purchases_on_day, 0);
    assert_eq!(best.purchases, 0);
}

#[test]
fn every_day_of_the_week_has_its_name() {
    let names = ["Monday", "Tuesday", "Wednesday", "Thursday", "Friday", "Saturday", "Sunday"];
    for (i, name) in names.iter().enumerate() {
        let best = calculate_best_stacking_day(&vec![day_2024(1 + i as i64)]);
        assert_eq!(best.name.as_deref(), Some(*name));
    }
}

#[test]
fn weights_follow_the_exponential() {
    for k in 0..52usize {
        let want = (1e9 * (0.5 + 0.5 * (-0.05 * k as f64).exp())).round() as u64;
        assert_eq!(weight_of_week(k), want, "{k}");
    }
    assert_eq!(weight_of_week(0), 1_000_000_000);
    assert_eq!(weight_of_week(1), 975_614_712);
    assert_eq!(weight_of_week(51), 539_040_833);
    assert_eq!(weight_of_week(52), 539_040_833);
}

#[test]
fn score_weighs_recent_weeks_more() {
    let window = vec![week(2024, 10), week(2024, 9), week(2024, 8)];
    let all = 1_000_000_000 + 975_614_712 + 952_418_709;
    let score = score_of_weeks(&vec![week(2024, 10)], &window);
    assert_eq!(score, ConsistencyScore { weighted_hits: 1_000_000_000, total_weight: all });
    let score = score_of_weeks(&vec![week(2024, 8), week(2024, 8)], &window);
    assert_eq!(score, ConsistencyScore { weighted_hits: 952_418_709, total_weight: all });
    let score = score_of_weeks(&vec![week(2024, 8), week(2024, 9), week(2024, 10)], &window);
    assert_eq!(score, ConsistencyScore { weighted_hits: all, total_weight: all });
    let score = score_of_weeks(&vec![week(2023, 8)], &window);
    assert_eq!(score, ConsistencyScore { weighted_hits: 0, total_weight: all });
    let score = score_of_weeks(&vec![week(2023, 8)], &vec![]);
    assert_eq!(score, ConsistencyScore { weighted_hits: 0, total_weight: 0 });
}

#[test]
fn a_single_purchase_in_the_current_week_scores_all() {
    let score = calculate_weekly_consistency_score(&vec![day_2024(15)], day_2024(17)).unwrap();
    assert_eq!(score, ConsistencyScore { weighted_hits: 1_000_000_000, total_weight: 1_000_000_000 });
    assert_eq!(consistency_rating(&score), "Excellent");
    let percent = 100.0 * score.weighted_hits as f64 / score.total_weight as f64;
    assert_eq!(percent, 100.0);
}

#[test]
fn the_score_stays_between_nothing_and_all() {
    let now = day_2024(200);
    let cases: Vec<Vec<Timestamp>> = vec![
        vec![day_2024(1)],
        vec![day_2024(1), day_2024(100), day_2024(199)],
        (1..200).map(day_2024).collect(),
        vec![day_2024(300)],
        vec![at(0), day_2024(190)],
    ];
    for dates in cases {
        let score = calculate_weekly_consistency_score(&dates, now).unwrap();
        assert!(score.weighted_hits <= score.total_weight);
    }
}

#[test]
fn the_window_grows_with_the_history_up_to_a_year() {
    let now = day_2024(200);
    let score = calculate_weekly_consistency_score(&vec![day_2024(186)], now).unwrap();
    assert_eq!(score.total_weight, 1_000_000_000 + 975_614_712 + 952_418_709);
    assert_eq!(score.weighted_hits, 952_418_709);
    assert_eq!(consistency_rating(&score), "Poor");
    let score = calculate_weekly_consistency_score(&vec![at(0)], now).unwrap();
    assert_eq!(score.total_weight, 35_490_624_341);
    assert_eq!(score.weighted_hits, 0);
    let every_day: Vec<Timestamp> = (-400..201).map(day_2024).collect();
    let score = calculate_weekly_consistency_score(&every_day, now).unwrap();
    assert_eq!(score.total_weight, 35_490_624_341);
    assert_eq!(score.weighted_hits, 35_490_624_341);
}

#[test]
fn no_week_is_counted_without_purchases_or_with_purchases_far_ahead() {
    let none = ConsistencyScore { weighted_hits: 0, total_weight: 0 };
    assert_eq!(calculate_weekly_consistency_score(&vec![], day_2024(10)), Some(none));
    assert_eq!(calculate_weekly_consistency_score(&vec![day_2024(40)], day_2024(10)), Some(none));
    assert_eq!(consistency_rating(&none), "Poor");
    let score = calculate_weekly_consistency_score(&vec![day_2024(12)], day_2024(10)).unwrap();
    assert_eq!(score.total_weight, 1_000_000_000);
}

#[test]
fn the_calendar_may_not_reach_an_instant() {
    assert_eq!(calculate_weekly_consistency_score(&vec![at(i64::MIN), day_2024(1)], day_2024(10)), None);
    assert_eq!(calculate_weekly_consistency_score(&vec![at(0)], at(i64::MAX)), None);
}

#[test]
fn ratings_have_their_bands() {
    let rate = |hits: u64| consistency_rating(&ConsistencyScore { weighted_hits: hits, total_weight: 1000 });
    assert_eq!(rate(1000), "Excellent");
    assert_eq!(rate(800), "Excellent");
    assert_eq!(rate(799), "Good");
    assert_eq!(rate(600), "Good");
    assert_eq!(rate(599), "Fair");
    assert_eq!(rate(400), "Fair");
    assert_eq!(rate(399), "Poor");
    assert_eq!(rate(0), "Poor");
}

#[test]
fn milestones_are_months_then_years() {
    let next = |streak: i32| {
        let (weeks, name) = calculate_next_weekly_milestone(streak);
        (weeks.unwrap(), name.unwrap())
    };
    assert_eq!(next(0), (4, String::from("1-month streak")));
    assert_eq!(next(3), (1, String::from("1-month streak")));
    assert_eq!(next(4), (4, String::from("2-month streak")));
    assert_eq!(next(8), (4, String::from("3-month streak")));
    assert_eq!(next(12), (14, String::from("6-month streak")));
    assert_eq!(next(26), (26, String::from("1-year streak")));
    assert_eq!(next(51), (1, String::from("1-year streak")));
    assert_eq!(next(52), (52, String::from("2-year streak")));
    assert_eq!(next(60), (44, String::from("2-year streak")));
    assert_eq!(next(103), (1, String::from("2-year streak")));
    assert_eq!(next(104), (52, String::from("3-year streak")));
    assert_eq!(next(520), (52, String::from("11-year streak")));
    assert_eq!(next(i32::MAX).1, String::from("41297763-year streak"));
    assert_eq!(next(-1), (5, String::from("1-month streak")));
    assert_eq!(next(i32::MIN), (i32::MAX, String::from("1-month streak")));
}

#[test]
fn intensity_goes_by_quarters_of_the_best_day() {
    assert_eq!(get_intensity_level(0, 100), 0);
    assert_eq!(get_intensity_level(1, 100), 1);
    assert_eq!(get_intensity_level(25, 100), 1);
    assert_eq!(get_intensity_level(26, 100), 2);
    assert_eq!(get_intensity_level(50, 100), 2);
    assert_eq!(get_intensity_level(51, 100), 3);
    assert_eq!(get_intensity_level(75, 100), 3);
    assert_eq!(get_intensity_level(76, 100), 4);
    assert_eq!(get_intensity_level(100, 100), 4);
    assert_eq!(get_intensity_level(1000, 100), 4);
    assert_eq!(get_intensity_level(5, 0), 1);
    assert_eq!(get_intensity_level(0, 0), 0);
    assert_eq!(get_intensity_level(1, 1), 4);
    assert_eq!(get_intensity_level(-5, 100), 1);
    assert_eq!(get_intensity_level(i64::MAX, i64::MAX), 4);
    assert_eq!(get_intensity_level(i64::MAX / 4, i64::MAX), 1);
}

#[test]
fn intensity_agrees_with_the_ratio() {
    for max in [1i64, 2, 3, 4, 7, 100, 1000, -8] {
        for sats in -20i64..1010 {
            let want = if sats == 0 {
                0
            } else {
                let ratio = sats as f64 / max as f64;
                if ratio <= 0.25 {
                    1
                } else if ratio <= 0.5 {
                    2
                } else if ratio <= 0.75 {
                    3
                } else {
                    4
                }
            };
            assert_eq!(get_intensity_level(sats, max), want, "{sats} {max}");
        }
    }
}

#[test]
fn a_year_is_laid_out_on_52_weeks_from_sunday() {
    let events = vec![
        buy(day_2024(15), 100),
        buy(day_2024(15), 50),
        buy(day_2024(70), 30),
        buy(day_2024(366), 7),
        buy(at(JAN_1_2024 - 1), 1_000_000),
    ];
    let data = generate_year_heatmap_data(2024, &events).unwrap();
    assert_eq!(data.year, 2024);
    assert_eq!(data.max_sats, 150);
    assert_eq!(data.weeks.len(), 52);
    for w in &data.weeks {
        assert_eq!(w.days.len(), 7);
    }
    assert_eq!(data.weeks[0].days[0].date, "2023-12-31");
    assert_eq!(data.weeks[0].days[0].sats, 0);
    assert_eq!(data.weeks[0].days[0].level, 0);
    assert_eq!(data.weeks[0].days[1].date, "2024-01-01");
    assert_eq!(data.weeks[2].days[1].date, "2024-01-15");
    assert_eq!(data.weeks[2].days[1].sats, 150);
    assert_eq!(data.weeks[2].days[1].level, 4);
    assert_eq!(data.weeks[10].days[0].date, "2024-03-10");
    assert_eq!(data.weeks[10].days[0].sats, 30);
    assert_eq!(data.weeks[10].days[0].level, 1);
    assert_eq!(data.weeks[8].days[4].date, "2024-02-29");
    assert_eq!(data.weeks[51].days[6].date, "2024-12-28");
    let total: i64 = data.weeks.iter().flat_map(|w| w.days.iter()).map(|d| d.sats).sum();
    assert_eq!(total, 180);
    for w in &data.weeks {
        for d in &w.days {
            assert_eq!(d.level, get_intensity_level(d.sats, data.max_sats));
            if d.sats == 0 {
                assert_eq!(d.level, 0);
            }
            if d.sats == data.max_sats {
                assert_eq!(d.level, 4);
            }
        }
    }
}

#[test]
fn a_year_that_starts_on_sunday_starts_its_grid_there() {
    let data = generate_year_heatmap_data(2023, &vec![]).unwrap();
    assert_eq!(data.max_sats, 1);
    assert_eq!(data.weeks[0].days[0].date, "2023-01-01");
    assert_eq!(data.weeks[51].days[6].date, "2023-12-30");
    let data = generate_year_heatmap_data(2022, &vec![]).unwrap();
    assert_eq!(data.weeks[0].days[0].date, "2021-12-26");
    assert_eq!(data.weeks[0].days[6].date, "2022-01-01");
}

#[test]
fn a_best_day_that_falls_off_the_grid_still_sets_the_scale() {
    let events = vec![buy(day_2024(366), 400), buy(day_2024(10), 100)];
    let data = generate_year_heatmap_data(2024, &events).unwrap();
    assert_eq!(data.max_sats, 400);
    assert_eq!(data.weeks[1].days[3].date, "2024-01-10");
    assert_eq!(data.weeks[1].days[3].sats, 100);
    assert_eq!(data.weeks[1].days[3].level, 1);
}

#[test]
fn years_far_from_now_are_written_with_their_sign() {
    let data = generate_year_heatmap_data(-5, &vec![]).unwrap();
    assert!(data.weeks[1].days[0].date.starts_with("-005-01-"));
    let data = generate_year_heatmap_data(12345, &vec![]).unwrap();
    assert!(data.weeks[1].days[0].date.starts_with("12345-01-"));
    assert!(generate_year_heatmap_data(i32::MAX, &vec![]).is_none());
    assert!(generate_year_heatmap_data(2024, &vec![buy(at(i64::MAX), 1)]).is_none());
}

#[test]
fn years_are_collected_latest_first() {
    assert_eq!(collect_years_descending(&vec![2022, 2024, 2022, 2025, 2024]), vec![2025, 2024, 2022]);
    assert_eq!(collect_years_descending(&vec![]), Vec::<i32>::new());
}

#[test]
fn the_heatmap_has_the_years_of_purchases_and_the_current_year() {
    let events = vec![buy(at(JAN_1_2024 - 400 * DAY), 5), buy(day_2024(15), 100)];
    let data = calculate_heatmap_data(&events, day_2024(400)).unwrap();
    let years: Vec<i32> = data.iter().map(|y| y.year).collect();
    assert_eq!(years, vec![2025, 2024, 2022]);
    assert_eq!(data[0].max_sats, 1);
    assert_eq!(data[1].max_sats, 100);
    assert_eq!(data[2].max_sats, 5);
    let data = calculate_heatmap_data(&vec![], day_2024(1)).unwrap();
    assert_eq!(data.len(), 1);
    assert_eq!(data[0].year, 2024);
    assert!(calculate_heatmap_data(&events, at(i64::MAX)).is_none());
}

#[test]
fn metrics_without_purchases() {
    let m = get_activity_metrics(&vec![], day_2024(1)).unwrap();
    assert_eq!(m.current_streak_weeks, 0);
    assert_eq!(m.longest_streak_weeks, 0);
    assert_eq!(m.sats_stacked_this_year, 0);
    assert_eq!(m.consistency_score, ConsistencyScore { weighted_hits: 0, total_weight: 0 });
    assert_eq!(m.best_stacking_day, None);
    assert_eq!(m.best_day_purchases, 0);
    assert_eq!(m.purchases, 0);
    assert_eq!(m.consistency_rating, "No Data");
    assert_eq!(m.weeks_to_next_milestone, None);
    assert_eq!(m.next_milestone_description, None);
    assert!(m.heatmap_data.is_empty());
    assert!(get_activity_metrics(&vec![], at(i64::MAX)).is_some());
}

#[test]
fn metrics_of_a_few_purchases() {
    let events = vec![
        buy(at(JAN_1_2024 - 10 * DAY), 1_000),
        buy(day_2024(1), 100),
        buy(day_2024(8), 200),
        buy(day_2024(15), 300),
        buy(day_2024(16), 50),
    ];
    let m = get_activity_metrics(&events, day_2024(17)).unwrap();
    assert_eq!(m.current_streak_weeks, 3);
    assert_eq!(m.longest_streak_weeks, 3);
    assert_eq!(m.sats_stacked_this_year, 650);
    assert_eq!(m.best_stacking_day.as_deref(), Some("Monday"));
    assert_eq!(m.best_day_purchases, 3);
    assert_eq!(m.purchases, 5);
    assert_eq!(m.weeks_to_next_milestone, Some(1));
    assert_eq!(m.next_milestone_description.as_deref(), Some("1-month streak"));
    let years: Vec<i32> = m.heatmap_data.iter().map(|y| y.year).collect();
    assert_eq!(years, vec![2024, 2023]);
    assert_eq!(m.heatmap_data[0].max_sats, 300);
    assert_eq!(m.heatmap_data[1].max_sats, 1_000);
    assert_eq!(
        m.consistency_score,
        ConsistencyScore {
            weighted_hits: 1_000_000_000 + 975_614_712 + 952_418_709,
            total_weight: 1_000_000_000 + 975_614_712 + 952_418_709 + 930_353_988,
        }
    );
    assert_eq!(m.consistency_rating, "Good");
    assert!(get_activity_metrics(&events, at(i64::MAX)).is_none());
}

#[test]
fn sums_beyond_an_i64_are_capped() {
    let events = vec![buy(day_2024(1), i64::MAX), buy(day_2024(1), i64::MAX), buy(day_2024(2), 5)];
    let m = get_activity_metrics(&events, day_2024(3)).unwrap();
    assert_eq!(m.sats_stacked_this_year, i64::MAX);
    assert_eq!(m.heatmap_data[0].max_sats, i64::MAX);
    assert_eq!(m.heatmap_data[0].weeks[0].days[1].sats, i64::MAX);
    assert_eq!(m.heatmap_data[0].weeks[0].days[1].level, 4);
    assert_eq!(m.heatmap_data[0].weeks[0].days[2].level, 1);
}
