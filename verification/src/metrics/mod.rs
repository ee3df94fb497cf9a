//! Analytics over the purchases in the store: streaks of weeks with a
//! purchase, the weighted share of recent weeks with one, the day of the
//! week on which most purchases fall, the next milestone, and the calendar
//! heatmap.
pub mod activity;
pub mod best_day;
pub mod consistency;
pub mod heatmap;
pub mod milestone;
pub mod streaks;
