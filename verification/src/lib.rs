//! A tracker for the accumulation of bitcoin: it imports purchases and
//! sales from the exports of exchanges and computes how steadily purchases
//! were made.
//!
//! The import reads an export, tells its provider by the header, groups the
//! rows into logical transactions, and creates those that the store does not
//! hold yet. The analytics read the purchases of the store and compute
//! streaks, a consistency score, the best day of the week, the next
//! milestone and a calendar heatmap.
pub mod api;
pub mod coinbase;
pub mod csv_format;
pub mod encryption;
pub mod engine;
pub mod error;
pub mod hash;
pub mod import;
pub mod legacy;
pub mod lumpsum;
pub mod menu;
pub mod metrics;
pub mod models;
pub mod money;
pub mod money_laws;
pub mod order;
pub mod pagination;
pub mod records;
pub mod river;
pub mod store;
pub mod text;
pub mod text_sort;
pub mod time;
