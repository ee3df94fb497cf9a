use sat_tracker::legacy::{
    import_legacy_records, legacy_id, parse_legacy_timestamp, summarize_import, LegacyRecord,
    LegacyTable,
};
use sat_tracker::lumpsum::{default_lumpsum_memo, plan_lumpsum, LumpsumError};
use sat_tracker::models::TransactionType;
use sat_tracker::store::TransactionStore;
use sat_tracker::time::Timestamp;

#[test]
fn a_total_is_spread_over_the_weeks_of_the_span() {
    let plan = plan_lumpsum(
        "2024-01-01T00:00:00Z",
        "2024-01-29T00:00:00Z",
        1_000_003,
        40_001,
        "weekly",
        "DCA 1234",
    )
    .unwrap();
    assert_eq!(plan.len(), 4);
    let sats: Vec<i64> = plan.iter().map(|r| r.amount_sats).collect();
    assert_eq!(sats, vec![250_000, 250_000, 250_000, 250_003]);
    let cents: Vec<Option<i64>> = plan.iter().map(|r| r.subtotal_cents).collect();
    assert_eq!(cents, vec![Some(10_000), Some(10_000), Some(10_000), Some(10_001)]);
    let times: Vec<i64> = plan.iter().map(|r| r.timestamp.secs).collect();
    assert_eq!(times, vec![1704067200, 1704672000, 1705276800, 1705881600]);
    for r in &plan {
        assert_eq!(r.kind, TransactionType::Buy);
        assert_eq!(r.fee_cents, Some(0));
        assert_eq!(r.memo.as_deref(), Some("DCA 1234"));
        assert_eq!(r.provider_id, None);
    }
}

#[test]
fn a_span_shorter_than_the_interval_makes_one_purchase() {
    let plan =
        plan_lumpsum("2024-01-01T00:00:00Z", "2024-01-02T12:00:00Z", 500, 70, "monthly", "m").unwrap();
    assert_eq!(plan.len(), 1);
    assert_eq!(plan[0].amount_sats, 500);
    assert_eq!(plan[0].subtotal_cents, Some(70));
    assert_eq!(plan[0].timestamp, Timestamp::new(1704067200, 0));
    let plan =
        plan_lumpsum("2024-01-01T00:00:00Z", "2024-01-04T23:59:59Z", 10, 10, "daily", "m").unwrap();
    assert_eq!(plan.len(), 3);
    let plan =
        plan_lumpsum("2024-01-01T00:00:00Z", "2024-03-01T00:00:00Z", 10, 10, "monthly", "m").unwrap();
    assert_eq!(plan.len(), 2);
    assert_eq!(plan[1].timestamp.secs, 1704067200 + 30 * 86_400);
}

#[test]
fn the_parts_of_a_lumpsum_add_up_to_the_total() {
    for total in [0i64, 1, 7, 365, 366, 1_000_000_007, -10, -365, i64::MAX, i64::MIN] {
        let plan =
            plan_lumpsum("2023-01-01T00:00:00Z", "2024-01-01T00:00:00Z", total, total, "daily", "m")
                .unwrap();
        assert_eq!(plan.len(), 365);
        let sum: i128 = plan.iter().map(|r| r.amount_sats as i128).sum();
        assert_eq!(sum, total as i128);
        let sum: i128 = plan.iter().map(|r| r.subtotal_cents.unwrap() as i128).sum();
        assert_eq!(sum, total as i128);
    }
}

#[test]
fn a_lumpsum_that_cannot_be_spread() {
    let plan = |start: &str, end: &str, frequency: &str| {
        plan_lumpsum(start, end, 1, 1, frequency, "m").unwrap_err()
    };
    assert_eq!(plan("yesterday", "2024-01-29T00:00:00Z", "daily"), LumpsumError::InvalidStartDate);
    assert_eq!(plan("2024-01-01T00:00:00Z", "tomorrow", "daily"), LumpsumError::InvalidEndDate);
    assert_eq!(plan("yesterday", "tomorrow", "hourly"), LumpsumError::InvalidStartDate);
    assert_eq!(
        plan("2024-01-29T00:00:00Z", "2024-01-29T00:00:00Z", "daily"),
        LumpsumError::StartNotBeforeEnd
    );
    assert_eq!(
        plan("2024-01-30T00:00:00Z", "2024-01-29T00:00:00Z", "hourly"),
        LumpsumError::StartNotBeforeEnd
    );
    assert_eq!(
        plan("2024-01-01T00:00:00Z", "2024-01-29T00:00:00Z", "hourly"),
        LumpsumError::InvalidFrequency
    );
    assert_eq!(
        plan("2024-01-01T00:00:00Z", "2024-01-29T00:00:00Z", "Daily"),
        LumpsumError::InvalidFrequency
    );
    assert_eq!(LumpsumError::InvalidStartDate.message(), "Invalid start date");
    assert_eq!(LumpsumError::InvalidEndDate.message(), "Invalid end date");
    assert_eq!(LumpsumError::StartNotBeforeEnd.message(), "Start date must be before end date");
    assert_eq!(
        LumpsumError::InvalidFrequency.message(),
        "Invalid frequency. Use 'daily', 'weekly', or 'monthly'"
    );
}

#[test]
fn the_default_memo_is_dca_and_a_number() {
    assert_eq!(default_lumpsum_memo(1000), "DCA 1000");
    assert_eq!(default_lumpsum_memo(9999), "DCA 9999");
    assert_eq!(default_lumpsum_memo(0), "DCA 0");
}

#[test]
fn legacy_dates_come_in_three_shapes() {
    let want = Some(Timestamp::new(1705314645, 0));
    assert_eq!(parse_legacy_timestamp("2024-01-15T10:30:45Z"), want);
    assert_eq!(parse_legacy_timestamp("2024-01-15 10:30:45"), want);
    assert_eq!(
        parse_legacy_timestamp("2024-01-15 10:30:45.250 +00:00"),
        Some(Timestamp::new(1705314645, 250_000_000))
    );
    assert_eq!(
        parse_legacy_timestamp("2024-01-15 12:30:45.000 +02:00"),
        want
    );
    assert_eq!(parse_legacy_timestamp("15.01.2024"), None);
    assert_eq!(parse_legacy_timestamp(""), None);
}

fn legacy(table: LegacyTable, date: &str, sats: i64, cents: i64) -> LegacyRecord {
    LegacyRecord {
        table,
        date: String::from(date),
        amount_sats: sats,
        value_cents: cents,
        memo: Some(String::from("old")),
    }
}

#[test]
fn legacy_rows_are_taken_over_once() {
    let records = vec![
        legacy(LegacyTable::Buy, "2024-01-15T10:30:45Z", 1_000, 5_000),
        legacy(LegacyTable::Buy, "no date", 1, 1),
        legacy(LegacyTable::Deduction, "2024-01-16 10:30:45", 300, 77),
        legacy(LegacyTable::Buy, "2024-01-15 10:30:45", 1_000, 6_000),
        legacy(LegacyTable::Deduction, "never", 1, 1),
    ];
    let mut store = TransactionStore::new();
    let now = Timestamp::new(1_800_000_000, 0);
    let outcome = import_legacy_records(&mut store, &records, now);
    assert_eq!(outcome.created.len(), 2);
    let buy = &outcome.created[0];
    assert_eq!(buy.kind, TransactionType::Buy);
    assert_eq!(buy.amount_sats, 1_000);
    assert_eq!(buy.subtotal_cents, Some(5_000));
    assert_eq!(buy.fee_cents, Some(0));
    assert_eq!(buy.memo.as_deref(), Some("old"));
    assert_eq!(buy.timestamp, Timestamp::new(1705314645, 0));
    assert_eq!(buy.created_at, now);
    assert_eq!(buy.provider_id.as_deref(), Some("stv1-import-1705314645_1000"));
    let sale = &outcome.created[1];
    assert_eq!(sale.kind, TransactionType::Sell);
    assert_eq!(sale.amount_sats, 300);
    assert_eq!(sale.subtotal_cents, Some(0));
    assert_eq!(sale.provider_id.as_deref(), Some("stv1-deduction-1705401045_300"));
    assert_eq!(
        outcome.errors,
        vec![
            String::from("Failed to parse timestamp 'no date'"),
            String::from("Failed to parse deduction timestamp 'never'"),
        ]
    );
    assert_eq!(store.len(), 2);
    let again = import_legacy_records(&mut store, &records, now);
    assert!(again.created.is_empty());
    assert_eq!(again.errors.len(), 2);
    assert_eq!(store.len(), 2);
    assert_eq!(legacy_id(LegacyTable::Buy, -5, -7), "stv1-import--5_-7");
}

#[test]
fn the_summary_lists_the_first_five_errors() {
    assert_eq!(summarize_import(3, &vec![]), "Import completed: 3 records imported successfully");
    let errors: Vec<String> = (1..=2).map(|i| format!("e{}", i)).collect();
    assert_eq!(
        summarize_import(0, &errors),
        "Import completed: 0 records imported successfully\n2 errors occurred:\n- e1\n- e2"
    );
    let errors: Vec<String> = (1..=5).map(|i| format!("e{}", i)).collect();
    assert_eq!(
        summarize_import(12, &errors),
        "Import completed: 12 records imported successfully\n5 errors occurred:\n- e1\n- e2\n- e3\n- e4\n- e5"
    );
    let errors: Vec<String> = (1..=8).map(|i| format!("e{}", i)).collect();
    assert_eq!(
        summarize_import(1, &errors),
        "Import completed: 1 records imported successfully\n8 errors occurred:\n- e1\n- e2\n- e3\n- e4\n- e5\n... and 3 more errors"
    );
}
