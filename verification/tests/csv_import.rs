use sat_tracker::coinbase::generate_coinbase_provider_id;
use sat_tracker::csv_format::{detect_csv_format, CsvFormat, Detection};
use sat_tracker::error::{FormatError, ImportError, ParseField};
use sat_tracker::import::{analyze_csv_file, import_csv_data, process_coinbase_csv, process_river_csv};
use sat_tracker::models::TransactionType;
use sat_tracker::records::{read_coinbase_records, read_river_records, CoinbaseRecord};
use sat_tracker::store::TransactionStore;
use sat_tracker::time::Timestamp;

const COINBASE_HEADER: &str = "ID,Timestamp,Transaction Type,Asset,Quantity Transacted,Price at Transaction,Subtotal,Total (inclusive of fees and/or spread),Fees and/or Spread,Notes";
const RIVER_HEADER: &str = "Date,Sent Amount,Sent Currency,Received Amount,Received Currency,Fee Amount,Fee Currency,Tag";

fn coinbase(rows: &[&str]) -> String {
    let mut text = String::from("Transactions\nUser,someone@example.com\n\n");
    text.push_str(COINBASE_HEADER);
    text.push('\n');
    for row in rows {
        text.push_str(row);
        text.push('\n');
    }
    text
}

fn river(rows: &[&str]) -> String {
    let mut text = String::from(RIVER_HEADER);
    text.push('\n');
    for row in rows {
        text.push_str(row);
        text.push('\n');
    }
    text
}

fn now() -> Timestamp {
    Timestamp::new(1_800_000_000, 0)
}

fn record(id: &str) -> CoinbaseRecord {
    CoinbaseRecord {
        id: String::from(id),
        timestamp: String::new(),
        transaction_type: String::new(),
        asset: String::new(),
        quantity_transacted: String::new(),
        price_at_transaction: String::new(),
        subtotal: String::new(),
        total_inclusive: String::new(),
        fees_and_spread: String::new(),
        notes: String::new(),
    }
}

#[test]
fn detects_coinbase_behind_a_preamble() {
    let text = coinbase(&[]);
    assert_eq!(
        detect_csv_format(&text),
        Ok(Detection { format: CsvFormat::Coinbase, header_line: 3 })
    );
}

#[test]
fn detects_river_on_the_first_line() {
    let text = river(&[]);
    assert_eq!(detect_csv_format(&text), Ok(Detection { format: CsvFormat::River, header_line: 0 }));
}

#[test]
fn detects_headers_with_columns_in_another_order() {
    let text = "note\r\nTag,Received Amount,Extra,Sent Amount,Date\r\n";
    assert_eq!(detect_csv_format(text), Ok(Detection { format: CsvFormat::River, header_line: 1 }));
    let text = "Transaction Type;Timestamp;ID";
    assert_eq!(
        detect_csv_format(text),
        Ok(Detection { format: CsvFormat::Coinbase, header_line: 0 })
    );
}

#[test]
fn the_first_header_wins() {
    let text = format!("{}\n{}\n", RIVER_HEADER, COINBASE_HEADER);
    assert_eq!(detect_csv_format(&text), Ok(Detection { format: CsvFormat::River, header_line: 0 }));
    let text = format!("{}\n{}\n", COINBASE_HEADER, RIVER_HEADER);
    assert_eq!(
        detect_csv_format(&text),
        Ok(Detection { format: CsvFormat::Coinbase, header_line: 0 })
    );
}

#[test]
fn a_file_of_no_known_provider_is_refused() {
    assert_eq!(detect_csv_format(""), Err(FormatError::Empty));
    assert_eq!(detect_csv_format("a,b,c\n1,2,3\n"), Err(FormatError::Unrecognized));
    assert_eq!(detect_csv_format("ID,Timestamp\n"), Err(FormatError::Unrecognized));
    assert_eq!(detect_csv_format("Date,Sent Amount,Received Amount\n"), Err(FormatError::Unrecognized));
    assert_eq!(FormatError::Empty.message(), "Empty CSV file");
    assert_eq!(
        FormatError::Unrecognized.message(),
        "Unrecognized CSV format. Expected Coinbase or River format."
    );
}

#[test]
fn import_of_an_unknown_file_writes_nothing() {
    let mut store = TransactionStore::new();
    let outcome = import_csv_data(&mut store, "a,b,c\n1,2,3\n", now());
    assert!(outcome.created.is_empty());
    assert!(matches!(outcome.error, Some(ImportError::Format(FormatError::Unrecognized))));
    assert_eq!(store.len(), 0);
    let outcome = import_csv_data(&mut store, "", now());
    assert!(matches!(outcome.error, Some(ImportError::Format(FormatError::Empty))));
}

#[test]
fn coinbase_records_are_read_by_column_name() {
    let text = "Notes,Asset,ID,Timestamp,Transaction Type,Quantity Transacted,Price at Transaction,Subtotal,Total (inclusive of fees and/or spread),Fees and/or Spread,Extra\n\"Bought, twice\",BTC,id-1,2024-01-15T10:00:00Z,Buy,0.001,$50000,$50,$51,$1,x\n";
    let records = read_coinbase_records(text).unwrap();
    assert_eq!(records.len(), 1);
    assert_eq!(records[0].id, "id-1");
    assert_eq!(records[0].notes, "Bought, twice");
    assert_eq!(records[0].asset, "BTC");
    assert_eq!(records[0].timestamp, "2024-01-15T10:00:00Z");
    assert_eq!(records[0].transaction_type, "Buy");
    assert_eq!(records[0].quantity_transacted, "0.001");
    assert_eq!(records[0].price_at_transaction, "$50000");
    assert_eq!(records[0].subtotal, "$50");
    assert_eq!(records[0].total_inclusive, "$51");
    assert_eq!(records[0].fees_and_spread, "$1");
}

#[test]
fn a_missing_column_fails_the_first_row() {
    let text = "ID,Timestamp,Transaction Type,Asset\n1,2024-01-15T10:00:00Z,Buy,BTC\n";
    match read_coinbase_records(text) {
        Err(ImportError::MissingColumn(name)) => assert_eq!(name, "Quantity Transacted"),
        other => panic!("{:?}", other),
    }
    let text = "ID,Timestamp,Transaction Type,Asset\n";
    assert_eq!(read_coinbase_records(text).unwrap().len(), 0);
    let text = "Date,Sent Amount,Received Amount,Tag\n2024-01-15 10:30:45,1,2,Buy\n";
    match read_river_records(text) {
        Err(e) => assert_eq!(e.message(), "Failed to parse CSV record: missing column Sent Currency"),
        other => panic!("{:?}", other),
    }
}

#[test]
fn a_row_of_another_length_fails_the_table() {
    let text = format!("{}\n2024-01-15 10:30:45,100,USD,0.002,BTC,1,USD,Buy\n2024-01-16 10:30:45,100,USD\n", RIVER_HEADER);
    match read_river_records(&text) {
        Err(ImportError::Csv(message)) => assert!(!message.is_empty()),
        other => panic!("{:?}", other),
    }
    let mut store = TransactionStore::new();
    let outcome = import_csv_data(&mut store, &text, now());
    assert!(outcome.created.is_empty());
    assert!(matches!(outcome.error, Some(ImportError::Csv(_))));
    assert_eq!(store.len(), 0);
}

#[test]
fn provider_id_of_one_row_is_its_own_identifier() {
    assert_eq!(generate_coinbase_provider_id(&[record("abc-123")]), "coinbase_abc-123");
    assert_eq!(generate_coinbase_provider_id(&[record("")]), "coinbase_");
}

#[test]
fn provider_id_of_a_group_is_the_hash_of_its_sorted_identifiers() {
    let id = generate_coinbase_provider_id(&[record("a1"), record("a2"), record("a3")]);
    assert_eq!(id, "coinbase_group_b84339a9848b069e");
    let shuffled = generate_coinbase_provider_id(&[record("a3"), record("a1"), record("a2")]);
    assert_eq!(shuffled, id);
    assert_eq!(
        generate_coinbase_provider_id(&[record("tx-b"), record("tx-a")]),
        "coinbase_group_9b2065b5d991218e"
    );
    assert_eq!(generate_coinbase_provider_id(&[]), "coinbase_group_cbf29ce484222325");
    assert_ne!(
        generate_coinbase_provider_id(&[record("ab"), record("c")]),
        generate_coinbase_provider_id(&[record("a"), record("bc")])
    );
}

#[test]
fn three_fills_within_tolerance_make_one_transaction() {
    let text = coinbase(&[
        "a1,2024-01-15T10:00:00Z,Buy,BTC,0.001,$50000.00,$50.00,$50.00,$0.00,first",
        "a2,2024-01-15T10:00:03Z,Buy,BTC,0.002,$50000.00,$100.00,$100.00,$0.00,",
        "a3,2024-01-15T10:00:08Z,Buy,BTC,0.001,$50000.00,$50.00,$50.00,$0.00,third",
    ]);
    let mut store = TransactionStore::new();
    let outcome = import_csv_data(&mut store, &text, now());
    assert!(outcome.error.is_none());
    assert_eq!(outcome.created.len(), 1);
    let t = &outcome.created[0];
    assert_eq!(t.amount_sats, 400_000);
    assert_eq!(t.subtotal_cents, Some(20_000));
    assert_eq!(t.fee_cents, Some(0));
    assert_eq!(t.kind, TransactionType::Buy);
    assert_eq!(t.timestamp, Timestamp::new(1705312800, 0));
    assert_eq!(t.created_at, now());
    assert_eq!(t.provider_id.as_deref(), Some("coinbase_group_b84339a9848b069e"));
    assert_eq!(t.memo.as_deref(), Some("Coinbase (grouped 3 transactions): first, third"));
    assert_eq!(store.len(), 1);
    assert!(store.has_provider_id("coinbase_group_b84339a9848b069e"));
}

#[test]
fn a_third_fill_six_seconds_behind_the_second_stands_alone() {
    let text = coinbase(&[
        "a1,2024-01-15T10:00:00Z,Buy,BTC,0.001,$50000.00,$50.00,$50.00,$0.00,",
        "a2,2024-01-15T10:00:03Z,Buy,BTC,0.002,$50000.00,$100.00,$100.00,$0.00,",
        "a3,2024-01-15T10:00:09Z,Buy,BTC,0.001,$50000.00,$50.00,$50.00,$0.00,",
    ]);
    let mut store = TransactionStore::new();
    let outcome = import_csv_data(&mut store, &text, now());
    assert!(outcome.error.is_none());
    assert_eq!(outcome.created.len(), 2);
    assert_eq!(outcome.created[0].amount_sats, 300_000);
    assert_eq!(outcome.created[0].subtotal_cents, Some(15_000));
    assert_eq!(
        outcome.created[0].provider_id,
        Some(generate_coinbase_provider_id(&[record("a1"), record("a2")]))
    );
    assert_eq!(outcome.created[0].timestamp, Timestamp::new(1705312800, 0));
    assert_eq!(outcome.created[1].amount_sats, 100_000);
    assert_eq!(outcome.created[1].subtotal_cents, Some(5_000));
    assert_eq!(outcome.created[1].provider_id.as_deref(), Some("coinbase_a3"));
    assert_eq!(outcome.created[1].timestamp, Timestamp::new(1705312809, 0));
    let total: i64 = outcome.created.iter().map(|t| t.amount_sats).sum();
    assert_eq!(total, 400_000);
}

#[test]
fn importing_the_same_file_twice_creates_nothing_the_second_time() {
    let text = coinbase(&[
        "a1,2024-01-15T10:00:00Z,Buy,BTC,0.001,$50000.00,$50.00,$50.50,$0.50,",
        "b1,2024-01-16T10:00:00Z,Sell,BTC,0.002,$50000.00,$100.00,$99.00,$1.00,",
        "c1,2024-01-17T10:00:00Z,Advanced Trade Buy,BTC,0.003,$50000.00,$150.00,$151.00,$1.00,",
        "c2,2024-01-17T10:00:01Z,Advanced Trade Buy,BTC,0.003,$50000.00,$150.00,$151.00,$1.00,",
    ]);
    let mut store = TransactionStore::new();
    let first = import_csv_data(&mut store, &text, now());
    assert!(first.error.is_none());
    assert_eq!(first.created.len(), 3);
    assert_eq!(store.len(), 3);
    let second = import_csv_data(&mut store, &text, Timestamp::new(1_900_000_000, 0));
    assert!(second.error.is_none());
    assert_eq!(second.created.len(), 0);
    assert_eq!(store.len(), 3);
}

#[test]
fn an_overlapping_file_adds_only_what_is_new() {
    let mut store = TransactionStore::new();
    let first = coinbase(&["a1,2024-01-15T10:00:00Z,Buy,BTC,0.001,$50000.00,$50.00,$50.50,$0.50,"]);
    let second = coinbase(&[
        "a1,2024-01-15T10:00:00Z,Buy,BTC,0.001,$50000.00,$50.00,$50.50,$0.50,",
        "a2,2024-02-15T10:00:00Z,Buy,BTC,0.002,$50000.00,$100.00,$101,$1,",
    ]);
    assert_eq!(import_csv_data(&mut store, &first, now()).created.len(), 1);
    let outcome = import_csv_data(&mut store, &second, now());
    assert_eq!(outcome.created.len(), 1);
    assert_eq!(outcome.created[0].provider_id.as_deref(), Some("coinbase_a2"));
    assert_eq!(store.len(), 2);
}

fn groups_of(times: &[&str]) -> Vec<i64> {
    let rows: Vec<String> = times
        .iter()
        .enumerate()
        .map(|(i, t)| format!("id{},{},Buy,BTC,0.001,$1,$1,$1,$0,", i, t))
        .collect();
    let rows: Vec<&str> = rows.iter().map(|r| r.as_str()).collect();
    let mut store = TransactionStore::new();
    let outcome = process_coinbase_csv(&mut store, &coinbase(&rows), now());
    assert!(outcome.error.is_none());
    outcome.created.iter().map(|t| t.amount_sats / 100_000).collect()
}

#[test]
fn gaps_of_four_and_five_seconds_make_one_group() {
    assert_eq!(
        groups_of(&["2024-01-15T10:00:00Z", "2024-01-15T10:00:04Z", "2024-01-15T10:00:09Z"]),
        vec![3]
    );
}

#[test]
fn a_gap_of_six_seconds_makes_two_groups() {
    assert_eq!(groups_of(&["2024-01-15T10:00:00Z", "2024-01-15T10:00:06Z"]), vec![1, 1]);
}

#[test]
fn a_gap_of_exactly_five_seconds_combines() {
    assert_eq!(groups_of(&["2024-01-15T10:00:00Z", "2024-01-15T10:00:05Z"]), vec![2]);
    assert_eq!(groups_of(&["2024-01-15T10:00:00.500Z", "2024-01-15T10:00:05.500Z"]), vec![2]);
}

#[test]
fn a_gap_of_a_little_more_than_five_seconds_starts_a_new_group() {
    assert_eq!(groups_of(&["2024-01-15T10:00:00Z", "2024-01-15T10:00:05.010Z"]), vec![1, 1]);
    assert_eq!(groups_of(&["2024-01-15T10:00:00Z", "2024-01-15T10:00:05.000000001Z"]), vec![1, 1]);
}

#[test]
fn a_group_may_drift_beyond_the_tolerance() {
    assert_eq!(
        groups_of(&[
            "2024-01-15T10:00:00Z",
            "2024-01-15T10:00:05Z",
            "2024-01-15T10:00:10Z",
            "2024-01-15T10:00:15Z",
            "2024-01-15T10:00:21Z",
            "2024-01-15T10:00:22Z",
        ]),
        vec![4, 2]
    );
}

#[test]
fn rows_are_grouped_in_the_order_of_time_not_of_the_file() {
    assert_eq!(
        groups_of(&["2024-01-15T10:00:09Z", "2024-01-15T10:00:00Z", "2024-01-15 10:00:04 UTC"]),
        vec![3]
    );
    assert_eq!(
        groups_of(&["2024-01-15T10:01:00Z", "2024-01-15T10:00:00Z", "2024-01-15T10:00:57Z"]),
        vec![1, 2]
    );
}

#[test]
fn purchases_and_sales_are_grouped_apart() {
    let text = coinbase(&[
        "s1,2024-01-15T10:00:01Z,Sell,BTC,0.5,$50000,$25000,$24990,$10,sold",
        "b1,2024-01-15T10:00:00Z,Buy,BTC,0.001,$50000,$50,$51,$1,",
        "b2,2024-01-15T10:00:02Z,Buy,BTC,0.001,$50000,$50,$51,$1,",
        "e1,2024-01-15T10:00:02Z,Buy,ETH,1,$3000,$3000,$3010,$10,",
        "r1,2024-01-15T10:00:02Z,Receive,BTC,1,$50000,$50000,$50000,$0,",
    ]);
    let mut store = TransactionStore::new();
    let outcome = import_csv_data(&mut store, &text, now());
    assert!(outcome.error.is_none());
    assert_eq!(outcome.created.len(), 2);
    assert_eq!(outcome.created[0].kind, TransactionType::Buy);
    assert_eq!(outcome.created[0].amount_sats, 200_000);
    assert_eq!(outcome.created[0].subtotal_cents, Some(10_000));
    assert_eq!(outcome.created[0].fee_cents, Some(200));
    assert_eq!(outcome.created[0].memo.as_deref(), Some("Coinbase (grouped 2 transactions): "));
    assert_eq!(outcome.created[1].kind, TransactionType::Sell);
    assert_eq!(outcome.created[1].amount_sats, 50_000_000);
    assert_eq!(outcome.created[1].provider_id.as_deref(), Some("coinbase_s1"));
    assert_eq!(outcome.created[1].memo.as_deref(), Some("Coinbase: sold"));
}

#[test]
fn an_unreadable_amount_stops_the_import_but_keeps_what_was_created() {
    let text = coinbase(&[
        "a1,2024-01-15T10:00:00Z,Buy,BTC,0.001,$50000.00,$50.00,$50.50,$0.50,",
        "a2,2024-01-16T10:00:00Z,Buy,BTC,lots,$50000.00,$50.00,$50.50,$0.50,",
        "a3,2024-01-17T10:00:00Z,Buy,BTC,0.001,$50000.00,$50.00,$50.50,$0.50,",
    ]);
    let mut store = TransactionStore::new();
    let outcome = import_csv_data(&mut store, &text, now());
    assert_eq!(outcome.created.len(), 1);
    assert_eq!(outcome.created[0].provider_id.as_deref(), Some("coinbase_a1"));
    match &outcome.error {
        Some(ImportError::Parse(e)) => {
            assert_eq!(e.field, ParseField::BtcAmount);
            assert_eq!(e.value, "lots");
        }
        other => panic!("{:?}", other),
    }
    assert_eq!(store.len(), 1);
    let fixed = coinbase(&[
        "a1,2024-01-15T10:00:00Z,Buy,BTC,0.001,$50000.00,$50.00,$50.50,$0.50,",
        "a2,2024-01-16T10:00:00Z,Buy,BTC,0.002,$50000.00,$50.00,$50.50,$0.50,",
        "a3,2024-01-17T10:00:00Z,Buy,BTC,0.001,$50000.00,$50.00,$50.50,$0.50,",
    ]);
    let outcome = import_csv_data(&mut store, &fixed, now());
    assert!(outcome.error.is_none());
    assert_eq!(outcome.created.len(), 2);
    assert_eq!(store.len(), 3);
}

#[test]
fn an_unreadable_time_among_purchases_creates_nothing() {
    let text = coinbase(&[
        "a1,2024-01-15T10:00:00Z,Buy,BTC,0.001,$50000.00,$50.00,$50.50,$0.50,",
        "a2,someday,Buy,BTC,0.001,$50000.00,$50.00,$50.50,$0.50,",
    ]);
    let mut store = TransactionStore::new();
    let outcome = import_csv_data(&mut store, &text, now());
    assert!(outcome.created.is_empty());
    match &outcome.error {
        Some(ImportError::Parse(e)) => {
            assert_eq!(e.field, ParseField::CoinbaseTimestamp);
            assert_eq!(e.value, "someday");
        }
        other => panic!("{:?}", other),
    }
}

#[test]
fn an_unreadable_time_among_sales_comes_after_the_purchases() {
    let text = coinbase(&[
        "s1,someday,Sell,BTC,0.001,$50000.00,$50.00,$50.50,$0.50,",
        "a1,2024-01-15T10:00:00Z,Buy,BTC,0.001,$50000.00,$50.00,$50.50,$0.50,",
    ]);
    let mut store = TransactionStore::new();
    let outcome = import_csv_data(&mut store, &text, now());
    assert_eq!(outcome.created.len(), 1);
    assert!(matches!(outcome.error, Some(ImportError::Parse(_))));
    assert_eq!(store.len(), 1);
}

#[test]
fn a_known_group_is_passed_over_before_its_amounts_are_read() {
    let mut store = TransactionStore::new();
    let good = coinbase(&["a1,2024-01-15T10:00:00Z,Buy,BTC,0.001,$50,$50,$50,$0,"]);
    assert_eq!(import_csv_data(&mut store, &good, now()).created.len(), 1);
    let bad = coinbase(&["a1,2024-01-15T10:00:00Z,Buy,BTC,unreadable,$50,$50,$50,$0,"]);
    let outcome = import_csv_data(&mut store, &bad, now());
    assert!(outcome.error.is_none());
    assert!(outcome.created.is_empty());
}

#[test]
fn river_rows_become_transactions() {
    let text = river(&[
        "2024-01-16 10:30:45,0.002,BTC,95.00,USD,0.50,USD,Sell",
        "2024-01-15 10:30:45,100.00,USD,0.00200000,BTC,1.00,USD,Buy",
        "2024-01-17 10:30:45,0.001,BTC,,,,,Withdrawal",
        "2024-01-18 10:30:45,100.00,EUR,0.002,BTC,1.00,EUR,Buy",
    ]);
    let mut store = TransactionStore::new();
    let outcome = import_csv_data(&mut store, &text, now());
    assert!(outcome.error.is_none());
    assert_eq!(outcome.created.len(), 2);
    let buy = &outcome.created[0];
    assert_eq!(buy.kind, TransactionType::Buy);
    assert_eq!(buy.amount_sats, 200_000);
    assert_eq!(buy.subtotal_cents, Some(10_000));
    assert_eq!(buy.fee_cents, Some(100));
    assert_eq!(buy.memo.as_deref(), Some("River"));
    assert_eq!(buy.timestamp, Timestamp::new(1705314645, 0));
    assert_eq!(buy.provider_id.as_deref(), Some("river_1705314645_200000"));
    let sell = &outcome.created[1];
    assert_eq!(sell.kind, TransactionType::Sell);
    assert_eq!(sell.amount_sats, 200_000);
    assert_eq!(sell.subtotal_cents, Some(9_500));
    assert_eq!(sell.fee_cents, Some(50));
    assert_eq!(sell.provider_id.as_deref(), Some("river_1705401045_200000"));
}

#[test]
fn river_transactions_of_one_second_and_amount_count_as_one() {
    let text = river(&[
        "2024-01-15 10:30:45,100.00,USD,0.002,BTC,1.00,USD,Buy",
        "2024-01-15 10:30:45,101.00,USD,0.002,BTC,1.00,USD,Buy",
    ]);
    let mut store = TransactionStore::new();
    let outcome = process_river_csv(&mut store, &text, now());
    assert!(outcome.error.is_none());
    assert_eq!(outcome.created.len(), 1);
    assert_eq!(outcome.created[0].subtotal_cents, Some(10_000));
    let again = process_river_csv(&mut store, &text, now());
    assert!(again.created.is_empty());
    assert_eq!(store.len(), 1);
}

#[test]
fn an_unreadable_river_date_stops_the_import_behind_the_rows_that_can_be_read() {
    let text = river(&[
        "someday,100.00,USD,0.002,BTC,1.00,USD,Buy",
        "2024-01-15 10:30:45,100.00,USD,0.002,BTC,1.00,USD,Buy",
    ]);
    let mut store = TransactionStore::new();
    let outcome = import_csv_data(&mut store, &text, now());
    assert_eq!(outcome.created.len(), 1);
    match &outcome.error {
        Some(ImportError::Parse(e)) => {
            assert_eq!(e.field, ParseField::RiverTimestamp);
            assert_eq!(e.value, "someday");
        }
        other => panic!("{:?}", other),
    }
    assert_eq!(
        outcome.error.as_ref().map(|e| e.message()),
        Some(String::from("Failed to parse River timestamp 'someday'"))
    );
}

#[test]
fn an_unreadable_river_amount_stops_the_import() {
    let text = river(&["2024-01-15 10:30:45,lots,USD,0.002,BTC,1.00,USD,Buy"]);
    let mut store = TransactionStore::new();
    let outcome = import_csv_data(&mut store, &text, now());
    assert!(outcome.created.is_empty());
    match &outcome.error {
        Some(ImportError::Parse(e)) => {
            assert_eq!(e.field, ParseField::UsdAmount);
            assert_eq!(e.value, "lots");
        }
        other => panic!("{:?}", other),
    }
}

#[test]
fn analyze_counts_rows_without_writing() {
    let text = coinbase(&[
        "a1,2024-01-15T10:00:00Z,Buy,BTC,0.001,$50000.00,$50.00,$50.50,$0.50,",
        "a2,2024-01-15T10:00:00Z,Advanced Trade Sell,BTC,0.001,$50000.00,$50.00,$50.50,$0.50,",
        "a3,2024-01-15T10:00:00Z,Buy,ETH,0.001,$50000.00,$50.00,$50.50,$0.50,",
        "a4,2024-01-15T10:00:00Z,Send,BTC,0.001,$50000.00,$50.00,$50.50,$0.50,",
        "a5,too,short",
    ]);
    let preview = analyze_csv_file(&text).unwrap();
    assert_eq!(preview.format, "Coinbase");
    assert_eq!(preview.headers_found_at_line, 4);
    assert_eq!(preview.total_rows_in_file, 4);
    assert_eq!(preview.bitcoin_transactions_found, 2);
}

#[test]
fn analyze_of_a_river_file() {
    let text = river(&[
        "2024-01-16 10:30:45,0.002,BTC,95.00,USD,0.50,USD,Sell",
        "2024-01-15 10:30:45,100.00,USD,0.00200000,BTC,1.00,USD,Buy",
        "2024-01-17 10:30:45,0.001,BTC,,,,,Withdrawal",
    ]);
    let preview = analyze_csv_file(&text).unwrap();
    assert_eq!(preview.format, "River");
    assert_eq!(preview.headers_found_at_line, 1);
    assert_eq!(preview.total_rows_in_file, 3);
    assert_eq!(preview.bitcoin_transactions_found, 2);
}

#[test]
fn analyze_of_an_unknown_file() {
    assert_eq!(analyze_csv_file("a,b\n1,2\n").unwrap_err(), FormatError::Unrecognized);
    assert_eq!(analyze_csv_file("").unwrap_err(), FormatError::Empty);
}
