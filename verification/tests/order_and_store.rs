use sat_tracker::encryption::{
    check_database_status, insert_statement_for, validate_database_password, DatabaseProbe,
    DatabaseStatus, PasswordProbe,
};
use sat_tracker::menu::{
    create_menu, event_of_entry, id_of_entry, label_of_entry, menu_action, MenuAction, MenuEntry,
};
use sat_tracker::models::{
    BalanceChangeType, BuyEvent, CreateBitcoinTransactionRequest, LogicalTransaction,
    TransactionType,
};
use sat_tracker::order::sort_order;
use sat_tracker::pagination::{paginate, PageInfo};
use sat_tracker::store::TransactionStore;
use sat_tracker::time::Timestamp;

fn tx(kind: TransactionType, secs: i64, sats: i64, id: Option<&str>) -> LogicalTransaction {
    LogicalTransaction::create(
        CreateBitcoinTransactionRequest {
            kind,
            amount_sats: sats,
            subtotal_cents: Some(100),
            fee_cents: None,
            memo: None,
            timestamp: Timestamp::new(secs, 0),
            provider_id: id.map(String::from),
        },
        Timestamp::new(999, 0),
    )
}

#[test]
fn sort_order_is_ascending_and_stable() {
    assert_eq!(sort_order(&vec![]), Vec::<usize>::new());
    assert_eq!(sort_order(&vec![5]), vec![0]);
    assert_eq!(sort_order(&vec![3, 1, 2]), vec![1, 2, 0]);
    assert_eq!(sort_order(&vec![2, 1, 2, 1, 2]), vec![1, 3, 0, 2, 4]);
    assert_eq!(sort_order(&vec![i128::MAX, -1, i128::MIN, 0]), vec![2, 1, 3, 0]);
    assert_eq!(sort_order(&vec![1, 2, 3, 4]), vec![0, 1, 2, 3]);
    assert_eq!(sort_order(&vec![4, 3, 2, 1]), vec![3, 2, 1, 0]);
}

#[test]
fn create_stamps_the_time_of_creation() {
    let t = tx(TransactionType::Buy, 5, 70, Some("a"));
    assert_eq!(t.amount_sats, 70);
    assert_eq!(t.subtotal_cents, Some(100));
    assert_eq!(t.fee_cents, None);
    assert_eq!(t.kind, TransactionType::Buy);
    assert_eq!(t.timestamp, Timestamp::new(5, 0));
    assert_eq!(t.provider_id.as_deref(), Some("a"));
    assert_eq!(t.created_at, Timestamp::new(999, 0));
    let copy = t.duplicate();
    assert_eq!(copy.provider_id.as_deref(), Some("a"));
    assert_eq!(copy.created_at, Timestamp::new(999, 0));
}

#[test]
fn store_starts_empty() {
    let store = TransactionStore::new();
    assert_eq!(store.len(), 0);
    assert!(!store.has_provider_id("a"));
    assert!(store.list_buy_events().is_empty());
}

#[test]
fn insert_of_a_known_identity_changes_nothing() {
    let mut store = TransactionStore::new();
    assert!(store.insert(tx(TransactionType::Buy, 1, 10, Some("a"))));
    assert!(store.has_provider_id("a"));
    assert!(!store.has_provider_id("b"));
    assert!(!store.insert(tx(TransactionType::Sell, 2, 20, Some("a"))));
    assert_eq!(store.len(), 1);
    assert_eq!(store.get(0).amount_sats, 10);
    assert_eq!(store.get(0).kind, TransactionType::Buy);
    assert!(store.insert(tx(TransactionType::Sell, 2, 20, Some("b"))));
    assert_eq!(store.len(), 2);
}

#[test]
fn transactions_without_identity_are_always_inserted() {
    let mut store = TransactionStore::new();
    assert!(store.insert(tx(TransactionType::Buy, 1, 10, None)));
    assert!(store.insert(tx(TransactionType::Buy, 1, 10, None)));
    assert_eq!(store.len(), 2);
    assert!(!store.has_provider_id(""));
}

#[test]
fn list_buy_events_gives_purchases_in_the_order_of_time() {
    let mut store = TransactionStore::new();
    store.insert(tx(TransactionType::Buy, 30, 3, Some("c")));
    store.insert(tx(TransactionType::Sell, 5, 99, Some("s")));
    store.insert(tx(TransactionType::Buy, 10, 1, Some("a")));
    store.insert(tx(TransactionType::Buy, 30, 4, Some("d")));
    store.insert(tx(TransactionType::Buy, 20, 2, None));
    let events = store.list_buy_events();
    assert_eq!(
        events,
        vec![
            BuyEvent { timestamp: Timestamp::new(10, 0), amount_sats: 1 },
            BuyEvent { timestamp: Timestamp::new(20, 0), amount_sats: 2 },
            BuyEvent { timestamp: Timestamp::new(30, 0), amount_sats: 3 },
            BuyEvent { timestamp: Timestamp::new(30, 0), amount_sats: 4 },
        ]
    );
}

#[test]
fn transaction_type_is_read_whatever_the_case() {
    assert_eq!(TransactionType::from_str("buy"), Ok(TransactionType::Buy));
    assert_eq!(TransactionType::from_str("BUY"), Ok(TransactionType::Buy));
    assert_eq!(TransactionType::from_str("Sell"), Ok(TransactionType::Sell));
    assert_eq!(TransactionType::try_from(String::from("sElL")), Ok(TransactionType::Sell));
    assert_eq!(
        TransactionType::from_str("fee"),
        Err(String::from("Invalid transaction type: fee"))
    );
    assert_eq!(TransactionType::from_str(""), Err(String::from("Invalid transaction type: ")));
    assert_eq!(
        TransactionType::from_lowercase("BUY", "BUY"),
        Err(String::from("Invalid transaction type: BUY"))
    );
}

#[test]
fn transaction_type_is_written_in_lower_case() {
    assert_eq!(TransactionType::Buy.to_string(), "buy");
    assert_eq!(TransactionType::Sell.to_string(), "sell");
}

#[test]
fn balance_change_type_is_read_letter_for_letter() {
    assert_eq!(BalanceChangeType::from_str("Buy"), Ok(BalanceChangeType::Buy));
    assert_eq!(BalanceChangeType::from_str("Sell"), Ok(BalanceChangeType::Sell));
    assert_eq!(BalanceChangeType::try_from(String::from("Fee")), Ok(BalanceChangeType::Fee));
    assert_eq!(BalanceChangeType::from_str("buy"), Err(String::from("Invalid event type: buy")));
    assert_eq!(BalanceChangeType::Buy.to_string(), "Buy");
    assert_eq!(BalanceChangeType::Sell.to_string(), "Sell");
    assert_eq!(BalanceChangeType::Fee.to_string(), "Fee");
}

#[test]
fn api_host_depends_on_the_build() {
    assert_eq!(sat_tracker::api::get_api_host(true), "http://localhost:3000");
    assert_eq!(sat_tracker::api::get_api_host(false), "https://dprogram.me");
}

#[test]
fn pages_cover_the_list() {
    assert_eq!(paginate(0, 0, 10), PageInfo { offset: 0, total_pages: 0, has_more: false });
    assert_eq!(paginate(1, 0, 10), PageInfo { offset: 0, total_pages: 1, has_more: false });
    assert_eq!(paginate(10, 0, 10), PageInfo { offset: 0, total_pages: 1, has_more: false });
    assert_eq!(paginate(11, 0, 10), PageInfo { offset: 0, total_pages: 2, has_more: true });
    assert_eq!(paginate(11, 1, 10), PageInfo { offset: 10, total_pages: 2, has_more: false });
    assert_eq!(paginate(95, 8, 10), PageInfo { offset: 80, total_pages: 10, has_more: true });
    assert_eq!(paginate(95, 9, 10), PageInfo { offset: 90, total_pages: 10, has_more: false });
    assert_eq!(paginate(-3, 0, 10), PageInfo { offset: 0, total_pages: 0, has_more: false });
    assert_eq!(paginate(5, 3, 0), PageInfo { offset: 0, total_pages: u32::MAX, has_more: true });
    assert_eq!(paginate(0, 3, 0), PageInfo { offset: 0, total_pages: 0, has_more: false });
    assert_eq!(
        paginate(i64::MAX, u32::MAX, u32::MAX),
        PageInfo { offset: i64::MAX, total_pages: 2147483649, has_more: false }
    );
    assert_eq!(paginate(i64::MAX, 7, 1), PageInfo { offset: 7, total_pages: u32::MAX, has_more: true });
}

#[test]
fn page_counts_agree_with_the_ceiling_of_the_ratio() {
    for total in -5i64..200 {
        for size in 0u32..20 {
            let want = ((total as f64) / (size as f64)).ceil() as u32;
            assert_eq!(paginate(total, 0, size).total_pages, want, "{total} {size}");
        }
    }
}

#[test]
fn service_addresses_depend_on_the_build() {
    assert_eq!(
        sat_tracker::api::bitcoin_price_url(true),
        "http://localhost:3000/api/proxy/sat-tracker/bitcoin-price"
    );
    assert_eq!(
        sat_tracker::api::bitcoin_price_url(false),
        "https://dprogram.me/api/proxy/sat-tracker/bitcoin-price"
    );
    assert_eq!(
        sat_tracker::api::announcements_url(false),
        "https://dprogram.me/api/proxy/sat-tracker/announcements"
    );
    assert_eq!(sat_tracker::api::user_agent("1.2.3"), "SatTracker/1.2.3");
}

#[test]
fn a_database_that_is_missing_or_readable_is_not_encrypted() {
    let plain = DatabaseStatus { is_encrypted: false, needs_password: false };
    assert_eq!(check_database_status(&DatabaseProbe::Missing), Ok(plain));
    assert_eq!(check_database_status(&DatabaseProbe::Readable), Ok(plain));
}

#[test]
fn errors_that_speak_of_encryption_mean_an_encrypted_database() {
    let locked = DatabaseStatus { is_encrypted: true, needs_password: true };
    let plain = DatabaseStatus { is_encrypted: false, needs_password: false };
    let query = |m: &str| check_database_status(&DatabaseProbe::QueryFailed(String::from(m)));
    let open = |m: &str| check_database_status(&DatabaseProbe::OpenFailed(String::from(m)));
    assert_eq!(query("File is not a database"), Ok(locked));
    assert_eq!(query("file is encrypted or is not a database"), Ok(locked));
    assert_eq!(query("SQLCipher: bad key"), Ok(locked));
    assert_eq!(query("disk I/O error"), Ok(plain));
    assert_eq!(query("encrypted"), Ok(plain));
    assert_eq!(open("database is ENCRYPTED"), Ok(locked));
    assert_eq!(open("unknown cipher"), Ok(locked));
    assert_eq!(
        open("unable to open database file"),
        Err(String::from("Failed to check database: unable to open database file"))
    );
    assert_eq!(
        open("file is not a database"),
        Err(String::from("Failed to check database: file is not a database"))
    );
}

#[test]
fn a_password_is_valid_if_the_database_can_be_read_with_it() {
    let result = validate_database_password(&PasswordProbe::Readable);
    assert!(result.is_valid);
    assert_eq!(result.error_message, None);
    let result = validate_database_password(&PasswordProbe::Missing);
    assert!(!result.is_valid);
    assert_eq!(result.error_message.as_deref(), Some("Database does not exist"));
    let result = validate_database_password(&PasswordProbe::KeyRejected(String::from("no")));
    assert!(!result.is_valid);
    assert_eq!(result.error_message.as_deref(), Some("Failed to set key: no"));
    let result =
        validate_database_password(&PasswordProbe::QueryFailed(String::from("File is not a database")));
    assert!(!result.is_valid);
    assert_eq!(result.error_message.as_deref(), Some("Incorrect password. Please try again."));
    let result = validate_database_password(&PasswordProbe::QueryFailed(String::from("disk full")));
    assert!(!result.is_valid);
    assert_eq!(result.error_message.as_deref(), Some("Database error: disk full"));
}

#[test]
fn insert_statements_have_one_placeholder_for_each_column() {
    assert_eq!(insert_statement_for("t", 0), "INSERT INTO t VALUES ()");
    assert_eq!(insert_statement_for("t", 1), "INSERT INTO t VALUES (?)");
    assert_eq!(insert_statement_for("onchain_fees", 3), "INSERT INTO onchain_fees VALUES (?, ?, ?)");
}

#[test]
fn a_locked_database_leaves_only_quit_in_the_menu() {
    assert_eq!(create_menu(false), vec![MenuEntry::Quit]);
    assert_eq!(
        create_menu(true),
        vec![
            MenuEntry::ImportV1,
            MenuEntry::ImportCsv,
            MenuEntry::AddLumpsum,
            MenuEntry::Separator,
            MenuEntry::EncryptionSettings,
            MenuEntry::Separator,
            MenuEntry::Quit,
        ]
    );
}

#[test]
fn a_choice_from_the_menu_tells_the_window_or_ends() {
    assert_eq!(menu_action("quit"), MenuAction::Exit);
    assert_eq!(menu_action("import_csv"), MenuAction::Notify(MenuEntry::ImportCsv));
    assert_eq!(menu_action("Import_csv"), MenuAction::Nothing);
    assert_eq!(menu_action(""), MenuAction::Nothing);
    for entry in create_menu(true) {
        match menu_action(id_of_entry(entry)) {
            MenuAction::Notify(told) => assert_eq!(told, entry),
            MenuAction::Exit => assert_eq!(entry, MenuEntry::Quit),
            MenuAction::Nothing => assert_eq!(entry, MenuEntry::Separator),
        }
    }
    assert_eq!(event_of_entry(MenuEntry::ImportV1), "menu-import-v1");
    assert_eq!(event_of_entry(MenuEntry::ImportCsv), "menu-import-csv");
    assert_eq!(event_of_entry(MenuEntry::AddLumpsum), "menu-add-lumpsum");
    assert_eq!(event_of_entry(MenuEntry::EncryptionSettings), "menu-encryption-settings");
    assert_eq!(label_of_entry(MenuEntry::ImportV1), "Import Sat Tracker v1 Data");
    assert_eq!(label_of_entry(MenuEntry::EncryptionSettings), "Database Encryption...");
    assert_eq!(label_of_entry(MenuEntry::Quit), "Quit");
}
