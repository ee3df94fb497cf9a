//! Taking over the records of the tracker's first version.
//!
//! The first version kept purchases and deductions in two tables, with dates
//! in several shapes. A row whose date cannot be read is reported and passed
//! over; it does not stop the others.
use crate::models::{
    copy_opt_text, created_from, opt_text, transaction_views, CreateBitcoinTransactionRequest,
    LogicalTransaction, RequestView, TransactionType, TransactionView,
};
use crate::store::{holds_identity, TransactionStore};
use crate::text::{
    append_str, decimal_text, push_decimal, push_signed_decimal, signed_decimal_text,
    string_from_chars,
};
use crate::time::{
    chrono_parse_naive, chrono_parse_rfc3339, chrono_parse_zoned, naive_datetime_instant,
    plain_format, rfc3339_instant, zoned_datetime_instant, Timestamp,
};
use vstd::prelude::*;

verus! {

/// The pattern of a date with milliseconds and zone:
/// `2024-01-15 10:30:45.123 +00:00`.
pub open spec fn zoned_format() -> Seq<char> {
    "%Y-%m-%d %H:%M:%S%.3f %z"@
}

/// The instant that the first version wrote as `text`: an RFC 3339 date and
/// time, or else a date with milliseconds and zone, or else a plain date
/// and time meant as UTC.
pub open spec fn legacy_instant(text: Seq<char>) -> Option<Timestamp> {
    if rfc3339_instant(text) is Some {
        rfc3339_instant(text)
    } else if zoned_datetime_instant(text, zoned_format()) is Some {
        zoned_datetime_instant(text, zoned_format())
    } else {
        naive_datetime_instant(text, plain_format())
    }
}

/// Reads a date of the first version.
pub fn parse_legacy_timestamp(text: &str) -> (r: Option<Timestamp>)
    ensures
        r == legacy_instant(text@),
{
    if let Some(t) = chrono_parse_rfc3339(text) {
        return Some(t);
    }
    if let Some(t) = chrono_parse_zoned(text, "%Y-%m-%d %H:%M:%S%.3f %z") {
        return Some(t);
    }
    chrono_parse_naive(text, "%Y-%m-%d %H:%M:%S")
}

/// Which table of the first version a row comes from.
#[derive(Clone, Copy, Debug, PartialEq, Eq, Structural)]
pub enum LegacyTable {
    /// A purchase.
    Buy,
    /// A deduction, taken over as a sale for nothing.
    Deduction,
}

/// A row of the first version.
#[derive(Debug)]
pub struct LegacyRecord {
    pub table: LegacyTable,
    pub date: String,
    pub amount_sats: i64,
    /// The cents paid; nothing for a deduction.
    pub value_cents: i64,
    pub memo: Option<String>,
}

/// What a [`LegacyRecord`] holds, as plain values.
pub struct LegacyRecordView {
    pub table: LegacyTable,
    pub date: Seq<char>,
    pub amount_sats: i64,
    pub value_cents: i64,
    pub memo: Option<Seq<char>>,
}

impl View for LegacyRecord {
    type V = LegacyRecordView;

    open spec fn view(&self) -> LegacyRecordView {
        LegacyRecordView {
            table: self.table,
            date: self.date@,
            amount_sats: self.amount_sats,
            value_cents: self.value_cents,
            memo: opt_text(self.memo),
        }
    }
}

/// What the records of a sequence hold.
pub open spec fn legacy_views(records: Seq<LegacyRecord>) -> Seq<LegacyRecordView> {
    records.map_values(|r: LegacyRecord| r@)
}

/// The identity of a row that was taken over: its table, its time in
/// seconds since the epoch and its amount.
pub open spec fn legacy_provider_id(table: LegacyTable, secs: i64, sats: i64) -> Seq<char> {
    (match table {
        LegacyTable::Buy => "stv1-import-"@,
        LegacyTable::Deduction => "stv1-deduction-"@,
    }) + signed_decimal_text(secs as int) + "_"@ + signed_decimal_text(sats as int)
}

/// Writes the identity of a row that was taken over.
pub fn legacy_id(table: LegacyTable, secs: i64, sats: i64) -> (id: String)
    ensures
        id@ == legacy_provider_id(table, secs, sats),
{
    let mut out: Vec<char> = Vec::new();
    match table {
        LegacyTable::Buy => append_str(&mut out, "stv1-import-"),
        LegacyTable::Deduction => append_str(&mut out, "stv1-deduction-"),
    }
    push_signed_decimal(&mut out, secs);
    append_str(&mut out, "_");
    push_signed_decimal(&mut out, sats);
    assert(out@ =~= legacy_provider_id(table, secs, sats));
    string_from_chars(&out)
}

/// What is reported for a row whose date cannot be read.
pub open spec fn legacy_date_error(r: LegacyRecordView) -> Seq<char> {
    (match r.table {
        LegacyTable::Buy => "Failed to parse timestamp '"@,
        LegacyTable::Deduction => "Failed to parse deduction timestamp '"@,
    }) + r.date + "'"@
}

/// The request for the transaction that a row is taken over as, its date
/// having been read as `t`: a purchase for what was paid, or a sale for
/// nothing; no fee either way.
pub open spec fn legacy_request(r: LegacyRecordView, t: Timestamp) -> RequestView {
    RequestView {
        kind: match r.table {
            LegacyTable::Buy => TransactionType::Buy,
            LegacyTable::Deduction => TransactionType::Sell,
        },
        amount_sats: r.amount_sats,
        subtotal_cents: Some(
            match r.table {
                LegacyTable::Buy => r.value_cents,
                LegacyTable::Deduction => 0i64,
            },
        ),
        fee_cents: Some(0i64),
        memo: r.memo,
        timestamp: t,
        provider_id: Some(legacy_provider_id(r.table, t.secs, r.amount_sats)),
    }
}

/// How taking over ends.
pub struct TakenOver {
    /// The log of the store afterwards.
    pub log: Seq<TransactionView>,
    /// The transactions that were created, in the order of creation.
    pub created: Seq<TransactionView>,
    /// What was reported, in the order of the rows.
    pub errors: Seq<Seq<char>>,
}

/// How taking over `records` into a store with the log `log` ends: row by
/// row, a row whose date cannot be read is reported, a row whose identity
/// the store holds is passed over, and the others are created at `now`.
pub open spec fn taken_over(log: Seq<TransactionView>, records: Seq<LegacyRecordView>, now: Timestamp)
    -> TakenOver
    decreases records.len(),
{
    if records.len() == 0 {
        TakenOver { log, created: Seq::empty(), errors: Seq::empty() }
    } else {
        let r = records[0];
        let rest = records.skip(1);
        match legacy_instant(r.date) {
            None => {
                let after = taken_over(log, rest, now);
                TakenOver { errors: seq![legacy_date_error(r)] + after.errors, ..after }
            },
            Some(t) => {
                let request = legacy_request(r, t);
                if holds_identity(log, request.provider_id->0) {
                    taken_over(log, rest, now)
                } else {
                    let tx = created_from(request, now);
                    let after = taken_over(log.push(tx), rest, now);
                    TakenOver { created: seq![tx] + after.created, ..after }
                }
            },
        }
    }
}

/// An identity that the store holds is still held after taking over.
pub proof fn lemma_taken_over_keeps(
    log: Seq<TransactionView>,
    records: Seq<LegacyRecordView>,
    now: Timestamp,
    provider_id: Seq<char>,
)
    requires
        holds_identity(log, provider_id),
    ensures
        holds_identity(taken_over(log, records, now).log, provider_id),
    decreases records.len(),
{
    if records.len() > 0 {
        let r = records[0];
        let rest = records.skip(1);
        match legacy_instant(r.date) {
            None => lemma_taken_over_keeps(log, rest, now, provider_id),
            Some(t) => {
                let request = legacy_request(r, t);
                if holds_identity(log, request.provider_id->0) {
                    lemma_taken_over_keeps(log, rest, now, provider_id);
                } else {
                    let tx = created_from(request, now);
                    let i = choose|i: int|
                        0 <= i < log.len() && (#[trigger] log[i]).provider_id == Some(provider_id);
                    assert(log.push(tx)[i].provider_id == Some(provider_id));
                    lemma_taken_over_keeps(log.push(tx), rest, now, provider_id);
                }
            },
        }
    }
}

/// Taking the same rows over twice creates nothing the second time: the
/// store stays as the first run left it, and the same rows are reported.
pub proof fn lemma_taken_over_twice(
    log: Seq<TransactionView>,
    records: Seq<LegacyRecordView>,
    first: Timestamp,
    second: Timestamp,
)
    ensures
        ({
            let once = taken_over(log, records, first);
            let twice = taken_over(once.log, records, second);
            &&& twice.log == once.log
            &&& twice.created == Seq::<TransactionView>::empty()
            &&& twice.errors == once.errors
        }),
    decreases records.len(),
{
    if records.len() > 0 {
        let r = records[0];
        let rest = records.skip(1);
        match legacy_instant(r.date) {
            None => lemma_taken_over_twice(log, rest, first, second),
            Some(t) => {
                let request = legacy_request(r, t);
                let id = request.provider_id->0;
                if holds_identity(log, id) {
                    lemma_taken_over_keeps(log, rest, first, id);
                    lemma_taken_over_twice(log, rest, first, second);
                } else {
                    let tx = created_from(request, first);
                    let grown = log.push(tx);
                    assert(grown[log.len() as int].provider_id == Some(id));
                    assert(holds_identity(grown, id));
                    lemma_taken_over_keeps(grown, rest, first, id);
                    lemma_taken_over_twice(grown, rest, first, second);
                }
            },
        }
    }
}

/// What taking over gives back.
#[derive(Debug)]
pub struct LegacyOutcome {
    pub created: Vec<LogicalTransaction>,
    pub errors: Vec<String>,
}

/// The texts of strings.
pub open spec fn string_views(items: Seq<String>) -> Seq<Seq<char>> {
    items.map_values(|s: String| s@)
}

/// Takes the rows of the first version over into the store.
pub fn import_legacy_records(store: &mut TransactionStore, records: &Vec<LegacyRecord>, now: Timestamp)
    -> (outcome: LegacyOutcome)
    ensures
        ({
            let end = taken_over(old(store)@, legacy_views(records@), now);
            &&& final(store)@ == end.log
            &&& transaction_views(outcome.created@) == end.created
            &&& string_views(outcome.errors@) == end.errors
        }),
{
    let ghost all = legacy_views(records@);
    let ghost start = store@;
    let mut created: Vec<LogicalTransaction> = Vec::new();
    let mut errors: Vec<String> = Vec::new();
    let mut i: usize = 0;
    assert(all.skip(0) =~= all);
    assert(transaction_views(created@) =~= Seq::<TransactionView>::empty());
    assert(string_views(errors@) =~= Seq::<Seq<char>>::empty());
    while i < records.len()
        invariant
            i <= records.len(),
            all == legacy_views(records@),
            start == old(store)@,
            ({
                let end = taken_over(start, all, now);
                let rest = taken_over(store@, all.skip(i as int), now);
                &&& end.log == rest.log
                &&& end.created == transaction_views(created@) + rest.created
                &&& end.errors == string_views(errors@) + rest.errors
            }),
        decreases records.len() - i,
    {
        let r = &records[i];
        proof {
            assert(all.skip(i as int)[0] == r@);
            assert(all.skip(i as int).skip(1) =~= all.skip(i + 1));
        }
        match parse_legacy_timestamp(r.date.as_str()) {
            None => {
                let mut out: Vec<char> = Vec::new();
                match r.table {
                    LegacyTable::Buy => append_str(&mut out, "Failed to parse timestamp '"),
                    LegacyTable::Deduction => append_str(
                        &mut out,
                        "Failed to parse deduction timestamp '",
                    ),
                }
                append_str(&mut out, r.date.as_str());
                append_str(&mut out, "'");
                assert(out@ =~= legacy_date_error(r@));
                let ghost before = string_views(errors@);
                errors.push(string_from_chars(&out));
                proof {
                    assert(string_views(errors@) =~= before.push(legacy_date_error(r@)));
                    let rest = taken_over(store@, all.skip(i + 1), now);
                    assert(before + (seq![legacy_date_error(r@)] + rest.errors) =~= before.push(
                        legacy_date_error(r@),
                    ) + rest.errors);
                }
            },
            Some(t) => {
                let id = legacy_id(r.table, t.secs, r.amount_sats);
                if !store.has_provider_id(id.as_str()) {
                    let request = CreateBitcoinTransactionRequest {
                        kind: match r.table {
                            LegacyTable::Buy => TransactionType::Buy,
                            LegacyTable::Deduction => TransactionType::Sell,
                        },
                        amount_sats: r.amount_sats,
                        subtotal_cents: Some(
                            match r.table {
                                LegacyTable::Buy => r.value_cents,
                                LegacyTable::Deduction => 0,
                            },
                        ),
                        fee_cents: Some(0),
                        memo: copy_opt_text(&r.memo),
                        timestamp: t,
                        provider_id: Some(id),
                    };
                    assert(request@ == legacy_request(r@, t));
                    let tx = LogicalTransaction::create(request, now);
                    let ghost added = tx@;
                    let ghost before = transaction_views(created@);
                    created.push(tx.duplicate());
                    store.insert(tx);
                    proof {
                        assert(transaction_views(created@) =~= before.push(added));
                        let rest = taken_over(store@, all.skip(i + 1), now);
                        assert(before + (seq![added] + rest.created) =~= before.push(added)
                            + rest.created);
                    }
                }
            },
        }
        i += 1;
    }
    proof {
        assert(transaction_views(created@) + Seq::<TransactionView>::empty()
            =~= transaction_views(created@));
        assert(string_views(errors@) + Seq::<Seq<char>>::empty() =~= string_views(errors@));
    }
    LegacyOutcome { created, errors }
}

/// The lines that list errors: the first `upto` of them, each behind a
/// dash on a line of its own.
pub open spec fn error_lines(errors: Seq<Seq<char>>, upto: int) -> Seq<char>
    decreases upto,
{
    if upto <= 0 {
        Seq::empty()
    } else {
        error_lines(errors, upto - 1) + "\n- "@ + errors[upto - 1]
    }
}

/// What is said of a run in which `imported` rows were taken over and
/// `errors` were reported: the count, and, where there are errors, their
/// number, the first five of them, and how many more there are.
pub open spec fn import_summary(imported: nat, errors: Seq<Seq<char>>) -> Seq<char> {
    let head = "Import completed: "@ + decimal_text(imported) + " records imported successfully"@;
    if errors.len() == 0 {
        head
    } else {
        let listed = head + "\n"@ + decimal_text(errors.len()) + " errors occurred:"@ + error_lines(
            errors,
            if errors.len() < 5 {
                errors.len() as int
            } else {
                5
            },
        );
        if errors.len() > 5 {
            listed + "\n... and "@ + decimal_text((errors.len() - 5) as nat) + " more errors"@
        } else {
            listed
        }
    }
}

/// Writes what is said of a run.
pub fn summarize_import(imported: usize, errors: &Vec<String>) -> (summary: String)
    ensures
        summary@ == import_summary(imported as nat, string_views(errors@)),
{
    let ghost all = string_views(errors@);
    let mut out: Vec<char> = Vec::new();
    append_str(&mut out, "Import completed: ");
    push_decimal(&mut out, imported as u64);
    append_str(&mut out, " records imported successfully");
    let ghost head = out@;
    assert(head =~= "Import completed: "@ + decimal_text(imported as nat)
        + " records imported successfully"@);
    if errors.len() > 0 {
        append_str(&mut out, "\n");
        push_decimal(&mut out, errors.len() as u64);
        append_str(&mut out, " errors occurred:");
        let ghost top = out@;
        let shown: usize = if errors.len() < 5 {
            errors.len()
        } else {
            5
        };
        let mut i: usize = 0;
        assert(top + error_lines(all, 0) =~= top);
        while i < shown
            invariant
                i <= shown <= errors.len(),
                all == string_views(errors@),
                out@ == top + error_lines(all, i as int),
            decreases shown - i,
        {
            append_str(&mut out, "\n- ");
            append_str(&mut out, errors[i].as_str());
            assert(all[i as int] == errors@[i as int]@);
            assert(out@ =~= top + error_lines(all, i + 1));
            i += 1;
        }
        if errors.len() > 5 {
            append_str(&mut out, "\n... and ");
            push_decimal(&mut out, (errors.len() - 5) as u64);
            append_str(&mut out, " more errors");
        }
        assert(out@ =~= import_summary(imported as nat, all));
    }
    string_from_chars(&out)
}

} // verus!
