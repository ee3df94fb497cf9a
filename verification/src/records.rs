//! The rows of an export, as each provider shapes them.
//!
//! The `csv` crate cuts the text into rows and fields. Which field goes
//! where is decided here, by the names in the header: on whatever position
//! a column stands, it is found by its name.
use crate::error::{ImportError, ImportErrorView};
use crate::text::same_text;
use vstd::prelude::*;

verus! {

/// The header that `csv::Reader` reads from a text, field by field, or the
/// message of the error that it reports instead.
pub uninterp spec fn csv_header_row(text: Seq<char>) -> Result<Seq<Seq<char>>, Seq<char>>;

/// The rows behind the header that `csv::Reader` reads from a text, each as
/// its fields or as the message of the error reported for it.
pub uninterp spec fn csv_data_rows(text: Seq<char>) -> Seq<Result<Seq<Seq<char>>, Seq<char>>>;

/// The texts of a row's fields.
pub open spec fn fields_view(fields: Seq<String>) -> Seq<Seq<char>> {
    fields.map_values(|f: String| f@)
}

/// What a row that was read holds.
pub open spec fn row_view(row: Result<Vec<String>, String>) -> Result<Seq<Seq<char>>, Seq<char>> {
    match row {
        Ok(fields) => Ok(fields_view(fields@)),
        Err(message) => Err(message@),
    }
}

/// What the rows that were read hold.
pub open spec fn rows_view(rows: Seq<Result<Vec<String>, String>>) -> Seq<
    Result<Seq<Seq<char>>, Seq<char>>,
> {
    rows.map_values(|r: Result<Vec<String>, String>| row_view(r))
}

/// `csv::Reader::headers` on a reader over the bytes of `text`, made by
/// `csv::Reader::from_reader`: the fields of the first row, or the display
/// text of the error. The contract only gives the result its name.
#[verifier::external_body]
pub(crate) fn csv_headers(text: &str) -> (r: Result<Vec<String>, String>)
    ensures
        row_view(r) == csv_header_row(text@),
{
    let mut reader = csv::Reader::from_reader(text.as_bytes());
    reader.headers().map(|h| h.iter().map(String::from).collect()).map_err(|e| e.to_string())
}

/// `csv::Reader::records` on a reader over the bytes of `text`, made by
/// `csv::Reader::from_reader`: every row behind the header, as its fields or
/// as the display text of its error. The contract only gives the result its
/// name.
#[verifier::external_body]
pub(crate) fn csv_records(text: &str) -> (rows: Vec<Result<Vec<String>, String>>)
    ensures
        rows_view(rows@) == csv_data_rows(text@),
{
    let mut reader = csv::Reader::from_reader(text.as_bytes());
    reader.records().map(
        |r| r.map(|row| row.iter().map(String::from).collect()).map_err(|e| e.to_string()),
    ).collect()
}

/// The first column at or behind `from` that the header names `name`.
pub open spec fn column_from(header: Seq<Seq<char>>, name: Seq<char>, from: int) -> Option<int>
    decreases header.len() - from,
{
    if from < 0 || from >= header.len() {
        None
    } else if header[from] == name {
        Some(from)
    } else {
        column_from(header, name, from + 1)
    }
}

/// The field of `row` in the first column that the header names `name`;
/// none where no column has the name or the row is too short.
pub open spec fn field_of(header: Seq<Seq<char>>, row: Seq<Seq<char>>, name: Seq<char>) -> Option<
    Seq<char>,
> {
    match column_from(header, name, 0) {
        Some(i) => if i < row.len() {
            Some(row[i])
        } else {
            None
        },
        None => None,
    }
}

/// Finds the first column that the header names `name`.
pub fn find_column(header: &Vec<String>, name: &str) -> (r: Option<usize>)
    ensures
        match r {
            Some(i) => column_from(fields_view(header@), name@, 0) == Some(i as int) && i
                < header.len(),
            None => column_from(fields_view(header@), name@, 0) is None,
        },
{
    let ghost names = fields_view(header@);
    let mut i: usize = 0;
    while i < header.len()
        invariant
            i <= header.len(),
            names == fields_view(header@),
            column_from(names, name@, 0) == column_from(names, name@, i as int),
        decreases header.len() - i,
    {
        assert(names[i as int] == header@[i as int]@);
        if same_text(header[i].as_str(), name) {
            return Some(i);
        }
        i += 1;
    }
    None
}

/// The field of `row` in the column that the header names `name`.
pub fn field(header: &Vec<String>, row: &Vec<String>, name: &str) -> (r: Option<String>)
    ensures
        match r {
            Some(f) => field_of(fields_view(header@), fields_view(row@), name@) == Some(f@),
            None => field_of(fields_view(header@), fields_view(row@), name@) is None,
        },
{
    match find_column(header, name) {
        Some(i) => {
            if i < row.len() {
                assert(fields_view(row@)[i as int] == row@[i as int]@);
                Some(row[i].clone())
            } else {
                None
            }
        },
        None => None,
    }
}

/// A row of a Coinbase export.
#[derive(Debug)]
pub struct CoinbaseRecord {
    pub id: String,
    pub timestamp: String,
    pub transaction_type: String,
    pub asset: String,
    pub quantity_transacted: String,
    pub price_at_transaction: String,
    pub subtotal: String,
    pub total_inclusive: String,
    pub fees_and_spread: String,
    pub notes: String,
}

/// What a [`CoinbaseRecord`] holds, as plain values.
pub struct CoinbaseRecordView {
    pub id: Seq<char>,
    pub timestamp: Seq<char>,
    pub transaction_type: Seq<char>,
    pub asset: Seq<char>,
    pub quantity_transacted: Seq<char>,
    pub price_at_transaction: Seq<char>,
    pub subtotal: Seq<char>,
    pub total_inclusive: Seq<char>,
    pub fees_and_spread: Seq<char>,
    pub notes: Seq<char>,
}

impl View for CoinbaseRecord {
    type V = CoinbaseRecordView;

    open spec fn view(&self) -> CoinbaseRecordView {
        CoinbaseRecordView {
            id: self.id@,
            timestamp: self.timestamp@,
            transaction_type: self.transaction_type@,
            asset: self.asset@,
            quantity_transacted: self.quantity_transacted@,
            price_at_transaction: self.price_at_transaction@,
            subtotal: self.subtotal@,
            total_inclusive: self.total_inclusive@,
            fees_and_spread: self.fees_and_spread@,
            notes: self.notes@,
        }
    }
}

impl CoinbaseRecord {
    /// A copy of the record.
    pub fn duplicate(&self) -> (r: CoinbaseRecord)
        ensures
            r@ == self@,
    {
        CoinbaseRecord {
            id: self.id.clone(),
            timestamp: self.timestamp.clone(),
            transaction_type: self.transaction_type.clone(),
            asset: self.asset.clone(),
            quantity_transacted: self.quantity_transacted.clone(),
            price_at_transaction: self.price_at_transaction.clone(),
            subtotal: self.subtotal.clone(),
            total_inclusive: self.total_inclusive.clone(),
            fees_and_spread: self.fees_and_spread.clone(),
            notes: self.notes.clone(),
        }
    }
}

/// What the records of a sequence hold.
pub open spec fn coinbase_views(records: Seq<CoinbaseRecord>) -> Seq<CoinbaseRecordView> {
    records.map_values(|r: CoinbaseRecord| r@)
}

/// The Coinbase record that a row holds under a header: each field from the
/// column of its name; an error that names the first column that is missing.
pub open spec fn coinbase_record(header: Seq<Seq<char>>, row: Seq<Seq<char>>) -> Result<
    CoinbaseRecordView,
    ImportErrorView,
> {
    if field_of(header, row, "ID"@) is None {
        Err(ImportErrorView::MissingColumn("ID"@))
    } else if field_of(header, row, "Timestamp"@) is None {
        Err(ImportErrorView::MissingColumn("Timestamp"@))
    } else if field_of(header, row, "Transaction Type"@) is None {
        Err(ImportErrorView::MissingColumn("Transaction Type"@))
    } else if field_of(header, row, "Asset"@) is None {
        Err(ImportErrorView::MissingColumn("Asset"@))
    } else if field_of(header, row, "Quantity Transacted"@) is None {
        Err(ImportErrorView::MissingColumn("Quantity Transacted"@))
    } else if field_of(header, row, "Price at Transaction"@) is None {
        Err(ImportErrorView::MissingColumn("Price at Transaction"@))
    } else if field_of(header, row, "Subtotal"@) is None {
        Err(ImportErrorView::MissingColumn("Subtotal"@))
    } else if field_of(header, row, "Total (inclusive of fees and/or spread)"@) is None {
        Err(ImportErrorView::MissingColumn("Total (inclusive of fees and/or spread)"@))
    } else if field_of(header, row, "Fees and/or Spread"@) is None {
        Err(ImportErrorView::MissingColumn("Fees and/or Spread"@))
    } else if field_of(header, row, "Notes"@) is None {
        Err(ImportErrorView::MissingColumn("Notes"@))
    } else {
        Ok(
            CoinbaseRecordView {
                id: field_of(header, row, "ID"@)->0,
                timestamp: field_of(header, row, "Timestamp"@)->0,
                transaction_type: field_of(header, row, "Transaction Type"@)->0,
                asset: field_of(header, row, "Asset"@)->0,
                quantity_transacted: field_of(header, row, "Quantity Transacted"@)->0,
                price_at_transaction: field_of(header, row, "Price at Transaction"@)->0,
                subtotal: field_of(header, row, "Subtotal"@)->0,
                total_inclusive: field_of(
                    header,
                    row,
                    "Total (inclusive of fees and/or spread)"@,
                )->0,
                fees_and_spread: field_of(header, row, "Fees and/or Spread"@)->0,
                notes: field_of(header, row, "Notes"@)->0,
            },
        )
    }
}

/// The error for a column that the header does not name.
fn missing(name: &str) -> (e: ImportError)
    ensures
        e@ == ImportErrorView::MissingColumn(name@),
{
    ImportError::MissingColumn(String::from_str(name))
}

/// Reads a Coinbase record out of a row.
pub fn decode_coinbase_row(header: &Vec<String>, row: &Vec<String>) -> (r: Result<
    CoinbaseRecord,
    ImportError,
>)
    ensures
        match r {
            Ok(record) => coinbase_record(fields_view(header@), fields_view(row@)) == Ok::<
                CoinbaseRecordView,
                ImportErrorView,
            >(record@),
            Err(e) => coinbase_record(fields_view(header@), fields_view(row@)) == Err::<
                CoinbaseRecordView,
                ImportErrorView,
            >(e@),
        },
{
    let id = match field(header, row, "ID") {
        Some(f) => f,
        None => { return Err(missing("ID")); },
    };
    let timestamp = match field(header, row, "Timestamp") {
        Some(f) => f,
        None => { return Err(missing("Timestamp")); },
    };
    let transaction_type = match field(header, row, "Transaction Type") {
        Some(f) => f,
        None => { return Err(missing("Transaction Type")); },
    };
    let asset = match field(header, row, "Asset") {
        Some(f) => f,
        None => { return Err(missing("Asset")); },
    };
    let quantity_transacted = match field(header, row, "Quantity Transacted") {
        Some(f) => f,
        None => { return Err(missing("Quantity Transacted")); },
    };
    let price_at_transaction = match field(header, row, "Price at Transaction") {
        Some(f) => f,
        None => { return Err(missing("Price at Transaction")); },
    };
    let subtotal = match field(header, row, "Subtotal") {
        Some(f) => f,
        None => { return Err(missing("Subtotal")); },
    };
    let total_inclusive = match field(header, row, "Total (inclusive of fees and/or spread)") {
        Some(f) => f,
        None => { return Err(missing("Total (inclusive of fees and/or spread)")); },
    };
    let fees_and_spread = match field(header, row, "Fees and/or Spread") {
        Some(f) => f,
        None => { return Err(missing("Fees and/or Spread")); },
    };
    let notes = match field(header, row, "Notes") {
        Some(f) => f,
        None => { return Err(missing("Notes")); },
    };
    Ok(
        CoinbaseRecord {
            id,
            timestamp,
            transaction_type,
            asset,
            quantity_transacted,
            price_at_transaction,
            subtotal,
            total_inclusive,
            fees_and_spread,
            notes,
        },
    )
}

/// A row of a River export.
#[derive(Debug)]
pub struct RiverRecord {
    pub date: String,
    pub sent_amount: String,
    pub sent_currency: String,
    pub received_amount: String,
    pub received_currency: String,
    pub fee_amount: String,
    pub fee_currency: String,
    pub tag: String,
}

/// What a [`RiverRecord`] holds, as plain values.
pub struct RiverRecordView {
    pub date: Seq<char>,
    pub sent_amount: Seq<char>,
    pub sent_currency: Seq<char>,
    pub received_amount: Seq<char>,
    pub received_currency: Seq<char>,
    pub fee_amount: Seq<char>,
    pub fee_currency: Seq<char>,
    pub tag: Seq<char>,
}

impl View for RiverRecord {
    type V = RiverRecordView;

    open spec fn view(&self) -> RiverRecordView {
        RiverRecordView {
            date: self.date@,
            sent_amount: self.sent_amount@,
            sent_currency: self.sent_currency@,
            received_amount: self.received_amount@,
            received_currency: self.received_currency@,
            fee_amount: self.fee_amount@,
            fee_currency: self.fee_currency@,
            tag: self.tag@,
        }
    }
}

/// What the records of a sequence hold.
pub open spec fn river_views(records: Seq<RiverRecord>) -> Seq<RiverRecordView> {
    records.map_values(|r: RiverRecord| r@)
}

/// The River record that a row holds under a header: each field from the
/// column of its name; an error that names the first column that is missing.
pub open spec fn river_record(header: Seq<Seq<char>>, row: Seq<Seq<char>>) -> Result<
    RiverRecordView,
    ImportErrorView,
> {
    if field_of(header, row, "Date"@) is None {
        Err(ImportErrorView::MissingColumn("Date"@))
    } else if field_of(header, row, "Sent Amount"@) is None {
        Err(ImportErrorView::MissingColumn("Sent Amount"@))
    } else if field_of(header, row, "Sent Currency"@) is None {
        Err(ImportErrorView::MissingColumn("Sent Currency"@))
    } else if field_of(header, row, "Received Amount"@) is None {
        Err(ImportErrorView::MissingColumn("Received Amount"@))
    } else if field_of(header, row, "Received Currency"@) is None {
        Err(ImportErrorView::MissingColumn("Received Currency"@))
    } else if field_of(header, row, "Fee Amount"@) is None {
        Err(ImportErrorView::MissingColumn("Fee Amount"@))
    } else if field_of(header, row, "Fee Currency"@) is None {
        Err(ImportErrorView::MissingColumn("Fee Currency"@))
    } else if field_of(header, row, "Tag"@) is None {
        Err(ImportErrorView::MissingColumn("Tag"@))
    } else {
        Ok(
            RiverRecordView {
                date: field_of(header, row, "Date"@)->0,
                sent_amount: field_of(header, row, "Sent Amount"@)->0,
                sent_currency: field_of(header, row, "Sent Currency"@)->0,
                received_amount: field_of(header, row, "Received Amount"@)->0,
                received_currency: field_of(header, row, "Received Currency"@)->0,
                fee_amount: field_of(header, row, "Fee Amount"@)->0,
                fee_currency: field_of(header, row, "Fee Currency"@)->0,
                tag: field_of(header, row, "Tag"@)->0,
            },
        )
    }
}

/// Reads a River record out of a row.
pub fn decode_river_row(header: &Vec<String>, row: &Vec<String>) -> (r: Result<
    RiverRecord,
    ImportError,
>)
    ensures
        match r {
            Ok(record) => river_record(fields_view(header@), fields_view(row@)) == Ok::<
                RiverRecordView,
                ImportErrorView,
            >(record@),
            Err(e) => river_record(fields_view(header@), fields_view(row@)) == Err::<
                RiverRecordView,
                ImportErrorView,
            >(e@),
        },
{
    let date = match field(header, row, "Date") {
        Some(f) => f,
        None => { return Err(missing("Date")); },
    };
    let sent_amount = match field(header, row, "Sent Amount") {
        Some(f) => f,
        None => { return Err(missing("Sent Amount")); },
    };
    let sent_currency = match field(header, row, "Sent Currency") {
        Some(f) => f,
        None => { return Err(missing("Sent Currency")); },
    };
    let received_amount = match field(header, row, "Received Amount") {
        Some(f) => f,
        None => { return Err(missing("Received Amount")); },
    };
    let received_currency = match field(header, row, "Received Currency") {
        Some(f) => f,
        None => { return Err(missing("Received Currency")); },
    };
    let fee_amount = match field(header, row, "Fee Amount") {
        Some(f) => f,
        None => { return Err(missing("Fee Amount")); },
    };
    let fee_currency = match field(header, row, "Fee Currency") {
        Some(f) => f,
        None => { return Err(missing("Fee Currency")); },
    };
    let tag = match field(header, row, "Tag") {
        Some(f) => f,
        None => { return Err(missing("Tag")); },
    };
    Ok(
        RiverRecord {
            date,
            sent_amount,
            sent_currency,
            received_amount,
            received_currency,
            fee_amount,
            fee_currency,
            tag,
        },
    )
}

/// The records that a table holds, each row read by `one`: the first row
/// that the reader reports as broken, or that `one` cannot read, gives its
/// error to the whole. A header that the reader reports as broken does so
/// too.
pub open spec fn decoded_rows<R>(
    header: Result<Seq<Seq<char>>, Seq<char>>,
    rows: Seq<Result<Seq<Seq<char>>, Seq<char>>>,
    one: spec_fn(Seq<Seq<char>>, Seq<Seq<char>>) -> Result<R, ImportErrorView>,
) -> Result<Seq<R>, ImportErrorView>
    decreases rows.len(),
{
    match header {
        Err(message) => Err(ImportErrorView::Csv(message)),
        Ok(names) => if rows.len() == 0 {
            Ok(Seq::empty())
        } else {
            match decoded_rows(header, rows.drop_last(), one) {
                Err(e) => Err(e),
                Ok(front) => match rows.last() {
                    Err(message) => Err(ImportErrorView::Csv(message)),
                    Ok(row) => match one(names, row) {
                        Err(e) => Err(e),
                        Ok(record) => Ok(front.push(record)),
                    },
                },
            }
        },
    }
}

/// The Coinbase records that a text holds, its first row being the header.
pub open spec fn coinbase_records_of(text: Seq<char>) -> Result<
    Seq<CoinbaseRecordView>,
    ImportErrorView,
> {
    decoded_rows(
        csv_header_row(text),
        csv_data_rows(text),
        |names: Seq<Seq<char>>, row: Seq<Seq<char>>| coinbase_record(names, row),
    )
}

/// The River records that a text holds, its first row being the header.
pub open spec fn river_records_of(text: Seq<char>) -> Result<Seq<RiverRecordView>, ImportErrorView> {
    decoded_rows(
        csv_header_row(text),
        csv_data_rows(text),
        |names: Seq<Seq<char>>, row: Seq<Seq<char>>| river_record(names, row),
    )
}

/// Reads the Coinbase records of a text whose first row is the header.
pub fn read_coinbase_records(text: &str) -> (r: Result<Vec<CoinbaseRecord>, ImportError>)
    ensures
        match r {
            Ok(records) => coinbase_records_of(text@) == Ok::<
                Seq<CoinbaseRecordView>,
                ImportErrorView,
            >(coinbase_views(records@)),
            Err(e) => coinbase_records_of(text@) == Err::<
                Seq<CoinbaseRecordView>,
                ImportErrorView,
            >(e@),
        },
{
    let header = match csv_headers(text) {
        Ok(h) => h,
        Err(message) => { return Err(ImportError::Csv(message)); },
    };
    let rows = csv_records(text);
    let ghost names = fields_view(header@);
    let ghost all = rows_view(rows@);
    let ghost one = |names: Seq<Seq<char>>, row: Seq<Seq<char>>| coinbase_record(names, row);
    let mut records: Vec<CoinbaseRecord> = Vec::new();
    let mut i: usize = 0;
    assert(all.take(0) =~= Seq::<Result<Seq<Seq<char>>, Seq<char>>>::empty());
    assert(coinbase_views(records@) =~= Seq::<CoinbaseRecordView>::empty());
    while i < rows.len()
        invariant
            i <= rows.len(),
            all == rows_view(rows@),
            all == csv_data_rows(text@),
            csv_header_row(text@) == Ok::<Seq<Seq<char>>, Seq<char>>(names),
            names == fields_view(header@),
            decoded_rows(csv_header_row(text@), all.take(i as int), one) == Ok::<
                Seq<CoinbaseRecordView>,
                ImportErrorView,
            >(coinbase_views(records@)),
            one == |names: Seq<Seq<char>>, row: Seq<Seq<char>>| coinbase_record(names, row),
        decreases rows.len() - i,
    {
        proof {
            assert(all.take(i + 1).drop_last() =~= all.take(i as int));
            assert(all.take(i + 1).last() == row_view(rows@[i as int]));
            lemma_decoded_error_stays(csv_header_row(text@), all, one, i + 1);
        }
        match &rows[i] {
            Err(message) => {
                return Err(ImportError::Csv(message.clone()));
            },
            Ok(row) => {
                match decode_coinbase_row(&header, row) {
                    Err(e) => {
                        return Err(e);
                    },
                    Ok(record) => {
                        let ghost before = coinbase_views(records@);
                        let ghost added = record@;
                        records.push(record);
                        assert(coinbase_views(records@) =~= before.push(added));
                    },
                }
            },
        }
        i += 1;
    }
    assert(all.take(rows.len() as int) =~= all);
    Ok(records)
}

/// Reads the River records of a text whose first row is the header.
pub fn read_river_records(text: &str) -> (r: Result<Vec<RiverRecord>, ImportError>)
    ensures
        match r {
            Ok(records) => river_records_of(text@) == Ok::<Seq<RiverRecordView>, ImportErrorView>(
                river_views(records@),
            ),
            Err(e) => river_records_of(text@) == Err::<Seq<RiverRecordView>, ImportErrorView>(e@),
        },
{
    let header = match csv_headers(text) {
        Ok(h) => h,
        Err(message) => { return Err(ImportError::Csv(message)); },
    };
    let rows = csv_records(text);
    let ghost names = fields_view(header@);
    let ghost all = rows_view(rows@);
    let ghost one = |names: Seq<Seq<char>>, row: Seq<Seq<char>>| river_record(names, row);
    let mut records: Vec<RiverRecord> = Vec::new();
    let mut i: usize = 0;
    assert(all.take(0) =~= Seq::<Result<Seq<Seq<char>>, Seq<char>>>::empty());
    assert(river_views(records@) =~= Seq::<RiverRecordView>::empty());
    while i < rows.len()
        invariant
            i <= rows.len(),
            all == rows_view(rows@),
            all == csv_data_rows(text@),
            csv_header_row(text@) == Ok::<Seq<Seq<char>>, Seq<char>>(names),
            names == fields_view(header@),
            decoded_rows(csv_header_row(text@), all.take(i as int), one) == Ok::<
                Seq<RiverRecordView>,
                ImportErrorView,
            >(river_views(records@)),
            one == |names: Seq<Seq<char>>, row: Seq<Seq<char>>| river_record(names, row),
        decreases rows.len() - i,
    {
        proof {
            assert(all.take(i + 1).drop_last() =~= all.take(i as int));
            assert(all.take(i + 1).last() == row_view(rows@[i as int]));
            lemma_decoded_error_stays(csv_header_row(text@), all, one, i + 1);
        }
        match &rows[i] {
            Err(message) => {
                return Err(ImportError::Csv(message.clone()));
            },
            Ok(row) => {
                match decode_river_row(&header, row) {
                    Err(e) => {
                        return Err(e);
                    },
                    Ok(record) => {
                        let ghost before = river_views(records@);
                        let ghost added = record@;
                        records.push(record);
                        assert(river_views(records@) =~= before.push(added));
                    },
                }
            },
        }
        i += 1;
    }
    assert(all.take(rows.len() as int) =~= all);
    Ok(records)
}

/// An error among the first rows is the error of the whole table.
pub proof fn lemma_decoded_error_stays<R>(
    header: Result<Seq<Seq<char>>, Seq<char>>,
    rows: Seq<Result<Seq<Seq<char>>, Seq<char>>>,
    one: spec_fn(Seq<Seq<char>>, Seq<Seq<char>>) -> Result<R, ImportErrorView>,
    n: int,
)
    requires
        0 <= n <= rows.len(),
    ensures
        decoded_rows(header, rows.take(n), one) is Err ==> decoded_rows(header, rows, one)
            == decoded_rows(header, rows.take(n), one),
    decreases rows.len() - n,
{
    if n == rows.len() {
        assert(rows.take(n) =~= rows);
    } else {
        assert(rows.take(n + 1).drop_last() =~= rows.take(n));
        lemma_decoded_error_stays(header, rows, one, n + 1);
    }
}

} // verus!
