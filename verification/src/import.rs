//! Importing an export into the store, and looking at one without
//! importing it.
use crate::coinbase::coinbase_candidates;
use crate::csv_format::{
    detect_lines, detect_spec, find_header_line, header_line_from, CsvFormat,
};
use crate::engine::{
    candidate_views, commit_candidates, committed, lemma_commit_twice, Candidate, CandidateView,
    Committed, ImportOutcome,
};
use crate::error::{FormatError, ImportError, ImportErrorView};
use crate::models::TransactionView;
use crate::records::{
    coinbase_records_of, csv_data_rows, csv_header_row, csv_headers, csv_records, field,
    field_of, fields_view, read_coinbase_records, read_river_records, river_records_of, row_view,
    rows_view,
};
use crate::river::river_candidates;
use crate::store::{identities_unique, TransactionStore};
use crate::text::{
    chars_of, join_from, joined, lines_of, same_text, split_lines, string_from_chars,
};
use crate::time::Timestamp;
use vstd::prelude::*;

verus! {

/// The table of an export: its lines from the header on, with a line feed
/// between them.
pub open spec fn table_text(content: Seq<char>, format: CsvFormat) -> Seq<char> {
    let lines = lines_of(content);
    joined(lines.skip(header_line_from(lines, format, 0)), "\n"@)
}

/// Cuts the table out of an export.
pub fn table_of(content: &str, format: CsvFormat) -> (table: String)
    ensures
        table@ == table_text(content@, format),
{
    let chars = chars_of(content);
    let lines = split_lines(&chars);
    let at = find_header_line(&lines, format);
    let feed = chars_of("\n");
    let joined = join_from(&lines, at, &feed);
    string_from_chars(&joined)
}

/// The candidates that a Coinbase export makes. A table that cannot be read
/// makes one candidate, which fails.
pub open spec fn coinbase_file_candidates(content: Seq<char>) -> Seq<CandidateView> {
    match coinbase_records_of(table_text(content, CsvFormat::Coinbase)) {
        Err(e) => seq![CandidateView::Fail(e)],
        Ok(records) => coinbase_candidates(records),
    }
}

/// The candidates that a River export makes. A table that cannot be read
/// makes one candidate, which fails.
pub open spec fn river_file_candidates(content: Seq<char>) -> Seq<CandidateView> {
    match river_records_of(table_text(content, CsvFormat::River)) {
        Err(e) => seq![CandidateView::Fail(e)],
        Ok(records) => river_candidates(records),
    }
}

/// The one candidate of a table that cannot be read.
fn failed(e: ImportError) -> (out: Vec<Candidate>)
    ensures
        candidate_views(out@) == seq![CandidateView::Fail(e@)],
{
    let mut out: Vec<Candidate> = Vec::new();
    out.push(Candidate::Fail(e));
    assert(candidate_views(out@) =~= seq![CandidateView::Fail(e@)]);
    out
}

/// Imports a Coinbase export: the rows that stand for purchases and sales of
/// bitcoin are grouped into logical transactions, and those that are new to
/// the store are created in it at `now`.
pub fn process_coinbase_csv(store: &mut TransactionStore, content: &str, now: Timestamp) -> (outcome:
    ImportOutcome)
    ensures
        ({
            let end = committed(old(store)@, coinbase_file_candidates(content@), now);
            &&& final(store)@ == end.log
            &&& outcome@.created == end.created
            &&& outcome@.error == end.error
        }),
        final(store)@ == old(store)@ + outcome@.created,
        identities_unique(old(store)@) ==> identities_unique(final(store)@),
{
    let table = table_of(content, CsvFormat::Coinbase);
    let candidates = match read_coinbase_records(table.as_str()) {
        Err(e) => failed(e),
        Ok(records) => crate::coinbase::candidates_of_records(&records),
    };
    commit_candidates(store, &candidates, now)
}

/// Imports a River export: each row that stands for a purchase or a sale of
/// bitcoin for dollars is a logical transaction, and those that are new to
/// the store are created in it at `now`.
pub fn process_river_csv(store: &mut TransactionStore, content: &str, now: Timestamp) -> (outcome:
    ImportOutcome)
    ensures
        ({
            let end = committed(old(store)@, river_file_candidates(content@), now);
            &&& final(store)@ == end.log
            &&& outcome@.created == end.created
            &&& outcome@.error == end.error
        }),
        final(store)@ == old(store)@ + outcome@.created,
        identities_unique(old(store)@) ==> identities_unique(final(store)@),
{
    let table = table_of(content, CsvFormat::River);
    let candidates = match read_river_records(table.as_str()) {
        Err(e) => failed(e),
        Ok(records) => crate::river::candidates_of_records(&records),
    };
    commit_candidates(store, &candidates, now)
}

/// The candidates that an export makes, or why it is the export of no known
/// provider.
pub open spec fn file_candidates(content: Seq<char>) -> Result<Seq<CandidateView>, FormatError> {
    match detect_spec(content) {
        Err(e) => Err(e),
        Ok((format, line)) => match format {
            CsvFormat::Coinbase => Ok(coinbase_file_candidates(content)),
            CsvFormat::River => Ok(river_file_candidates(content)),
        },
    }
}

/// How importing `content` into a store with the log `log` ends.
pub open spec fn imported(log: Seq<TransactionView>, content: Seq<char>, now: Timestamp)
    -> Committed {
    match file_candidates(content) {
        Err(e) => Committed {
            log,
            created: Seq::empty(),
            error: Some(ImportErrorView::Format(e)),
        },
        Ok(candidates) => committed(log, candidates, now),
    }
}

/// Importing is idempotent: after an import, a second import of the same
/// file, at whatever time, creates no transaction and leaves the store as
/// the first left it.
pub proof fn lemma_import_twice(
    log: Seq<TransactionView>,
    content: Seq<char>,
    first: Timestamp,
    second: Timestamp,
)
    ensures
        ({
            let once = imported(log, content, first);
            let twice = imported(once.log, content, second);
            &&& twice.log == once.log
            &&& twice.created == Seq::<TransactionView>::empty()
            &&& twice.error == once.error
        }),
{
    match file_candidates(content) {
        Err(e) => {},
        Ok(candidates) => {
            lemma_commit_twice(log, candidates, first, second);
        },
    }
}

/// Imports an export of a known provider into the store: tells the provider
/// by the header, and creates at `now` the logical transactions that are new
/// to the store. A file of no known provider changes nothing.
pub fn import_csv_data(store: &mut TransactionStore, content: &str, now: Timestamp) -> (outcome:
    ImportOutcome)
    ensures
        ({
            let end = imported(old(store)@, content@, now);
            &&& final(store)@ == end.log
            &&& outcome@.created == end.created
            &&& outcome@.error == end.error
        }),
        final(store)@ == old(store)@ + outcome@.created,
        identities_unique(old(store)@) ==> identities_unique(final(store)@),
{
    let chars = chars_of(content);
    let lines = split_lines(&chars);
    match detect_lines(&lines) {
        Err(e) => {
            let outcome = ImportOutcome { created: Vec::new(), error: Some(ImportError::Format(e)) };
            assert(outcome@.created =~= Seq::<TransactionView>::empty());
            assert(store@ + outcome@.created =~= store@);
            outcome
        },
        Ok(found) => match found.format {
            CsvFormat::Coinbase => process_coinbase_csv(store, content, now),
            CsvFormat::River => process_river_csv(store, content, now),
        },
    }
}

/// What a look at an export tells.
#[derive(Debug)]
pub struct CsvPreview {
    /// The name of the provider.
    pub format: String,
    /// How many rows stand for a purchase or a sale of bitcoin.
    pub bitcoin_transactions_found: usize,
    /// The number of the header among the lines of the file, from 1.
    pub headers_found_at_line: usize,
    /// How many rows behind the header could be read.
    pub total_rows_in_file: usize,
}

/// What a [`CsvPreview`] holds, as plain values.
pub struct PreviewView {
    pub format: Seq<char>,
    pub bitcoin_transactions_found: nat,
    pub headers_found_at_line: nat,
    pub total_rows_in_file: nat,
}

impl View for CsvPreview {
    type V = PreviewView;

    open spec fn view(&self) -> PreviewView {
        PreviewView {
            format: self.format@,
            bitcoin_transactions_found: self.bitcoin_transactions_found as nat,
            headers_found_at_line: self.headers_found_at_line as nat,
            total_rows_in_file: self.total_rows_in_file as nat,
        }
    }
}

/// The name of a provider.
pub open spec fn format_name(format: CsvFormat) -> Seq<char> {
    match format {
        CsvFormat::Coinbase => "Coinbase"@,
        CsvFormat::River => "River"@,
    }
}

/// A row stands for a purchase or a sale of bitcoin: in a Coinbase export,
/// the asset is bitcoin and the kind is a purchase or a sale, plain or by
/// advanced trade; in a River export, the tag says purchase or sale. The
/// fields are found by the names of their columns.
pub open spec fn is_recognized_row(format: CsvFormat, header: Seq<Seq<char>>, row: Seq<Seq<char>>)
    -> bool {
    match format {
        CsvFormat::Coinbase => {
            let kind = field_of(header, row, "Transaction Type"@);
            &&& field_of(header, row, "Asset"@) == Some("BTC"@)
            &&& (kind == Some("Buy"@) || kind == Some("Sell"@) || kind == Some(
                "Advanced Trade Buy"@,
            ) || kind == Some("Advanced Trade Sell"@))
        },
        CsvFormat::River => {
            let tag = field_of(header, row, "Tag"@);
            tag == Some("Buy"@) || tag == Some("Sell"@)
        },
    }
}

/// How many of the rows could be read.
pub open spec fn readable_rows(rows: Seq<Result<Seq<Seq<char>>, Seq<char>>>) -> nat
    decreases rows.len(),
{
    if rows.len() == 0 {
        0
    } else if rows.last() is Ok {
        readable_rows(rows.drop_last()) + 1
    } else {
        readable_rows(rows.drop_last())
    }
}

/// How many of the rows could be read and stand for a purchase or a sale of
/// bitcoin.
pub open spec fn recognized_rows(
    format: CsvFormat,
    header: Seq<Seq<char>>,
    rows: Seq<Result<Seq<Seq<char>>, Seq<char>>>,
) -> nat
    decreases rows.len(),
{
    if rows.len() == 0 {
        0
    } else {
        let before = recognized_rows(format, header, rows.drop_last());
        match rows.last() {
            Ok(row) => if is_recognized_row(format, header, row) {
                before + 1
            } else {
                before
            },
            Err(_) => before,
        }
    }
}

/// The names of the columns of a table; none where the header could not be
/// read.
pub open spec fn column_names(table: Seq<char>) -> Seq<Seq<char>> {
    match csv_header_row(table) {
        Ok(names) => names,
        Err(_) => Seq::empty(),
    }
}

/// What a look at an export tells, or why it is the export of no known
/// provider.
pub open spec fn preview_of(content: Seq<char>) -> Result<PreviewView, FormatError> {
    match detect_spec(content) {
        Err(e) => Err(e),
        Ok((format, line)) => {
            let table = table_text(content, format);
            Ok(
                PreviewView {
                    format: format_name(format),
                    bitcoin_transactions_found: recognized_rows(
                        format,
                        column_names(table),
                        csv_data_rows(table),
                    ),
                    headers_found_at_line: (line + 1) as nat,
                    total_rows_in_file: readable_rows(csv_data_rows(table)),
                },
            )
        },
    }
}

/// Whether a field that may be absent holds the text `word`.
fn field_is(value: &Option<String>, word: &str) -> (r: bool)
    ensures
        r == (crate::models::opt_text(*value) == Some(word@)),
{
    match value {
        Some(text) => same_text(text.as_str(), word),
        None => false,
    }
}

/// Whether a row stands for a purchase or a sale of bitcoin.
pub fn row_is_recognized(format: CsvFormat, header: &Vec<String>, row: &Vec<String>) -> (r: bool)
    ensures
        r == is_recognized_row(format, fields_view(header@), fields_view(row@)),
{
    match format {
        CsvFormat::Coinbase => {
            let asset = field(header, row, "Asset");
            let kind = field(header, row, "Transaction Type");
            field_is(&asset, "BTC") && (field_is(&kind, "Buy") || field_is(&kind, "Sell")
                || field_is(&kind, "Advanced Trade Buy") || field_is(&kind, "Advanced Trade Sell"))
        },
        CsvFormat::River => {
            let tag = field(header, row, "Tag");
            field_is(&tag, "Buy") || field_is(&tag, "Sell")
        },
    }
}

/// Looks at an export without importing it: tells the provider, the line of
/// the header, how many rows could be read and how many of them stand for a
/// purchase or a sale of bitcoin.
pub fn analyze_csv_file(content: &str) -> (r: Result<CsvPreview, FormatError>)
    ensures
        match r {
            Ok(preview) => preview_of(content@) == Ok::<PreviewView, FormatError>(preview@),
            Err(e) => preview_of(content@) == Err::<PreviewView, FormatError>(e),
        },
{
    let chars = chars_of(content);
    let lines = split_lines(&chars);
    let found = match detect_lines(&lines) {
        Err(e) => { return Err(e); },
        Ok(found) => found,
    };
    let format = found.format;
    let table = table_of(content, format);
    let header: Vec<String> = match csv_headers(table.as_str()) {
        Ok(names) => names,
        Err(_) => Vec::new(),
    };
    assert(fields_view(header@) =~= column_names(table@));
    let rows = csv_records(table.as_str());
    let ghost names = fields_view(header@);
    let ghost all = rows_view(rows@);
    let mut total: usize = 0;
    let mut recognized: usize = 0;
    let mut i: usize = 0;
    assert(all.take(0) =~= Seq::<Result<Seq<Seq<char>>, Seq<char>>>::empty());
    while i < rows.len()
        invariant
            i <= rows.len(),
            all == rows_view(rows@),
            names == fields_view(header@),
            total == readable_rows(all.take(i as int)),
            recognized == recognized_rows(format, names, all.take(i as int)),
            total <= i,
            recognized <= i,
        decreases rows.len() - i,
    {
        proof {
            assert(all.take(i + 1).drop_last() =~= all.take(i as int));
            assert(all.take(i + 1).last() == row_view(rows@[i as int]));
        }
        match &rows[i] {
            Ok(row) => {
                total += 1;
                if row_is_recognized(format, &header, row) {
                    recognized += 1;
                }
            },
            Err(_) => {},
        }
        i += 1;
    }
    assert(all.take(rows.len() as int) =~= all);
    let name = match format {
        CsvFormat::Coinbase => String::from_str("Coinbase"),
        CsvFormat::River => String::from_str("River"),
    };
    Ok(
        CsvPreview {
            format: name,
            bitcoin_transactions_found: recognized,
            headers_found_at_line: found.header_line + 1,
            total_rows_in_file: total,
        },
    )
}

} // verus!
