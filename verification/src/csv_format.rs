//! Telling the export of one provider from that of another.
//!
//! Exports may begin with lines that are no part of the table, so every line
//! is held against the column names that each provider writes. The first
//! line that has all the names of one provider is the header, wherever those
//! names stand in it.
use crate::error::FormatError;
use crate::text::{chars_of, contains, contains_text, lines_of, split_lines, texts};
use vstd::prelude::*;

verus! {

/// The providers whose exports are known.
#[derive(Clone, Copy, Debug, PartialEq, Eq, Structural)]
pub enum CsvFormat {
    Coinbase,
    River,
}

/// What a file was found to be.
#[derive(Clone, Copy, Debug, PartialEq, Eq, Structural)]
pub struct Detection {
    /// The provider that wrote the file.
    pub format: CsvFormat,
    /// The index of the header among the lines of the file, from 0.
    pub header_line: usize,
}

/// `line` has the column names by which a Coinbase header is known.
pub open spec fn is_coinbase_header(line: Seq<char>) -> bool {
    &&& contains_text(line, "ID"@)
    &&& contains_text(line, "Timestamp"@)
    &&& contains_text(line, "Transaction Type"@)
}

/// `line` has the column names by which a River header is known.
pub open spec fn is_river_header(line: Seq<char>) -> bool {
    &&& contains_text(line, "Date"@)
    &&& contains_text(line, "Sent Amount"@)
    &&& contains_text(line, "Received Amount"@)
    &&& contains_text(line, "Tag"@)
}

/// `line` has the column names by which the header of `format` is known.
pub open spec fn is_header_of(line: Seq<char>, format: CsvFormat) -> bool {
    match format {
        CsvFormat::Coinbase => is_coinbase_header(line),
        CsvFormat::River => is_river_header(line),
    }
}

/// The index of the first line at or behind `from` that is a header of
/// `format`; 0 if there is none.
pub open spec fn header_line_from(lines: Seq<Seq<char>>, format: CsvFormat, from: int) -> int
    decreases lines.len() - from,
{
    if from < 0 || from >= lines.len() {
        0
    } else if is_header_of(lines[from], format) {
        from
    } else {
        header_line_from(lines, format, from + 1)
    }
}

/// The provider whose header `line` is, if it is one. A line with the names
/// of both counts as Coinbase's.
pub open spec fn header_format(line: Seq<char>) -> Option<CsvFormat> {
    if is_coinbase_header(line) {
        Some(CsvFormat::Coinbase)
    } else if is_river_header(line) {
        Some(CsvFormat::River)
    } else {
        None
    }
}

/// The first header at or behind line `from`, with its index.
pub open spec fn first_header_from(lines: Seq<Seq<char>>, from: int) -> Option<(CsvFormat, int)>
    decreases lines.len() - from,
{
    if from < 0 || from >= lines.len() {
        None
    } else if header_format(lines[from]) is Some {
        Some((header_format(lines[from])->0, from))
    } else {
        first_header_from(lines, from + 1)
    }
}

/// What the lines of a file are found to be: the provider and the index of
/// the first header, or why there is none.
pub open spec fn detect_in_lines(lines: Seq<Seq<char>>) -> Result<(CsvFormat, int), FormatError> {
    if lines.len() == 0 {
        Err(FormatError::Empty)
    } else {
        match first_header_from(lines, 0) {
            Some(found) => Ok(found),
            None => Err(FormatError::Unrecognized),
        }
    }
}

/// What a file is found to be.
pub open spec fn detect_spec(content: Seq<char>) -> Result<(CsvFormat, int), FormatError> {
    detect_in_lines(lines_of(content))
}

/// The first header is a header, and no line before it is one.
pub proof fn lemma_first_header(lines: Seq<Seq<char>>, from: int)
    requires
        0 <= from,
    ensures
        match first_header_from(lines, from) {
            Some((format, at)) => {
                &&& from <= at < lines.len()
                &&& header_format(lines[at]) == Some(format)
                &&& forall|j: int| from <= j < at ==> header_format(#[trigger] lines[j]) is None
            },
            None => forall|j: int|
                from <= j < lines.len() ==> header_format(#[trigger] lines[j]) is None,
        },
    decreases lines.len() - from,
{
    if from < lines.len() && header_format(lines[from]) is None {
        lemma_first_header(lines, from + 1);
    }
}

/// Where a file is found to have its header, the header of the provider
/// found is first met.
pub proof fn lemma_header_line_agrees(lines: Seq<Seq<char>>, from: int)
    requires
        0 <= from,
    ensures
        first_header_from(lines, from) matches Some((format, at)) ==> header_line_from(
            lines,
            format,
            from,
        ) == at,
    decreases lines.len() - from,
{
    if from < lines.len() && header_format(lines[from]) is None {
        lemma_header_line_agrees(lines, from + 1);
    }
}

/// The column names by which headers are known, as characters.
struct Fingerprints {
    id: Vec<char>,
    timestamp: Vec<char>,
    transaction_type: Vec<char>,
    date: Vec<char>,
    sent_amount: Vec<char>,
    received_amount: Vec<char>,
    tag: Vec<char>,
}

impl Fingerprints {
    /// The names are those that the providers write.
    spec fn wf(&self) -> bool {
        &&& self.id@ == "ID"@
        &&& self.timestamp@ == "Timestamp"@
        &&& self.transaction_type@ == "Transaction Type"@
        &&& self.date@ == "Date"@
        &&& self.sent_amount@ == "Sent Amount"@
        &&& self.received_amount@ == "Received Amount"@
        &&& self.tag@ == "Tag"@
    }

    /// The names that the providers write.
    fn new() -> (f: Fingerprints)
        ensures
            f.wf(),
    {
        Fingerprints {
            id: chars_of("ID"),
            timestamp: chars_of("Timestamp"),
            transaction_type: chars_of("Transaction Type"),
            date: chars_of("Date"),
            sent_amount: chars_of("Sent Amount"),
            received_amount: chars_of("Received Amount"),
            tag: chars_of("Tag"),
        }
    }

    /// Whether `line` is a Coinbase header.
    fn is_coinbase(&self, line: &Vec<char>) -> (r: bool)
        requires
            self.wf(),
        ensures
            r == is_coinbase_header(line@),
    {
        contains(line, &self.id) && contains(line, &self.timestamp) && contains(
            line,
            &self.transaction_type,
        )
    }

    /// Whether `line` is a River header.
    fn is_river(&self, line: &Vec<char>) -> (r: bool)
        requires
            self.wf(),
        ensures
            r == is_river_header(line@),
    {
        contains(line, &self.date) && contains(line, &self.sent_amount) && contains(
            line,
            &self.received_amount,
        ) && contains(line, &self.tag)
    }

    /// Whether `line` is the header that `format` names.
    fn is_header_of(&self, line: &Vec<char>, format: CsvFormat) -> (r: bool)
        requires
            self.wf(),
        ensures
            r == is_header_of(line@, format),
    {
        match format {
            CsvFormat::Coinbase => self.is_coinbase(line),
            CsvFormat::River => self.is_river(line),
        }
    }

    /// The provider whose header `line` is, if it is one.
    fn header_format(&self, line: &Vec<char>) -> (r: Option<CsvFormat>)
        requires
            self.wf(),
        ensures
            r == header_format(line@),
    {
        if self.is_coinbase(line) {
            Some(CsvFormat::Coinbase)
        } else if self.is_river(line) {
            Some(CsvFormat::River)
        } else {
            None
        }
    }
}

/// Finds the first header among `lines`.
pub fn detect_lines(lines: &Vec<Vec<char>>) -> (r: Result<Detection, FormatError>)
    ensures
        match r {
            Ok(d) => detect_in_lines(texts(lines@)) == Ok::<(CsvFormat, int), FormatError>(
                (d.format, d.header_line as int),
            ) && d.header_line < lines.len(),
            Err(e) => detect_in_lines(texts(lines@)) == Err::<(CsvFormat, int), FormatError>(e),
        },
{
    if lines.len() == 0 {
        return Err(FormatError::Empty);
    }
    let marks = Fingerprints::new();
    let ghost all = texts(lines@);
    let mut i: usize = 0;
    while i < lines.len()
        invariant
            i <= lines.len(),
            marks.wf(),
            all == texts(lines@),
            first_header_from(all, 0) == first_header_from(all, i as int),
        decreases lines.len() - i,
    {
        assert(all[i as int] == lines@[i as int]@);
        match marks.header_format(&lines[i]) {
            Some(format) => {
                return Ok(Detection { format, header_line: i });
            },
            None => {},
        }
        i += 1;
    }
    Err(FormatError::Unrecognized)
}

/// Finds the first line that is a header of `format`; 0 if there is none.
pub fn find_header_line(lines: &Vec<Vec<char>>, format: CsvFormat) -> (at: usize)
    ensures
        at == header_line_from(texts(lines@), format, 0),
        at <= lines.len(),
{
    let marks = Fingerprints::new();
    let ghost all = texts(lines@);
    let mut i: usize = 0;
    while i < lines.len()
        invariant
            i <= lines.len(),
            marks.wf(),
            all == texts(lines@),
            header_line_from(all, format, 0) == header_line_from(all, format, i as int),
        decreases lines.len() - i,
    {
        assert(all[i as int] == lines@[i as int]@);
        if marks.is_header_of(&lines[i], format) {
            return i;
        }
        i += 1;
    }
    0
}

/// Tells which provider wrote `content` and on which line its header
/// stands.
pub fn detect_csv_format(content: &str) -> (r: Result<Detection, FormatError>)
    ensures
        match r {
            Ok(d) => detect_spec(content@) == Ok::<(CsvFormat, int), FormatError>(
                (d.format, d.header_line as int),
            ),
            Err(e) => detect_spec(content@) == Err::<(CsvFormat, int), FormatError>(e),
        },
{
    let chars = chars_of(content);
    let lines = split_lines(&chars);
    detect_lines(&lines)
}

} // verus!
