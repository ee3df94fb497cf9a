//! The errors that parsing and importing report.
use crate::text::{append_chars, append_str, chars_of, string_from_chars};
use vstd::prelude::*;

verus! {

/// Which kind of field a value that could not be read was meant for.
#[derive(Clone, Copy, Debug, PartialEq, Eq, Structural)]
pub enum ParseField {
    /// A quantity of bitcoin.
    BtcAmount,
    /// An amount of dollars.
    UsdAmount,
    /// The time of a Coinbase row.
    CoinbaseTimestamp,
    /// The date of a River row.
    RiverTimestamp,
}

/// A field's text could not be read: the kind of field and the text as it
/// stood in the input.
#[derive(Debug)]
pub struct ParseError {
    pub field: ParseField,
    pub value: String,
}

/// What a [`ParseError`] holds, as plain values.
pub struct ParseErrorView {
    pub field: ParseField,
    pub value: Seq<char>,
}

impl View for ParseError {
    type V = ParseErrorView;

    open spec fn view(&self) -> ParseErrorView {
        ParseErrorView { field: self.field, value: self.value@ }
    }
}

/// The error for a quantity of bitcoin that cannot be read.
pub open spec fn btc_error(text: Seq<char>) -> ParseErrorView {
    ParseErrorView { field: ParseField::BtcAmount, value: text }
}

/// The error for a dollar amount that cannot be read.
pub open spec fn usd_error(text: Seq<char>) -> ParseErrorView {
    ParseErrorView { field: ParseField::UsdAmount, value: text }
}

/// How a message names a kind of field.
pub open spec fn field_label(field: ParseField) -> Seq<char> {
    match field {
        ParseField::BtcAmount => "BTC amount"@,
        ParseField::UsdAmount => "USD amount"@,
        ParseField::CoinbaseTimestamp => "Coinbase timestamp"@,
        ParseField::RiverTimestamp => "River timestamp"@,
    }
}

/// The message of a parse error: the kind of field and the text between
/// quotes.
pub open spec fn parse_error_message(e: ParseErrorView) -> Seq<char> {
    "Failed to parse "@ + field_label(e.field) + " '"@ + e.value + "'"@
}

impl ParseError {
    /// The error for `value`, which was meant for a field of kind `field`.
    pub fn new(field: ParseField, value: &str) -> (e: ParseError)
        ensures
            e@ == (ParseErrorView { field, value: value@ }),
    {
        let chars = chars_of(value);
        ParseError { field, value: string_from_chars(&chars) }
    }

    /// A copy of the error.
    pub fn duplicate(&self) -> (e: ParseError)
        ensures
            e@ == self@,
    {
        ParseError { field: self.field, value: self.value.clone() }
    }

    /// The message for the user.
    pub fn message(&self) -> (m: String)
        ensures
            m@ == parse_error_message(self@),
    {
        let mut out: Vec<char> = Vec::new();
        append_str(&mut out, "Failed to parse ");
        match self.field {
            ParseField::BtcAmount => append_str(&mut out, "BTC amount"),
            ParseField::UsdAmount => append_str(&mut out, "USD amount"),
            ParseField::CoinbaseTimestamp => append_str(&mut out, "Coinbase timestamp"),
            ParseField::RiverTimestamp => append_str(&mut out, "River timestamp"),
        }
        append_str(&mut out, " '");
        let value = chars_of(self.value.as_str());
        append_chars(&mut out, &value);
        append_str(&mut out, "'");
        assert(out@ =~= parse_error_message(self@));
        string_from_chars(&out)
    }
}

/// A file is the export of no known provider.
#[derive(Clone, Copy, Debug, PartialEq, Eq, Structural)]
pub enum FormatError {
    /// The file has no lines.
    Empty,
    /// No line of the file is a header that a known provider writes.
    Unrecognized,
}

/// The message of a format error.
pub open spec fn format_error_message(e: FormatError) -> Seq<char> {
    match e {
        FormatError::Empty => "Empty CSV file"@,
        FormatError::Unrecognized => "Unrecognized CSV format. Expected Coinbase or River format."@,
    }
}

impl FormatError {
    /// The message for the user.
    pub fn message(&self) -> (m: String)
        ensures
            m@ == format_error_message(*self),
    {
        match self {
            FormatError::Empty => String::from_str("Empty CSV file"),
            FormatError::Unrecognized => String::from_str(
                "Unrecognized CSV format. Expected Coinbase or River format.",
            ),
        }
    }
}

/// Why an import stopped.
#[derive(Debug)]
pub enum ImportError {
    /// The file is the export of no known provider.
    Format(FormatError),
    /// A row is no well-formed CSV record; the text is the reader's.
    Csv(String),
    /// The header names no column of this name.
    MissingColumn(String),
    /// A field's text could not be read.
    Parse(ParseError),
}

/// What an [`ImportError`] holds, as plain values.
pub enum ImportErrorView {
    Format(FormatError),
    Csv(Seq<char>),
    MissingColumn(Seq<char>),
    Parse(ParseErrorView),
}

impl View for ImportError {
    type V = ImportErrorView;

    open spec fn view(&self) -> ImportErrorView {
        match self {
            ImportError::Format(e) => ImportErrorView::Format(*e),
            ImportError::Csv(m) => ImportErrorView::Csv(m@),
            ImportError::MissingColumn(c) => ImportErrorView::MissingColumn(c@),
            ImportError::Parse(e) => ImportErrorView::Parse(e@),
        }
    }
}

/// The message of an import error.
pub open spec fn import_error_message(e: ImportErrorView) -> Seq<char> {
    match e {
        ImportErrorView::Format(f) => format_error_message(f),
        ImportErrorView::Csv(m) => "Failed to parse CSV record: "@ + m,
        ImportErrorView::MissingColumn(c) => "Failed to parse CSV record: missing column "@ + c,
        ImportErrorView::Parse(p) => parse_error_message(p),
    }
}

impl ImportError {
    /// A copy of the error.
    pub fn duplicate(&self) -> (e: ImportError)
        ensures
            e@ == self@,
    {
        match self {
            ImportError::Format(f) => ImportError::Format(*f),
            ImportError::Csv(m) => ImportError::Csv(m.clone()),
            ImportError::MissingColumn(c) => ImportError::MissingColumn(c.clone()),
            ImportError::Parse(p) => ImportError::Parse(p.duplicate()),
        }
    }

    /// The message for the user.
    pub fn message(&self) -> (m: String)
        ensures
            m@ == import_error_message(self@),
    {
        match self {
            ImportError::Format(f) => f.message(),
            ImportError::Csv(text) => {
                let mut out: Vec<char> = Vec::new();
                append_str(&mut out, "Failed to parse CSV record: ");
                append_str(&mut out, text.as_str());
                assert(out@ =~= import_error_message(self@));
                string_from_chars(&out)
            },
            ImportError::MissingColumn(column) => {
                let mut out: Vec<char> = Vec::new();
                append_str(&mut out, "Failed to parse CSV record: missing column ");
                append_str(&mut out, column.as_str());
                assert(out@ =~= import_error_message(self@));
                string_from_chars(&out)
            },
            ImportError::Parse(p) => p.message(),
        }
    }
}

} // verus!
