//! What a look at the database file tells about its encryption.
//!
//! SQLite reports a file that it cannot read in words only. Whether those
//! words speak of encryption is decided here; opening the file and asking it
//! is left to the caller.
use crate::models::opt_text;
use crate::text::{
    append_str, chars_of, contains, contains_text, lowercase_of, string_from_chars, to_lowercase,
};
use vstd::prelude::*;

verus! {

/// Whether the database is encrypted, and whether a password is needed to
/// open it.
#[derive(Clone, Copy, Debug, PartialEq, Eq, Structural)]
pub struct DatabaseStatus {
    pub is_encrypted: bool,
    pub needs_password: bool,
}

/// Whether a password opens the database, and what to tell the user if not.
#[derive(Debug)]
pub struct PasswordValidationResult {
    pub is_valid: bool,
    pub error_message: Option<String>,
}

/// What came of looking at the database file.
#[derive(Debug)]
pub enum DatabaseProbe {
    /// There is no file.
    Missing,
    /// The file could not be opened; the text is the error's.
    OpenFailed(String),
    /// The file was opened and could be read.
    Readable,
    /// The file was opened but could not be read; the text is the error's.
    QueryFailed(String),
}

/// What came of trying a password on the database file.
#[derive(Debug)]
pub enum PasswordProbe {
    /// There is no file.
    Missing,
    /// The key could not be set; the text is the error's.
    KeyRejected(String),
    /// With the key set, the file could be read.
    Readable,
    /// With the key set, the file could not be read; the text is the
    /// error's.
    QueryFailed(String),
}

/// The words of an error on reading speak of encryption: whatever the case
/// of the letters, they say that the file is no database, that it is
/// encrypted, or they name a cipher.
pub open spec fn read_error_means_encrypted(message: Seq<char>) -> bool {
    let lowered = lowercase_of(message);
    ||| contains_text(lowered, "file is not a database"@)
    ||| contains_text(lowered, "file is encrypted"@)
    ||| contains_text(lowered, "cipher"@)
}

/// The words of an error on opening speak of encryption: whatever the case
/// of the letters, they say `encrypted` or name a cipher.
pub open spec fn open_error_means_encrypted(message: Seq<char>) -> bool {
    let lowered = lowercase_of(message);
    contains_text(lowered, "encrypted"@) || contains_text(lowered, "cipher"@)
}

/// Whether words in lower case speak of encryption as an error on reading
/// does.
pub fn lowered_read_error_means_encrypted(lowered: &str) -> (r: bool)
    ensures
        r == (contains_text(lowered@, "file is not a database"@) || contains_text(
            lowered@,
            "file is encrypted"@,
        ) || contains_text(lowered@, "cipher"@)),
{
    let text = chars_of(lowered);
    contains(&text, &chars_of("file is not a database")) || contains(
        &text,
        &chars_of("file is encrypted"),
    ) || contains(&text, &chars_of("cipher"))
}

/// Whether words in lower case speak of encryption as an error on opening
/// does.
pub fn lowered_open_error_means_encrypted(lowered: &str) -> (r: bool)
    ensures
        r == (contains_text(lowered@, "encrypted"@) || contains_text(lowered@, "cipher"@)),
{
    let text = chars_of(lowered);
    contains(&text, &chars_of("encrypted")) || contains(&text, &chars_of("cipher"))
}

/// The status that a look at the database file tells, or the message of a
/// failure that says nothing about encryption.
pub open spec fn status_of(probe: DatabaseProbe) -> Result<DatabaseStatus, Seq<char>> {
    match probe {
        DatabaseProbe::Missing => Ok(DatabaseStatus { is_encrypted: false, needs_password: false }),
        DatabaseProbe::Readable => Ok(
            DatabaseStatus { is_encrypted: false, needs_password: false },
        ),
        DatabaseProbe::QueryFailed(message) => {
            let encrypted = read_error_means_encrypted(message@);
            Ok(DatabaseStatus { is_encrypted: encrypted, needs_password: encrypted })
        },
        DatabaseProbe::OpenFailed(message) => if open_error_means_encrypted(message@) {
            Ok(DatabaseStatus { is_encrypted: true, needs_password: true })
        } else {
            Err("Failed to check database: "@ + message@)
        },
    }
}

/// Tells the status of the database from a look at its file: a file that is
/// missing or can be read is not encrypted; one that cannot be read is
/// encrypted if the error says so; one that cannot be opened is encrypted if
/// the error says so, and a failure if not.
pub fn check_database_status(probe: &DatabaseProbe) -> (r: Result<DatabaseStatus, String>)
    ensures
        match r {
            Ok(status) => status_of(*probe) == Ok::<DatabaseStatus, Seq<char>>(status),
            Err(message) => status_of(*probe) == Err::<DatabaseStatus, Seq<char>>(message@),
        },
{
    match probe {
        DatabaseProbe::Missing => Ok(DatabaseStatus { is_encrypted: false, needs_password: false }),
        DatabaseProbe::Readable => Ok(
            DatabaseStatus { is_encrypted: false, needs_password: false },
        ),
        DatabaseProbe::QueryFailed(message) => {
            let lowered = to_lowercase(message.as_str());
            let encrypted = lowered_read_error_means_encrypted(lowered.as_str());
            Ok(DatabaseStatus { is_encrypted: encrypted, needs_password: encrypted })
        },
        DatabaseProbe::OpenFailed(message) => {
            let lowered = to_lowercase(message.as_str());
            if lowered_open_error_means_encrypted(lowered.as_str()) {
                Ok(DatabaseStatus { is_encrypted: true, needs_password: true })
            } else {
                let mut out: Vec<char> = Vec::new();
                append_str(&mut out, "Failed to check database: ");
                append_str(&mut out, message.as_str());
                assert(out@ =~= "Failed to check database: "@ + message@);
                Err(string_from_chars(&out))
            }
        },
    }
}

/// What trying a password tells: whether it is valid, and the message for
/// the user if not.
pub open spec fn validation_of(probe: PasswordProbe) -> (bool, Option<Seq<char>>) {
    match probe {
        PasswordProbe::Missing => (false, Some("Database does not exist"@)),
        PasswordProbe::KeyRejected(message) => (false, Some("Failed to set key: "@ + message@)),
        PasswordProbe::Readable => (true, None),
        PasswordProbe::QueryFailed(message) => if read_error_means_encrypted(message@) {
            (false, Some("Incorrect password. Please try again."@))
        } else {
            (false, Some("Database error: "@ + message@))
        },
    }
}

/// Tells whether a password is valid from what came of trying it: valid if
/// the file could be read with it; else not, with a message that speaks of a
/// wrong password where the error speaks of encryption.
pub fn validate_database_password(probe: &PasswordProbe) -> (r: PasswordValidationResult)
    ensures
        r.is_valid == validation_of(*probe).0,
        opt_text(r.error_message) == validation_of(*probe).1,
{
    match probe {
        PasswordProbe::Missing => PasswordValidationResult {
            is_valid: false,
            error_message: Some(String::from_str("Database does not exist")),
        },
        PasswordProbe::KeyRejected(message) => {
            let mut out: Vec<char> = Vec::new();
            append_str(&mut out, "Failed to set key: ");
            append_str(&mut out, message.as_str());
            assert(out@ =~= "Failed to set key: "@ + message@);
            PasswordValidationResult {
                is_valid: false,
                error_message: Some(string_from_chars(&out)),
            }
        },
        PasswordProbe::Readable => PasswordValidationResult { is_valid: true, error_message: None },
        PasswordProbe::QueryFailed(message) => {
            let lowered = to_lowercase(message.as_str());
            if lowered_read_error_means_encrypted(lowered.as_str()) {
                PasswordValidationResult {
                    is_valid: false,
                    error_message: Some(String::from_str("Incorrect password. Please try again.")),
                }
            } else {
                let mut out: Vec<char> = Vec::new();
                append_str(&mut out, "Database error: ");
                append_str(&mut out, message.as_str());
                assert(out@ =~= "Database error: "@ + message@);
                PasswordValidationResult {
                    is_valid: false,
                    error_message: Some(string_from_chars(&out)),
                }
            }
        },
    }
}

/// The placeholders of a statement with `count` values: question marks with
/// `, ` between them.
pub open spec fn placeholders(count: nat) -> Seq<char>
    decreases count,
{
    if count == 0 {
        Seq::empty()
    } else if count == 1 {
        "?"@
    } else {
        placeholders((count - 1) as nat) + ", ?"@
    }
}

/// The statement that inserts a row of `column_count` values into `table`.
pub open spec fn insert_statement(table: Seq<char>, column_count: nat) -> Seq<char> {
    "INSERT INTO "@ + table + " VALUES ("@ + placeholders(column_count) + ")"@
}

/// Writes the statement that inserts a row of `column_count` values into
/// `table`.
pub fn insert_statement_for(table: &str, column_count: usize) -> (statement: String)
    ensures
        statement@ == insert_statement(table@, column_count as nat),
{
    let mut out: Vec<char> = Vec::new();
    append_str(&mut out, "INSERT INTO ");
    append_str(&mut out, table);
    append_str(&mut out, " VALUES (");
    let ghost head = out@;
    let mut i: usize = 0;
    assert(head + placeholders(0) =~= head);
    while i < column_count
        invariant
            i <= column_count,
            out@ == head + placeholders(i as nat),
        decreases column_count - i,
    {
        if i == 0 {
            append_str(&mut out, "?");
        } else {
            append_str(&mut out, ", ?");
        }
        assert(out@ =~= head + placeholders((i + 1) as nat));
        i += 1;
    }
    append_str(&mut out, ")");
    assert(out@ =~= insert_statement(table@, column_count as nat));
    string_from_chars(&out)
}

} // verus!
