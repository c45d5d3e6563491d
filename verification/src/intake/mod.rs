//! Dataset containers and connectors for loading source records.

/// Generic dataset container.
pub mod dataset;
/// Source connectors.
pub mod source;

use crate::text::number::{decimal, to_decimal};
use crate::text::owned;
pub use source::{FileFormat, FileSource, PostgresSource};
use vstd::prelude::*;
use vstd::string::*;

verus! {

/// Why reading records from a source failed.
#[derive(Debug)]
pub enum IntakeError {
    /// The file's extension doesn't say which format it is.
    UnknownFormat {
        /// The extension, lowercased, if the path has one.
        extension: Option<String>,
    },
    /// A file couldn't be read.
    Io {
        /// The file.
        path: String,
        /// The I/O error.
        message: String,
    },
    /// A CSV file couldn't be parsed.
    Csv {
        /// The file.
        path: String,
        /// The 1-based record that failed, when a record failed.
        record: Option<usize>,
        /// The CSV error.
        message: String,
    },
    /// A JSON or JSON Lines file couldn't be parsed.
    Json {
        /// The file.
        path: String,
        /// The 1-based line that failed, for JSON Lines.
        line: Option<usize>,
        /// The parse error.
        message: String,
    },
    /// A dataset has no data.
    NoData,
    /// A record couldn't be serialized as JSON.
    Serialize(String),
    /// A PostgreSQL call failed.
    Postgres {
        /// What was being done.
        context: String,
        /// The driver's error.
        message: String,
    },
    /// A SQLite call failed.
    Sqlite {
        /// What was being done.
        context: String,
        /// The driver's error.
        message: String,
    },
    /// A MySQL call failed.
    MySql {
        /// What was being done.
        context: String,
        /// The driver's error.
        message: String,
    },
    /// The blocking SQLite worker panicked or was cancelled.
    Worker(String),
    /// An HTTP request failed or returned an error status.
    Http {
        /// The URL requested.
        url: String,
        /// The request error.
        message: String,
    },
    /// The JSON pointer matched nothing in the response.
    PointerNotFound {
        /// The pointer.
        pointer: String,
    },
}

/// The `Debug` text of a string.
pub uninterp spec fn debug_text(s: Seq<char>) -> Seq<char>;

/// Whether `Debug` shows a character as it is: printable ASCII but for the
/// quote and the backslash.
pub open spec fn shows_itself(c: char) -> bool {
    0x20 <= c as u32 <= 0x7e && c != '"' && c != '\\'
}

/// Quotes a string the way `Debug` does. Calls the `Debug` of `str`.
///
/// Claims that the result depends on the string alone, and that printable
/// ASCII without quotes and backslashes stands in quotes as it is.
#[verifier::external_body]
pub(crate) fn debug_quote(s: &str) -> (r: String)
    ensures
        r@ == debug_text(s@),
        (forall|i: int| 0 <= i < s@.len() ==> shows_itself(#[trigger] s@[i])) ==> r@ == seq!['"']
            + s@ + seq!['"'],
{
    format!("{s:?}")
}

/// The `Debug` text of an optional string.
pub open spec fn debug_option(s: Option<String>) -> Seq<char> {
    match s {
        Some(text) => "Some("@ + debug_text(text@) + ")"@,
        None => "None"@,
    }
}

/// A word and a number, when there is one.
pub open spec fn numbered(word: Seq<char>, n: Option<usize>) -> Seq<char> {
    match n {
        Some(at) => word + decimal(at as nat),
        None => Seq::empty(),
    }
}

/// The text of an intake error.
pub open spec fn intake_error_text(e: IntakeError) -> Seq<char> {
    match e {
        IntakeError::UnknownFormat { extension } => "cannot infer file format from extension "@
            + debug_option(extension) + "; set it explicitly with FileSource::with_format"@,
        IntakeError::Io { path, message } => "reading "@ + path@ + ": "@ + message@,
        IntakeError::Csv { path, record, message } => "parsing CSV "@ + path@ + numbered(
            " record "@,
            record,
        ) + ": "@ + message@,
        IntakeError::Json { path, line, message } => "parsing JSON "@ + path@ + numbered(
            " line "@,
            line,
        ) + ": "@ + message@,
        IntakeError::NoData => "the dataset has no data"@,
        IntakeError::Serialize(message) => "could not serialize a record: "@ + message@,
        IntakeError::Postgres { context, message } => "PostgreSQL source, "@ + context@ + ": "@
            + message@,
        IntakeError::Sqlite { context, message } => "SQLite source, "@ + context@ + ": "@
            + message@,
        IntakeError::MySql { context, message } => "MySQL source, "@ + context@ + ": "@ + message@,
        IntakeError::Worker(message) => "SQLite worker failed: "@ + message@,
        IntakeError::Http { url, message } => "HTTP source "@ + url@ + ": "@ + message@,
        IntakeError::PointerNotFound { pointer } => "JSON pointer "@ + debug_text(pointer@)
            + " not found in the response"@,
    }
}

/// Appends a word and a number, when there is one.
fn push_numbered(out: &mut String, word: &str, n: Option<usize>)
    ensures
        final(out)@ == old(out)@ + numbered(word@, n),
{
    let ghost before = out@;
    match n {
        Some(at) => {
            out.append(word);
            let digits = to_decimal(at as u128);
            out.append(digits.as_str());
            proof {
                assert(out@ =~= before + numbered(word@, n));
            }
        },
        None => {
            proof {
                assert(out@ =~= before + numbered(word@, n));
            }
        },
    }
}

/// Three pieces of text and a message.
fn described(head: &str, subject: &str, middle: &str, message: &str) -> (r: String)
    ensures
        r@ == head@ + subject@ + middle@ + message@,
{
    let mut out = owned(head);
    out.append(subject);
    out.append(middle);
    out.append(message);
    out
}

impl IntakeError {
    /// The text of this error.
    pub fn display(&self) -> (r: String)
        ensures
            r@ == intake_error_text(*self),
    {
        match self {
            IntakeError::UnknownFormat { extension } => {
                let mut out = owned("cannot infer file format from extension ");
                match extension {
                    Some(text) => {
                        let quoted = debug_quote(text.as_str());
                        let mut shown = owned("Some(");
                        shown.append(quoted.as_str());
                        shown.append(")");
                        out.append(shown.as_str());
                    },
                    None => out.append("None"),
                }
                out.append("; set it explicitly with FileSource::with_format");
                out
            },
            IntakeError::Io { path, message } => described(
                "reading ",
                path.as_str(),
                ": ",
                message.as_str(),
            ),
            IntakeError::Csv { path, record, message } => {
                let mut out = owned("parsing CSV ");
                out.append(path.as_str());
                push_numbered(&mut out, " record ", *record);
                out.append(": ");
                out.append(message.as_str());
                out
            },
            IntakeError::Json { path, line, message } => {
                let mut out = owned("parsing JSON ");
                out.append(path.as_str());
                push_numbered(&mut out, " line ", *line);
                out.append(": ");
                out.append(message.as_str());
                out
            },
            IntakeError::NoData => owned("the dataset has no data"),
            IntakeError::Serialize(message) => {
                let mut out = owned("could not serialize a record: ");
                out.append(message.as_str());
                out
            },
            IntakeError::Postgres { context, message } => described(
                "PostgreSQL source, ",
                context.as_str(),
                ": ",
                message.as_str(),
            ),
            IntakeError::Sqlite { context, message } => described(
                "SQLite source, ",
                context.as_str(),
                ": ",
                message.as_str(),
            ),
            IntakeError::MySql { context, message } => described(
                "MySQL source, ",
                context.as_str(),
                ": ",
                message.as_str(),
            ),
            IntakeError::Worker(message) => {
                let mut out = owned("SQLite worker failed: ");
                out.append(message.as_str());
                out
            },
            IntakeError::Http { url, message } => described(
                "HTTP source ",
                url.as_str(),
                ": ",
                message.as_str(),
            ),
            IntakeError::PointerNotFound { pointer } => {
                let mut out = owned("JSON pointer ");
                let quoted = debug_quote(pointer.as_str());
                out.append(quoted.as_str());
                out.append(" not found in the response");
                out
            },
        }
    }
}

} // verus!
