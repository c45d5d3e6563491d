//! Connectors that read records into [`DataSet`]s.

use super::dataset::DataSet;
use super::IntakeError;
use crate::json::{
    in_name_order, json_parsed, lemma_member_is_set, pairs, parse_view, set_member, with_member, JsonValue,
    JsonView,
};
use crate::text::lines::{lines, lines_of, views};
use crate::text::number::{decimal, to_decimal};
use crate::text::search::{ascii_lowered, to_ascii_lower};
use crate::text::trim::{trim, trimmed};
use crate::text::{option_view, owned, same_text};
use std::collections::BTreeMap;
use std::path::Path;
use vstd::prelude::*;
use vstd::string::*;
use vstd::utf8::{decode_utf8, valid_utf8};

verus! {

/// Supported flat-file encodings for [`FileSource`].
#[derive(Debug, Clone, Copy, PartialEq, Eq, Structural)]
pub enum FileFormat {
    /// Comma-separated values with a header row. Every field is read as text.
    Csv,
    /// A single JSON array of values.
    Json,
    /// JSON Lines / NDJSON: one JSON value per line.
    Jsonl,
}

/// The format that an extension stands for, whatever its case.
pub open spec fn format_of(extension: Option<Seq<char>>) -> Option<FileFormat> {
    match extension {
        Some(text) => {
            let lower = ascii_lowered(text);
            if lower == "csv"@ {
                Some(FileFormat::Csv)
            } else if lower == "json"@ {
                Some(FileFormat::Json)
            } else if lower == "jsonl"@ || lower == "ndjson"@ {
                Some(FileFormat::Jsonl)
            } else {
                None
            }
        },
        None => None,
    }
}

/// Whether `path` is the file `name` in the directory `dir`, which is empty or
/// ends in a slash, perhaps with slashes behind the name. Left out is what some
/// machines split and others don't: backslashes, colons in the name, and paths
/// that begin with two slashes, which can name a share on another machine.
pub open spec fn is_file_in(path: Seq<char>, dir: Seq<char>, name: Seq<char>) -> bool {
    &&& name.len() <= path.len() - dir.len()
    &&& path.take((dir.len() + name.len()) as int) == dir + name
    &&& forall|i: int| dir.len() + name.len() <= i < path.len() ==> (#[trigger] path[i]) == '/'
    &&& !(path.len() >= 2 && path[0] == '/' && path[1] == '/')
    &&& dir.len() == 0 || dir.last() == '/'
    &&& name.len() > 0
    &&& forall|i: int| 0 <= i < name.len() ==> (#[trigger] name[i]) != '/' && name[i] != ':'
    &&& forall|i: int| 0 <= i < path.len() ==> (#[trigger] path[i]) != '\\'
}

/// Whether `path` is a file whose name is made of `stem`, a dot and `extension`.
/// A name that ends in a dot has an empty one. The name `..` is no file's.
pub open spec fn has_extension(
    path: Seq<char>,
    dir: Seq<char>,
    stem: Seq<char>,
    extension: Seq<char>,
) -> bool {
    &&& is_file_in(path, dir, stem + seq!['.'] + extension)
    &&& stem.len() > 0
    &&& stem == seq!['.'] ==> extension.len() > 0
    &&& forall|i: int| 0 <= i < extension.len() ==> (#[trigger] extension[i]) != '.'
}

/// Whether `path` is a file whose name has no dot, except perhaps its first
/// character, or the parent of a directory.
pub open spec fn has_no_extension(path: Seq<char>, dir: Seq<char>, name: Seq<char>) -> bool {
    &&& is_file_in(path, dir, name)
    &&& name != seq!['.']
    &&& name == seq!['.', '.'] || forall|i: int|
        1 <= i < name.len() ==> (#[trigger] name[i]) != '.'
}

/// Whether `r` is the format that the extension of a path stands for, or the
/// error of a path without one that is known.
pub open spec fn is_format_of(path: Seq<char>, r: Result<FileFormat, IntakeError>) -> bool {
    &&& forall|dir: Seq<char>, stem: Seq<char>, extension: Seq<char>| #[trigger]
        has_extension(path, dir, stem, extension) ==> match format_of(Some(extension)) {
            Some(format) => r == Ok::<_, IntakeError>(format),
            None => r matches Err(e) && e matches IntakeError::UnknownFormat { extension: shown }
                && option_view(shown) == Some(ascii_lowered(extension)),
        }
    &&& forall|dir: Seq<char>, name: Seq<char>| #[trigger]
        has_no_extension(path, dir, name) ==> r == Err::<FileFormat, _>(
            IntakeError::UnknownFormat { extension: None },
        )
}

/// The extension of a path. Calls `Path::extension`.
///
/// Claims what holds on every machine: the extension is what follows the last
/// dot of the file name, whatever slashes stand behind it, and a name without a
/// dot, or with one only in front, has none, nor has `..`. Nothing is claimed of
/// paths that machines split differently: those with a backslash, with a colon
/// in the name, or with two slashes in front.
#[verifier::external_body]
fn path_extension(path: &str) -> (r: Option<String>)
    ensures
        forall|dir: Seq<char>, stem: Seq<char>, extension: Seq<char>| #[trigger]
            has_extension(path@, dir, stem, extension) ==> option_view(r) == Some(extension),
        forall|dir: Seq<char>, name: Seq<char>| #[trigger]
            has_no_extension(path@, dir, name) ==> r is None,
{
    Path::new(path).extension().and_then(|e| e.to_str()).map(|e| e.to_owned())
}

/// Decodes UTF-8, if the bytes are well formed. Calls `std::str::from_utf8`.
///
/// Claims that this succeeds exactly for well-formed UTF-8 and gives the
/// characters that the bytes encode.
#[verifier::external_body]
fn decode_text(bytes: &[u8]) -> (r: Option<String>)
    ensures
        r is Some <==> valid_utf8(bytes@),
        r matches Some(text) ==> text@ == decode_utf8(bytes@),
{
    std::str::from_utf8(bytes).ok().map(|text| text.to_owned())
}

impl FileFormat {
    /// The format that an extension stands for.
    pub fn from_extension(extension: Option<String>) -> (r: Result<FileFormat, IntakeError>)
        ensures
            match format_of(option_view(extension)) {
                Some(format) => r == Ok::<_, IntakeError>(format),
                None => r matches Err(e) && e matches IntakeError::UnknownFormat { extension: shown }
                    && option_view(shown) == match extension {
                    Some(text) => Some(ascii_lowered(text@)),
                    None => None,
                },
            },
    {
        match extension {
            Some(text) => {
                let lower = to_ascii_lower(text.as_str());
                if same_text(lower.as_str(), "csv") {
                    Ok(FileFormat::Csv)
                } else if same_text(lower.as_str(), "json") {
                    Ok(FileFormat::Json)
                } else if same_text(lower.as_str(), "jsonl") || same_text(
                    lower.as_str(),
                    "ndjson",
                ) {
                    Ok(FileFormat::Jsonl)
                } else {
                    Err(IntakeError::UnknownFormat { extension: Some(lower) })
                }
            },
            None => Err(IntakeError::UnknownFormat { extension: None }),
        }
    }

    /// The format that the extension of `path` stands for: what follows the last
    /// dot of the file name. How a path with backslashes, colons or two slashes
    /// in front is split is the machine's.
    pub fn from_path(path: &str) -> (r: Result<FileFormat, IntakeError>)
        ensures
            is_format_of(path@, r),
            r matches Err(e) ==> e is UnknownFormat && format_of(
                option_view(e->UnknownFormat_extension),
            ) is None,
    {
        let extension = path_extension(path);
        let ghost found = option_view(extension);
        let r = FileFormat::from_extension(extension);
        proof {
            if let Some(text) = found {
                lemma_lowered_twice(text);
            }
        }
        r
    }
}

/// Lowering a text twice changes nothing more.
proof fn lemma_lowered_twice(text: Seq<char>)
    ensures
        ascii_lowered(ascii_lowered(text)) == ascii_lowered(text),
{
    assert(ascii_lowered(ascii_lowered(text)) =~= ascii_lowered(text));
}

/// Reads CSV, JSON (array) and JSONL flat files.
#[derive(Debug, Clone)]
pub struct FileSource {
    /// The file.
    pub path: String,
    /// The name of its datasets.
    pub identifier: String,
    /// How it is encoded.
    pub format: FileFormat,
    /// How many rows go in one dataset; 0 for a single dataset.
    pub batch_size: usize,
}

/// The records of a CSV text as `csv` reads them: for each its fields by name,
/// or the message of its error.
pub uninterp spec fn csv_records(bytes: Seq<u8>) -> Seq<
    Result<Seq<(Seq<char>, Seq<char>)>, Seq<char>>,
>;

/// The model of the fields of a record.
pub open spec fn fields_view(fields: Seq<(String, String)>) -> Seq<(Seq<char>, Seq<char>)> {
    fields.map_values(|field: (String, String)| (field.0@, field.1@))
}

/// The model of a record.
pub open spec fn record_view(record: Result<Vec<(String, String)>, String>) -> Result<
    Seq<(Seq<char>, Seq<char>)>,
    Seq<char>,
> {
    match record {
        Ok(fields) => Ok(fields_view(fields@)),
        Err(message) => Err(message@),
    }
}

/// The model of a list of records.
pub open spec fn records_view(records: Seq<Result<Vec<(String, String)>, String>>) -> Seq<
    Result<Seq<(Seq<char>, Seq<char>)>, Seq<char>>,
> {
    records.map_values(|record: Result<Vec<(String, String)>, String>| record_view(record))
}

/// Reads a CSV text with a header row. Calls `csv::Reader::deserialize` for
/// maps from the header's names to the fields.
///
/// Claims that the records depend on the bytes alone.
#[verifier::external_body]
fn read_csv(bytes: &[u8]) -> (r: Vec<Result<Vec<(String, String)>, String>>)
    ensures
        records_view(r@) == csv_records(bytes@),
{
    csv::Reader::from_reader(bytes)
        .into_deserialize::<BTreeMap<String, String>>()
        .map(|r| r.map(|m| m.into_iter().collect()).map_err(|e| e.to_string()))
        .collect()
}

/// The object of a CSV record: every field as text.
pub open spec fn record_object(fields: Seq<(Seq<char>, Seq<char>)>) -> JsonView {
    JsonView::Object(
        fields.map_values(|field: (Seq<char>, Seq<char>)| (field.0, JsonView::Text(field.1))),
    )
}

/// The rows of CSV records, or the 1-based number and message of the first
/// record that failed.
pub open spec fn csv_rows(
    records: Seq<Result<Seq<(Seq<char>, Seq<char>)>, Seq<char>>>,
) -> Result<Seq<JsonView>, (nat, Seq<char>)>
    decreases records.len(),
{
    if records.len() == 0 {
        Ok(Seq::empty())
    } else {
        match csv_rows(records.drop_last()) {
            Err(e) => Err(e),
            Ok(rows) => match records.last() {
                Ok(fields) => Ok(rows.push(record_object(fields))),
                Err(message) => Err((records.len(), message)),
            },
        }
    }
}

/// The rows of parsed JSON lines, or the 1-based number and message of the first
/// line that failed. Blank lines, which aren't parsed, are skipped.
pub open spec fn line_rows(parses: Seq<Option<Result<JsonView, Seq<char>>>>) -> Result<
    Seq<JsonView>,
    (nat, Seq<char>),
>
    decreases parses.len(),
{
    if parses.len() == 0 {
        Ok(Seq::empty())
    } else {
        match line_rows(parses.drop_last()) {
            Err(e) => Err(e),
            Ok(rows) => match parses.last() {
                None => Ok(rows),
                Some(Ok(value)) => Ok(rows.push(value)),
                Some(Err(message)) => Err((parses.len(), message)),
            },
        }
    }
}

/// The parse of a line that isn't blank.
pub open spec fn line_parse(line: Seq<char>) -> Option<Result<JsonView, Seq<char>>> {
    if trimmed(line).len() == 0 {
        None
    } else {
        Some(json_parsed(line))
    }
}

/// The rows of JSON lines.
pub open spec fn jsonl_rows(list: Seq<Seq<char>>) -> Result<Seq<JsonView>, (nat, Seq<char>)> {
    line_rows(list.map_values(|line: Seq<char>| line_parse(line)))
}

/// The rows of a parsed JSON text: the items of an array, or a single value.
pub open spec fn value_rows(parsed: Result<JsonView, Seq<char>>) -> Result<
    Seq<JsonView>,
    Seq<char>,
> {
    match parsed {
        Ok(JsonView::Array(items)) => Ok(items),
        Ok(value) => Ok(seq![value]),
        Err(message) => Err(message),
    }
}

/// The rows of a JSON text.
pub open spec fn json_rows(text: Seq<char>) -> Result<Seq<JsonView>, Seq<char>> {
    value_rows(json_parsed(text))
}

/// The models of parsed lines.
pub open spec fn parses_view(lines: Seq<Option<Result<JsonValue, String>>>) -> Seq<
    Option<Result<JsonView, Seq<char>>>,
> {
    lines.map_values(
        |line: Option<Result<JsonValue, String>>|
            match line {
                Some(parsed) => Some(parse_view(parsed)),
                None => None,
            },
    )
}

/// The models of a list of rows.
pub open spec fn row_views(rows: Seq<JsonValue>) -> Seq<JsonView> {
    rows.map_values(|row: JsonValue| row@)
}

/// The message about a file that isn't text.
pub const NOT_UTF8_MESSAGE: &'static str = "stream did not contain valid UTF-8";

/// Whether `r` is what CSV records with these rows read as.
pub open spec fn reads_as_csv(
    path: Seq<char>,
    rows: Result<Seq<JsonView>, (nat, Seq<char>)>,
    r: Result<Vec<JsonValue>, IntakeError>,
) -> bool {
    match rows {
        Ok(rows) => r matches Ok(got) && row_views(got@) == rows,
        Err((n, why)) => r matches Err(e) && e matches IntakeError::Csv {
            path: p,
            record,
            message,
        } && p@ == path && record == Some(n as usize) && message@ == why,
    }
}

/// Whether `r` is what a JSON text with these rows reads as.
pub open spec fn reads_as_json(
    path: Seq<char>,
    rows: Result<Seq<JsonView>, Seq<char>>,
    r: Result<Vec<JsonValue>, IntakeError>,
) -> bool {
    match rows {
        Ok(rows) => r matches Ok(got) && row_views(got@) == rows,
        Err(why) => r matches Err(e) && e matches IntakeError::Json {
            path: p,
            line,
            message,
        } && p@ == path && line is None && message@ == why,
    }
}

/// Whether `r` is what JSON lines with these rows read as.
pub open spec fn reads_as_jsonl(
    path: Seq<char>,
    rows: Result<Seq<JsonView>, (nat, Seq<char>)>,
    r: Result<Vec<JsonValue>, IntakeError>,
) -> bool {
    match rows {
        Ok(rows) => r matches Ok(got) && row_views(got@) == rows,
        Err((n, why)) => r matches Err(e) && e matches IntakeError::Json {
            path: p,
            line,
            message,
        } && p@ == path && line == Some(n as usize) && message@ == why,
    }
}

/// Whether `r` is what a file that holds `bytes` reads as.
pub open spec fn reads_as(
    format: FileFormat,
    path: Seq<char>,
    bytes: Seq<u8>,
    r: Result<Vec<JsonValue>, IntakeError>,
) -> bool {
    if format == FileFormat::Csv {
        reads_as_csv(path, csv_rows(csv_records(bytes)), r)
    } else if !valid_utf8(bytes) {
        r matches Err(e) && e matches IntakeError::Io { path: p, message } && p@ == path && message@
            == NOT_UTF8_MESSAGE@
    } else if format == FileFormat::Json {
        reads_as_json(path, json_rows(decode_utf8(bytes)), r)
    } else {
        reads_as_jsonl(path, jsonl_rows(lines_of(decode_utf8(bytes))), r)
    }
}

/// A failure stands, whatever lines follow.
proof fn lemma_line_failure_stands(parses: Seq<Option<Result<JsonView, Seq<char>>>>, n: int)
    requires
        0 <= n <= parses.len(),
        line_rows(parses.take(n)) is Err,
    ensures
        line_rows(parses) == line_rows(parses.take(n)),
    decreases parses.len(),
{
    if n == parses.len() {
        assert(parses.take(n) =~= parses);
    } else {
        assert(parses.drop_last().take(n) =~= parses.take(n));
        lemma_line_failure_stands(parses.drop_last(), n);
    }
}

/// A failure stands, whatever records follow.
proof fn lemma_csv_failure_stands(
    records: Seq<Result<Seq<(Seq<char>, Seq<char>)>, Seq<char>>>,
    n: int,
)
    requires
        0 <= n <= records.len(),
        csv_rows(records.take(n)) is Err,
    ensures
        csv_rows(records) == csv_rows(records.take(n)),
    decreases records.len(),
{
    if n == records.len() {
        assert(records.take(n) =~= records);
    } else {
        assert(records.drop_last().take(n) =~= records.take(n));
        lemma_csv_failure_stands(records.drop_last(), n);
    }
}

/// The object of a CSV record.
fn record_to_object(fields: &Vec<(String, String)>) -> (r: JsonValue)
    ensures
        r@ == record_object(fields_view(fields@)),
{
    let mut members: Vec<(String, JsonValue)> = Vec::new();
    let mut i: usize = 0;
    while i < fields.len()
        invariant
            i <= fields@.len(),
            members@.len() == i,
            forall|j: int|
                0 <= j < i ==> (#[trigger] members@[j]).0@ == fields@[j].0@ && members@[j].1@
                    == JsonView::Text(fields@[j].1@),
        decreases fields@.len() - i,
    {
        members.push((fields[i].0.clone(), JsonValue::string(fields[i].1.as_str())));
        i += 1;
    }
    let r = JsonValue::Object(members);
    proof {
        assert(r@->Object_0 =~= record_object(fields_view(fields@))->Object_0);
    }
    r
}

/// The rows of the records of a CSV file, up to the first that failed.
pub fn rows_of_records(records: Vec<Result<Vec<(String, String)>, String>>, path: &str) -> (r:
    Result<Vec<JsonValue>, IntakeError>)
    ensures
        reads_as_csv(path@, csv_rows(records_view(records@)), r),
{
    let ghost all = records_view(records@);
    let mut rows: Vec<JsonValue> = Vec::new();
    let mut i: usize = 0;
    proof {
        assert(all.take(0) =~= Seq::empty());
        assert(row_views(rows@) =~= Seq::empty());
    }
    while i < records.len()
        invariant
            i <= records@.len(),
            records_view(records@) == all,
            csv_rows(all.take(i as int)) == Ok::<_, (nat, Seq<char>)>(row_views(rows@)),
        decreases records@.len() - i,
    {
        proof {
            assert(all.len() == records@.len());
            assert(all[i as int] == record_view(records@[i as int]));
            assert(all.take(i + 1).drop_last() =~= all.take(i as int));
            assert(all.take(i + 1).last() == all[i as int]);
        }
        match &records[i] {
            Ok(fields) => {
                let ghost before = rows@;
                let row = record_to_object(fields);
                rows.push(row);
                proof {
                    assert(row_views(rows@) =~= row_views(before).push(row@));
                }
            },
            Err(message) => {
                proof {
                    lemma_csv_failure_stands(all, i + 1);
                }
                return Err(
                    IntakeError::Csv {
                        path: owned(path),
                        record: Some(i + 1),
                        message: message.clone(),
                    },
                );
            },
        }
        i += 1;
    }
    proof {
        assert(all.take(all.len() as int) =~= all);
    }
    Ok(rows)
}

/// The rows of a JSON file, given what parsing it gave.
pub fn rows_of_value(parsed: Result<JsonValue, String>, path: &str) -> (r: Result<
    Vec<JsonValue>,
    IntakeError,
>)
    ensures
        reads_as_json(path@, value_rows(parse_view(parsed)), r),
{
    match parsed {
        Ok(JsonValue::Array(items)) => {
            proof {
                let value = JsonValue::Array(items);
                assert(row_views(items@) =~= value@->Array_0);
            }
            Ok(items)
        },
        Ok(value) => {
            let mut rows: Vec<JsonValue> = Vec::new();
            rows.push(value);
            proof {
                assert(row_views(rows@) =~= seq![value@]);
            }
            Ok(rows)
        },
        Err(message) => Err(IntakeError::Json { path: owned(path), line: None, message }),
    }
}

/// The rows of a file of JSON lines, given what parsing each line gave, up to
/// the first that failed. Blank lines aren't parsed.
pub fn rows_of_lines(parsed: Vec<Option<Result<JsonValue, String>>>, path: &str) -> (r: Result<
    Vec<JsonValue>,
    IntakeError,
>)
    ensures
        reads_as_jsonl(path@, line_rows(parses_view(parsed@)), r),
{
    let ghost lines = parsed@;
    let ghost all = parses_view(lines);
    let mut rows: Vec<JsonValue> = Vec::new();
    let mut number: usize = 0;
    let count: usize = parsed.len();
    proof {
        assert(all.take(0) =~= Seq::empty());
        assert(row_views(rows@) =~= Seq::empty());
    }
    for line in it: parsed
        invariant
            it.seq() == lines,
            lines.len() == count,
            number == it.index(),
            all == parses_view(lines),
            line_rows(all.take(number as int)) == Ok::<_, (nat, Seq<char>)>(row_views(rows@)),
    {
        proof {
            assert(line == lines[number as int]);
            assert(all.take(number + 1).drop_last() =~= all.take(number as int));
            assert(all.take(number + 1).last() == all[number as int]);
        }
        number += 1;
        match line {
            None => {},
            Some(Ok(value)) => {
                let ghost before = rows@;
                rows.push(value);
                proof {
                    assert(row_views(rows@) =~= row_views(before).push(value@));
                }
            },
            Some(Err(message)) => {
                proof {
                    lemma_line_failure_stands(all, number as int);
                }
                return Err(IntakeError::Json { path: owned(path), line: Some(number), message });
            },
        }
    }
    proof {
        assert(all.take(all.len() as int) =~= all);
    }
    Ok(rows)
}

impl FileSource {
    /// Builds a source over `path`, inferring the format from its extension.
    pub fn new(path: &str, identifier: &str) -> (r: Result<FileSource, IntakeError>)
        ensures
            r matches Ok(source) ==> source.path@ == path@ && source.identifier@ == identifier@
                && source.batch_size == 0,
            forall|dir: Seq<char>, stem: Seq<char>, extension: Seq<char>| #[trigger]
                has_extension(path@, dir, stem, extension) ==> match format_of(Some(extension)) {
                    Some(format) => r matches Ok(source) && source.format == format,
                    None => r matches Err(e) && e matches IntakeError::UnknownFormat {
                        extension: shown,
                    } && option_view(shown) == Some(ascii_lowered(extension)),
                },
            forall|dir: Seq<char>, name: Seq<char>| #[trigger]
                has_no_extension(path@, dir, name) ==> r == Err::<FileSource, _>(
                    IntakeError::UnknownFormat { extension: None },
                ),
            r matches Err(e) ==> e is UnknownFormat && format_of(
                option_view(e->UnknownFormat_extension),
            ) is None,
    {
        match FileFormat::from_path(path) {
            Ok(format) => Ok(
                FileSource {
                    path: owned(path),
                    identifier: owned(identifier),
                    format,
                    batch_size: 0,
                },
            ),
            Err(e) => Err(e),
        }
    }

    /// Overrides the detected format.
    pub fn with_format(self, format: FileFormat) -> (r: FileSource)
        ensures
            r == (FileSource { format, ..self }),
    {
        FileSource {
            path: self.path,
            identifier: self.identifier,
            format,
            batch_size: self.batch_size,
        }
    }

    /// Emits one `DataSet` per `batch_size` rows (0 = a single `DataSet`).
    pub fn with_batch_size(self, batch_size: usize) -> (r: FileSource)
        ensures
            r == (FileSource { batch_size, ..self }),
    {
        FileSource {
            path: self.path,
            identifier: self.identifier,
            format: self.format,
            batch_size,
        }
    }

    /// The rows of the file, given what it holds.
    pub fn read_rows(&self, bytes: &[u8]) -> (r: Result<Vec<JsonValue>, IntakeError>)
        ensures
            reads_as(self.format, self.path@, bytes@, r),
    {
        match self.format {
            FileFormat::Csv => rows_of_records(read_csv(bytes), self.path.as_str()),
            FileFormat::Json => match decode_text(bytes) {
                None => self.not_text(),
                Some(text) => rows_of_value(
                    JsonValue::parse(text.as_str()),
                    self.path.as_str(),
                ),
            },
            FileFormat::Jsonl => match decode_text(bytes) {
                None => self.not_text(),
                Some(text) => self.read_jsonl_rows(text.as_str()),
            },
        }
    }

    fn not_text(&self) -> (r: Result<Vec<JsonValue>, IntakeError>)
        ensures
            r matches Err(e) && e matches IntakeError::Io { path: p, message } && p@ == self.path@
                && message@ == NOT_UTF8_MESSAGE@,
    {
        Err(IntakeError::Io { path: self.path.clone(), message: owned(NOT_UTF8_MESSAGE) })
    }

    fn read_jsonl_rows(&self, text: &str) -> (r: Result<Vec<JsonValue>, IntakeError>)
        ensures
            reads_as_jsonl(self.path@, jsonl_rows(lines_of(text@)), r),
    {
        let list = lines(text);
        let ghost all = lines_of(text@);
        let ghost parses = all.map_values(|line: Seq<char>| line_parse(line));
        let mut parsed: Vec<Option<Result<JsonValue, String>>> = Vec::new();
        let mut i: usize = 0;
        while i < list.len()
            invariant
                i <= list@.len(),
                all == lines_of(text@),
                views(list@) == all,
                parses == all.map_values(|line: Seq<char>| line_parse(line)),
                parses_view(parsed@) =~= parses.take(i as int),
            decreases list@.len() - i,
        {
            let line = list[i].as_str();
            let ghost before = parsed@;
            proof {
                assert(all[i as int] == line@);
                assert(parses[i as int] == line_parse(line@));
            }
            let blank = trim(line).is_empty();
            parsed.push(
                if blank {
                    None
                } else {
                    Some(JsonValue::parse(line))
                },
            );
            i += 1;
            proof {
                assert(parses_view(parsed@).drop_last() =~= parses_view(before));
                assert(parses_view(parsed@).last() == line_parse(line@));
            }
        }
        proof {
            assert(parses.take(parses.len() as int) =~= parses);
        }
        rows_of_lines(parsed, self.path.as_str())
    }

    /// The datasets of the file, given what it holds: one per batch of rows.
    pub fn datasets(&self, bytes: &[u8]) -> (r: Result<Vec<DataSet<JsonValue>>, IntakeError>)
        ensures
            exists|rows: Result<Vec<JsonValue>, IntakeError>| #[trigger]
                reads_as(self.format, self.path@, bytes@, rows) && match rows {
                    Ok(list) => r matches Ok(sets) && is_chunked(
                        list@,
                        self.path@,
                        self.identifier@,
                        self.batch_size as nat,
                        sets@,
                    ),
                    Err(e) => r == Err::<Vec<DataSet<JsonValue>>, _>(e),
                },
    {
        let rows = self.read_rows(bytes);
        let ghost given = rows;
        proof {
            assert(reads_as(self.format, self.path@, bytes@, given));
        }
        match rows {
            Ok(list) => {
                let sets = chunk_into_datasets(
                    list,
                    self.path.as_str(),
                    self.identifier.as_str(),
                    self.batch_size,
                );
                proof {
                    assert(given == Ok::<Vec<JsonValue>, IntakeError>(list));
                }
                Ok(sets)
            },
            Err(e) => {
                proof {
                    assert(given == Err::<Vec<JsonValue>, IntakeError>(e));
                }
                Err(e)
            },
        }
    }
}

/// The name of a dataset: numbered when there are several.
pub open spec fn batch_name(identifier: Seq<char>, numbered: bool, i: nat) -> Seq<char> {
    if numbered {
        identifier + "_"@ + decimal(i)
    } else {
        identifier
    }
}

/// The rows of batch number `i`.
pub open spec fn batch<A>(rows: Seq<A>, size: nat, i: nat) -> Seq<A> {
    let from = (i * size) as int;
    let to = if from + size <= rows.len() {
        from + size
    } else {
        rows.len() as int
    };
    rows.subrange(from, to)
}

/// Whether `sets` are the datasets of `rows`: a single one when the rows fit,
/// or else one per `size` rows.
pub open spec fn is_chunked<A>(
    rows: Seq<A>,
    filename: Seq<char>,
    identifier: Seq<char>,
    size: nat,
    sets: Seq<DataSet<A>>,
) -> bool {
    if size == 0 || rows.len() <= size {
        sets.len() == 1 && sets[0].filename@ == filename && sets[0].identifier@ == identifier && (
        sets[0].data matches Some(data) && data@ == rows)
    } else {
        &&& (sets.len() - 1) * size < rows.len() <= sets.len() * size
        &&& forall|i: int|
            0 <= i < sets.len() ==> (#[trigger] sets[i]).filename@ == filename
                && sets[i].identifier@ == batch_name(identifier, true, i as nat) && (
            sets[i].data matches Some(data) && data@ == batch(rows, size, i as nat))
    }
}

/// Chunks rows into `DataSet`s: one per `batch_size` rows (0 = a single set).
pub fn chunk_into_datasets<A>(
    rows: Vec<A>,
    filename: &str,
    identifier: &str,
    batch_size: usize,
) -> (sets: Vec<DataSet<A>>)
    ensures
        is_chunked(rows@, filename@, identifier@, batch_size as nat, sets@),
{
    let mut sets: Vec<DataSet<A>> = Vec::new();
    if batch_size == 0 || rows.len() <= batch_size {
        sets.push(DataSet::new(filename, identifier, rows));
        return sets;
    }
    let ghost all = rows@;
    let mut rest = rows;
    let ghost size = batch_size as int;
    proof {
        assert(all.skip(0) =~= all);
        assert(0 * size == 0) by (nonlinear_arith);
    }
    while rest.len() > 0
        invariant
            batch_size > 0,
            size == batch_size,
            sets@.len() * size <= all.len() || rest@.len() == 0,
            rest@.len() > 0 ==> rest@ == all.skip(sets@.len() * size),
            rest@.len() == 0 ==> (sets@.len() - 1) * size < all.len() <= sets@.len() * size,
            rest@.len() > 0 ==> rest@.len() == all.len() - sets@.len() * size,
            sets@.len() + rest@.len() <= all.len(),
            forall|i: int|
                0 <= i < sets@.len() ==> (#[trigger] sets@[i]).filename@ == filename@
                    && sets@[i].identifier@ == batch_name(identifier@, true, i as nat) && (
                sets@[i].data matches Some(data) && data@ == batch(all, size as nat, i as nat)),
        decreases rest@.len(),
    {
        let ghost k = sets@.len() as int;
        let ghost left = rest@;
        let index: usize = sets.len();
        let mut name = owned(identifier);
        name.append("_");
        let digits = to_decimal(index as u128);
        name.append(digits.as_str());
        let ghost from = k * size;
        proof {
            assert((k + 1) * size == from + size) by (nonlinear_arith)
                requires
                    from == k * size,
            ;
        }
        if rest.len() <= batch_size {
            proof {
                assert(batch(all, size as nat, k as nat) =~= left);
                assert((k + 1 - 1) * size == from) by (nonlinear_arith)
                    requires
                        from == k * size,
                ;
            }
            sets.push(DataSet::new(filename, name.as_str(), rest));
            rest = Vec::new();
        } else {
            let later = rest.split_off(batch_size);
            proof {
                assert(rest@ =~= batch(all, size as nat, k as nat));
                assert(later@ =~= all.skip((k + 1) * size));
            }
            sets.push(DataSet::new(filename, name.as_str(), rest));
            rest = later;
        }
    }
    sets
}

/// The rows of some datasets, one after the other.
pub open spec fn all_rows<A>(sets: Seq<DataSet<A>>) -> Seq<A>
    decreases sets.len(),
{
    if sets.len() == 0 {
        Seq::empty()
    } else {
        all_rows(sets.drop_last()) + match sets.last().data {
            Some(data) => data@,
            None => Seq::empty(),
        }
    }
}

/// No row is lost, repeated or moved by chunking: the batches, one after the
/// other, are the rows.
pub proof fn lemma_chunks_are_the_rows<A>(
    rows: Seq<A>,
    filename: Seq<char>,
    identifier: Seq<char>,
    size: nat,
    sets: Seq<DataSet<A>>,
)
    requires
        is_chunked(rows, filename, identifier, size, sets),
    ensures
        all_rows(sets) == rows,
{
    if size == 0 || rows.len() <= size {
        assert(sets.drop_last() =~= Seq::empty());
        assert(all_rows(sets.drop_last()) =~= Seq::empty());
        assert(all_rows(sets) =~= rows);
    } else {
        let n = sets.len();
        lemma_first_chunks(rows, filename, identifier, size, sets, n);
        assert(sets.take(n as int) =~= sets);
        assert(rows.take(rows.len() as int) =~= rows);
    }
}

/// The first batches hold the first rows.
proof fn lemma_first_chunks<A>(
    rows: Seq<A>,
    filename: Seq<char>,
    identifier: Seq<char>,
    size: nat,
    sets: Seq<DataSet<A>>,
    n: nat,
)
    requires
        size > 0,
        rows.len() > size,
        is_chunked(rows, filename, identifier, size, sets),
        n <= sets.len(),
    ensures
        all_rows(sets.take(n as int)) == rows.take(
            if n * size <= rows.len() {
                (n * size) as int
            } else {
                rows.len() as int
            },
        ),
    decreases n,
{
    if n == 0 {
        assert(0 * size == 0) by (nonlinear_arith);
        assert(sets.take(0) =~= Seq::empty());
        assert(rows.take(0) =~= Seq::empty());
    } else {
        let k = (n - 1) as nat;
        lemma_first_chunks(rows, filename, identifier, size, sets, k);
        assert(sets.take(n as int).drop_last() =~= sets.take(k as int));
        assert(sets.take(n as int).last() == sets[k as int]);
        assert(n * size == k * size + size) by (nonlinear_arith)
            requires
                n == k + 1,
        ;
        assert(k * size <= (sets.len() - 1) * size) by (nonlinear_arith)
            requires
                k <= sets.len() - 1,
        ;
        let from = (k * size) as int;
        let to = if from + size <= rows.len() {
            from + size
        } else {
            rows.len() as int
        };
        assert(rows.take(from) + batch(rows, size, k) =~= rows.take(to));
    }
}

/// Reads rows from PostgreSQL via a `SELECT`.
///
/// Each row becomes a JSON object keyed by column name; the whole object is
/// what the pipeline embeds and stores as payload.
#[derive(Debug, Clone)]
pub struct PostgresSource {
    /// Where the database is.
    pub conn_str: String,
    /// The `SELECT`.
    pub query: String,
    /// The name of the datasets.
    pub identifier: String,
    /// How many rows go in one dataset; 0 for a single dataset.
    pub batch_size: usize,
}

/// What a column holds.
#[derive(Debug)]
pub enum Column {
    /// A boolean.
    Bool(bool),
    /// An integer.
    Int(i64),
    /// A floating-point number, by its JSON text.
    Float(String),
    /// A JSON value.
    Json(JsonValue),
    /// Anything else, as text.
    Text(String),
    /// Nothing, or a value that can't be read as its type.
    Missing,
}

/// The JSON of a column.
pub open spec fn column_view(column: Column) -> JsonView {
    match column {
        Column::Bool(b) => JsonView::Bool(b),
        Column::Int(n) => JsonView::Number(crate::text::number::signed_decimal(n as int)),
        Column::Float(text) => JsonView::Number(text@),
        Column::Json(value) => value@,
        Column::Text(text) => JsonView::Text(text@),
        Column::Missing => JsonView::Null,
    }
}

/// The members of the object of a row. The later of two columns with the same
/// name counts.
pub open spec fn row_members(columns: Seq<(String, Column)>) -> Seq<(Seq<char>, JsonView)>
    decreases columns.len(),
{
    if columns.len() == 0 {
        Seq::empty()
    } else {
        with_member(
            row_members(columns.drop_last()),
            columns.last().0@,
            column_view(columns.last().1),
        )
    }
}

/// Whether no later column has the name of the one at `i`.
pub open spec fn is_last_named(columns: Seq<(String, Column)>, i: int) -> bool {
    0 <= i < columns.len() && forall|j: int|
        i < j < columns.len() ==> (#[trigger] columns[j]).0@ != columns[i].0@
}

/// A row is an object keyed by column name, in the order of the names: each
/// name has the value of the last column that bears it.
pub proof fn lemma_row_is_keyed_by_column(columns: Seq<(String, Column)>)
    ensures
        in_name_order(row_members(columns)),
        forall|i: int| #[trigger]
            is_last_named(columns, i) ==> row_members(columns).contains(
                (columns[i].0@, column_view(columns[i].1)),
            ),
    decreases columns.len(),
{
    if columns.len() > 0 {
        let rest = columns.drop_last();
        let last = columns.last();
        lemma_row_is_keyed_by_column(rest);
        lemma_member_is_set(row_members(rest), last.0@, column_view(last.1));
        assert forall|i: int| #[trigger] is_last_named(columns, i) implies row_members(
            columns,
        ).contains((columns[i].0@, column_view(columns[i].1))) by {
            if i < rest.len() {
                assert(columns[columns.len() - 1].0@ != columns[i].0@);
                assert forall|j: int| i < j < rest.len() implies (#[trigger] rest[j]).0@
                    != rest[i].0@ by {
                    assert(columns[j].0@ != columns[i].0@);
                }
                assert(is_last_named(rest, i));
                assert(rest[i] == columns[i]);
            }
        }
    }
}

/// The JSON of a column: common types are mapped to their JSON equivalents,
/// anything else falls back to text, and what can't be read is null.
pub fn column_to_json(column: &Column) -> (r: JsonValue)
    ensures
        r@ == column_view(*column),
{
    match column {
        Column::Bool(b) => JsonValue::Bool(*b),
        Column::Int(n) => JsonValue::Number(crate::text::number::to_signed_decimal(*n as i128)),
        Column::Float(text) => JsonValue::Number(text.clone()),
        Column::Json(value) => value.copy(),
        Column::Text(text) => JsonValue::Text(text.clone()),
        Column::Missing => JsonValue::Null,
    }
}

/// The JSON object of a row, keyed by column name.
pub fn row_to_json(columns: &Vec<(String, Column)>) -> (r: JsonValue)
    ensures
        r@ == JsonView::Object(row_members(columns@)),
{
    let mut members: Vec<(String, JsonValue)> = Vec::new();
    let mut i: usize = 0;
    proof {
        assert(columns@.take(0) =~= Seq::empty());
        assert(pairs(members@) =~= Seq::empty());
    }
    while i < columns.len()
        invariant
            i <= columns@.len(),
            pairs(members@) == row_members(columns@.take(i as int)),
        decreases columns@.len() - i,
    {
        proof {
            assert(columns@.take(i + 1).drop_last() =~= columns@.take(i as int));
            assert(columns@.take(i + 1).last() == columns@[i as int]);
        }
        set_member(&mut members, columns[i].0.as_str(), column_to_json(&columns[i].1));
        i += 1;
    }
    let r = JsonValue::Object(members);
    proof {
        assert(columns@.take(columns@.len() as int) =~= columns@);
        assert(r@->Object_0 =~= pairs(members@));
    }
    r
}

impl PostgresSource {
    /// Builds a source for a query.
    pub fn new(conn_str: &str, query: &str, identifier: &str) -> (r: PostgresSource)
        ensures
            r.conn_str@ == conn_str@,
            r.query@ == query@,
            r.identifier@ == identifier@,
            r.batch_size == 0,
    {
        PostgresSource {
            conn_str: owned(conn_str),
            query: owned(query),
            identifier: owned(identifier),
            batch_size: 0,
        }
    }

    /// Emits one `DataSet` per `batch_size` rows (0 = a single `DataSet`).
    pub fn with_batch_size(self, batch_size: usize) -> (r: PostgresSource)
        ensures
            r == (PostgresSource { batch_size, ..self }),
    {
        PostgresSource {
            conn_str: self.conn_str,
            query: self.query,
            identifier: self.identifier,
            batch_size,
        }
    }

    /// The datasets of the rows that the query gave.
    pub fn datasets(&self, rows: Vec<JsonValue>) -> (r: Vec<DataSet<JsonValue>>)
        ensures
            is_chunked(rows@, self.query@, self.identifier@, self.batch_size as nat, r@),
    {
        chunk_into_datasets(rows, self.query.as_str(), self.identifier.as_str(), self.batch_size)
    }
}

} // verus!
