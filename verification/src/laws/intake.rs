//! How files and queries become rows, and rows become datasets.

use super::texts::{all_white, lemma_trimmed_is_core};
use crate::intake::dataset::{serialize_all, serialized, DataSet};
use crate::intake::source::{
    all_rows, chunk_into_datasets, column_to_json, csv_records, csv_rows, is_chunked,
    lemma_chunks_are_the_rows, line_parse, parses_view, record_object, records_view, row_members,
    row_to_json, row_views, rows_of_lines, rows_of_records, rows_of_value, Column,
};
use crate::intake::{FileFormat, FileSource, IntakeError, PostgresSource};
use crate::json::{
    in_name_order, json_parsed, lemma_member_is_set, parse_view, JsonValue, JsonView,
};
use crate::text::lines::{lines, views};
use crate::text::number::{to_decimal, to_signed_decimal};
use crate::text::search::to_ascii_lower;
use crate::text::trim::trimmed;
use vstd::prelude::*;
use vstd::string::*;
use vstd::utf8::{decode_utf8, valid_utf8};

verus! {

/// Whether a row is a record: one member per field, in order, with the name and
/// the whole text of the field.
pub open spec fn is_row_of(row: JsonView, fields: Seq<(String, String)>) -> bool {
    row matches JsonView::Object(members) && members.len() == fields.len() && forall|k: int|
        0 <= k < fields.len() ==> (#[trigger] members[k]).0 == fields[k].0@ && members[k].1
            == JsonView::Text(fields[k].1@)
}

/// Whether `n` is the position of the first record that failed.
pub open spec fn is_first_failure(
    records: Seq<Result<Vec<(String, String)>, String>>,
    n: int,
) -> bool {
    &&& 0 <= n < records.len()
    &&& records[n] is Err
    &&& forall|i: int| 0 <= i < n ==> (#[trigger] records[i]) is Ok
}

/// Every record of a CSV file becomes a row with all of its fields, in order.
/// The first that failed is reported by its number, with the path and its
/// message.
pub proof fn lemma_every_record_is_a_row(
    records: Vec<Result<Vec<(String, String)>, String>>,
    path: &str,
    r: Result<Vec<JsonValue>, IntakeError>,
)
    requires
        call_ensures(rows_of_records, (records, path), r),
    ensures
        r is Ok <==> forall|i: int| 0 <= i < records@.len() ==> (#[trigger] records@[i]) is Ok,
        r matches Ok(rows) ==> rows@.len() == records@.len() && forall|i: int|
            0 <= i < rows@.len() ==> is_row_of((#[trigger] rows@[i])@, records@[i]->Ok_0@),
        r matches Err(e) ==> (e matches IntakeError::Csv { path: p, record, message } && p@ == path@
            && exists|n: int| #[trigger]
            is_first_failure(records@, n) && record == Some((n + 1) as usize) && message@
                == records@[n]->Err_0@),
{
    lemma_csv_rows(records@);
    let all = records_view(records@);
    match r {
        Ok(rows) => {
            assert(csv_rows(all) == Ok::<_, (nat, Seq<char>)>(row_views(rows@)));
            assert forall|i: int| 0 <= i < rows@.len() implies is_row_of(
                (#[trigger] rows@[i])@,
                records@[i]->Ok_0@,
            ) by {
                assert(row_views(rows@)[i] == rows@[i]@);
            }
        },
        Err(e) => {},
    }
}

/// The rows of some records.
proof fn lemma_csv_rows(records: Seq<Result<Vec<(String, String)>, String>>)
    ensures
        match csv_rows(records_view(records)) {
            Ok(rows) => {
                &&& rows.len() == records.len()
                &&& forall|i: int| 0 <= i < records.len() ==> (#[trigger] records[i]) is Ok
                &&& forall|i: int|
                    0 <= i < rows.len() ==> is_row_of(#[trigger] rows[i], records[i]->Ok_0@)
            },
            Err((n, why)) => n <= records.len() && is_first_failure(records, n - 1) && why
                == records[n - 1]->Err_0@,
        },
    decreases records.len(),
{
    if records.len() > 0 {
        let rest = records.drop_last();
        lemma_csv_rows(rest);
        let all = records_view(records);
        assert(all.drop_last() =~= records_view(rest));
        assert(all.last() == crate::intake::source::record_view(records.last()));
        match csv_rows(records_view(rest)) {
            Ok(rows) => {
                assert forall|i: int| 0 <= i < rest.len() implies (#[trigger] records[i]) is Ok by {
                    assert(rest[i] == records[i]);
                }
                match records.last() {
                    Ok(fields) => {
                        let row = record_object(crate::intake::source::fields_view(fields@));
                        assert(is_row_of(row, fields@));
                        let longer = rows.push(row);
                        assert forall|i: int| 0 <= i < longer.len() implies is_row_of(
                            #[trigger] longer[i],
                            records[i]->Ok_0@,
                        ) by {
                            if i < rows.len() {
                                assert(longer[i] == rows[i]);
                                assert(rest[i] == records[i]);
                            }
                        }
                    },
                    Err(message) => {
                        assert(is_first_failure(records, records.len() - 1));
                    },
                }
            },
            Err((n, why)) => {
                assert(rest[n - 1] == records[n - 1]);
                assert forall|i: int| 0 <= i < n - 1 implies (#[trigger] records[i]) is Ok by {
                    assert(rest[i] == records[i]);
                }
            },
        }
    }
}

/// The items of an array are the rows, in order; any other value is a single
/// row; what can't be parsed is reported with the path and the message.
pub proof fn lemma_every_item_is_a_row(
    parsed: Result<JsonValue, String>,
    path: &str,
    r: Result<Vec<JsonValue>, IntakeError>,
)
    requires
        call_ensures(rows_of_value, (parsed, path), r),
    ensures
        parsed matches Ok(JsonValue::Array(items)) ==> (r matches Ok(rows) && rows@.len()
            == items@.len() && forall|i: int|
            0 <= i < rows@.len() ==> (#[trigger] rows@[i])@ == items@[i]@),
        parsed matches Ok(value) ==> (!(value is Array) ==> (r matches Ok(rows) && rows@.len() == 1
            && rows@[0]@ == value@)),
        parsed matches Err(why) ==> (r matches Err(e) && e matches IntakeError::Json {
            path: p,
            line,
            message,
        } && p@ == path@ && line is None && message@ == why@),
{
    if let Ok(value) = parsed {
        if let Ok(rows) = r {
            assert forall|i: int| 0 <= i < rows@.len() implies (#[trigger] rows@[i])@ == row_views(
                rows@,
            )[i] by {}
            assert(row_views(rows@).len() == rows@.len());
            match value {
                JsonValue::Array(items) => {
                    assert(value@->Array_0.len() == items@.len());
                },
                _ => {
                    assert(row_views(rows@)[0] == rows@[0]@);
                },
            }
        }
    }
}

/// Whether two results tell of the same failure.
pub open spec fn same_failure(a: IntakeError, b: IntakeError) -> bool {
    match (a, b) {
        (
            IntakeError::Json { path: p, line: m, message: v },
            IntakeError::Json { path: q, line: n, message: w },
        ) => p@ == q@ && m == n && v@ == w@,
        (
            IntakeError::Csv { path: p, record: m, message: v },
            IntakeError::Csv { path: q, record: n, message: w },
        ) => p@ == q@ && m == n && v@ == w@,
        _ => false,
    }
}

/// No lines have no rows.
pub proof fn lemma_no_lines_no_rows(
    parsed: Vec<Option<Result<JsonValue, String>>>,
    path: &str,
    r: Result<Vec<JsonValue>, IntakeError>,
)
    requires
        call_ensures(rows_of_lines, (parsed, path), r),
        parsed@.len() == 0,
    ensures
        r matches Ok(rows) && rows@.len() == 0,
{
    assert(parses_view(parsed@).len() == 0);
    if let Ok(rows) = r {
        assert(row_views(rows@).len() == 0);
    }
}

/// One more line adds its value behind the rows of the lines before; a blank one
/// adds nothing; one that can't be parsed is reported by its number, with the
/// path and the message. A failure before it stands.
pub proof fn lemma_every_line_is_a_row(
    parsed: Vec<Option<Result<JsonValue, String>>>,
    more: Vec<Option<Result<JsonValue, String>>>,
    path: &str,
    r: Result<Vec<JsonValue>, IntakeError>,
    s: Result<Vec<JsonValue>, IntakeError>,
)
    requires
        call_ensures(rows_of_lines, (parsed, path), r),
        call_ensures(rows_of_lines, (more, path), s),
        more@.len() > 0,
        more@.drop_last() == parsed@,
    ensures
        match r {
            Err(e) => s matches Err(f) && same_failure(e, f),
            Ok(rows) => match more@.last() {
                None => s matches Ok(all) && row_views(all@) == row_views(rows@),
                Some(Ok(value)) => s matches Ok(all) && row_views(all@) == row_views(rows@).push(
                    value@,
                ),
                Some(Err(why)) => s matches Err(f) && f matches IntakeError::Json {
                    path: p,
                    line,
                    message,
                } && p@ == path@ && line == Some(more@.len() as usize) && message@ == why@,
            },
        },
{
    let all = parses_view(more@);
    assert(all.drop_last() =~= parses_view(parsed@));
    assert(all.last() == match more@.last() {
        Some(line) => Some(parse_view(line)),
        None => None,
    });
}

/// Whether two results are the same rows, or the same failure.
pub open spec fn same_rows(
    a: Result<Vec<JsonValue>, IntakeError>,
    b: Result<Vec<JsonValue>, IntakeError>,
) -> bool {
    match (a, b) {
        (Ok(x), Ok(y)) => row_views(x@) == row_views(y@),
        (Err(e), Err(f)) => same_failure(e, f),
        _ => false,
    }
}

/// A CSV file is read record by record, and every record counts.
pub proof fn lemma_csv_files_are_read(
    source: &FileSource,
    bytes: &[u8],
    records: Vec<Result<Vec<(String, String)>, String>>,
    path: &str,
    r: Result<Vec<JsonValue>, IntakeError>,
    s: Result<Vec<JsonValue>, IntakeError>,
)
    requires
        call_ensures(FileSource::read_rows, (source, bytes), r),
        source.format == FileFormat::Csv,
        records_view(records@) == csv_records(bytes@),
        path@ == source.path@,
        call_ensures(rows_of_records, (records, path), s),
    ensures
        same_rows(r, s),
{
}

/// A JSON file is parsed as a whole.
pub proof fn lemma_json_files_are_read(
    source: &FileSource,
    bytes: &[u8],
    parsed: Result<JsonValue, String>,
    path: &str,
    r: Result<Vec<JsonValue>, IntakeError>,
    s: Result<Vec<JsonValue>, IntakeError>,
)
    requires
        call_ensures(FileSource::read_rows, (source, bytes), r),
        source.format == FileFormat::Json,
        valid_utf8(bytes@),
        parse_view(parsed) == json_parsed(decode_utf8(bytes@)),
        path@ == source.path@,
        call_ensures(rows_of_value, (parsed, path), s),
    ensures
        same_rows(r, s),
{
}

/// Whether `parsed` is what parsing a line gives, or nothing where the line is
/// blank.
pub open spec fn is_parse_of(line: Seq<char>, parsed: Option<Result<JsonValue, String>>) -> bool {
    match parsed {
        None => all_white(line),
        Some(result) => !all_white(line) && parse_view(result) == json_parsed(line),
    }
}

/// A file of JSON lines is parsed line by line, and every line that isn't blank
/// counts.
pub proof fn lemma_jsonl_files_are_read(
    source: &FileSource,
    bytes: &[u8],
    text: &str,
    list: Vec<String>,
    parsed: Vec<Option<Result<JsonValue, String>>>,
    path: &str,
    r: Result<Vec<JsonValue>, IntakeError>,
    s: Result<Vec<JsonValue>, IntakeError>,
)
    requires
        call_ensures(FileSource::read_rows, (source, bytes), r),
        source.format == FileFormat::Jsonl,
        valid_utf8(bytes@),
        text@ == decode_utf8(bytes@),
        call_ensures(lines, (text,), list),
        parsed@.len() == list@.len(),
        forall|i: int| 0 <= i < list@.len() ==> is_parse_of((#[trigger] list@[i])@, parsed@[i]),
        path@ == source.path@,
        call_ensures(rows_of_lines, (parsed, path), s),
    ensures
        same_rows(r, s),
{
    let all = views(list@);
    let wanted = all.map_values(|line: Seq<char>| line_parse(line));
    assert forall|i: int| 0 <= i < all.len() implies #[trigger] wanted[i] == parses_view(
        parsed@,
    )[i] by {
        let line = list@[i]@;
        assert(is_parse_of(line, parsed@[i]));
        lemma_blank(line);
    }
    assert(wanted =~= parses_view(parsed@));
}

/// A text is blank when it is all whitespace.
pub proof fn lemma_blank(s: Seq<char>)
    ensures
        all_white(s) <==> trimmed(s).len() == 0,
{
    lemma_trimmed_is_core(s);
    if all_white(s) {
        if trimmed(s).len() > 0 {
            let (lead, trail) = choose|lead: Seq<char>, trail: Seq<char>|
                s == lead + trimmed(s) + trail;
            assert(s[lead.len() as int] == trimmed(s)[0]);
        }
    }
}

/// A file that isn't text is reported, with its path.
pub proof fn lemma_binary_files_are_reported(
    source: &FileSource,
    bytes: &[u8],
    r: Result<Vec<JsonValue>, IntakeError>,
)
    requires
        call_ensures(FileSource::read_rows, (source, bytes), r),
        source.format != FileFormat::Csv,
        !valid_utf8(bytes@),
    ensures
        r matches Err(e) && e matches IntakeError::Io { path, message } && path@ == source.path@,
{
}

/// The rows in some datasets, one dataset after the other.
pub open spec fn rows_in<A>(sets: Seq<DataSet<A>>) -> Seq<A>
    decreases sets.len(),
{
    if sets.len() == 0 {
        Seq::empty()
    } else {
        rows_in(sets.drop_last()) + match sets.last().data {
            Some(data) => data@,
            None => Seq::empty(),
        }
    }
}

/// How many rows a dataset has.
pub open spec fn row_count<A>(set: DataSet<A>) -> nat {
    match set.data {
        Some(data) => data@.len(),
        None => 0,
    }
}

/// Whether datasets are batches of rows: together they are the rows, all but
/// the last have the size of a batch and the last has no more, and each has the
/// name of the file. A single one bears the identifier; several bear it with
/// their numbers.
pub open spec fn are_batches<A>(
    rows: Seq<A>,
    filename: Seq<char>,
    identifier: Seq<char>,
    batch_size: usize,
    sets: Seq<DataSet<A>>,
) -> bool {
    &&& rows_in(sets) == rows
    &&& sets.len() > 0
    &&& batch_size == 0 || rows.len() <= batch_size ==> sets.len() == 1 && sets[0].identifier@
        == identifier
    &&& batch_size > 0 && rows.len() > batch_size ==> {
        &&& forall|i: int|
            0 <= i < sets.len() - 1 ==> row_count(#[trigger] sets[i]) == batch_size
        &&& 0 < row_count(sets.last()) <= batch_size
        &&& forall|i: int, digits: String|
            0 <= i < sets.len() && #[trigger] call_ensures(to_decimal, (i as u128,), digits)
                && i <= usize::MAX ==> (#[trigger] sets[i]).identifier@ == identifier + seq!['_']
                + digits@
    }
    &&& forall|i: int|
        0 <= i < sets.len() ==> (#[trigger] sets[i]).filename@ == filename && sets[i].data is Some
}

/// Chunking loses, repeats and moves no row, and fills every batch but the last.
pub proof fn lemma_rows_are_batched<A>(
    rows: Vec<A>,
    filename: &str,
    identifier: &str,
    batch_size: usize,
    sets: Vec<DataSet<A>>,
)
    requires
        call_ensures(chunk_into_datasets::<A>, (rows, filename, identifier, batch_size), sets),
    ensures
        are_batches(rows@, filename@, identifier@, batch_size, sets@),
{
    lemma_batches(rows@, filename@, identifier@, batch_size, sets@);
}

/// The rows in datasets.
proof fn lemma_rows_in<A>(sets: Seq<DataSet<A>>)
    ensures
        rows_in(sets) == all_rows(sets),
    decreases sets.len(),
{
    if sets.len() > 0 {
        lemma_rows_in(sets.drop_last());
    }
}

/// Chunks are batches.
proof fn lemma_batches<A>(
    rows: Seq<A>,
    filename: Seq<char>,
    identifier: Seq<char>,
    batch_size: usize,
    sets: Seq<DataSet<A>>,
)
    requires
        is_chunked(rows, filename, identifier, batch_size as nat, sets),
    ensures
        are_batches(rows, filename, identifier, batch_size, sets),
{
    let size = batch_size as nat;
    lemma_chunks_are_the_rows(rows, filename, identifier, size, sets);
    lemma_rows_in(sets);
    if batch_size > 0 && rows.len() > batch_size {
        let n = sets.len() as int;
        assert(n > 0) by (nonlinear_arith)
            requires
                rows.len() <= n * size,
                rows.len() > size,
                n >= 0,
                size > 0,
        ;
        assert forall|i: int| 0 <= i < n - 1 implies row_count(#[trigger] sets[i])
            == batch_size by {
            assert(i * size + size <= (n - 1) * size) by (nonlinear_arith)
                requires
                    i + 1 <= n - 1,
                    size > 0,
            ;
            assert(sets[i].data->0@ == crate::intake::source::batch(rows, size, i as nat));
        }
        let last = n - 1;
        assert(sets[last].data->0@ == crate::intake::source::batch(rows, size, last as nat));
        assert(last * size + size == n * size) by (nonlinear_arith)
            requires
                last == n - 1,
        ;
        reveal_strlit("_");
        assert("_"@ =~= seq!['_']);
        assert forall|i: int, digits: String|
            0 <= i < sets.len() && #[trigger] call_ensures(to_decimal, (i as u128,), digits) && i
                <= usize::MAX implies (#[trigger] sets[i]).identifier@ == identifier + seq!['_']
            + digits@ by {
            assert(sets[i].identifier@ == crate::intake::source::batch_name(
                identifier,
                true,
                i as nat,
            ));
        }
    }
}

/// The datasets of a query are the batches of its rows, under the query.
pub proof fn lemma_query_rows_are_batched(
    source: &PostgresSource,
    rows: Vec<JsonValue>,
    sets: Vec<DataSet<JsonValue>>,
)
    requires
        call_ensures(PostgresSource::datasets, (source, rows), sets),
    ensures
        are_batches(rows@, source.query@, source.identifier@, source.batch_size, sets@),
{
    lemma_batches(rows@, source.query@, source.identifier@, source.batch_size, sets@);
}

/// The datasets of a file are the batches of what is read from it, under its
/// path.
pub proof fn lemma_file_rows_are_batched(
    source: &FileSource,
    bytes: &[u8],
    read: Result<Vec<JsonValue>, IntakeError>,
    r: Result<Vec<DataSet<JsonValue>>, IntakeError>,
)
    requires
        call_ensures(FileSource::read_rows, (source, bytes), read),
        call_ensures(FileSource::datasets, (source, bytes), r),
    ensures
        r is Ok <==> read is Ok,
        r matches Ok(sets) ==> (read matches Ok(got) ==> exists|rows: Seq<JsonValue>| #[trigger]
            row_views(rows) == row_views(got@) && are_batches(
                rows,
                source.path@,
                source.identifier@,
                source.batch_size,
                sets@,
            )),
{
    let rows = choose|rows: Result<Vec<JsonValue>, IntakeError>| #[trigger]
        crate::intake::source::reads_as(source.format, source.path@, bytes@, rows) && match rows {
            Ok(list) => r matches Ok(sets) && is_chunked(
                list@,
                source.path@,
                source.identifier@,
                source.batch_size as nat,
                sets@,
            ),
            Err(e) => r == Err::<Vec<DataSet<JsonValue>>, _>(e),
        };
    if let Ok(list) = rows {
        if let Ok(sets) = r {
            lemma_batches(list@, source.path@, source.identifier@, source.batch_size, sets@);
            if let Ok(got) = read {
                assert(row_views(list@) == row_views(got@));
            }
        }
    }
}

/// A column keeps its value: a number its digits, a text its characters, a JSON
/// value all of it.
pub proof fn lemma_columns_are_kept(column: &Column, digits: String, r: JsonValue)
    requires
        call_ensures(column_to_json, (column,), r),
        column matches Column::Int(n) ==> call_ensures(to_signed_decimal, (*n as i128,), digits),
    ensures
        column matches Column::Bool(b) ==> r@ == JsonView::Bool(*b),
        column matches Column::Int(_) ==> r@ == JsonView::Number(digits@),
        column matches Column::Float(text) ==> r@ == JsonView::Number(text@),
        column matches Column::Json(value) ==> r@ == value@,
        column matches Column::Text(text) ==> r@ == JsonView::Text(text@),
        *column is Missing ==> r@ == JsonView::Null,
{
}

/// Whether `i` is the last column of a name.
pub open spec fn is_last_column(
    columns: Seq<(String, Column)>,
    name: Seq<char>,
    i: int,
) -> bool {
    &&& 0 <= i < columns.len()
    &&& columns[i].0@ == name
    &&& forall|j: int| i < j < columns.len() ==> (#[trigger] columns[j]).0@ != name
}

/// Every column is in the object of its row, under its name, with its value; the
/// last one where several bear a name.
pub proof fn lemma_every_column_is_stored(
    columns: &Vec<(String, Column)>,
    r: JsonValue,
    i: int,
    value: JsonValue,
)
    requires
        call_ensures(row_to_json, (columns,), r),
        is_last_column(columns@, columns@[i].0@, i),
        call_ensures(column_to_json, (&columns@[i].1,), value),
    ensures
        r@ matches JsonView::Object(members) && in_name_order(members) && members.contains(
            (columns@[i].0@, value@),
        ),
{
    crate::intake::source::lemma_row_is_keyed_by_column(columns@);
    assert(crate::intake::source::is_last_named(columns@, i));
}

/// The object of a row holds its columns and nothing else.
pub proof fn lemma_rows_hold_their_columns(
    columns: &Vec<(String, Column)>,
    r: JsonValue,
    name: Seq<char>,
    value: JsonView,
)
    requires
        call_ensures(row_to_json, (columns,), r),
        r@ matches JsonView::Object(members) && members.contains((name, value)),
    ensures
        exists|i: int| #[trigger]
            is_last_column(columns@, name, i) && forall|shown: JsonValue| #[trigger]
                call_ensures(column_to_json, (&columns@[i].1,), shown) ==> shown@ == value,
{
    lemma_from_a_column(columns@, name, value);
}

/// What stands in a row comes from a column.
proof fn lemma_from_a_column(columns: Seq<(String, Column)>, name: Seq<char>, value: JsonView)
    requires
        row_members(columns).contains((name, value)),
    ensures
        exists|i: int| #[trigger]
            is_last_column(columns, name, i) && value == crate::intake::source::column_view(
                columns[i].1,
            ),
    decreases columns.len(),
{
    if columns.len() > 0 {
        let rest = columns.drop_last();
        let last = columns.last();
        let shown = crate::intake::source::column_view(last.1);
        crate::intake::source::lemma_row_is_keyed_by_column(rest);
        lemma_member_is_set(row_members(rest), last.0@, shown);
        if last.0@ == name {
            assert(is_last_column(columns, name, columns.len() - 1));
        } else {
            lemma_from_a_column(rest, name, value);
            let i = choose|i: int| #[trigger]
                is_last_column(rest, name, i) && value == crate::intake::source::column_view(
                    rest[i].1,
                );
            assert forall|j: int| i < j < columns.len() implies (#[trigger] columns[j]).0@
                != name by {
                if j < rest.len() {
                    assert(rest[j] == columns[j]);
                }
            }
            assert(is_last_column(columns, name, i));
        }
    }
}

/// A format goes by its extension in any case, and by no other.
pub proof fn lemma_formats_go_by_extension(
    extension: Option<String>,
    text: &str,
    lower: String,
    r: Result<FileFormat, IntakeError>,
)
    requires
        call_ensures(FileFormat::from_extension, (extension,), r),
        call_ensures(to_ascii_lower, (text,), lower),
        extension matches Some(e) ==> e@ == text@,
    ensures
        extension is None ==> r is Err,
        extension is Some ==> match r {
            Ok(FileFormat::Csv) => lower@ == "csv"@,
            Ok(FileFormat::Json) => lower@ == "json"@,
            Ok(FileFormat::Jsonl) => lower@ == "jsonl"@ || lower@ == "ndjson"@,
            Err(e) => (e matches IntakeError::UnknownFormat { extension: Some(shown) } && shown@
                == lower@) && lower@ != "csv"@ && lower@ != "json"@ && lower@ != "jsonl"@
                && lower@ != "ndjson"@,
        },
{
}

/// A file source keeps its path and its identifier, and each setting changes
/// nothing but itself.
pub proof fn lemma_file_sources_keep_their_parts(
    path: &str,
    identifier: &str,
    made: Result<FileSource, IntakeError>,
    source: FileSource,
    format: FileFormat,
    batch_size: usize,
    a: FileSource,
    b: FileSource,
)
    requires
        call_ensures(FileSource::new, (path, identifier), made),
        call_ensures(FileSource::with_format, (source, format), a),
        call_ensures(FileSource::with_batch_size, (source, batch_size), b),
    ensures
        made matches Ok(new) ==> new.path@ == path@ && new.identifier@ == identifier@
            && new.batch_size == 0,
        a.format == format && a.path == source.path && a.identifier == source.identifier
            && a.batch_size == source.batch_size,
        b.batch_size == batch_size && b.path == source.path && b.identifier == source.identifier
            && b.format == source.format,
{
}

/// A query source keeps its parts, and its batch size changes nothing else.
pub proof fn lemma_query_sources_keep_their_parts(
    conn_str: &str,
    query: &str,
    identifier: &str,
    made: PostgresSource,
    batch_size: usize,
    sized: PostgresSource,
)
    requires
        call_ensures(PostgresSource::new, (conn_str, query, identifier), made),
        call_ensures(PostgresSource::with_batch_size, (made, batch_size), sized),
    ensures
        made.conn_str@ == conn_str@ && made.query@ == query@ && made.identifier@ == identifier@
            && made.batch_size == 0,
        sized.conn_str@ == conn_str@ && sized.query@ == query@ && sized.identifier@ == identifier@
            && sized.batch_size == batch_size,
{
}

/// A dataset keeps its names and its records.
pub proof fn lemma_datasets_keep_their_records<T>(
    filename: &str,
    identifier: &str,
    data: Vec<T>,
    r: DataSet<T>,
)
    requires
        call_ensures(DataSet::<T>::new, (filename, identifier, data), r),
    ensures
        r.filename@ == filename@,
        r.identifier@ == identifier@,
        r.data == Some(data),
{
}

/// Every record of a dataset is serialized, in order.
pub proof fn lemma_every_record_is_serialized<T, J: Fn(&T) -> Result<String, String>>(
    set: DataSet<T>,
    to_json: J,
    r: Result<Vec<String>, IntakeError>,
)
    requires
        call_ensures(DataSet::<T>::serialize_to_vec::<J>, (set, to_json), r),
    ensures
        set.data is None ==> r == Err::<Vec<String>, _>(IntakeError::NoData),
        set.data matches Some(data) ==> (r matches Ok(texts) ==> texts@.len() == data@.len()
            && forall|i: int|
            0 <= i < data@.len() ==> call_ensures(
                to_json,
                (&data@[i],),
                Ok::<String, String>(#[trigger] texts@[i]),
            )),
        set.data is Some ==> (r matches Err(e) ==> e is Serialize),
{
}

/// The text of an intake error holds what failed and why, whole.
pub proof fn lemma_intake_errors_tell_all(e: &IntakeError, n: usize, digits: String, r: String)
    requires
        call_ensures(IntakeError::display, (e,), r),
        call_ensures(to_decimal, (n as u128,), digits),
    ensures
        e matches IntakeError::UnknownFormat { extension } ==> r@
            == "cannot infer file format from extension "@ + (match extension {
            Some(text) => "Some("@ + crate::intake::debug_text(text@) + ")"@,
            None => "None"@,
        }) + "; set it explicitly with FileSource::with_format"@,
        e matches IntakeError::PointerNotFound { pointer } ==> r@ == "JSON pointer "@
            + crate::intake::debug_text(pointer@) + " not found in the response"@,
        *e is NoData ==> r@ == "the dataset has no data"@,
        e matches IntakeError::Io { path, message } ==> r@ == "reading "@ + path@ + ": "@
            + message@,
        e matches IntakeError::Csv { path, record, message } ==> (record == Some(n) ==> r@
            == "parsing CSV "@ + path@ + (" record "@ + digits@) + ": "@ + message@) && (
        record is None ==> r@ == "parsing CSV "@ + path@ + ": "@ + message@),
        e matches IntakeError::Json { path, line, message } ==> (line == Some(n) ==> r@
            == "parsing JSON "@ + path@ + (" line "@ + digits@) + ": "@ + message@) && (line is None
            ==> r@ == "parsing JSON "@ + path@ + ": "@ + message@),
        e matches IntakeError::Serialize(message) ==> r@ == "could not serialize a record: "@
            + message@,
        e matches IntakeError::Postgres { context, message } ==> r@ == "PostgreSQL source, "@
            + context@ + ": "@ + message@,
        e matches IntakeError::Sqlite { context, message } ==> r@ == "SQLite source, "@ + context@
            + ": "@ + message@,
        e matches IntakeError::MySql { context, message } ==> r@ == "MySQL source, "@ + context@
            + ": "@ + message@,
        e matches IntakeError::Worker(message) ==> r@ == "SQLite worker failed: "@ + message@,
        e matches IntakeError::Http { url, message } ==> r@ == "HTTP source "@ + url@ + ": "@
            + message@,
{
    if let IntakeError::Csv { path, record, message } = e {
        if record is None {
            assert(r@ =~= "parsing CSV "@ + path@ + ": "@ + message@);
        }
    }
    if let IntakeError::Json { path, line, message } = e {
        if line is None {
            assert(r@ =~= "parsing JSON "@ + path@ + ": "@ + message@);
        }
    }
}

/// The extension of a file decides, whatever directory and name stand before it.
pub proof fn lemma_files_go_by_extension(
    path: &str,
    dir: Seq<char>,
    stem: Seq<char>,
    extension: Option<String>,
    r: Result<FileFormat, IntakeError>,
    s: Result<FileFormat, IntakeError>,
)
    requires
        extension is Some,
        crate::intake::source::has_extension(path@, dir, stem, extension->0@),
        call_ensures(FileFormat::from_path, (path,), r),
        call_ensures(FileFormat::from_extension, (extension,), s),
    ensures
        r is Ok <==> s is Ok,
        r is Ok ==> r == s,
{
    assert(crate::text::option_view(extension) == Some(extension->0@));
}

/// Records are serialized up to the first that fails, which is named by its
/// position.
pub proof fn lemma_first_unserializable_record<T, J: Fn(&T) -> Result<String, String>>(
    data: &Vec<T>,
    to_json: &J,
    r: Result<Vec<String>, (usize, String)>,
)
    requires
        call_ensures(serialize_all::<T, J>, (data, to_json), r),
    ensures
        r matches Ok(texts) ==> texts@.len() == data@.len() && forall|i: int|
            0 <= i < data@.len() ==> call_ensures(
                *to_json,
                (&data@[i],),
                Ok::<String, String>(#[trigger] texts@[i]),
            ),
        r matches Err((index, message)) ==> index < data@.len() && call_ensures(
            *to_json,
            (&data@[index as int],),
            Err::<String, String>(message),
        ) && forall|i: int|
            0 <= i < index ==> can_be_serialized(*to_json, #[trigger] data@[i]),
{
    if let Err((index, message)) = r {
        let texts = choose|texts: Seq<String>| #[trigger]
            serialized(*to_json, data@, texts) && texts.len() == index;
        assert forall|i: int| 0 <= i < index implies can_be_serialized(
            *to_json,
            #[trigger] data@[i],
        ) by {
            assert(call_ensures(*to_json, (&data@[i],), Ok::<String, String>(texts[i])));
        }
    }
}

/// Whether a record has JSON.
pub open spec fn can_be_serialized<T, J: Fn(&T) -> Result<String, String>>(
    to_json: J,
    record: T,
) -> bool {
    exists|text: String| #[trigger] call_ensures(to_json, (&record,), Ok::<String, String>(text))
}

} // verus!
