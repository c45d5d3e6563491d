//! Reading records from files and databases.

use lvv::intake::dataset::DataSet;
use lvv::intake::source::{
    chunk_into_datasets, column_to_json, row_to_json, rows_of_lines, rows_of_records,
    rows_of_value, Column,
};
use lvv::intake::{FileFormat, FileSource, IntakeError, PostgresSource};
use lvv::json::JsonValue;
use serde_json::Value;

fn json(value: &JsonValue) -> Value {
    serde_json::from_str(&value.text()).unwrap()
}

#[test]
fn jsonl_maps_one_item_per_line() {
    let bytes = b"{\"id\":1,\"t\":\"x\"}\n\n{\"id\":2,\"t\":\"y\"}\n";
    let sets = FileSource::new("a.jsonl", "things").unwrap().datasets(bytes).unwrap();
    assert_eq!(sets.len(), 1);
    let data = sets[0].data.as_ref().unwrap();
    assert_eq!(data.len(), 2);
    assert_eq!(json(&data[0])["id"], Value::from(1));
}

#[test]
fn csv_uses_header_as_fields() {
    let bytes = b"name,city\nada,london\ngrace,nyc\n";
    let sets = FileSource::new("b.csv", "people").unwrap().datasets(bytes).unwrap();
    let data = sets[0].data.as_ref().unwrap();
    assert_eq!(data.len(), 2);
    assert_eq!(json(&data[0])["name"], Value::from("ada"));
    assert_eq!(data[1].text(), "{\"city\":\"nyc\",\"name\":\"grace\"}");
}

#[test]
fn csv_reports_the_offending_record() {
    let err = FileSource::new("b.csv", "p").unwrap().read_rows(b"a,b\n1,2\n3\n").unwrap_err();
    assert_eq!(
        err.display(),
        "parsing CSV b.csv record 2: CSV error: record 2 (line: 3, byte: 8): found record with 1 \
         fields, but the previous record has 2 fields"
    );
    let rows = FileSource::new("b.csv", "p").unwrap().read_rows(b"a,b\n1,\"x\ny\"\n").unwrap();
    assert_eq!(rows[0].text(), "{\"a\":\"1\",\"b\":\"x\\ny\"}");
}

#[test]
fn json_array_splits_into_batches() {
    let bytes = b"[{\"n\":1},{\"n\":2},{\"n\":3}]";
    let sets = FileSource::new("c.json", "nums")
        .unwrap()
        .with_batch_size(2)
        .datasets(bytes)
        .unwrap();
    assert_eq!(sets.len(), 2);
    assert_eq!(sets[0].data.as_ref().unwrap().len(), 2);
    assert_eq!(sets[1].data.as_ref().unwrap().len(), 1);
    assert_eq!(sets[1].identifier, "nums_1");
    assert_eq!(sets[1].filename, "c.json");
}

#[test]
fn malformed_jsonl_reports_offending_line() {
    let bytes = b"{\"ok\":1}\nNOT JSON\n";
    let err = FileSource::new("d.jsonl", "x").unwrap().datasets(bytes).unwrap_err();
    assert!(err.display().contains("line 2"), "error was: {}", err.display());
    assert_eq!(
        err.display(),
        "parsing JSON d.jsonl line 2: expected value at line 1 column 1"
    );
}

#[test]
fn unknown_extension_requires_explicit_format() {
    assert!(FileSource::new("e.dat", "x").is_err());
    let source = FileSource {
        path: "e.dat".to_string(),
        identifier: "x".to_string(),
        format: FileFormat::Json,
        batch_size: 0,
    };
    let sets = source.datasets(b"{\"n\":1}").unwrap();
    assert_eq!(sets[0].data.as_ref().unwrap().len(), 1);
}

#[test]
fn extensions_count_whatever_their_case() {
    let format = |path: &str| FileFormat::from_path(path);
    assert_eq!(format("/data/People.CSV").unwrap(), FileFormat::Csv);
    assert_eq!(format("x.tar.ndjson").unwrap(), FileFormat::Jsonl);
    assert_eq!(format("a.d/x.JSON").unwrap(), FileFormat::Json);
    for path in ["noext", ".csv", "a.csv/plain", ""] {
        let err = format(path).unwrap_err();
        assert!(matches!(err, IntakeError::UnknownFormat { extension: None }), "{path}");
    }
    assert_eq!(format("a.csv/").unwrap(), FileFormat::Csv);
    assert_eq!(format("d/a.json//").unwrap(), FileFormat::Json);
    assert_eq!(format("..csv").unwrap(), FileFormat::Csv);
    for path in ["..", "d/..", "/"] {
        let err = format(path).unwrap_err();
        assert!(matches!(err, IntakeError::UnknownFormat { extension: None }), "{path}");
    }
    assert_eq!(
        format("b.").unwrap_err().display(),
        "cannot infer file format from extension Some(\"\"); set it explicitly with \
         FileSource::with_format"
    );
    assert_eq!(
        format("x.TXT").unwrap_err().display(),
        "cannot infer file format from extension Some(\"txt\"); set it explicitly with \
         FileSource::with_format"
    );
    assert_eq!(
        format("noext").unwrap_err().display(),
        "cannot infer file format from extension None; set it explicitly with \
         FileSource::with_format"
    );
}

#[test]
fn files_that_are_not_text_cannot_be_read() {
    let source = FileSource::new("x.csv", "x").unwrap().with_format(FileFormat::Jsonl);
    let err = source.read_rows(&[b'1', 0xff]).unwrap_err();
    assert_eq!(err.display(), "reading x.csv: stream did not contain valid UTF-8");
    let rows = source.read_rows("\"é\"\r\n\u{a0}\n2".as_bytes()).unwrap();
    assert_eq!(rows.len(), 2);
    assert_eq!(rows[0].as_text(), Some("é"));
}

#[test]
fn malformed_json_names_the_file() {
    let err = FileSource::new("x.json", "x").unwrap().read_rows(b"[1,").unwrap_err();
    assert_eq!(
        err.display(),
        "parsing JSON x.json: EOF while parsing a value at line 1 column 3"
    );
}

#[test]
fn parsed_files_become_rows_up_to_the_first_failure() {
    let field = |name: &str, text: &str| (name.to_string(), text.to_string());
    let record = vec![field("a", "1"), field("b", "x")];
    let rows = rows_of_records(vec![Ok(record.clone()), Ok(Vec::new())], "f").unwrap();
    assert_eq!(rows[0].text(), "{\"a\":\"1\",\"b\":\"x\"}");
    assert_eq!((rows.len(), rows[1].text().as_str()), (2, "{}"));
    let err = rows_of_records(vec![Ok(record), Err("m".into()), Err("n".into())], "f").unwrap_err();
    assert!(matches!(err, IntakeError::Csv { path, record: Some(2), message } if path == "f" && message == "m"));

    let list = JsonValue::Array(vec![JsonValue::Null, JsonValue::Bool(true)]);
    assert_eq!(rows_of_value(Ok(list), "f").unwrap().len(), 2);
    let rows = rows_of_value(Ok(JsonValue::string("x")), "f").unwrap();
    assert_eq!((rows.len(), rows[0].text().as_str()), (1, "\"x\""));
    let err = rows_of_value(Err("m".into()), "f").unwrap_err();
    assert!(matches!(err, IntakeError::Json { path, line: None, message } if path == "f" && message == "m"));

    let lines = vec![None, Some(Ok(JsonValue::Null)), None, Some(Ok(JsonValue::Bool(true)))];
    assert_eq!(rows_of_lines(lines, "f").unwrap().len(), 2);
    let lines = vec![None, Some(Ok(JsonValue::Null)), Some(Err("m".into())), Some(Err("n".into()))];
    let err = rows_of_lines(lines, "f").unwrap_err();
    assert!(matches!(err, IntakeError::Json { path, line: Some(3), message } if path == "f" && message == "m"));
}

#[test]
fn batches_hold_every_row_once() {
    let sets = chunk_into_datasets((0..7).collect(), "f", "n", 3);
    let sizes: Vec<usize> = sets.iter().map(|s| s.data.as_ref().unwrap().len()).collect();
    assert_eq!(sizes, vec![3, 3, 1]);
    let names: Vec<&str> = sets.iter().map(|s| s.identifier.as_str()).collect();
    assert_eq!(names, vec!["n_0", "n_1", "n_2"]);
    let rows: Vec<i32> = sets.into_iter().flat_map(|s| s.data.unwrap()).collect();
    assert_eq!(rows, (0..7).collect::<Vec<i32>>());
    let whole = chunk_into_datasets(vec![1, 2, 3], "f", "n", 3);
    assert_eq!((whole.len(), whole[0].identifier.as_str()), (1, "n"));
    assert_eq!(chunk_into_datasets(Vec::<u8>::new(), "f", "n", 0).len(), 1);
}

#[test]
fn columns_become_members() {
    let columns = vec![
        ("b".to_string(), Column::Int(-5)),
        ("a".to_string(), Column::Text("x".to_string())),
        ("c".to_string(), Column::Float("1.5".to_string())),
        ("b".to_string(), Column::Bool(true)),
        ("d".to_string(), Column::Json(JsonValue::parse("[1]").unwrap())),
        ("e".to_string(), Column::Missing),
    ];
    assert_eq!(
        row_to_json(&columns).text(),
        "{\"a\":\"x\",\"b\":true,\"c\":1.5,\"d\":[1],\"e\":null}"
    );
    assert_eq!(column_to_json(&Column::Int(i64::MIN)).text(), "-9223372036854775808");
}

#[test]
fn database_rows_are_batched_under_the_query() {
    let source = PostgresSource::new("host=localhost", "SELECT 1", "rows").with_batch_size(1);
    let sets = source.datasets(vec![JsonValue::Null, JsonValue::Bool(true)]);
    assert_eq!(sets.len(), 2);
    assert_eq!((sets[0].filename.as_str(), sets[1].identifier.as_str()), ("SELECT 1", "rows_1"));
}

#[test]
fn datasets_serialize_record_by_record() {
    let dataset = DataSet::new("f", "i", vec![1u8, 2]);
    let texts = dataset.serialize_to_vec(|n| Ok(n.to_string())).unwrap();
    assert_eq!(texts, vec!["1".to_string(), "2".to_string()]);
    let dataset = DataSet::new("f", "i", vec![1u8, 2]);
    let err = dataset.serialize_to_vec(|n| Err(format!("bad {n}"))).unwrap_err();
    assert_eq!(err.display(), "could not serialize a record: bad 1");
    let none: DataSet<u8> =
        DataSet { filename: "f".to_string(), identifier: "i".to_string(), data: None };
    let err = none.serialize_to_vec(|n| Ok(n.to_string())).unwrap_err();
    assert_eq!(err.display(), "the dataset has no data");
}

#[test]
fn intake_errors_describe_themselves() {
    let two = |f: fn(String, String) -> IntakeError| f("c".into(), "m".into()).display();
    assert_eq!(
        two(|context, message| IntakeError::Postgres { context, message }),
        "PostgreSQL source, c: m"
    );
    assert_eq!(
        two(|context, message| IntakeError::Sqlite { context, message }),
        "SQLite source, c: m"
    );
    assert_eq!(
        two(|context, message| IntakeError::MySql { context, message }),
        "MySQL source, c: m"
    );
    assert_eq!(two(|url, message| IntakeError::Http { url, message }), "HTTP source c: m");
    assert_eq!(IntakeError::Worker("m".into()).display(), "SQLite worker failed: m");
    assert_eq!(
        IntakeError::PointerNotFound { pointer: "/a\"\u{7}é".into() }.display(),
        format!("JSON pointer {:?} not found in the response", "/a\"\u{7}é")
    );
}
