//! Qdrant and PostgreSQL as destinations.

use std::hash::{DefaultHasher, Hash, Hasher};

use std::cell::Cell;

use lvv::db::payload::{Payload, NOT_AN_OBJECT_MESSAGE};
use lvv::db::sink::{is_valid_ident, stable_id, PostgresSink, QdrantSink, Sink, SinkError};
use lvv::db::vector_database::{
    ConnectedDB, DatabaseParams, Distance, Location, QdrantDatabase, VectorDatabaseError,
};
use lvv::json::JsonValue;

fn params() -> DatabaseParams {
    DatabaseParams::new(
        Location::new_local("http://localhost:6334"),
        "documents".into(),
        Distance::Cosine,
        768,
    )
}

fn value(text: &str) -> JsonValue {
    JsonValue::parse(text).unwrap()
}

#[test]
fn parameters_are_kept() {
    let params = params();
    assert_eq!(params.collection, "documents");
    assert_eq!(params.location.get_url(), "http://localhost:6334");
    assert_eq!(params.location.get_api_key(), None);
    let copy = params.copy();
    assert_eq!((copy.dims, copy.distance), (768, Distance::Cosine));
}

#[test]
fn a_remote_location_needs_a_dotenv_file_and_a_key() {
    let err = Location::new_remote("u", || Err("no file".into()), || Ok("k".into())).unwrap_err();
    assert!(matches!(&err, VectorDatabaseError::EnvVariableError(m) if m == "no file"));
    assert_eq!(err.display(), "Issues acquiring env vars");
    let err = Location::new_remote("u", || Ok(()), || Err("unset".into())).unwrap_err();
    assert!(matches!(err, VectorDatabaseError::ApiKeyMissing(m) if m == "unset"));
    let loaded = Cell::new(false);
    let late = Location::new_remote(
        "u",
        || Ok(loaded.set(true)),
        || if loaded.get() { Ok("late".to_string()) } else { Err("unset".to_string()) },
    );
    assert_eq!(late.unwrap().get_api_key().as_deref(), Some("late"));
    let location = Location::new_remote("u", || Ok(()), || Ok("k".into())).unwrap();
    assert_eq!(location.get_url(), "u");
    assert_eq!(location.get_api_key().as_deref(), Some("k"));
}

#[test]
fn connecting_twice_is_an_error() {
    let db = QdrantDatabase::new_with_database_params(params());
    let db = db.connect(|url, key| Ok((url, key))).unwrap();
    match &db {
        QdrantDatabase::Connected(connected) => {
            assert_eq!(connected.client, ("http://localhost:6334".to_string(), None))
        }
        other => panic!("expected a connected database, got {other:?}"),
    }
    assert_eq!(db.params().collection, "documents");
    let err = db.connect(|url, key| Ok((url, key))).unwrap_err();
    assert_eq!(err.display(), "Connection to the database has already been established");
    let db: QdrantDatabase<()> = QdrantDatabase::new(
        Location::new_local("x"),
        "c".to_string(),
        Distance::Dot,
        3,
    );
    let err = db.connect(|_, _| Err("refused".to_string())).unwrap_err();
    assert_eq!(err.display(), "Couldn't create connection to vectorDB: refused");
}

#[test]
fn populated_collections_are_skipped_unless_extended() {
    let db = ConnectedDB { params: params(), client: () };
    assert!(db.collection_exists_and_is_not_empty(true, Some(3), false));
    assert!(!db.collection_exists_and_is_not_empty(true, Some(3), true));
    assert!(!db.collection_exists_and_is_not_empty(true, Some(0), false));
    assert!(!db.collection_exists_and_is_not_empty(true, None, false));
    assert!(!db.collection_exists_and_is_not_empty(false, Some(3), false));
    assert!(db.get_collection(true, "c", 3).is_none());
    let new = db.get_collection(false, "c", 3).unwrap();
    assert_eq!((new.name.as_str(), new.dims, new.distance), ("c", 3, Distance::Cosine));
}

#[test]
fn points_pair_vectors_and_payloads_under_random_uuids() {
    let db = ConnectedDB { params: params(), client: () };
    let payload = |text: &str| Payload::from_value(value(text)).unwrap();
    let points = db.upload_embedddings(
        vec![vec![1.0f32], vec![2.0], vec![3.0]],
        vec![payload("{\"n\":1}"), payload("{\"n\":2}")],
    );
    assert_eq!(points.len(), 2);
    assert_eq!(points[1].vector, vec![2.0]);
    assert_eq!(points[1].payload.to_value().text(), "{\"n\":2}");
    assert_ne!(points[0].id, points[1].id);
    for point in &points {
        let id = uuid::Uuid::parse_str(&point.id).unwrap();
        assert_eq!(id.get_version_num(), 4);
        assert_eq!(id.get_variant(), uuid::Variant::RFC4122);
        assert_eq!(id.to_string(), point.id);
    }
}

#[test]
fn payloads_are_objects() {
    let mut payload = Payload::from_value(value("{\"b\":1,\"a\":2}")).unwrap();
    payload.insert("b", JsonValue::Null);
    payload.insert("c", JsonValue::string("x"));
    assert_eq!(payload.to_value().text(), "{\"a\":2,\"b\":null,\"c\":\"x\"}");
    let sink = QdrantSink::new(params());
    let rows = [value("{}"), value("[1]")];
    let err = sink.payloads(&rows).unwrap_err();
    assert_eq!(err.display(), format!("building Qdrant payload: {NOT_AN_OBJECT_MESSAGE}"));
    assert_eq!(sink.payloads(&rows[..1]).unwrap().len(), 1);
    assert_eq!(sink.name(), "qdrant");
}

#[test]
fn distances_have_names() {
    let names: Vec<&str> = [
        Distance::Cosine,
        Distance::Euclid,
        Distance::Manhattan,
        Distance::Dot,
        Distance::UnknownDistance,
    ]
    .iter()
    .map(|d| d.name())
    .collect();
    assert_eq!(names, vec!["Cosine", "Euclid", "Manhattan", "Dot", "UnknownDistance"]);
}

#[test]
fn only_plain_identifiers_name_tables() {
    for name in ["t", "_", "Rows_2", "a1"] {
        assert!(is_valid_ident(name), "{name}");
    }
    for name in ["", "1a", "a-b", "a b", "é", "a;"] {
        assert!(!is_valid_ident(name), "{name}");
    }
    let err = PostgresSink::new("host=x", "a b").unwrap_err();
    assert_eq!(err.display(), "invalid table name \"a b\": expected [A-Za-z_][A-Za-z0-9_]*");
}

#[test]
fn rows_are_upserted_by_a_stable_id() {
    let sink = PostgresSink::new("host=x", "rows").unwrap();
    assert_eq!(
        sink.create_statement(),
        "CREATE TABLE IF NOT EXISTS rows (id text PRIMARY KEY, collection text NOT NULL, payload \
         jsonb NOT NULL)"
    );
    assert_eq!(
        sink.upsert_statement(),
        "INSERT INTO rows (id, collection, payload) VALUES ($1, $2, $3) ON CONFLICT (id) DO \
         UPDATE SET collection = EXCLUDED.collection, payload = EXCLUDED.payload"
    );
    let rows = [value("{\"b\": 1, \"a\": [true]}"), value("{\"a\":[true],\"b\":1}")];
    let records = sink.records("c", &rows);
    assert_eq!(records.len(), 2);
    assert_eq!(records[0].id, records[1].id);
    assert_eq!(records[0].collection, "c");
    let mut hasher = DefaultHasher::new();
    "{\"a\":[true],\"b\":1}".to_string().hash(&mut hasher);
    assert_eq!(stable_id(&rows[0]), format!("{:016x}", hasher.finish()));
    assert_eq!(sink.name(), "postgres");
}

#[test]
fn sink_errors_describe_themselves() {
    let err = SinkError::Qdrant { context: "c".into(), message: "m".into() };
    assert_eq!(err.display(), "c: m");
    let err = SinkError::Postgres { context: "c".into(), message: "m".into() };
    assert_eq!(err.display(), "c: m");
    assert_eq!(SinkError::Other("m".into()).display(), "m");
}
