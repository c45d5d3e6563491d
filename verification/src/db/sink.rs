//! Destinations for embedded data.
//!
//! A sink receives a job's embeddings and JSON rows and persists them. A
//! pipeline can register several sinks and write to all of them in one run.

use super::payload::{Payload, NOT_AN_OBJECT_MESSAGE};
use super::vector_database::DatabaseParams;
use crate::intake::{debug_quote, debug_text};
use crate::json::{json_text, JsonValue, JsonView};
use crate::text::number::{hex_padded, to_hex_padded};
use crate::text::search::{char_is_digit, char_is_letter, is_digit, is_letter};
use crate::text::{chars_of, owned};
use std::hash::{DefaultHasher, Hash, Hasher};
use vstd::prelude::*;
use vstd::std_specs::hash::DefaultHasherAdditionalSpecFns;
use vstd::string::*;

verus! {

/// Everything a [`Sink`] needs to persist one job's output.
#[derive(Debug)]
pub struct SinkContext<'a, V> {
    /// Logical collection/target name for this job.
    pub collection_name: &'a str,
    /// Embedding dimensionality.
    pub dims: u64,
    /// Honour the job's `extends` flag (don't overwrite a populated target).
    pub extends: bool,
    /// The embeddings, one vector per row, in order.
    pub embeddings: &'a [V],
    /// One JSON object per embedding, in the same order.
    pub rows: &'a [JsonValue],
}

/// Why a sink failed.
#[derive(Debug)]
pub enum SinkError {
    /// A Qdrant call failed.
    Qdrant {
        /// What was being done.
        context: String,
        /// The client's error.
        message: String,
    },
    /// A row isn't a JSON object.
    Payload(String),
    /// The name of a table isn't a plain SQL identifier.
    InvalidTable(String),
    /// A PostgreSQL call failed.
    Postgres {
        /// What was being done.
        context: String,
        /// The driver's error.
        message: String,
    },
    /// Anything else, from a custom sink.
    Other(String),
}

/// The text of a sink error.
pub open spec fn sink_error_text(e: SinkError) -> Seq<char> {
    match e {
        SinkError::Qdrant { context, message } => context@ + ": "@ + message@,
        SinkError::Payload(message) => "building Qdrant payload: "@ + message@,
        SinkError::InvalidTable(table) => "invalid table name "@ + debug_text(table@)
            + ": expected [A-Za-z_][A-Za-z0-9_]*"@,
        SinkError::Postgres { context, message } => context@ + ": "@ + message@,
        SinkError::Other(message) => message@,
    }
}

impl SinkError {
    /// The text of this error.
    pub fn display(&self) -> (r: String)
        ensures
            r@ == sink_error_text(*self),
    {
        match self {
            SinkError::Qdrant { context, message } => {
                let mut out = context.clone();
                out.append(": ");
                out.append(message.as_str());
                out
            },
            SinkError::Payload(message) => {
                let mut out = owned("building Qdrant payload: ");
                out.append(message.as_str());
                out
            },
            SinkError::InvalidTable(table) => {
                let mut out = owned("invalid table name ");
                let quoted = debug_quote(table.as_str());
                out.append(quoted.as_str());
                out.append(": expected [A-Za-z_][A-Za-z0-9_]*");
                out
            },
            SinkError::Postgres { context, message } => {
                let mut out = context.clone();
                out.append(": ");
                out.append(message.as_str());
                out
            },
            SinkError::Other(message) => message.clone(),
        }
    }
}

/// A destination that persists a job's embeddings and rows.
pub trait Sink {
    /// Short name, used in progress output and partial-failure reports.
    fn name(&self) -> &str;
}

/// Whether a sink can give a name.
pub open spec fn has_name<S: Sink>(sink: S, name: Seq<char>) -> bool {
    exists|s: &str| #[trigger] call_ensures(S::name, (&sink,), s) && s@ == name
}

/// Writes vectors to Qdrant.
///
/// Creates the collection if missing, honours `extends` (skips a populated
/// collection when `extends` is false), and upserts points with random UUIDs
/// and payloads.
#[derive(Debug, Clone)]
pub struct QdrantSink {
    /// Where to write.
    pub params: DatabaseParams,
}

impl QdrantSink {
    /// A sink for a Qdrant deployment.
    pub fn new(params: DatabaseParams) -> (r: QdrantSink)
        ensures
            r.params == params,
    {
        QdrantSink { params }
    }

    /// The payloads of a job's rows, which must be objects.
    pub fn payloads(&self, rows: &[JsonValue]) -> (r: Result<Vec<Payload>, SinkError>)
        ensures
            match r {
                Ok(payloads) => payloads@.len() == rows@.len() && forall|i: int|
                    0 <= i < rows@.len() ==> (#[trigger] rows@[i])@ == JsonView::Object(
                        payloads@[i]@,
                    ),
                Err(e) => e matches SinkError::Payload(message) && message@
                    == NOT_AN_OBJECT_MESSAGE@ && exists|i: int|
                    0 <= i < rows@.len() && !((#[trigger] rows@[i])@ is Object),
            },
    {
        let mut payloads: Vec<Payload> = Vec::new();
        let mut i: usize = 0;
        while i < rows.len()
            invariant
                i <= rows@.len(),
                payloads@.len() == i,
                forall|j: int|
                    0 <= j < i ==> (#[trigger] rows@[j])@ == JsonView::Object(payloads@[j]@),
            decreases rows@.len() - i,
        {
            match Payload::from_value(rows[i].copy()) {
                Ok(payload) => payloads.push(payload),
                Err(message) => {
                    proof {
                        assert(!(rows@[i as int]@ is Object));
                    }
                    return Err(SinkError::Payload(message));
                },
            }
            i += 1;
        }
        Ok(payloads)
    }
}

impl Sink for QdrantSink {
    fn name(&self) -> (r: &str)
        ensures
            r@ == "qdrant"@,
    {
        "qdrant"
    }
}

/// Persists each row as a JSONB record in a PostgreSQL table, idempotently.
///
/// The target table is created if missing as
/// `(id text primary key, collection text, payload jsonb)`. Re-running the
/// same job upserts by a stable id derived from the row's JSON, so rows are
/// never duplicated across re-ingests.
#[derive(Debug, Clone)]
pub struct PostgresSink {
    /// Where the database is.
    pub conn_str: String,
    /// The target table.
    pub table: String,
}

/// Whether a text is a plain SQL identifier: `[A-Za-z_][A-Za-z0-9_]*`.
pub open spec fn is_ident(s: Seq<char>) -> bool {
    &&& s.len() > 0
    &&& is_letter(s[0]) || s[0] == '_'
    &&& forall|i: int|
        0 <= i < s.len() ==> is_letter(#[trigger] s[i]) || is_digit(s[i]) || s[i] == '_'
}

/// Whether a text is a plain SQL identifier.
pub fn is_valid_ident(s: &str) -> (r: bool)
    ensures
        r == is_ident(s@),
{
    let chars = chars_of(s);
    if chars.len() == 0 {
        return false;
    }
    if !(char_is_letter(chars[0]) || chars[0] == '_') {
        return false;
    }
    let mut i: usize = 0;
    while i < chars.len()
        invariant
            i <= chars@.len(),
            chars@ == s@,
            forall|j: int|
                0 <= j < i ==> is_letter(#[trigger] s@[j]) || is_digit(s@[j]) || s@[j] == '_',
        decreases chars@.len() - i,
    {
        let c: char = chars[i];
        if !(char_is_letter(c) || char_is_digit(c) || c == '_') {
            return false;
        }
        i += 1;
    }
    true
}

/// What the `Hash` of `str` writes to a hasher for a text.
pub uninterp spec fn hash_writes(text: Seq<char>) -> Seq<Seq<u8>>;

/// Feeds a text to a hasher. Calls the `Hash` of `str`.
///
/// Claims that what is written depends on the text alone, not on what the
/// hasher was fed before.
#[verifier::external_body]
fn feed(text: &str, hasher: &mut DefaultHasher)
    ensures
        final(hasher)@ == old(hasher)@ + hash_writes(text@),
{
    text.hash(hasher);
}

/// The hash of a text by a fresh `DefaultHasher`.
pub open spec fn text_hash(text: Seq<char>) -> u64 {
    DefaultHasher::spec_finish(hash_writes(text))
}

/// Hashes a text with a fresh `DefaultHasher`.
fn hash_text(text: &str) -> (r: u64)
    ensures
        r == text_hash(text@),
{
    let mut hasher = DefaultHasher::new();
    feed(text, &mut hasher);
    proof {
        assert(hasher@ =~= hash_writes(text@));
    }
    hasher.finish()
}

/// The id of a row.
pub open spec fn row_id(row: JsonView) -> Seq<char> {
    hex_padded(text_hash(json_text(row)) as nat, 16)
}

/// Deterministic id from the row's JSON, so re-ingesting the same row upserts
/// instead of inserting a duplicate.
pub fn stable_id(row: &JsonValue) -> (r: String)
    ensures
        r@ == row_id(row@),
{
    let text = row.text();
    to_hex_padded(hash_text(text.as_str()), 16)
}

/// A row to upsert.
#[derive(Debug)]
pub struct RowRecord {
    /// Its id.
    pub id: String,
    /// The collection.
    pub collection: String,
    /// The row.
    pub payload: JsonValue,
}

impl PostgresSink {
    /// A sink for a table. `table` must be a plain SQL identifier
    /// (`[A-Za-z_][A-Za-z0-9_]*`): it stands in the statements themselves.
    pub fn new(conn_str: &str, table: &str) -> (r: Result<PostgresSink, SinkError>)
        ensures
            is_ident(table@) <==> r is Ok,
            match r {
                Ok(sink) => sink.conn_str@ == conn_str@ && sink.table@ == table@,
                Err(e) => e matches SinkError::InvalidTable(t) && t@ == table@,
            },
    {
        if !is_valid_ident(table) {
            return Err(SinkError::InvalidTable(owned(table)));
        }
        Ok(PostgresSink { conn_str: owned(conn_str), table: owned(table) })
    }

    /// The statement that creates the table if it is missing.
    pub fn create_statement(&self) -> (r: String)
        ensures
            r@ == "CREATE TABLE IF NOT EXISTS "@ + self.table@
                + " (id text PRIMARY KEY, collection text NOT NULL, payload jsonb NOT NULL)"@,
    {
        let mut out = owned("CREATE TABLE IF NOT EXISTS ");
        out.append(self.table.as_str());
        out.append(" (id text PRIMARY KEY, collection text NOT NULL, payload jsonb NOT NULL)");
        out
    }

    /// The statement that inserts a row, or updates the one with its id.
    pub fn upsert_statement(&self) -> (r: String)
        ensures
            r@ == "INSERT INTO "@ + self.table@
                + " (id, collection, payload) VALUES ($1, $2, $3) ON CONFLICT (id) DO UPDATE SET collection = EXCLUDED.collection, payload = EXCLUDED.payload"@,
    {
        let mut out = owned("INSERT INTO ");
        out.append(self.table.as_str());
        out.append(
            " (id, collection, payload) VALUES ($1, $2, $3) ON CONFLICT (id) DO UPDATE SET collection = EXCLUDED.collection, payload = EXCLUDED.payload",
        );
        out
    }

    /// The records to upsert for a job's rows, in row order.
    pub fn records(&self, collection_name: &str, rows: &[JsonValue]) -> (r: Vec<RowRecord>)
        ensures
            r@.len() == rows@.len(),
            forall|i: int|
                0 <= i < rows@.len() ==> (#[trigger] r@[i]).id@ == row_id(rows@[i]@)
                    && r@[i].collection@ == collection_name@ && r@[i].payload@ == rows@[i]@,
    {
        let mut records: Vec<RowRecord> = Vec::new();
        let mut i: usize = 0;
        while i < rows.len()
            invariant
                i <= rows@.len(),
                records@.len() == i,
                forall|j: int|
                    0 <= j < i ==> (#[trigger] records@[j]).id@ == row_id(rows@[j]@)
                        && records@[j].collection@ == collection_name@ && records@[j].payload@
                        == rows@[j]@,
            decreases rows@.len() - i,
        {
            records.push(
                RowRecord {
                    id: stable_id(&rows[i]),
                    collection: owned(collection_name),
                    payload: rows[i].copy(),
                },
            );
            i += 1;
        }
        records
    }
}

impl Sink for PostgresSink {
    fn name(&self) -> (r: &str)
        ensures
            r@ == "postgres"@,
    {
        "postgres"
    }
}

/// The table after some records are upserted: for each id the collection and
/// the payload of the last record with it.
pub open spec fn table_after(
    table: Map<Seq<char>, (Seq<char>, JsonView)>,
    records: Seq<(Seq<char>, Seq<char>, JsonView)>,
) -> Map<Seq<char>, (Seq<char>, JsonView)>
    decreases records.len(),
{
    if records.len() == 0 {
        table
    } else {
        let (id, collection, payload) = records.last();
        table_after(table, records.drop_last()).insert(id, (collection, payload))
    }
}

/// The records of some rows.
pub open spec fn job_records(collection: Seq<char>, rows: Seq<JsonView>) -> Seq<
    (Seq<char>, Seq<char>, JsonView),
> {
    rows.map_values(|row: JsonView| (row_id(row), collection, row))
}

/// Writing a job's rows a second time changes nothing: no row is duplicated
/// across re-ingests.
pub proof fn lemma_upserts_are_idempotent(
    table: Map<Seq<char>, (Seq<char>, JsonView)>,
    collection: Seq<char>,
    rows: Seq<JsonView>,
)
    ensures
        ({
            let once = table_after(table, job_records(collection, rows));
            table_after(once, job_records(collection, rows)) == once
        }),
{
    let records = job_records(collection, rows);
    let once = table_after(table, records);
    let twice = table_after(once, records);
    lemma_table_after(table, records);
    lemma_table_after(once, records);
    assert forall|id: Seq<char>| twice.contains_key(id) == once.contains_key(id) && (
    once.contains_key(id) ==> twice[id] == once[id]) by {
        if exists|i: int| 0 <= i < records.len() && (#[trigger] records[i]).0 == id {
            let at = last_with(records, id);
            lemma_last_with(records, id);
            assert(twice[id] == (records[at].1, records[at].2));
            assert(once[id] == (records[at].1, records[at].2));
        }
    }
    assert(twice =~= once);
}

/// The position of the last record with an id, or -1.
pub open spec fn last_with(records: Seq<(Seq<char>, Seq<char>, JsonView)>, id: Seq<char>) -> int
    decreases records.len(),
{
    if records.len() == 0 {
        -1
    } else if records.last().0 == id {
        records.len() - 1
    } else {
        last_with(records.drop_last(), id)
    }
}

/// A record with the id is found.
proof fn lemma_last_with(records: Seq<(Seq<char>, Seq<char>, JsonView)>, id: Seq<char>)
    ensures
        -1 <= last_with(records, id) < records.len(),
        last_with(records, id) >= 0 ==> records[last_with(records, id)].0 == id,
        last_with(records, id) == -1 ==> forall|i: int|
            0 <= i < records.len() ==> (#[trigger] records[i]).0 != id,
    decreases records.len(),
{
    if records.len() > 0 && records.last().0 != id {
        let rest = records.drop_last();
        lemma_last_with(rest, id);
        if last_with(rest, id) == -1 {
            assert forall|i: int| 0 <= i < records.len() implies (#[trigger] records[i]).0 != id by {
                if i < rest.len() {
                    assert(rest[i].0 != id);
                }
            }
        }
    }
}

/// What a table holds after some records are upserted.
proof fn lemma_table_after(
    table: Map<Seq<char>, (Seq<char>, JsonView)>,
    records: Seq<(Seq<char>, Seq<char>, JsonView)>,
)
    ensures
        forall|id: Seq<char>|
            #![trigger table_after(table, records).contains_key(id)]
            #![trigger table_after(table, records)[id]]
            ({
                let at = last_with(records, id);
                let after = table_after(table, records);
                if at >= 0 {
                    after.contains_key(id) && after[id] == (records[at].1, records[at].2)
                } else {
                    after.contains_key(id) == table.contains_key(id) && (table.contains_key(id)
                        ==> after[id] == table[id])
                }
            }),
    decreases records.len(),
{
    if records.len() > 0 {
        lemma_table_after(table, records.drop_last());
        assert forall|id: Seq<char>|
            #![trigger table_after(table, records).contains_key(id)]
            #![trigger table_after(table, records)[id]]
            ({
                let at = last_with(records, id);
                let after = table_after(table, records);
                if at >= 0 {
                    after.contains_key(id) && after[id] == (records[at].1, records[at].2)
                } else {
                    after.contains_key(id) == table.contains_key(id) && (table.contains_key(id)
                        ==> after[id] == table[id])
                }
            }) by {
            lemma_last_with(records, id);
            lemma_last_with(records.drop_last(), id);
            let before = table_after(table, records.drop_last());
            assert(before.contains_key(id) || !before.contains_key(id));
        }
    }
}

} // verus!
