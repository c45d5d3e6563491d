//! What is stored of embeddings and rows.

use super::texts::{is_hex_of, lemma_hex_at, lemma_hex_digit};
use crate::db::payload::Payload;
use crate::db::sink::{
    hash_writes, is_valid_ident, stable_id, PostgresSink, QdrantSink, RowRecord, Sink, SinkError,
};
use crate::db::vector_database::{
    is_drawn_for, uuid_text, ConnectedDB, DatabaseParams, Distance, Location, NewCollection, Point,
    QdrantDatabase, VectorDatabaseError,
};
use crate::json::{in_name_order, lemma_member_is_set, JsonValue, JsonView};
use crate::text::number::{hex_digit, hex_of, hex_padded};
use std::hash::DefaultHasher;
use vstd::prelude::*;
use vstd::std_specs::hash::DefaultHasherAdditionalSpecFns;
use vstd::string::*;

verus! {

/// Where the two digits of a byte stand in a UUID.
pub open spec fn digit_place(byte: int) -> int {
    2 * byte + if byte < 4 {
        0int
    } else if byte < 6 {
        1
    } else if byte < 8 {
        2
    } else if byte < 10 {
        3
    } else {
        4
    }
}

/// The value of a lowercase hexadecimal digit.
pub open spec fn digit_worth(c: char) -> int {
    if '0' <= c <= '9' {
        c as int - '0' as int
    } else {
        c as int - 'a' as int + 10
    }
}

/// Whether two digits of a text are worth `n`.
pub open spec fn reads_byte(text: Seq<char>, at: int, n: int) -> bool {
    16 * digit_worth(text[at]) + digit_worth(text[at + 1]) == n
}

/// Whether `id` is the UUID of some bytes: 36 characters with hyphens in four
/// places, and the digits of every byte, but for the four bits of the version
/// in the seventh and the two bits of the variant in the ninth.
pub open spec fn spells(id: Seq<char>, bytes: [u8; 16]) -> bool {
    &&& id.len() == 36
    &&& id[8] == '-' && id[13] == '-' && id[18] == '-' && id[23] == '-'
    &&& forall|k: int|
        0 <= k < 16 && k != 6 && k != 8 ==> reads_byte(
            id,
            digit_place(k),
            (#[trigger] bytes@[k]) as int,
        )
    &&& reads_byte(id, digit_place(6), 0x40 + bytes@[6] as int % 16)
    &&& reads_byte(id, digit_place(8), 0x80 + bytes@[8] as int % 64)
}

/// The digits of a byte are worth the byte.
proof fn lemma_digits_worth(high: char, low: char, byte: u8)
    requires
        is_hex_of(high, low, byte),
    ensures
        16 * digit_worth(high) + digit_worth(low) == byte,
{
    reveal_strlit("0123456789abcdef");
    let h = byte as int / 16;
    let l = byte as int % 16;
    assert(0 <= h < 16 && 0 <= l < 16);
    lemma_hex_digit(h);
    lemma_hex_digit(l);
}

/// A UUID spells its bytes.
proof fn lemma_uuid_spells(bytes: [u8; 16])
    ensures
        spells(uuid_text(bytes@), bytes),
{
    let id = uuid_text(bytes@);
    let marked = bytes@.update(6, (0x40 + bytes@[6] % 16) as u8).update(
        8,
        (0x80 + bytes@[8] % 64) as u8,
    );
    let digits = hex_of(marked);
    assert(bytes@.len() == 16);
    lemma_hex_at(marked);
    assert(digits.len() == 32);
    assert forall|k: int| 0 <= k < 16 implies reads_byte(
        id,
        digit_place(k),
        (#[trigger] marked[k]) as int,
    ) by {
        assert(is_hex_of(digits[2 * k], digits[2 * k + 1], marked[k]));
        lemma_digits_worth(digits[2 * k], digits[2 * k + 1], marked[k]);
        assert(id[digit_place(k)] == digits[2 * k]);
        assert(id[digit_place(k) + 1] == digits[2 * k + 1]);
    }
    assert(reads_byte(id, digit_place(6), marked[6] as int));
    assert(reads_byte(id, digit_place(8), marked[8] as int));
    assert forall|k: int| 0 <= k < 16 && k != 6 && k != 8 implies reads_byte(
        id,
        digit_place(k),
        (#[trigger] bytes@[k]) as int,
    ) by {
        assert(marked[k] == bytes@[k]);
    }
}

/// Whether the id of a point is the UUID of bytes drawn for it.
pub open spec fn has_uuid_of_its_draw(point: usize, id: Seq<char>) -> bool {
    exists|bytes: [u8; 16]| #[trigger] is_drawn_for(point, bytes) && spells(id, bytes)
}

/// There is a point for every embedding that has a payload, in order, with that
/// embedding and that payload, and with the UUID of the bytes drawn for that
/// point.
pub proof fn lemma_points_are_paired<C, V>(
    db: &ConnectedDB<C>,
    embeddings: Vec<V>,
    payloads: Vec<Payload>,
    points: Vec<Point<V>>,
)
    requires
        call_ensures(ConnectedDB::<C>::upload_embedddings::<V>, (db, embeddings, payloads), points),
    ensures
        embeddings@.len() <= payloads@.len() ==> points@.len() == embeddings@.len(),
        payloads@.len() <= embeddings@.len() ==> points@.len() == payloads@.len(),
        forall|i: int|
            0 <= i < points@.len() ==> (#[trigger] points@[i]).vector == embeddings@[i]
                && points@[i].payload == payloads@[i] && has_uuid_of_its_draw(
                i as usize,
                points@[i].id@,
            ),
{
    assert forall|i: int| 0 <= i < points@.len() implies (#[trigger] points@[i]).vector
        == embeddings@[i] && points@[i].payload == payloads@[i] && has_uuid_of_its_draw(
        i as usize,
        points@[i].id@,
    ) by {
        let id = points@[i].id@;
        assert(crate::db::vector_database::has_own_id(i as usize, id));
        let bytes = choose|bytes: [u8; 16]| #[trigger]
            is_drawn_for(i as usize, bytes) && id == uuid_text(bytes@);
        lemma_uuid_spells(bytes);
        assert(is_drawn_for(i as usize, bytes));
    }
}

/// Whether two draws differ in a bit that a UUID keeps.
pub open spec fn draws_differ(a: [u8; 16], b: [u8; 16]) -> bool {
    ||| exists|k: int| 0 <= k < 16 && k != 6 && k != 8 && #[trigger] a@[k] != b@[k]
    ||| a@[6] % 16 != b@[6] % 16
    ||| a@[8] % 64 != b@[8] % 64
}

/// Different draws have different UUIDs: an id gives back every bit of its
/// bytes that the version and the variant leave.
pub proof fn lemma_different_draws_have_different_ids(
    id: Seq<char>,
    other: Seq<char>,
    a: [u8; 16],
    b: [u8; 16],
)
    requires
        spells(id, a),
        spells(other, b),
        draws_differ(a, b),
    ensures
        id != other,
{
    if id == other {
        assert forall|k: int| 0 <= k < 16 && k != 6 && k != 8 implies #[trigger] a@[k] == b@[k] by {
            assert(reads_byte(id, digit_place(k), a@[k] as int));
            assert(reads_byte(id, digit_place(k), b@[k] as int));
        }
        assert(reads_byte(id, digit_place(6), 0x40 + b@[6] as int % 16));
        assert(reads_byte(id, digit_place(8), 0x80 + b@[8] as int % 64));
    }
}

/// A payload gives back the object that it was made of.
pub proof fn lemma_payload_round_trip(
    value: JsonValue,
    payload: &Payload,
    made: Result<Payload, String>,
    back: JsonValue,
)
    requires
        call_ensures(Payload::from_value, (value,), made),
        made == Ok::<Payload, String>(*payload),
        call_ensures(Payload::to_value, (payload,), back),
    ensures
        value@ is Object,
        back@ == value@,
{
}

/// Setting a member of a payload gives the name its value and leaves every
/// other name its own.
pub proof fn lemma_payload_insert(payload: &mut Payload, name: &str, value: JsonValue)
    requires
        in_name_order(payload@),
        call_ensures(Payload::insert, (payload, name, value), ()),
    ensures
        in_name_order(final(payload)@),
        forall|n: Seq<char>, v: JsonView|
            #![trigger final(payload)@.contains((n, v))]
            final(payload)@.contains((n, v)) <==> (if n == name@ {
                v == value@
            } else {
                old(payload)@.contains((n, v))
            }),
{
    lemma_member_is_set(payload@, name@, value@);
}

/// Every row becomes the payload with its members, in order; one that isn't an
/// object fails the job.
pub proof fn lemma_rows_become_payloads(
    sink: &QdrantSink,
    rows: &[JsonValue],
    r: Result<Vec<Payload>, SinkError>,
)
    requires
        call_ensures(QdrantSink::payloads, (sink, rows), r),
    ensures
        r is Ok <==> forall|i: int| 0 <= i < rows@.len() ==> (#[trigger] rows@[i])@ is Object,
        r matches Ok(payloads) ==> payloads@.len() == rows@.len() && forall|i: int|
            0 <= i < rows@.len() ==> (#[trigger] rows@[i])@ == JsonView::Object(payloads@[i]@),
        r matches Err(e) ==> e is Payload,
{
}

/// The value of a hexadecimal text.
pub open spec fn hex_worth(s: Seq<char>) -> int
    decreases s.len(),
{
    if s.len() == 0 {
        0
    } else {
        16 * hex_worth(s.drop_last()) + digit_worth(s.last())
    }
}

/// A padded number has its width and is worth the number, where it fits.
proof fn lemma_padded_worth(n: nat, width: nat)
    ensures
        hex_padded(n, width).len() == width,
        n < vstd::arithmetic::power::pow(16, width) ==> hex_worth(hex_padded(n, width)) == n,
    decreases width,
{
    reveal(vstd::arithmetic::power::pow);
    if width > 0 {
        let s = hex_padded(n, width);
        lemma_padded_worth(n / 16, (width - 1) as nat);
        assert(s.drop_last() =~= hex_padded(n / 16, (width - 1) as nat));
        let d = (n % 16) as int;
        lemma_hex_digit(d);
        assert(s.last() == hex_digit(d));
        assert(digit_worth(hex_digit(d)) == d) by {
            reveal_strlit("0123456789abcdef");
        }
        if n < vstd::arithmetic::power::pow(16, width) {
            let p = vstd::arithmetic::power::pow(16, (width - 1) as nat);
            assert(vstd::arithmetic::power::pow(16, width) == 16 * p);
            assert(n / 16 < p) by (nonlinear_arith)
                requires
                    n < 16 * p,
            ;
        }
    }
}

/// The id of a row is the hash of its whole JSON text by a fresh hasher, as
/// sixteen hexadecimal digits.
pub proof fn lemma_row_id(row: &JsonValue, text: String, id: String)
    requires
        call_ensures(JsonValue::text, (row,), text),
        call_ensures(stable_id, (row,), id),
    ensures
        id@.len() == 16,
        hex_worth(id@) == DefaultHasher::spec_finish(hash_writes(text@)),
{
    let hash = DefaultHasher::spec_finish(hash_writes(text@));
    lemma_padded_worth(hash as nat, 16);
    assert(vstd::arithmetic::power::pow(16, 16) == 0x1_0000_0000_0000_0000) by {
        reveal(vstd::arithmetic::power::pow);
        reveal_with_fuel(vstd::arithmetic::power::pow, 17);
    }
}

/// There is one record per row, in order: the row itself, the collection, and
/// the id of that row.
pub proof fn lemma_every_row_has_its_record(
    sink: &PostgresSink,
    collection_name: &str,
    rows: &[JsonValue],
    i: int,
    id: String,
    r: Vec<RowRecord>,
)
    requires
        call_ensures(PostgresSink::records, (sink, collection_name, rows), r),
        0 <= i < rows@.len(),
        call_ensures(stable_id, (&rows@[i],), id),
    ensures
        r@.len() == rows@.len(),
        r@[i].payload@ == rows@[i]@,
        r@[i].collection@ == collection_name@,
        r@[i].id@ == id@,
{
}

/// A plain identifier starts with a letter of ASCII or an underscore, and goes
/// on with letters, digits and underscores.
pub proof fn lemma_identifiers(s: &str, r: bool)
    requires
        call_ensures(is_valid_ident, (s,), r),
    ensures
        r <==> s@.len() > 0 && !('0' <= s@[0] <= '9') && forall|i: int|
            0 <= i < s@.len() ==> is_word_char(#[trigger] s@[i]),
{
    if s@.len() > 0 {
        lemma_word_char(s@[0]);
    }
    assert forall|i: int| 0 <= i < s@.len() implies is_word_char(#[trigger] s@[i]) == (
    crate::text::search::is_letter(s@[i]) || crate::text::search::is_digit(s@[i]) || s@[i]
        == '_') by {
        lemma_word_char(s@[i]);
    }
}

/// Whether a character is a letter or a digit of ASCII, or an underscore.
pub open spec fn is_word_char(c: char) -> bool {
    'a' <= c <= 'z' || 'A' <= c <= 'Z' || '0' <= c <= '9' || c == '_'
}

/// Which characters are letters and digits.
proof fn lemma_word_char(c: char)
    ensures
        is_word_char(c) == (crate::text::search::is_letter(c) || crate::text::search::is_digit(c)
            || c == '_'),
        crate::text::search::is_digit(c) == ('0' <= c <= '9'),
        !(crate::text::search::is_letter(c) && '0' <= c <= '9'),
{
}

/// A sink for a table keeps its address and the name of the table, which must
/// be a plain identifier; another name is given back in the error.
pub proof fn lemma_tables_are_named(
    conn_str: &str,
    table: &str,
    valid: bool,
    r: Result<PostgresSink, SinkError>,
)
    requires
        call_ensures(is_valid_ident, (table,), valid),
        call_ensures(PostgresSink::new, (conn_str, table), r),
    ensures
        match r {
            Ok(sink) => valid && sink.conn_str@ == conn_str@ && sink.table@ == table@,
            Err(e) => !valid && (e matches SinkError::InvalidTable(t) && t@ == table@),
        },
{
}

/// Both statements name the table of the sink, whole.
pub proof fn lemma_statements_name_the_table(
    sink: &PostgresSink,
    create: String,
    upsert: String,
)
    requires
        call_ensures(PostgresSink::create_statement, (sink,), create),
        call_ensures(PostgresSink::upsert_statement, (sink,), upsert),
    ensures
        exists|rest: Seq<char>| #[trigger]
            follows(create@, "CREATE TABLE IF NOT EXISTS "@ + sink.table@ + " ("@, rest),
        exists|rest: Seq<char>| #[trigger]
            follows(upsert@, "INSERT INTO "@ + sink.table@ + " ("@, rest),
{
    reveal_strlit(" (");
    let a = " (id text PRIMARY KEY, collection text NOT NULL, payload jsonb NOT NULL)"@;
    reveal_strlit(" (id text PRIMARY KEY, collection text NOT NULL, payload jsonb NOT NULL)");
    let b =
        " (id, collection, payload) VALUES ($1, $2, $3) ON CONFLICT (id) DO UPDATE SET collection = EXCLUDED.collection, payload = EXCLUDED.payload"@;
    reveal_strlit(
        " (id, collection, payload) VALUES ($1, $2, $3) ON CONFLICT (id) DO UPDATE SET collection = EXCLUDED.collection, payload = EXCLUDED.payload",
    );
    assert(create@ =~= "CREATE TABLE IF NOT EXISTS "@ + sink.table@ + " ("@ + a.skip(2));
    assert(upsert@ =~= "INSERT INTO "@ + sink.table@ + " ("@ + b.skip(2));
    assert(follows(create@, "CREATE TABLE IF NOT EXISTS "@ + sink.table@ + " ("@, a.skip(2)));
    assert(follows(upsert@, "INSERT INTO "@ + sink.table@ + " ("@, b.skip(2)));
}

/// Whether a text is a start and a rest.
pub open spec fn follows(text: Seq<char>, start: Seq<char>, rest: Seq<char>) -> bool {
    text == start + rest
}

/// The text of a sink's error tells what was being done and what went wrong.
pub proof fn lemma_sink_errors_tell_all(e: &SinkError, r: String)
    requires
        call_ensures(SinkError::display, (e,), r),
    ensures
        e matches SinkError::Qdrant { context, message } ==> r@ == context@ + ": "@ + message@,
        e matches SinkError::Postgres { context, message } ==> r@ == context@ + ": "@ + message@,
        e matches SinkError::Other(message) ==> r@ == message@,
        e matches SinkError::Payload(message) ==> r@ == "building Qdrant payload: "@ + message@,
        e matches SinkError::InvalidTable(table) ==> r@ == "invalid table name "@
            + crate::intake::debug_text(table@) + ": expected [A-Za-z_][A-Za-z0-9_]*"@,
{
}

/// The two sinks go by different names.
pub proof fn lemma_sinks_are_told_apart(
    vectors: &QdrantSink,
    rows: &PostgresSink,
    a: &str,
    b: &str,
)
    requires
        call_ensures(<QdrantSink as Sink>::name, (vectors,), a),
        call_ensures(<PostgresSink as Sink>::name, (rows,), b),
    ensures
        a@ == "qdrant"@,
        b@ == "postgres"@,
{
}

/// A target is skipped when it is there, holds a point and must not be
/// extended; otherwise it is written.
pub proof fn lemma_which_targets_are_skipped<C>(
    db: &ConnectedDB<C>,
    exists_there: bool,
    points_count: Option<u64>,
    extend: bool,
    r: bool,
)
    requires
        call_ensures(
            ConnectedDB::<C>::collection_exists_and_is_not_empty,
            (db, exists_there, points_count, extend),
            r,
        ),
    ensures
        r ==> exists_there && !extend && points_count is Some && points_count != Some(0u64),
        exists_there && !extend && points_count is Some && points_count != Some(0u64) ==> r,
{
}

/// A missing collection is created under its name, with its size and the
/// metric of the database; one that is there is left alone.
pub proof fn lemma_missing_collections_are_created<C>(
    db: &ConnectedDB<C>,
    exists_there: bool,
    collection_name: &str,
    dims: u64,
    r: Option<NewCollection>,
)
    requires
        call_ensures(
            ConnectedDB::<C>::get_collection,
            (db, exists_there, collection_name, dims),
            r,
        ),
    ensures
        exists_there ==> r is None,
        !exists_there ==> (r matches Some(new) && new.name@ == collection_name@ && new.dims == dims
            && new.distance == db.params.distance),
{
}

/// A location gives back the address and the key that it was made of.
pub proof fn lemma_locations_keep_their_parts(
    location: &Location,
    url: String,
    key: Option<String>,
    same: Location,
)
    requires
        call_ensures(Location::get_url, (location,), url),
        call_ensures(Location::get_api_key, (location,), key),
        call_ensures(Location::copy, (location,), same),
    ensures
        location matches Location::Local { url: u } ==> url@ == u@ && key is None,
        location matches Location::Remote { url: u, api_key } ==> url@ == u@ && (key matches Some(k)
            && k@ == api_key@),
        same == *location,
{
}

/// A local location has the address it was given.
pub proof fn lemma_local_locations(url: &str, r: Location)
    requires
        call_ensures(Location::new_local, (url,), r),
    ensures
        r matches Location::Local { url: u } && u@ == url@,
{
}

/// A database keeps the configuration that it was made with.
pub proof fn lemma_databases_keep_their_parameters<C>(
    location: Location,
    collection: String,
    distance: Distance,
    dims: u16,
    params: DatabaseParams,
    db: &QdrantDatabase<C>,
    given: &QdrantDatabase<C>,
    kept: &DatabaseParams,
    same: DatabaseParams,
)
    requires
        call_ensures(QdrantDatabase::<C>::new, (location, collection, distance, dims), *db),
        call_ensures(DatabaseParams::new, (location, collection, distance, dims), params),
        call_ensures(QdrantDatabase::<C>::new_with_database_params, (params,), *given),
        call_ensures(QdrantDatabase::<C>::params, (db,), kept),
        call_ensures(DatabaseParams::copy, (&params,), same),
    ensures
        params.location == location,
        params.collection == collection,
        params.distance == distance,
        params.dims == dims,
        *kept == params,
        *given == *db,
        same == params,
        *db is Disconnected,
{
}

/// The metrics go by different names.
pub proof fn lemma_metrics_are_told_apart(
    a: &Distance,
    b: &Distance,
    r: &'static str,
    s: &'static str,
)
    requires
        call_ensures(Distance::name, (a,), r),
        call_ensures(Distance::name, (b,), s),
    ensures
        r@ == s@ <==> *a == *b,
        *a == Distance::Cosine ==> r@ == "Cosine"@,
        *a == Distance::Euclid ==> r@ == "Euclid"@,
        *a == Distance::Dot ==> r@ == "Dot"@,
        *a == Distance::Manhattan ==> r@ == "Manhattan"@,
{
    reveal_strlit("Cosine");
    reveal_strlit("Euclid");
    reveal_strlit("Dot");
    reveal_strlit("Manhattan");
    reveal_strlit("UnknownDistance");
    if *a != *b {
        assert(r@.len() != s@.len() || r@[0] != s@[0]);
    }
}

/// The text of a connection error tells why there is no connection.
pub proof fn lemma_connection_errors_tell_why(e: &VectorDatabaseError, r: String)
    requires
        call_ensures(VectorDatabaseError::display, (e,), r),
    ensures
        e matches VectorDatabaseError::ConnectionCreationError(message) ==> r@
            == "Couldn't create connection to vectorDB: "@ + message@,
        *e is DatabaseIsConnected ==> r@
            == "Connection to the database has already been established"@,
        *e is EnvVariableError || *e is ApiKeyMissing ==> r@ == "Issues acquiring env vars"@,
{
}

/// A remote location has the address it was given and the key that was looked
/// up, whole. A missing file and a missing key are told apart.
pub proof fn lemma_remote_locations<
    D: FnOnce() -> Result<(), String>,
    L: FnOnce() -> Result<String, String>,
>(url: &str, load_dotenv: D, lookup: L, r: Result<Location, VectorDatabaseError>)
    requires
        call_ensures(Location::new_remote::<D, L>, (url, load_dotenv, lookup), r),
    ensures
        match r {
            Ok(location) => location matches Location::Remote { url: u, api_key } && u@ == url@
                && call_ensures(lookup, (), Ok::<String, String>(api_key)),
            Err(VectorDatabaseError::EnvVariableError(message)) => call_ensures(
                load_dotenv,
                (),
                Err::<(), String>(message),
            ),
            Err(VectorDatabaseError::ApiKeyMissing(message)) => call_ensures(
                lookup,
                (),
                Err::<String, String>(message),
            ),
            _ => false,
        },
{
}

/// Whether a client can be built for a location: from its whole address and its
/// key.
pub open spec fn can_be_built<C, B: FnOnce(String, Option<String>) -> Result<C, String>>(
    build: B,
    location: Location,
    built: Result<C, String>,
) -> bool {
    exists|url: String, key: Option<String>| #[trigger]
        call_ensures(build, (url, key), built) && match location {
            Location::Local { url: u } => url@ == u@ && key is None,
            Location::Remote { url: u, api_key } => url@ == u@ && (key matches Some(k) && k@
                == api_key@),
        }
}

/// Connecting builds the client for the location and keeps the configuration;
/// it is refused where there is a connection already.
pub proof fn lemma_connections<C, B: FnOnce(String, Option<String>) -> Result<C, String>>(
    db: QdrantDatabase<C>,
    build: B,
    r: Result<QdrantDatabase<C>, VectorDatabaseError>,
)
    requires
        call_ensures(QdrantDatabase::<C>::connect::<B>, (db, build), r),
    ensures
        db is Connected ==> r == Err::<QdrantDatabase<C>, VectorDatabaseError>(
            VectorDatabaseError::DatabaseIsConnected,
        ),
        db matches QdrantDatabase::Disconnected(params) ==> match r {
            Ok(connected) => connected matches QdrantDatabase::Connected(c) && c.params == params
                && can_be_built(build, params.location, Ok(c.client)),
            Err(e) => e matches VectorDatabaseError::ConnectionCreationError(message)
                && can_be_built::<C, B>(build, params.location, Err(message)),
        },
{
    if let QdrantDatabase::Disconnected(params) = db {
        let (url, key, built) = choose|
            url: String,
            key: Option<String>,
            built: Result<C, String>,
        | #[trigger]
            call_ensures(build, (url, key), built) && url@ == params.location.url_view()
                && crate::text::option_view(key) == params.location.key_view() && match built {
                Ok(client) => r == Ok::<_, VectorDatabaseError>(
                    QdrantDatabase::Connected(ConnectedDB { params, client }),
                ),
                Err(message) => r == Err::<QdrantDatabase<C>, _>(
                    VectorDatabaseError::ConnectionCreationError(message),
                ),
            };
        assert(can_be_built(build, params.location, built));
    }
}

} // verus!
