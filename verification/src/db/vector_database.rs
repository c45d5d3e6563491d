//! Qdrant connection and collection management.

use super::payload::Payload;
use crate::list::reversed;
use crate::text::number::hex_of;
use crate::text::{option_view, owned};
use rand::Rng;
use vstd::prelude::*;
use vstd::string::*;

verus! {

/// A vector-distance metric.
#[derive(Debug, Clone, Copy, PartialEq, Eq, Structural)]
pub enum Distance {
    /// No metric.
    UnknownDistance,
    /// Cosine similarity.
    Cosine,
    /// Euclidean distance.
    Euclid,
    /// Dot product.
    Dot,
    /// Manhattan distance.
    Manhattan,
}

/// The name of a metric.
pub open spec fn distance_name(distance: Distance) -> Seq<char> {
    match distance {
        Distance::Cosine => "Cosine"@,
        Distance::Euclid => "Euclid"@,
        Distance::Manhattan => "Manhattan"@,
        Distance::Dot => "Dot"@,
        Distance::UnknownDistance => "UnknownDistance"@,
    }
}

impl Distance {
    /// The name of this metric.
    pub fn name(&self) -> (r: &'static str)
        ensures
            r@ == distance_name(*self),
    {
        match self {
            Distance::Cosine => "Cosine",
            Distance::Euclid => "Euclid",
            Distance::Manhattan => "Manhattan",
            Distance::Dot => "Dot",
            Distance::UnknownDistance => "UnknownDistance",
        }
    }
}

/// Errors raised while configuring or connecting to Qdrant.
#[derive(Debug)]
pub enum VectorDatabaseError {
    /// [`QdrantDatabase::connect`] was called on an already connected value.
    DatabaseIsConnected,
    /// The Qdrant client could not be constructed or contacted.
    ConnectionCreationError(String),
    /// A `.env` file could not be loaded.
    EnvVariableError(String),
    /// The `QDRANT_API_KEY` environment variable is missing.
    ApiKeyMissing(String),
}

/// The text of a database error.
pub open spec fn database_error_text(e: VectorDatabaseError) -> Seq<char> {
    match e {
        VectorDatabaseError::DatabaseIsConnected =>
            "Connection to the database has already been established"@,
        VectorDatabaseError::ConnectionCreationError(message) =>
            "Couldn't create connection to vectorDB: "@ + message@,
        VectorDatabaseError::EnvVariableError(_) => "Issues acquiring env vars"@,
        VectorDatabaseError::ApiKeyMissing(_) => "Issues acquiring env vars"@,
    }
}

impl VectorDatabaseError {
    /// The text of this error.
    pub fn display(&self) -> (r: String)
        ensures
            r@ == database_error_text(*self),
    {
        match self {
            VectorDatabaseError::DatabaseIsConnected => owned(
                "Connection to the database has already been established",
            ),
            VectorDatabaseError::ConnectionCreationError(message) => {
                let mut out = owned("Couldn't create connection to vectorDB: ");
                out.append(message.as_str());
                out
            },
            VectorDatabaseError::EnvVariableError(_) => owned("Issues acquiring env vars"),
            VectorDatabaseError::ApiKeyMissing(_) => owned("Issues acquiring env vars"),
        }
    }
}

/// Network location and credentials for a Qdrant deployment.
#[derive(Debug, Clone)]
pub enum Location {
    /// A Qdrant endpoint that requires no API key.
    Local {
        /// Base URL of the Qdrant gRPC endpoint.
        url: String,
    },
    /// A Qdrant endpoint authenticated by an API key.
    Remote {
        /// Base URL of the hosted Qdrant endpoint.
        url: String,
        /// API key sent when authenticating requests.
        api_key: String,
    },
}

impl Location {
    /// The endpoint.
    pub open spec fn url_view(self) -> Seq<char> {
        match self {
            Location::Local { url } => url@,
            Location::Remote { url, .. } => url@,
        }
    }

    /// The API key, if one is needed.
    pub open spec fn key_view(self) -> Option<Seq<char>> {
        match self {
            Location::Local { .. } => None,
            Location::Remote { api_key, .. } => Some(api_key@),
        }
    }

    /// Creates a remote location. `load_dotenv` loads a `.env` file, which has
    /// to be there, and `lookup` then reads `QDRANT_API_KEY`.
    pub fn new_remote<
        D: FnOnce() -> Result<(), String>,
        L: FnOnce() -> Result<String, String>,
    >(url: &str, load_dotenv: D, lookup: L) -> (r: Result<Location, VectorDatabaseError>)
        requires
            call_requires(load_dotenv, ()),
            forall|loaded: Result<(), String>| #[trigger]
                call_ensures(load_dotenv, (), loaded) && loaded is Ok ==> call_requires(lookup, ()),
        ensures
            exists|loaded: Result<(), String>| #[trigger]
                call_ensures(load_dotenv, (), loaded) && match loaded {
                    Err(message) => r == Err::<Location, _>(
                        VectorDatabaseError::EnvVariableError(message),
                    ),
                    Ok(_) => exists|key: Result<String, String>| #[trigger]
                        call_ensures(lookup, (), key) && match key {
                            Err(message) => r == Err::<Location, _>(
                                VectorDatabaseError::ApiKeyMissing(message),
                            ),
                            Ok(found) => r matches Ok(location) && location matches Location::Remote {
                                url: u,
                                api_key,
                            } && u@ == url@ && api_key == found,
                        },
                },
    {
        match load_dotenv() {
            Err(message) => Err(VectorDatabaseError::EnvVariableError(message)),
            Ok(_) => match lookup() {
                Err(message) => Err(VectorDatabaseError::ApiKeyMissing(message)),
                Ok(api_key) => Ok(Location::Remote { url: owned(url), api_key }),
            },
        }
    }

    /// Creates an unauthenticated location, typically for a local Qdrant
    /// server.
    pub fn new_local(url: &str) -> (r: Location)
        ensures
            r is Local,
            r.url_view() == url@,
    {
        Location::Local { url: owned(url) }
    }

    /// The endpoint.
    pub fn get_url(&self) -> (r: String)
        ensures
            r@ == self.url_view(),
    {
        match self {
            Location::Local { url } => url.clone(),
            Location::Remote { url, .. } => url.clone(),
        }
    }

    /// The API key, if one is needed.
    pub fn get_api_key(&self) -> (r: Option<String>)
        ensures
            match r {
                Some(key) => self.key_view() == Some(key@),
                None => self.key_view() is None,
            },
    {
        match self {
            Location::Local { .. } => None,
            Location::Remote { api_key, .. } => Some(api_key.clone()),
        }
    }

    /// A copy of this location.
    pub fn copy(&self) -> (r: Location)
        ensures
            r == *self,
    {
        match self {
            Location::Local { url } => Location::Local { url: url.clone() },
            Location::Remote { url, api_key } => Location::Remote {
                url: url.clone(),
                api_key: api_key.clone(),
            },
        }
    }
}

/// Qdrant collection configuration shared by connections and sinks.
#[derive(Debug, Clone)]
pub struct DatabaseParams {
    /// Qdrant endpoint and credentials.
    pub location: Location,
    /// Default collection name retained for compatibility.
    pub collection: String,
    /// Similarity metric for newly created collections.
    pub distance: Distance,
    /// Expected vector dimensions.
    pub dims: u16,
}

impl DatabaseParams {
    /// Creates Qdrant collection parameters.
    pub fn new(location: Location, collection: String, distance: Distance, dims: u16) -> (r:
        DatabaseParams)
        ensures
            r == (DatabaseParams { location, collection, distance, dims }),
    {
        DatabaseParams { location, collection, distance, dims }
    }

    /// A copy of this configuration.
    pub fn copy(&self) -> (r: DatabaseParams)
        ensures
            r == *self,
    {
        DatabaseParams {
            location: self.location.copy(),
            collection: self.collection.clone(),
            distance: self.distance,
            dims: self.dims,
        }
    }
}

/// An established client of type `C` and its collection configuration.
#[derive(Debug, Clone)]
pub struct ConnectedDB<C> {
    /// Configuration used to establish the client.
    pub params: DatabaseParams,
    /// Underlying client.
    pub client: C,
}

/// A collection to create.
#[derive(Debug)]
pub struct NewCollection {
    /// Its name.
    pub name: String,
    /// The size of its vectors.
    pub dims: u64,
    /// Its metric.
    pub distance: Distance,
}

/// A point to store.
#[derive(Debug)]
pub struct Point<V> {
    /// Its identifier.
    pub id: String,
    /// Its vector.
    pub vector: V,
    /// The data stored next to the vector.
    pub payload: Payload,
}

/// The text of the version 4 UUID made of 16 random bytes: lowercase
/// hexadecimal digits in groups of 8, 4, 4, 4 and 12, after the bits of the
/// version and the variant are set.
pub open spec fn uuid_text(bytes: Seq<u8>) -> Seq<char> {
    let marked = bytes.update(6, (0x40 + bytes[6] % 16) as u8).update(
        8,
        (0x80 + bytes[8] % 64) as u8,
    );
    let digits = hex_of(marked);
    digits.subrange(0, 8) + seq!['-'] + digits.subrange(8, 12) + seq!['-'] + digits.subrange(
        12,
        16,
    ) + seq!['-'] + digits.subrange(16, 20) + seq!['-'] + digits.subrange(20, 32)
}

/// Sixteen random bytes for the point at `_point`. Calls `Rng::random` of
/// `rand`'s generator.
///
/// Claims nothing of the bytes. The position only says which point they are
/// drawn for.
#[verifier::external_body]
pub(crate) fn random_bytes(_point: usize) -> (r: [u8; 16])
{
    rand::rng().random()
}

/// Whether some bytes were drawn for the point at a position.
pub closed spec fn is_drawn_for(point: usize, bytes: [u8; 16]) -> bool {
    call_ensures(random_bytes, (point,), bytes)
}

/// Bytes that were drawn for a point come from a draw for its position.
pub(crate) proof fn lemma_every_point_has_its_draw(point: usize, bytes: [u8; 16])
    requires
        is_drawn_for(point, bytes),
    ensures
        call_ensures(random_bytes, (point,), bytes),
{
}

/// Whether `id` is the UUID of bytes that were drawn for the point at a
/// position.
pub open spec fn has_own_id(point: usize, id: Seq<char>) -> bool {
    exists|bytes: [u8; 16]| #[trigger] is_drawn_for(point, bytes) && id == uuid_text(bytes@)
}

/// The UUID made of random bytes. Calls `uuid::Builder::from_random_bytes` and
/// the `Display` of the UUID.
///
/// Claims that this is the hyphenated lowercase text of a version 4 UUID whose
/// other bits are those of the bytes.
#[verifier::external_body]
fn uuid_from(bytes: [u8; 16]) -> (r: String)
    ensures
        r@ == uuid_text(bytes@),
{
    uuid::Builder::from_random_bytes(bytes).into_uuid().to_string()
}

impl<C> ConnectedDB<C> {
    /// Returns `true` when a collection is populated and extension is disabled,
    /// given whether it exists and how many points the server counts in it.
    ///
    /// This is used by the pipeline to skip an existing target.
    pub fn collection_exists_and_is_not_empty(
        &self,
        exists_there: bool,
        points_count: Option<u64>,
        extend: bool,
    ) -> (r: bool)
        ensures
            r == (exists_there && (points_count matches Some(n) && n > 0) && !extend),
    {
        if exists_there {
            let points: u64 = match points_count {
                Some(n) => n,
                None => 0,
            };
            points > 0 && !extend
        } else {
            false
        }
    }

    /// The collection to create: `collection_name` with `dims`, if it does not
    /// already exist.
    pub fn get_collection(&self, exists_there: bool, collection_name: &str, dims: u64) -> (r: Option<
        NewCollection,
    >)
        ensures
            exists_there <==> r is None,
            r matches Some(new) ==> new.name@ == collection_name@ && new.dims == dims && new.distance
                == self.params.distance,
    {
        if exists_there {
            None
        } else {
            Some(
                NewCollection {
                    name: owned(collection_name),
                    dims,
                    distance: self.params.distance,
                },
            )
        }
    }

    /// The points to store for embeddings and payloads, each under a random
    /// UUID.
    ///
    /// Embeddings and payloads are paired positionally; excess values in the
    /// longer input are ignored.
    pub fn upload_embedddings<V>(&self, embeddings: Vec<V>, payloads: Vec<Payload>) -> (points: Vec<
        Point<V>,
    >)
        ensures
            points@.len() == if embeddings@.len() <= payloads@.len() {
                embeddings@.len()
            } else {
                payloads@.len()
            },
            forall|i: int|
                0 <= i < points@.len() ==> (#[trigger] points@[i]).vector == embeddings@[i]
                    && points@[i].payload == payloads@[i] && is_uuid(points@[i].id@),
            forall|i: int|
                0 <= i < points@.len() ==> has_own_id(i as usize, (#[trigger] points@[i]).id@),
    {
        let count: usize = if embeddings.len() <= payloads.len() {
            embeddings.len()
        } else {
            payloads.len()
        };
        let ghost vectors = embeddings@;
        let ghost stored = payloads@;
        let mut embeddings = embeddings;
        let mut payloads = payloads;
        embeddings.truncate(count);
        payloads.truncate(count);
        let mut points: Vec<Point<V>> = Vec::new();
        let mut rest = reversed(payloads);
        proof {
            assert(stored.take(count as int).reverse() =~= stored.subrange(
                0,
                count as int,
            ).reverse());
        }
        for vector in it: embeddings
            invariant
                it.seq() == vectors.take(count as int),
                count <= vectors.len(),
                count <= stored.len(),
                points@.len() == it.index(),
                rest@ == stored.subrange(it.index(), count as int).reverse(),
                forall|i: int|
                    0 <= i < points@.len() ==> (#[trigger] points@[i]).vector == vectors[i]
                        && points@[i].payload == stored[i] && is_uuid(points@[i].id@),
                forall|i: int|
                    0 <= i < points@.len() ==> has_own_id(i as usize, (#[trigger] points@[i]).id@),
        {
            let ghost at = it.index();
            let point: usize = points.len();
            let bytes = random_bytes(point);
            let id = uuid_from(bytes);
            proof {
                assert(is_drawn_for(point, bytes));
                assert(has_own_id(point, id@));
                assert(is_uuid(id@));
            }
            match rest.pop() {
                Some(payload) => points.push(Point { id, vector, payload }),
                None => {},
            }
            proof {
                assert(rest@ =~= stored.subrange(at + 1, count as int).reverse());
            }
        }
        points
    }
}

/// Whether a text is a version 4 UUID.
pub open spec fn is_uuid(text: Seq<char>) -> bool {
    exists|bytes: Seq<u8>| bytes.len() == 16 && text == #[trigger] uuid_text(bytes)
}

/// State machine for a Qdrant database connection through a client of type `C`.
#[derive(Debug, Clone)]
pub enum QdrantDatabase<C> {
    /// Configuration has been supplied but no client has been created.
    Disconnected(DatabaseParams),
    /// A Qdrant client is ready for collection operations.
    Connected(ConnectedDB<C>),
}

impl<C> QdrantDatabase<C> {
    /// Creates a disconnected database from individual parameters.
    pub fn new(location: Location, collection: String, distance: Distance, dims: u16) -> (r:
        QdrantDatabase<C>)
        ensures
            r == QdrantDatabase::<C>::Disconnected(
                DatabaseParams { location, collection, distance, dims },
            ),
    {
        QdrantDatabase::Disconnected(DatabaseParams::new(location, collection, distance, dims))
    }

    /// Creates a disconnected database from a reusable configuration value.
    pub fn new_with_database_params(params: DatabaseParams) -> (r: QdrantDatabase<C>)
        ensures
            r == QdrantDatabase::<C>::Disconnected(params),
    {
        QdrantDatabase::Disconnected(params)
    }

    /// The configuration.
    pub open spec fn params_view(self) -> DatabaseParams {
        match self {
            QdrantDatabase::Disconnected(params) => params,
            QdrantDatabase::Connected(db) => db.params,
        }
    }

    /// The configuration.
    pub fn params(&self) -> (r: &DatabaseParams)
        ensures
            *r == self.params_view(),
    {
        match self {
            QdrantDatabase::Disconnected(params) => params,
            QdrantDatabase::Connected(db) => &db.params,
        }
    }

    /// Creates the client with `build`, from the endpoint and the API key of
    /// the location, and transitions to [`Self::Connected`].
    ///
    /// Calling this on an already connected value returns
    /// [`VectorDatabaseError::DatabaseIsConnected`].
    pub fn connect<B: FnOnce(String, Option<String>) -> Result<C, String>>(self, build: B) -> (r:
        Result<QdrantDatabase<C>, VectorDatabaseError>)
        requires
            forall|url: String, key: Option<String>| call_requires(build, (url, key)),
        ensures
            match self {
                QdrantDatabase::Connected(_) => r == Err::<QdrantDatabase<C>, _>(
                    VectorDatabaseError::DatabaseIsConnected,
                ),
                QdrantDatabase::Disconnected(params) => exists|
                    url: String,
                    key: Option<String>,
                    built: Result<C, String>,
                | #[trigger]
                    call_ensures(build, (url, key), built) && url@ == params.location.url_view()
                        && option_view(key) == params.location.key_view()
                        && match built {
                        Ok(client) => r == Ok::<_, VectorDatabaseError>(
                            QdrantDatabase::Connected(ConnectedDB { params, client }),
                        ),
                        Err(message) => r == Err::<QdrantDatabase<C>, _>(
                            VectorDatabaseError::ConnectionCreationError(message),
                        ),
                    },
            },
    {
        match self {
            QdrantDatabase::Disconnected(params) => {
                let url = params.location.get_url();
                let key = params.location.get_api_key();
                match build(url, key) {
                    Ok(client) => Ok(QdrantDatabase::Connected(ConnectedDB { params, client })),
                    Err(message) => Err(VectorDatabaseError::ConnectionCreationError(message)),
                }
            },
            QdrantDatabase::Connected(_) => Err(VectorDatabaseError::DatabaseIsConnected),
        }
    }
}

} // verus!
