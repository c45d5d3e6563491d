//! Persistence backends for embeddings and their source records.

/// JSON objects stored next to vectors.
pub mod payload;
/// Destinations for embedded data.
pub mod sink;
/// Qdrant connection and collection management.
pub mod vector_database;

pub use payload::Payload;
pub use sink::{PostgresSink, QdrantSink, Sink, SinkContext, SinkError};
pub use vector_database::{Distance, QdrantDatabase};
