//! Pipelines that turn structured datasets into vector embeddings.

/// Requests to chat and embedding models.
pub mod backend;
/// Caching for generated embeddings.
pub mod cache;
/// Vector database connections and pipeline sinks.
pub mod db;
/// Embedding clients.
pub mod inference;
/// Dataset types and source connectors.
pub mod intake;
/// Embedding jobs and queue execution.
pub mod jobs;
/// JSON values.
pub mod json;
/// What the library promises.
pub mod laws;
/// Lists.
pub mod list;
/// Typed records as vector points.
pub mod points;
/// Checks on the points of a portfolio.
pub mod portfolio;
/// Maps from strings to values.
pub mod store;
/// Text operations.
pub mod text;
/// Spans of time.
pub mod time;
/// Rewriting records with a chat model.
pub mod transform;
