//! What the library promises: each law relates what an operation is given to
//! what it gives.

/// What the caches remember.
pub mod caches;
/// How files and queries become rows, and rows become datasets.
pub mod intake;
/// What becomes of a job.
pub mod jobs;
/// JSON values.
pub mod json;
/// Clients, waits and embedding in batches.
pub mod models;
/// What becomes of a record's fields.
pub mod points;
/// When the points of a portfolio pass.
pub mod portfolio;
/// Replies and what is asked of them.
pub mod replies;
/// Requests and replies.
pub mod requests;
/// What a run does with every record and every reply.
pub mod runs;
/// What is stored of embeddings and rows.
pub mod storage;
/// Text operations.
pub mod texts;
