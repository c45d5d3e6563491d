//! Embedding clients, and chats about one record at a time.

/// Chats about one record at a time.
pub mod completion_model;
/// Embedding generation.
pub mod embedding_model;

pub use completion_model::CompletionModel;
pub use embedding_model::{EmbedError, EmbedSession, EmbeddingProvider};
