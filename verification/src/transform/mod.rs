//! Rewrite records with a chat model before they are embedded: summaries,
//! keywords, translations, structured extraction.

/// Completed outputs and the file that holds them.
pub mod cache;
/// What a transform asks for.
pub mod definition;
/// Errors.
pub mod error;
/// The lines of the file.
pub mod line;
/// Where a chat model is.
pub mod llm;
/// What the order of the replies can't change.
pub mod order;
/// Reports.
pub mod report;

/// When a request is sent again.
pub mod retry;
/// What a run does with each reply.
pub mod run;

pub use definition::Transform;
pub use error::{
    CompletionCacheError, CompletionError, ErrorClass, FatalCause, InputError, RunError,
};
pub use llm::Llm;
pub use report::{Counts, Outcome, Progress, Report};
pub use run::{Complete, Run};
