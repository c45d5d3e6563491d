//! Job descriptions and sequential pipeline execution.

/// An embedding job and its builder.
pub mod job;
/// Queue orchestration, caching, and sink dispatch.
pub mod job_queue;

use crate::backend::{backend_error_text, BackendError};
use crate::db::sink::SinkError;
use crate::inference::embedding_model::{embed_error_text, EmbedError};
use crate::intake::{intake_error_text, IntakeError};
use crate::text::lines::{join, joined, views};
use crate::text::owned;
pub use job::{Job, JobBuilder, Provider};
use vstd::prelude::*;
use vstd::string::*;

verus! {

/// Why a job or a queue run failed.
#[derive(Debug)]
pub enum JobError {
    /// The job's dataset has no data.
    NoData,
    /// A row couldn't be serialized as JSON.
    Serialize(String),
    /// A row isn't a valid Qdrant payload (it must be a JSON object).
    Payload(String),
    /// The job's embedder couldn't be created, for example without an OpenAI
    /// key.
    Embedder(BackendError),
    /// Embedding the job's rows failed.
    Embed {
        /// The job's collection.
        collection: String,
        /// The embedding error.
        source: EmbedError,
    },
    /// Reading the job's rows failed.
    Intake(IntakeError),
    /// A sink failed. Sinks run in order, so the ones in `written` succeeded
    /// and the rest were not attempted.
    Sink {
        /// The failing sink's name.
        sink: String,
        /// The job's collection.
        collection: String,
        /// Sinks written before the failure.
        written: Vec<String>,
        /// The sink's error.
        source: SinkError,
    },
}

/// The text of a job error.
pub open spec fn job_error_text(e: JobError) -> Seq<char> {
    match e {
        JobError::NoData => "the job's dataset has no data"@,
        JobError::Serialize(message) => "serializing a row: "@ + message@,
        JobError::Payload(message) => "building a Qdrant payload: "@ + message@,
        JobError::Embedder(err) => "creating the embedder: "@ + backend_error_text(
            err.status,
            err.message@,
        ),
        JobError::Embed { collection, source } => "embedding collection '"@ + collection@ + "': "@
            + embed_error_text(source),
        JobError::Intake(err) => intake_error_text(err),
        JobError::Sink { sink, collection, written, source } => "sink '"@ + sink@
            + "' failed for collection '"@ + collection@ + "'. Written: ["@ + joined(
            views(written@),
            ", "@,
        ) + "]; not written: '"@ + sink@
            + "' and any sink after it. Re-run to reconcile (writes are idempotent)."@,
    }
}

impl JobError {
    /// The text of this error.
    pub fn display(&self) -> (r: String)
        ensures
            r@ == job_error_text(*self),
    {
        match self {
            JobError::NoData => owned("the job's dataset has no data"),
            JobError::Serialize(message) => {
                let mut out = owned("serializing a row: ");
                out.append(message.as_str());
                out
            },
            JobError::Payload(message) => {
                let mut out = owned("building a Qdrant payload: ");
                out.append(message.as_str());
                out
            },
            JobError::Embedder(err) => {
                let mut out = owned("creating the embedder: ");
                let cause = err.display();
                out.append(cause.as_str());
                out
            },
            JobError::Embed { collection, source } => {
                let mut out = owned("embedding collection '");
                out.append(collection.as_str());
                out.append("': ");
                let cause = source.display();
                out.append(cause.as_str());
                out
            },
            JobError::Intake(err) => err.display(),
            JobError::Sink { sink, collection, written, source: _ } => {
                let mut out = owned("sink '");
                out.append(sink.as_str());
                out.append("' failed for collection '");
                out.append(collection.as_str());
                out.append("'. Written: [");
                let names = join(written, ", ");
                out.append(names.as_str());
                out.append("]; not written: '");
                out.append(sink.as_str());
                out.append("' and any sink after it. Re-run to reconcile (writes are idempotent).");
                out
            },
        }
    }
}

} // verus!
