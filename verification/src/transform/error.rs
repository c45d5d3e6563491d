//! Why a record, or a whole run, failed.

use crate::backend::{backend_error_text, BackendError, ErrorKind};
use crate::text::number::{decimal, to_decimal};
use crate::text::owned;
use vstd::prelude::*;
use vstd::string::*;

verus! {

/// What kind of failure a [`CompletionError`] is, which decides what a run
/// does with it.
#[derive(Debug, Clone, Copy, PartialEq, Eq, Structural)]
pub enum ErrorClass {
    /// Rate limits, server errors, timeouts, connection failures. Retried.
    Retryable,
    /// Authentication failures, unknown models, rejected requests. Not
    /// retried, and enough of them at the start of a run open the circuit
    /// breaker.
    Fatal,
    /// A problem with this record only: an empty reply, a reply that doesn't
    /// parse, or an input that can't be rendered. Not retried, and it never
    /// opens the circuit breaker.
    Record,
}

/// A record that couldn't be serialized as JSON for the default input.
#[derive(Debug)]
pub struct InputError {
    /// The serialization error.
    pub message: String,
}

/// Why one record didn't get an output.
#[derive(Debug)]
pub enum CompletionError {
    /// The backend failed, after any retries.
    Backend(BackendError),
    /// The model replied with nothing but whitespace.
    EmptyResponse,
    /// The reply isn't JSON of the transform's output type.
    Parse {
        /// The model's reply, as received.
        raw: String,
        /// The parse error.
        source: String,
    },
    /// The record couldn't be rendered as the transform's input.
    Input(InputError),
}

/// The class of a completion error.
pub open spec fn class_of(e: CompletionError) -> ErrorClass {
    match e {
        CompletionError::Backend(err) => match err.kind {
            ErrorKind::Retryable => ErrorClass::Retryable,
            ErrorKind::Fatal => ErrorClass::Fatal,
        },
        _ => ErrorClass::Record,
    }
}

/// The text of a completion error.
pub open spec fn completion_error_text(e: CompletionError) -> Seq<char> {
    match e {
        CompletionError::Backend(err) => "backend request failed: "@ + backend_error_text(
            err.status,
            err.message@,
        ),
        CompletionError::EmptyResponse => "the model returned an empty response"@,
        CompletionError::Parse { raw, source } =>
            "could not parse the response as the output type: "@ + source@,
        CompletionError::Input(err) => "could not render the record as input: "@ + err.message@,
    }
}

impl CompletionError {
    /// Whether the failure is retryable, fatal, or specific to this record.
    pub fn class(&self) -> (r: ErrorClass)
        ensures
            r == class_of(*self),
    {
        match self {
            CompletionError::Backend(err) => match err.kind {
                ErrorKind::Retryable => ErrorClass::Retryable,
                ErrorKind::Fatal => ErrorClass::Fatal,
            },
            CompletionError::EmptyResponse => ErrorClass::Record,
            CompletionError::Parse { .. } => ErrorClass::Record,
            CompletionError::Input(_) => ErrorClass::Record,
        }
    }

    /// The text of this error.
    pub fn display(&self) -> (r: String)
        ensures
            r@ == completion_error_text(*self),
    {
        match self {
            CompletionError::Backend(err) => {
                let mut out = owned("backend request failed: ");
                let inner = err.display();
                out.append(inner.as_str());
                out
            },
            CompletionError::EmptyResponse => owned("the model returned an empty response"),
            CompletionError::Parse { raw: _, source } => {
                let mut out = owned("could not parse the response as the output type: ");
                out.append(source.as_str());
                out
            },
            CompletionError::Input(err) => {
                let mut out = owned("could not render the record as input: ");
                out.append(err.message.as_str());
                out
            },
        }
    }
}

/// The completion cache file couldn't be read or written.
#[derive(Debug)]
pub struct CompletionCacheError {
    /// The cache file.
    pub path: String,
    /// The I/O error.
    pub source: String,
}

/// The text of a completion cache error.
pub open spec fn cache_error_text(e: CompletionCacheError) -> Seq<char> {
    "completion cache "@ + e.path@ + ": "@ + e.source@
}

impl CompletionCacheError {
    /// The text of this error.
    pub fn display(&self) -> (r: String)
        ensures
            r@ == cache_error_text(*self),
    {
        let mut out = owned("completion cache ");
        out.append(self.path.as_str());
        out.append(": ");
        out.append(self.source.as_str());
        out
    }
}

/// Why a run stopped before every record had an outcome.
#[derive(Debug)]
pub enum FatalCause {
    /// The first requests of the run all failed with fatal errors, so the
    /// rest weren't sent.
    CircuitOpen {
        /// How many fatal failures in a row opened the circuit.
        failures: usize,
        /// The last of them.
        last: BackendError,
    },
    /// The completion cache couldn't be read or written.
    Cache(CompletionCacheError),
    /// The run is misconfigured, for example a transform without an apply
    /// step passed to a run.
    Config(String),
}

/// The text of a fatal cause.
pub open spec fn fatal_cause_text(cause: FatalCause) -> Seq<char> {
    match cause {
        FatalCause::CircuitOpen { failures, last } => decimal(failures as nat)
            + " requests failed with fatal errors before any succeeded; last error: "@
            + backend_error_text(last.status, last.message@),
        FatalCause::Cache(err) => cache_error_text(err),
        FatalCause::Config(message) => "invalid configuration: "@ + message@,
    }
}

impl FatalCause {
    /// The text of this cause.
    pub fn display(&self) -> (r: String)
        ensures
            r@ == fatal_cause_text(*self),
    {
        match self {
            FatalCause::CircuitOpen { failures, last } => {
                let mut out = to_decimal(*failures as u128);
                out.append(" requests failed with fatal errors before any succeeded; last error: ");
                let inner = last.display();
                out.append(inner.as_str());
                out
            },
            FatalCause::Cache(err) => err.display(),
            FatalCause::Config(message) => {
                let mut out = owned("invalid configuration: ");
                out.append(message.as_str());
                out
            },
        }
    }
}

/// A run that failed as a whole.
#[derive(Debug)]
pub enum RunError {
    /// The run stopped early. Records completed before the error keep their
    /// outputs, and completed outputs are in the cache when one is set.
    Fatal {
        /// Records that got an output before the run stopped.
        completed: usize,
        /// Why the run stopped.
        source: FatalCause,
    },
    /// Returned by [`Report::ensure_all`](super::Report::ensure_all) when some
    /// records failed.
    Incomplete {
        /// Records that failed.
        failed: usize,
        /// Records in the run.
        total: usize,
        /// The index of the first failed record.
        first_index: usize,
        /// The first failure's message.
        first_error: String,
    },
}

/// The text of a run error.
pub open spec fn run_error_text(e: RunError) -> Seq<char> {
    match e {
        RunError::Fatal { completed, source } => "run stopped after "@ + decimal(completed as nat)
            + " completed records: "@ + fatal_cause_text(source),
        RunError::Incomplete { failed, total, first_index, first_error } => decimal(failed as nat)
            + " of "@ + decimal(total as nat) + " records failed; first failure (record "@
            + decimal(first_index as nat) + "): "@ + first_error@,
    }
}

impl RunError {
    /// The text of this error.
    pub fn display(&self) -> (r: String)
        ensures
            r@ == run_error_text(*self),
    {
        match self {
            RunError::Fatal { completed, source } => {
                let mut out = owned("run stopped after ");
                let count = to_decimal(*completed as u128);
                out.append(count.as_str());
                out.append(" completed records: ");
                let cause = source.display();
                out.append(cause.as_str());
                out
            },
            RunError::Incomplete { failed, total, first_index, first_error } => {
                let mut out = to_decimal(*failed as u128);
                out.append(" of ");
                let all = to_decimal(*total as u128);
                out.append(all.as_str());
                out.append(" records failed; first failure (record ");
                let at = to_decimal(*first_index as u128);
                out.append(at.as_str());
                out.append("): ");
                out.append(first_error.as_str());
                out
            },
        }
    }
}

} // verus!
