//! Where a chat model is.

use super::definition::Transform;
use super::run::{Complete, Run};
use crate::backend::ollama::DEFAULT_OLLAMA_URL;
use crate::backend::openai::{missing_key_message, usable, OPENAI_BASE_URL};
use crate::backend::{
    BackendError, BackendIdentity, ChatBackend, ErrorKind, OllamaClient, OpenAiCompatClient,
    DEFAULT_TIMEOUT_SECS,
};
use vstd::prelude::*;
use vstd::string::*;

verus! {

/// A chat model to run [`Transform`]s with.
///
/// `Llm` only says where the model is; what to ask lives in the
/// [`Transform`]. One `Llm` can run any number of transforms.
#[derive(Debug, Clone)]
pub struct Llm<B> {
    /// The model.
    pub backend: B,
}

impl Llm<OllamaClient> {
    /// An Ollama model, at `ollama_url`, the value of the `OLLAMA_URL`
    /// variable, or at `http://127.0.0.1:11434`.
    pub fn ollama(model: &str, ollama_url: Option<&str>) -> (r: Self)
        ensures
            r.backend.base_url@ == match ollama_url {
                Some(url) => url@,
                None => DEFAULT_OLLAMA_URL@,
            },
            r.backend.model@ == model@,
            r.backend.timeout.nanos == DEFAULT_TIMEOUT_SECS * 1_000_000_000,
    {
        Llm { backend: OllamaClient::new(model, ollama_url) }
    }
}

impl Llm<OpenAiCompatClient> {
    /// An OpenAI model, with the key from `OPENAI_API_KEY`; see
    /// [`OpenAiCompatClient::openai`].
    pub fn openai<L: Fn(bool) -> Option<String>, D: FnOnce() -> ()>(
        model: &str,
        lookup: L,
        load_dotenv: D,
    ) -> (r: Result<Self, BackendError>)
        requires
            call_requires(lookup, (false,)),
            forall|first: Option<String>| #[trigger]
                call_ensures(lookup, (false,), first) && !usable(first) ==> call_requires(
                    load_dotenv,
                    (),
                ),
            call_ensures(load_dotenv, (), ()) ==> call_requires(lookup, (true,)),
        ensures
            exists|first: Option<String>| #[trigger]
                call_ensures(lookup, (false,), first) && if usable(first) {
                    r matches Ok(llm) && llm.backend.api_key == first
                } else {
                    &&& call_ensures(load_dotenv, (), ())
                    &&& exists|second: Option<String>| #[trigger]
                        call_ensures(lookup, (true,), second) && if usable(second) {
                            r matches Ok(llm) && llm.backend.api_key == second
                        } else {
                            r matches Err(e) && e.kind == ErrorKind::Fatal && e.status is None
                                && e.message@ == missing_key_message() && e.retry_after is None
                        }
                },
            r matches Ok(llm) ==> llm.backend.base_url@ == OPENAI_BASE_URL@ && llm.backend.model@
                == model@ && llm.backend.timeout.nanos == DEFAULT_TIMEOUT_SECS * 1_000_000_000,
    {
        match OpenAiCompatClient::openai(model, lookup, load_dotenv) {
            Ok(backend) => Ok(Llm { backend }),
            Err(e) => Err(e),
        }
    }

    /// A model on any OpenAI-compatible server, such as vLLM or LM Studio.
    pub fn openai_compatible(base_url: &str, model: &str, api_key: Option<String>) -> (r: Self)
        ensures
            r.backend.base_url@ == base_url@,
            r.backend.model@ == model@,
            r.backend.api_key == api_key,
            r.backend.timeout.nanos == DEFAULT_TIMEOUT_SECS * 1_000_000_000,
    {
        Llm { backend: OpenAiCompatClient::new(base_url, model, api_key) }
    }
}

impl<B> Llm<B> {
    /// Any chat backend, such as a configured [`OllamaClient`].
    pub fn from_backend(backend: B) -> (r: Self)
        ensures
            r.backend == backend,
    {
        Llm { backend }
    }

    /// The provider, endpoint and model in use.
    pub fn identity(&self) -> (r: BackendIdentity) where B: ChatBackend
        ensures
            call_ensures(<B as ChatBackend>::identity, (&self.backend,), r),
    {
        self.backend.identity()
    }

    /// A run of `transform` that applies each output to its record.
    ///
    /// Every record gets an [`Outcome`](super::Outcome), in record order: a
    /// record whose request fails is left unchanged and reported, and doesn't
    /// affect the others.
    ///
    /// The run as a whole fails only when it can't go on: the transform has no
    /// [`apply`](Transform::apply) step, the cache can't be read or written, or
    /// the circuit breaker opens. Records completed before that keep their
    /// outputs, and the error says how many there were.
    pub fn run<'a, I, X, A>(&self, transform: &'a Transform<I, X, A>) -> (r: Run<'a, I, X, A>)
        ensures
            r.transform == transform,
            r.options.concurrency == 1,
            r.options.retries == 2,
            r.options.backoff.nanos == 500 * 1_000_000,
            r.options.circuit_breaker == 3,
            r.options.cache is None,
    {
        Run::new(transform)
    }

    /// A run of `transform` that returns the outputs instead of applying them:
    /// one result per record, in record order.
    ///
    /// Takes the same options as [`run`](Self::run), and fails as a whole in
    /// the same cases, except that no [`apply`](Transform::apply) step is
    /// needed.
    pub fn complete<'a, I, X, A>(&self, transform: &'a Transform<I, X, A>) -> (r: Complete<
        'a,
        I,
        X,
        A,
    >)
        ensures
            r.transform == transform,
            r.options.concurrency == 1,
            r.options.retries == 2,
            r.options.backoff.nanos == 500 * 1_000_000,
            r.options.circuit_breaker == 3,
            r.options.cache is None,
    {
        Complete::new(transform)
    }
}

} // verus!
