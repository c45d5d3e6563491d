//! Embedding texts in batches, one vector per text, in text order.

use crate::backend::ollama::DEFAULT_OLLAMA_URL;
use crate::backend::openai::{missing_key_message, usable, OPENAI_BASE_URL};
use crate::backend::{
    backend_error_text, BackendError, BackendIdentity, EmbedBackend, ErrorKind, OllamaClient,
    OpenAiCompatClient, DEFAULT_TIMEOUT_SECS,
};
use crate::intake::dataset::{is_serialized_to, serialize_all, serialized, DataSet};
use crate::text::number::{decimal, to_decimal};
use crate::text::owned;
use vstd::prelude::*;
use vstd::string::*;

verus! {

/// How many inputs go in one embedding request.
pub const BATCH_SIZE: usize = 50;

/// Why an embedding call failed.
#[derive(Debug)]
pub enum EmbedError {
    /// The dataset's `data` is `None`.
    NoData,
    /// A record couldn't be serialized as JSON.
    Serialize {
        /// The record's position in the input.
        index: usize,
        /// The serialization error.
        message: String,
    },
    /// The backend failed on an input, even when sent on its own.
    Backend {
        /// The input's position.
        index: usize,
        /// The backend's error.
        source: BackendError,
    },
    /// The backend returned a different number of vectors than inputs.
    CountMismatch {
        /// Inputs sent.
        expected: usize,
        /// Vectors received.
        got: usize,
    },
}

/// The text of an embedding error.
pub open spec fn embed_error_text(e: EmbedError) -> Seq<char> {
    match e {
        EmbedError::NoData => "the dataset has no data to embed"@,
        EmbedError::Serialize { index, message } => "could not serialize record "@ + decimal(
            index as nat,
        ) + " as JSON: "@ + message@,
        EmbedError::Backend { index, source } => "embedding input "@ + decimal(index as nat)
            + " failed: "@ + backend_error_text(source.status, source.message@),
        EmbedError::CountMismatch { expected, got } => "the backend returned "@ + decimal(
            got as nat,
        ) + " vectors for "@ + decimal(expected as nat) + " inputs"@,
    }
}

impl EmbedError {
    /// The text of this error.
    pub fn display(&self) -> (r: String)
        ensures
            r@ == embed_error_text(*self),
    {
        match self {
            EmbedError::NoData => owned("the dataset has no data to embed"),
            EmbedError::Serialize { index, message } => {
                let mut out = owned("could not serialize record ");
                let at = to_decimal(*index as u128);
                out.append(at.as_str());
                out.append(" as JSON: ");
                out.append(message.as_str());
                out
            },
            EmbedError::Backend { index, source } => {
                let mut out = owned("embedding input ");
                let at = to_decimal(*index as u128);
                out.append(at.as_str());
                out.append(" failed: ");
                let cause = source.display();
                out.append(cause.as_str());
                out
            },
            EmbedError::CountMismatch { expected, got } => {
                let mut out = owned("the backend returned ");
                let received = to_decimal(*got as u128);
                out.append(received.as_str());
                out.append(" vectors for ");
                let sent = to_decimal(*expected as u128);
                out.append(sent.as_str());
                out.append(" inputs");
                out
            },
        }
    }
}

/// The end of the batch that the input at `i` is in.
pub open spec fn batch_end(i: nat, total: nat) -> nat {
    let end = (i / BATCH_SIZE as nat + 1) * BATCH_SIZE as nat;
    if end <= total {
        end
    } else {
        total
    }
}

/// How many batches some texts take.
pub open spec fn batches(texts: nat) -> nat {
    (texts + BATCH_SIZE as nat - 1) as nat / BATCH_SIZE as nat
}

/// Embedding `total` texts: the vectors so far, and how to go on.
///
/// Texts are sent in batches of 50. When a backend rejects a batch, its texts
/// are sent one at a time before giving up, since some servers reject
/// multi-input requests that they accept one by one.
#[derive(Debug)]
pub struct EmbedSession<V> {
    /// How many texts there are.
    pub total: usize,
    /// The vectors of the first texts, in order.
    pub embeddings: Vec<V>,
    /// Texts before this position are sent one at a time.
    pub single_until: usize,
}

impl<V> EmbedSession<V> {
    /// Whether the texts are sent in whole batches, but for one that is being
    /// sent one at a time.
    pub open spec fn wf(&self) -> bool {
        &&& self.embeddings@.len() <= self.total
        &&& self.single_until <= self.total
        &&& if self.embeddings@.len() < self.single_until {
            self.single_until == batch_end(self.embeddings@.len(), self.total as nat)
        } else {
            self.embeddings@.len() == self.total || self.embeddings@.len() % BATCH_SIZE as nat == 0
        }
    }

    /// Whether every text has its vector.
    pub open spec fn is_done(&self) -> bool {
        self.embeddings@.len() == self.total
    }

    /// The texts of the next request: where they begin, and where they end.
    pub open spec fn next_range(&self) -> (nat, nat) {
        let from = self.embeddings@.len();
        if from < self.single_until {
            (from, from + 1)
        } else {
            (from, batch_end(from, self.total as nat))
        }
    }

    /// How many more requests there can be: one per text that has no vector yet,
    /// and one per batch that was not sent yet.
    pub open spec fn requests_left(&self) -> nat {
        let unsent = if self.embeddings@.len() < self.single_until {
            self.total - self.single_until
        } else {
            self.total - self.embeddings@.len()
        };
        ((self.total - self.embeddings@.len()) + batches(unsent as nat)) as nat
    }

    /// Begins with `total` texts.
    pub fn new(total: usize) -> (r: EmbedSession<V>)
        ensures
            r.wf(),
            r.total == total,
            r.embeddings@.len() == 0,
            r.single_until == 0,
    {
        EmbedSession { total, embeddings: Vec::new(), single_until: 0 }
    }

    /// The texts to send next, as a range of positions; `None` when every text
    /// has its vector.
    pub fn next(&self) -> (r: Option<(usize, usize)>)
        requires
            self.wf(),
        ensures
            self.is_done() <==> r is None,
            r matches Some((from, to)) ==> from == self.next_range().0 && to == self.next_range().1
                && from < to <= self.total && to - from <= BATCH_SIZE,
    {
        let from: usize = self.embeddings.len();
        if from == self.total {
            return None;
        }
        if from < self.single_until {
            return Some((from, from + 1));
        }
        proof {
            assert(from as nat / 50 * 50 == from as nat);
        }
        let to: usize = if self.total - from < BATCH_SIZE {
            self.total
        } else {
            from + BATCH_SIZE
        };
        Some((from, to))
    }

    /// Takes the reply to the request for [`next`](Self::next).
    ///
    /// One vector per text is kept. Anything else has a batch sent one text at
    /// a time, and is an error for a single text.
    pub fn on_reply(&mut self, reply: Result<Vec<V>, BackendError>) -> (r: Result<(), EmbedError>)
        requires
            old(self).wf(),
            !old(self).is_done(),
        ensures
            final(self).wf(),
            final(self).total == old(self).total,
            ({
                let (from, to) = old(self).next_range();
                let fits = reply matches Ok(vectors) && vectors@.len() == to - from;
                if fits {
                    &&& r is Ok
                    &&& final(self).embeddings@ == old(self).embeddings@ + reply->Ok_0@
                    &&& final(self).single_until == old(self).single_until
                } else if to - from == 1 {
                    &&& *final(self) == *old(self)
                    &&& match reply {
                        Ok(vectors) => r == Err::<(), _>(
                            EmbedError::CountMismatch { expected: 1, got: vectors@.len() as usize },
                        ),
                        Err(err) => r == Err::<(), _>(
                            EmbedError::Backend { index: from as usize, source: err },
                        ),
                    }
                } else {
                    &&& r is Ok
                    &&& final(self).embeddings@ == old(self).embeddings@
                    &&& final(self).single_until == to
                }
            }),
            r is Ok ==> final(self).requests_left() < old(self).requests_left(),
    {
        let (from, to) = match self.next() {
            Some(range) => range,
            None => {
                return Ok(());
            },
        };
        let sent: usize = to - from;
        proof {
            lemma_batch_end(from as nat, self.total as nat);
        }
        match reply {
            Ok(vectors) => {
                if vectors.len() == sent {
                    let ghost before = self.embeddings@;
                    let mut vectors = vectors;
                    self.embeddings.append(&mut vectors);
                    proof {
                        assert(self.embeddings@.len() == to);
                        lemma_after_batch(from as nat, to as nat, self.total as nat);
                    }
                    return Ok(());
                }
                if sent == 1 {
                    return Err(EmbedError::CountMismatch { expected: 1, got: vectors.len() });
                }
            },
            Err(err) => {
                if sent == 1 {
                    return Err(EmbedError::Backend { index: from, source: err });
                }
            },
        }
        self.single_until = to;
        Ok(())
    }

    /// The vectors, once every text has its own: one per text, in text order.
    pub fn finish(self) -> (r: Vec<V>)
        requires
            self.wf(),
            self.is_done(),
        ensures
            r@ == self.embeddings@,
            r@.len() == self.total,
    {
        self.embeddings
    }
}

/// One vector per text, in text order: when the vectors so far are those of the
/// first texts and a reply holds those of the texts it was asked for, the
/// vectors after it are those of the first texts again. `vector_of` says which
/// vector belongs to a position.
pub proof fn lemma_vectors_in_text_order<V>(
    before: Seq<V>,
    reply: Seq<V>,
    vector_of: spec_fn(int) -> V,
)
    requires
        forall|i: int| 0 <= i < before.len() ==> #[trigger] before[i] == vector_of(i),
        forall|k: int|
            0 <= k < reply.len() ==> #[trigger] reply[k] == vector_of(before.len() + k),
    ensures
        forall|i: int|
            0 <= i < (before + reply).len() ==> #[trigger] (before + reply)[i] == vector_of(i),
{
    assert forall|i: int| 0 <= i < (before + reply).len() implies #[trigger] (before + reply)[i]
        == vector_of(i) by {
        if i >= before.len() {
            assert((before + reply)[i] == reply[i - before.len()]);
        }
    }
}

/// However the backend replies, a session sends at most one request per text
/// and one per batch. `states` are the states of a session from its start, each
/// after one more reply.
pub proof fn lemma_requests_are_limited<V>(states: Seq<EmbedSession<V>>)
    requires
        states.len() > 0,
        states[0].wf(),
        states[0].embeddings@.len() == 0,
        states[0].single_until == 0,
        forall|i: int|
            0 <= i < states.len() - 1 ==> states[i + 1].requests_left() < (
            #[trigger] states[i]).requests_left(),
    ensures
        states.len() - 1 <= states[0].total + batches(states[0].total as nat),
{
    lemma_fewer_requests_left(states, states.len() - 1);
}

/// After `n` replies, at least `n` requests fewer are left.
proof fn lemma_fewer_requests_left<V>(states: Seq<EmbedSession<V>>, n: int)
    requires
        0 <= n < states.len(),
        forall|i: int|
            0 <= i < states.len() - 1 ==> states[i + 1].requests_left() < (
            #[trigger] states[i]).requests_left(),
    ensures
        states[n].requests_left() + n <= states[0].requests_left(),
    decreases n,
{
    if n > 0 {
        lemma_fewer_requests_left(states, n - 1);
        assert(states[n - 1 + 1].requests_left() < states[n - 1].requests_left());
    }
}

/// A batch ends after the input it is for.
proof fn lemma_batch_end(i: nat, total: nat)
    requires
        i < total,
    ensures
        i < batch_end(i, total) <= total,
        batch_end(i, total) == total || batch_end(i, total) % BATCH_SIZE as nat == 0,
        i % BATCH_SIZE as nat == 0 ==> batch_end(i, total) <= i + BATCH_SIZE,
{
    let q = i / 50;
    assert((q + 1) * 50 % 50 == 0);
}

/// Where the next request begins lies in the same batch, or begins another.
proof fn lemma_after_batch(from: nat, to: nat, total: nat)
    requires
        from < to <= total,
    ensures
        to == from + 1 && to < batch_end(from, total) ==> batch_end(to, total) == batch_end(
            from,
            total,
        ),
{
    if to == from + 1 && to < batch_end(from, total) {
        let q = from / 50;
        assert(to < (q + 1) * 50);
        assert(to / 50 == q);
    }
}

/// Embeds texts or records with an embedding model, one vector per input, in
/// input order.
#[derive(Debug, Clone)]
pub struct EmbeddingProvider<B> {
    /// The model.
    pub backend: B,
}

impl EmbeddingProvider<OllamaClient> {
    /// An Ollama model, at `ollama_url`, the value of the `OLLAMA_URL`
    /// variable, or at `http://127.0.0.1:11434`.
    pub fn new(model: &str, ollama_url: Option<&str>) -> (r: Self)
        ensures
            r.backend.base_url@ == match ollama_url {
                Some(url) => url@,
                None => DEFAULT_OLLAMA_URL@,
            },
            r.backend.model@ == model@,
            r.backend.timeout.nanos == DEFAULT_TIMEOUT_SECS * 1_000_000_000,
    {
        EmbeddingProvider { backend: OllamaClient::new(model, ollama_url) }
    }
}

impl EmbeddingProvider<OpenAiCompatClient> {
    /// An OpenAI model, with the key from `OPENAI_API_KEY`; see
    /// [`OpenAiCompatClient::openai`].
    pub fn openai<L: Fn(bool) -> Option<String>, D: FnOnce() -> ()>(
        model: &str,
        lookup: L,
        load_dotenv: D,
    ) -> (r: Result<Self, BackendError>)
        requires
            call_requires(lookup, (false,)),
            forall|first: Option<String>| #[trigger]
                call_ensures(lookup, (false,), first) && !usable(first) ==> call_requires(
                    load_dotenv,
                    (),
                ),
            call_ensures(load_dotenv, (), ()) ==> call_requires(lookup, (true,)),
        ensures
            exists|first: Option<String>| #[trigger]
                call_ensures(lookup, (false,), first) && if usable(first) {
                    r matches Ok(provider) && provider.backend.api_key == first
                } else {
                    &&& call_ensures(load_dotenv, (), ())
                    &&& exists|second: Option<String>| #[trigger]
                        call_ensures(lookup, (true,), second) && if usable(second) {
                            r matches Ok(provider) && provider.backend.api_key == second
                        } else {
                            r matches Err(e) && e.kind == ErrorKind::Fatal && e.status is None
                                && e.message@ == missing_key_message() && e.retry_after is None
                        }
                },
            r matches Ok(provider) ==> provider.backend.base_url@ == OPENAI_BASE_URL@
                && provider.backend.model@ == model@ && provider.backend.timeout.nanos
                == DEFAULT_TIMEOUT_SECS * 1_000_000_000,
    {
        match OpenAiCompatClient::openai(model, lookup, load_dotenv) {
            Ok(backend) => Ok(EmbeddingProvider { backend }),
            Err(e) => Err(e),
        }
    }

    /// A model on any OpenAI-compatible server.
    pub fn openai_compatible(base_url: &str, model: &str, api_key: Option<String>) -> (r: Self)
        ensures
            r.backend.base_url@ == base_url@,
            r.backend.model@ == model@,
            r.backend.api_key == api_key,
            r.backend.timeout.nanos == DEFAULT_TIMEOUT_SECS * 1_000_000_000,
    {
        EmbeddingProvider { backend: OpenAiCompatClient::new(base_url, model, api_key) }
    }
}

impl<B> EmbeddingProvider<B> {
    /// Any embedding backend.
    pub fn from_backend(backend: B) -> (r: Self)
        ensures
            r.backend == backend,
    {
        EmbeddingProvider { backend }
    }

    /// The provider, endpoint and model in use.
    pub fn identity(&self) -> (r: BackendIdentity) where B: EmbedBackend
        ensures
            call_ensures(<B as EmbedBackend>::identity, (&self.backend,), r),
    {
        self.backend.identity()
    }

    /// Begins embedding `texts`, each exactly as given.
    pub fn embed_texts<V>(&self, texts: &Vec<String>) -> (r: EmbedSession<V>)
        ensures
            r.wf(),
            r.total == texts@.len(),
            r.embeddings@.len() == 0,
            r.single_until == 0,
    {
        EmbedSession::new(texts.len())
    }

    /// The texts that stand for a dataset's records: each record's JSON, as
    /// `to_json` makes it. Embed them with [`embed_texts`](Self::embed_texts).
    pub fn embed_properties<T, J: Fn(&T) -> Result<String, String>>(
        &self,
        dataset: DataSet<T>,
        to_json: J,
    ) -> (r: Result<Vec<String>, EmbedError>)
        requires
            dataset.data matches Some(data) ==> forall|i: int|
                0 <= i < data@.len() ==> call_requires(to_json, (&#[trigger] data@[i],)),
        ensures
            match dataset.data {
                None => r == Err::<Vec<String>, _>(EmbedError::NoData),
                Some(data) => match r {
                    Ok(texts) => texts@.len() == data@.len() && serialized(to_json, data@, texts@),
                    Err(e) => e matches EmbedError::Serialize { index, message } && index
                        < data@.len() && call_ensures(
                        to_json,
                        (&data@[index as int],),
                        Err(message),
                    ) && is_serialized_to(to_json, data@, index as nat),
                },
            },
    {
        match dataset.data {
            None => Err(EmbedError::NoData),
            Some(data) => match serialize_all(&data, &to_json) {
                Ok(texts) => Ok(texts),
                Err((index, message)) => Err(EmbedError::Serialize { index, message }),
            },
        }
    }
}

/// The texts from one position to another.
pub fn texts_between(texts: &Vec<String>, from: usize, to: usize) -> (r: Vec<String>)
    requires
        from <= to <= texts@.len(),
    ensures
        r@ == texts@.subrange(from as int, to as int),
{
    let mut part: Vec<String> = Vec::new();
    let mut i: usize = from;
    while i < to
        invariant
            from <= i <= to <= texts@.len(),
            part@ == texts@.subrange(from as int, i as int),
        decreases to - i,
    {
        part.push(texts[i].clone());
        proof {
            assert(texts@.subrange(from as int, i + 1) =~= texts@.subrange(
                from as int,
                i as int,
            ).push(texts@[i as int]));
        }
        i += 1;
    }
    part
}

} // verus!
