//! What a run does with each record and each reply.
//!
//! A run resolves the records that don't need the model, sends the others,
//! and takes their replies in the order they arrive. [`Execution`] decides
//! what follows from each reply; [`RunState`] and [`CompleteState`] keep the
//! outcome of every record.

use super::cache::{completion_key, CompletionCache};
use super::definition::{OutputSpec, TextOutput, Transform};
use super::error::{
    CompletionCacheError, CompletionError, FatalCause, InputError, RunError,
};
use super::report::{
    applied_count, cached_count, failures_of, Outcome, Progress, Report,
};
use crate::backend::{
    schema_view, BackendError, BackendIdentity, ChatRequest, ChatResponse, ErrorKind, IdentityView,
    Usage,
};
use crate::list::{count_where, lemma_count_all, lemma_count_none, lemma_count_update};
use crate::json::{same_json, JsonValue, JsonView};
use crate::text::owned;
use crate::time::Duration;
use vstd::prelude::*;
use vstd::string::*;

verus! {

/// Why a transform without an apply step can't be run.
pub const NO_APPLY_MESSAGE: &'static str = "the transform has no apply step; add one with Transform::apply, or use Llm::complete to get the outputs instead";

/// How a run goes about its requests.
#[derive(Debug, Clone)]
pub struct Options {
    /// How many requests may be in flight at once.
    pub concurrency: usize,
    /// How many times a request that fails with a retryable error is sent
    /// again.
    pub retries: u32,
    /// The wait before the first retry.
    pub backoff: Duration,
    /// How many fatal failures in a row stop the run; 0 for no limit.
    pub circuit_breaker: usize,
    /// The file that keeps completed outputs.
    pub cache: Option<String>,
}

impl Default for Options {
    fn default() -> (r: Options)
        ensures
            r.concurrency == 1,
            r.retries == 2,
            r.backoff.nanos == 500 * 1_000_000,
            r.circuit_breaker == 3,
            r.cache is None,
    {
        Options {
            concurrency: 1,
            retries: 2,
            backoff: Duration::from_millis(500),
            circuit_breaker: 3,
            cache: None,
        }
    }
}

impl Options {
    /// How many requests may be in flight at once; at least 1.
    pub fn concurrency(self, requests: usize) -> (r: Options)
        ensures
            r == (Options {
                concurrency: if requests == 0 {
                    1
                } else {
                    requests
                },
                ..self
            }),
    {
        Options {
            concurrency: if requests == 0 {
                1
            } else {
                requests
            },
            retries: self.retries,
            backoff: self.backoff,
            circuit_breaker: self.circuit_breaker,
            cache: self.cache,
        }
    }

    /// How many times a request that fails with a retryable error is sent
    /// again.
    pub fn retries(self, retries: u32) -> (r: Options)
        ensures
            r == (Options { retries, ..self }),
    {
        Options {
            concurrency: self.concurrency,
            retries,
            backoff: self.backoff,
            circuit_breaker: self.circuit_breaker,
            cache: self.cache,
        }
    }

    /// The wait before the first retry.
    pub fn retry_backoff(self, backoff: Duration) -> (r: Options)
        ensures
            r == (Options { backoff, ..self }),
    {
        Options {
            concurrency: self.concurrency,
            retries: self.retries,
            backoff,
            circuit_breaker: self.circuit_breaker,
            cache: self.cache,
        }
    }

    /// How many fatal failures in a row stop the run; 0 for no limit.
    pub fn circuit_breaker(self, threshold: usize) -> (r: Options)
        ensures
            r == (Options { circuit_breaker: threshold, ..self }),
    {
        Options {
            concurrency: self.concurrency,
            retries: self.retries,
            backoff: self.backoff,
            circuit_breaker: threshold,
            cache: self.cache,
        }
    }

    /// The file that keeps completed outputs.
    pub fn cache(self, path: &str) -> (r: Options)
        ensures
            r.concurrency == self.concurrency,
            r.retries == self.retries,
            r.backoff == self.backoff,
            r.circuit_breaker == self.circuit_breaker,
            r.cache matches Some(p) && p@ == path@,
    {
        Options {
            concurrency: self.concurrency,
            retries: self.retries,
            backoff: self.backoff,
            circuit_breaker: self.circuit_breaker,
            cache: Some(owned(path)),
        }
    }
}

/// What a record gets.
pub enum Delivery<O> {
    /// An output of the model.
    Fresh(O),
    /// An output from the cache.
    Cached(O),
    /// No output.
    Failed(CompletionError),
}

/// A record to send.
#[derive(Debug)]
pub struct Pending {
    /// The record's position.
    pub index: usize,
    /// What is sent for it.
    pub input: String,
    /// Its key, when there is a cache.
    pub key: Option<String>,
}

/// What is known of a record before anything is sent.
pub enum Resolved<O> {
    /// It doesn't need the model.
    Deliver(Delivery<O>),
    /// It has to be sent.
    Send {
        /// What is sent for it.
        input: String,
        /// Its key, when there is a cache.
        key: Option<String>,
    },
}

/// Whether a record that renders as `text` is to be sent, under `key` when
/// there is a cache.
pub open spec fn is_send<O>(r: Resolved<O>, text: String, key: Option<Seq<char>>) -> bool {
    r matches Resolved::Send { input, key: k } && input == text && match key {
        Some(expected) => k matches Some(got) && got@ == expected,
        None => k is None,
    }
}

/// Whether `r` can be what is known of a record rendered as `input`: one that
/// can't be rendered fails, one whose stored output still fits gets that, and
/// any other is sent.
pub open spec fn resolves<O, X: OutputSpec<O>>(
    output: X,
    identity: IdentityView,
    prompt: Seq<char>,
    cache: Option<CompletionCache>,
    input: Result<String, InputError>,
    r: Resolved<O>,
) -> bool {
    match input {
        Err(err) => r == Resolved::<O>::Deliver(Delivery::Failed(CompletionError::Input(err))),
        Ok(text) => match cache {
            None => is_send(r, text, None),
            Some(stored) => {
                let key = completion_key(identity, prompt, output.schema_spec(), text@);
                if stored@.contains_key(key) {
                    exists|hit: Option<O>| #[trigger]
                        output.decodes(stored@[key], hit) && match hit {
                            Some(found) => r == Resolved::Deliver(Delivery::Cached(found)),
                            None => is_send(r, text, Some(key)),
                        }
                } else {
                    is_send(r, text, Some(key))
                }
            },
        },
    }
}

/// Resolves one record.
pub fn resolve<O, X: OutputSpec<O>>(
    output: &X,
    identity: &BackendIdentity,
    prompt: &str,
    cache: &Option<CompletionCache>,
    input: Result<String, InputError>,
) -> (r: Resolved<O>)
    requires
        output.ready(),
        cache matches Some(stored) ==> stored.wf(),
    ensures
        resolves(*output, identity@, prompt@, *cache, input, r),
{
    let text = match input {
        Ok(text) => text,
        Err(err) => {
            return Resolved::Deliver(Delivery::Failed(CompletionError::Input(err)));
        },
    };
    match cache {
        None => Resolved::Send { input: text, key: None },
        Some(stored) => {
            let key = CompletionCache::key(identity, prompt, output.schema(), text.as_str());
            match stored.get(key.as_str()) {
                Some(value) => {
                    let hit = output.decode(value.copy());
                    proof {
                        assert(output.decodes(stored@[key@], hit));
                    }
                    match hit {
                        Some(found) => Resolved::Deliver(Delivery::Cached(found)),
                        None => Resolved::Send { input: text, key: Some(key) },
                    }
                },
                None => Resolved::Send { input: text, key: Some(key) },
            }
        },
    }
}

/// Whether a stored value fits, however it is decoded.
pub open spec fn surely_decodes<O, X: OutputSpec<O>>(output: X, value: JsonView) -> bool {
    forall|hit: Option<O>| #[trigger] output.decodes(value, hit) ==> hit is Some
}

/// A stored output that fits is reused instead of calling the model again, for
/// any type of output: the record that has its key gets it from the cache.
pub proof fn lemma_stored_output_is_reused<O, X: OutputSpec<O>>(
    output: X,
    identity: IdentityView,
    prompt: Seq<char>,
    stored: CompletionCache,
    text: String,
    r: Resolved<O>,
)
    requires
        ({
            let key = completion_key(identity, prompt, output.schema_spec(), text@);
            stored@.contains_key(key) && surely_decodes(output, stored@[key])
        }),
        resolves(output, identity, prompt, Some(stored), Ok(text), r),
    ensures
        r matches Resolved::Deliver(Delivery::Cached(found)) && output.decodes(
            stored@[completion_key(identity, prompt, output.schema_spec(), text@)],
            Some(found),
        ),
{
}

/// A record whose stored output fits is delivered from the cache and never sent.
pub proof fn lemma_cached_records_are_not_sent<O, X: OutputSpec<O>>(
    output: X,
    identity: IdentityView,
    prompt: Seq<char>,
    stored: CompletionCache,
    inputs: Seq<Result<String, InputError>>,
    resolved: Seq<Resolved<O>>,
    i: int,
)
    requires
        is_prepared(output, identity, prompt, Some(stored), inputs, resolved),
        0 <= i < inputs.len() <= usize::MAX,
        inputs[i] is Ok,
        ({
            let key = completion_key(identity, prompt, output.schema_spec(), inputs[i]->Ok_0@);
            stored@.contains_key(key) && surely_decodes(output, stored@[key])
        }),
    ensures
        ({
            let key = completion_key(identity, prompt, output.schema_spec(), inputs[i]->Ok_0@);
            exists|found: O| #[trigger]
                output.decodes(stored@[key], Some(found)) && deliveries_of(resolved).contains(
                    (i as usize, Delivery::Cached(found)),
                )
        }),
        forall|k: int|
            0 <= k < pending_of(resolved).len() ==> (#[trigger] pending_of(resolved)[k]).index != i,
{
    assert(resolves(output, identity, prompt, Some(stored), inputs[i], resolved[i]));
    lemma_stored_output_is_reused(
        output,
        identity,
        prompt,
        stored,
        inputs[i]->Ok_0,
        resolved[i],
    );
    lemma_every_record_is_resolved(resolved, i);
}

/// A stored text is reused instead of calling the model again: the record that
/// has its key gets it from the cache.
pub proof fn lemma_stored_text_is_reused(
    identity: IdentityView,
    prompt: Seq<char>,
    stored: CompletionCache,
    text: String,
    output: Seq<char>,
    r: Resolved<String>,
)
    requires
        ({
            let key = completion_key(identity, prompt, None, text@);
            stored@.contains_key(key) && same_json(JsonView::Text(output), stored@[key])
        }),
        resolves(TextOutput, identity, prompt, Some(stored), Ok(text), r),
    ensures
        r matches Resolved::Deliver(Delivery::Cached(found)) && found@ == output,
{
}

/// A record whose key isn't stored, or whose stored output doesn't fit, is sent
/// as it was rendered, with its key.
pub proof fn lemma_other_records_are_sent<O, X: OutputSpec<O>>(
    transform_output: X,
    identity: IdentityView,
    prompt: Seq<char>,
    stored: CompletionCache,
    text: String,
    r: Resolved<O>,
)
    requires
        ({
            let key = completion_key(identity, prompt, transform_output.schema_spec(), text@);
            stored@.contains_key(key) ==> forall|hit: Option<O>| #[trigger]
                transform_output.decodes(stored@[key], hit) ==> hit is None
        }),
        resolves(transform_output, identity, prompt, Some(stored), Ok(text), r),
    ensures
        is_send(
            r,
            text,
            Some(completion_key(identity, prompt, transform_output.schema_spec(), text@)),
        ),
{
}

/// The records that need no model and what they get, in record order.
pub open spec fn deliveries_of<O>(resolved: Seq<Resolved<O>>) -> Seq<(usize, Delivery<O>)>
    decreases resolved.len(),
{
    if resolved.len() == 0 {
        Seq::empty()
    } else {
        let rest = deliveries_of(resolved.drop_last());
        match resolved.last() {
            Resolved::Deliver(delivery) => rest.push(((resolved.len() - 1) as usize, delivery)),
            Resolved::Send { .. } => rest,
        }
    }
}

/// The records to send, in record order.
pub open spec fn pending_of<O>(resolved: Seq<Resolved<O>>) -> Seq<Pending>
    decreases resolved.len(),
{
    if resolved.len() == 0 {
        Seq::empty()
    } else {
        let rest = pending_of(resolved.drop_last());
        match resolved.last() {
            Resolved::Deliver(_) => rest,
            Resolved::Send { input, key } => rest.push(
                Pending { index: (resolved.len() - 1) as usize, input, key },
            ),
        }
    }
}

/// Whether `resolved` can be what is known of the records rendered as `inputs`.
pub open spec fn is_prepared<O, X: OutputSpec<O>>(
    output: X,
    identity: IdentityView,
    prompt: Seq<char>,
    cache: Option<CompletionCache>,
    inputs: Seq<Result<String, InputError>>,
    resolved: Seq<Resolved<O>>,
) -> bool {
    &&& resolved.len() == inputs.len()
    &&& forall|i: int|
        0 <= i < inputs.len() ==> resolves(
            output,
            identity,
            prompt,
            cache,
            #[trigger] inputs[i],
            resolved[i],
        )
}

/// Resolves every record: what needs no model, and what has to be sent.
pub fn prepare<O, X: OutputSpec<O>>(
    output: &X,
    identity: &BackendIdentity,
    prompt: &str,
    cache: &Option<CompletionCache>,
    inputs: Vec<Result<String, InputError>>,
) -> (r: (Vec<(usize, Delivery<O>)>, Vec<Pending>))
    requires
        output.ready(),
        cache matches Some(stored) ==> stored.wf(),
    ensures
        exists|resolved: Seq<Resolved<O>>| #[trigger]
            is_prepared(*output, identity@, prompt@, *cache, inputs@, resolved) && r.0@
                == deliveries_of(resolved) && r.1@ == pending_of(resolved),
{
    let ghost mut resolved: Seq<Resolved<O>> = Seq::empty();
    let mut delivered: Vec<(usize, Delivery<O>)> = Vec::new();
    let mut pending: Vec<Pending> = Vec::new();
    let mut index: usize = 0;
    let total: usize = inputs.len();
    for input in it: inputs
        invariant
            it.seq() == inputs@,
            index == it.index(),
            total == inputs@.len(),
            output.ready(),
            cache matches Some(stored) ==> stored.wf(),
            resolved.len() == index,
            forall|i: int|
                0 <= i < index ==> resolves(
                    *output,
                    identity@,
                    prompt@,
                    *cache,
                    #[trigger] inputs@[i],
                    resolved[i],
                ),
            delivered@ == deliveries_of(resolved),
            pending@ == pending_of(resolved),
    {
        let ghost before = resolved;
        let found = resolve(output, identity, prompt, cache, input);
        proof {
            resolved = before.push(found);
            assert(resolved.drop_last() =~= before);
        }
        match found {
            Resolved::Deliver(delivery) => delivered.push((index, delivery)),
            Resolved::Send { input, key } => pending.push(Pending { index, input, key }),
        }
        index += 1;
    }
    proof {
        assert(is_prepared(*output, identity@, prompt@, *cache, inputs@, resolved));
    }
    (delivered, pending)
}

/// Every record either needs no model or is sent, and not both.
pub proof fn lemma_every_record_is_resolved<O>(resolved: Seq<Resolved<O>>, i: int)
    requires
        0 <= i < resolved.len() <= usize::MAX,
    ensures
        match resolved[i] {
            Resolved::Deliver(delivery) => deliveries_of(resolved).contains((i as usize, delivery))
                && forall|k: int|
                0 <= k < pending_of(resolved).len() ==> (#[trigger] pending_of(resolved)[k]).index
                    != i,
            Resolved::Send { input, key } => pending_of(resolved).contains(
                (Pending { index: i as usize, input, key }),
            ) && forall|k: int|
                0 <= k < deliveries_of(resolved).len() ==> (#[trigger] deliveries_of(
                    resolved,
                )[k]).0 != i,
        },
        deliveries_of(resolved).len() + pending_of(resolved).len() == resolved.len(),
    decreases resolved.len(),
{
    let rest = resolved.drop_last();
    lemma_resolved_bounds(rest);
    let delivered = deliveries_of(resolved);
    let pending = pending_of(resolved);
    if i < rest.len() {
        lemma_every_record_is_resolved(rest, i);
        assert(rest[i] == resolved[i]);
        match resolved[i] {
            Resolved::Deliver(delivery) => {
                let x = (i as usize, delivery);
                let k = choose|k: int|
                    0 <= k < deliveries_of(rest).len() && deliveries_of(rest)[k] == x;
                assert(delivered[k] == x);
            },
            Resolved::Send { input, key } => {
                let x = Pending { index: i as usize, input, key };
                let k = choose|k: int| 0 <= k < pending_of(rest).len() && pending_of(rest)[k] == x;
                assert(pending[k] == x);
            },
        }
        assert forall|k: int| 0 <= k < pending.len() && k < pending_of(rest).len() implies (
        #[trigger] pending[k]) == pending_of(rest)[k] by {}
        assert forall|k: int| 0 <= k < delivered.len() && k < deliveries_of(rest).len() implies (
        #[trigger] delivered[k]) == deliveries_of(rest)[k] by {}
    } else {
        match resolved[i] {
            Resolved::Deliver(delivery) => {
                assert(delivered[delivered.len() - 1] == (i as usize, delivery));
            },
            Resolved::Send { input, key } => {
                assert(pending[pending.len() - 1] == (Pending { index: i as usize, input, key }));
            },
        }
        if rest.len() > 0 {
            lemma_every_record_is_resolved(rest, 0);
        } else {
            assert(deliveries_of(rest).len() == 0);
            assert(pending_of(rest).len() == 0);
        }
    }
}

/// No record is delivered twice and none is sent twice: both lists are in
/// record order. With [`lemma_every_record_is_resolved`], a run that delivers
/// the first list and one outcome for each record of the second gives every
/// record exactly one outcome.
pub proof fn lemma_no_record_comes_twice<O>(resolved: Seq<Resolved<O>>)
    requires
        resolved.len() <= usize::MAX,
    ensures
        forall|j: int, k: int|
            0 <= j < k < deliveries_of(resolved).len() ==> (#[trigger] deliveries_of(resolved)[j]).0
                < (#[trigger] deliveries_of(resolved)[k]).0,
        forall|j: int, k: int|
            0 <= j < k < pending_of(resolved).len() ==> (#[trigger] pending_of(resolved)[j]).index
                < (#[trigger] pending_of(resolved)[k]).index,
    decreases resolved.len(),
{
    if resolved.len() > 0 {
        let rest = resolved.drop_last();
        lemma_no_record_comes_twice(rest);
        lemma_resolved_bounds(rest);
        let delivered = deliveries_of(resolved);
        let pending = pending_of(resolved);
        assert forall|j: int, k: int| 0 <= j < k < delivered.len() implies (
        #[trigger] delivered[j]).0 < (#[trigger] delivered[k]).0 by {
            assert(delivered[j] == deliveries_of(rest)[j]);
            if k < deliveries_of(rest).len() {
                assert(delivered[k] == deliveries_of(rest)[k]);
            }
        }
        assert forall|j: int, k: int| 0 <= j < k < pending.len() implies (
        #[trigger] pending[j]).index < (#[trigger] pending[k]).index by {
            assert(pending[j] == pending_of(rest)[j]);
            if k < pending_of(rest).len() {
                assert(pending[k] == pending_of(rest)[k]);
            }
        }
    }
}

/// Positions stay below the number of records.
proof fn lemma_resolved_bounds<O>(resolved: Seq<Resolved<O>>)
    requires
        resolved.len() <= usize::MAX,
    ensures
        forall|k: int|
            0 <= k < deliveries_of(resolved).len() ==> (#[trigger] deliveries_of(resolved)[k]).0
                < resolved.len(),
        forall|k: int|
            0 <= k < pending_of(resolved).len() ==> (#[trigger] pending_of(resolved)[k]).index
                < resolved.len(),
    decreases resolved.len(),
{
    if resolved.len() > 0 {
        let rest = resolved.drop_last();
        lemma_resolved_bounds(rest);
        assert forall|k: int| 0 <= k < deliveries_of(resolved).len() implies (
        #[trigger] deliveries_of(resolved)[k]).0 < resolved.len() by {
            if k < deliveries_of(rest).len() {
                assert(deliveries_of(resolved)[k] == deliveries_of(rest)[k]);
            }
        }
        assert forall|k: int| 0 <= k < pending_of(resolved).len() implies (#[trigger] pending_of(
            resolved,
        )[k]).index < resolved.len() by {
            if k < pending_of(rest).len() {
                assert(pending_of(resolved)[k] == pending_of(rest)[k]);
            }
        }
    }
}

impl Pending {
    /// The request that sends this record: the caller's prompt, the input, and
    /// the schema if there is one.
    pub fn request<O, X: OutputSpec<O>>(&self, prompt: &str, output: &X) -> (r: ChatRequest)
        ensures
            r.system@ == prompt@,
            r.user@ == self.input@,
            schema_view(r.schema) == output.schema_spec(),
    {
        let schema = match output.schema() {
            Some(schema) => Some(schema.copy()),
            None => None,
        };
        ChatRequest { system: owned(prompt), user: self.input.clone(), schema }
    }
}

/// What follows from a reply.
pub enum Step<O> {
    /// The record gets its outcome.
    Deliver(Delivery<O>),
    /// The output has to be stored in the cache first; see
    /// [`Execution::on_stored`].
    Store {
        /// The key.
        key: String,
        /// What to store.
        value: JsonValue,
        /// The output.
        output: O,
    },
    /// The run stops.
    Stop(RunError),
}

/// The tokens of a reply.
pub open spec fn reply_tokens(usage: Option<Usage>) -> nat {
    match usage {
        Some(used) => used.total_view(),
        None => 0,
    }
}

/// Whether a step delivers an output, storing it first when it has a key and
/// can be encoded.
pub open spec fn delivers_output<O, X: OutputSpec<O>>(
    output: X,
    key: Option<String>,
    value: O,
    step: Step<O>,
) -> bool {
    match key {
        None => step == Step::Deliver(Delivery::Fresh(value)),
        Some(k) => exists|encoded: Option<JsonValue>| #[trigger]
            output.encodes(value, encoded) && step == match encoded {
                Some(json) => Step::Store { key: k, value: json, output: value },
                None => Step::Deliver(Delivery::Fresh(value)),
            },
    }
}

/// Whether `step` can follow from a reply.
pub open spec fn answers<O, X: OutputSpec<O>>(
    output: X,
    key: Option<String>,
    text: Seq<char>,
    step: Step<O>,
) -> bool {
    exists|parsed: Result<O, CompletionError>| #[trigger]
        output.parses(text, parsed) && match parsed {
            Ok(value) => delivers_output(output, key, value, step),
            Err(err) => step == Step::<O>::Deliver(Delivery::Failed(err)),
        }
}

/// The state of a run between replies.
#[derive(Debug, Clone)]
pub struct Execution {
    /// How far the run is.
    pub progress: Progress,
    /// Whether the backend has answered once.
    pub answered: bool,
    /// How many replies in a row were fatal failures, while the circuit breaker
    /// is on and the backend hasn't answered.
    pub fatal_streak: usize,
    /// How many fatal failures in a row stop the run; 0 for no limit.
    pub circuit_breaker: usize,
}

/// The state of the circuit breaker.
pub struct BreakerView {
    /// Whether the backend has answered once.
    pub answered: bool,
    /// How many replies in a row were fatal failures, while that matters.
    pub streak: nat,
}

/// The state of the circuit breaker after one more reply: `None` for an
/// answer, or else the kind of the failure. Fatal failures count while the
/// breaker is on and the backend hasn't answered.
pub open spec fn breaker_next(
    state: BreakerView,
    threshold: nat,
    failure: Option<ErrorKind>,
) -> BreakerView {
    if failure is None {
        BreakerView { answered: true, streak: 0 }
    } else if failure == Some(ErrorKind::Fatal) && !state.answered && threshold > 0 {
        BreakerView { answered: false, streak: state.streak + 1 }
    } else {
        BreakerView { answered: state.answered, streak: 0 }
    }
}

/// Whether the circuit breaker stops the run.
pub open spec fn breaker_open(state: BreakerView, threshold: nat) -> bool {
    threshold > 0 && !state.answered && state.streak >= threshold
}

/// The state of the circuit breaker after some replies.
pub open spec fn breaker_after(threshold: nat, replies: Seq<Option<ErrorKind>>) -> BreakerView
    decreases replies.len(),
{
    if replies.len() == 0 {
        BreakerView { answered: false, streak: 0 }
    } else {
        breaker_next(breaker_after(threshold, replies.drop_last()), threshold, replies.last())
    }
}

/// The circuit breaker stops a run exactly when no reply was an answer and the
/// last `threshold` replies were fatal failures. With a threshold of 0 it
/// never does.
pub proof fn lemma_breaker_opens_on_fatal_streak(
    threshold: nat,
    replies: Seq<Option<ErrorKind>>,
)
    ensures
        breaker_open(breaker_after(threshold, replies), threshold) <==> {
            &&& 0 < threshold <= replies.len()
            &&& forall|i: int| 0 <= i < replies.len() ==> (#[trigger] replies[i]) is Some
            &&& forall|i: int|
                replies.len() - threshold <= i < replies.len() ==> #[trigger] replies[i] == Some(
                    ErrorKind::Fatal,
                )
        },
{
    lemma_breaker_state(threshold, replies);
    let state = breaker_after(threshold, replies);
    let n = replies.len() as int;
    if breaker_open(state, threshold) {
        assert forall|i: int| n - threshold <= i < n implies #[trigger] replies[i] == Some(
            ErrorKind::Fatal,
        ) by {
            assert(n - state.streak <= i);
        }
    } else if 0 < threshold <= n && (forall|i: int|
        0 <= i < n ==> (#[trigger] replies[i]) is Some) && (forall|i: int|
        n - threshold <= i < n ==> #[trigger] replies[i] == Some(ErrorKind::Fatal)) {
        assert(state.streak < threshold);
        assert(replies[n - state.streak - 1] == Some(ErrorKind::Fatal));
    }
}

/// What the state of the circuit breaker says of the replies.
proof fn lemma_breaker_state(threshold: nat, replies: Seq<Option<ErrorKind>>)
    ensures
        ({
            let state = breaker_after(threshold, replies);
            let n = replies.len();
            &&& state.streak <= n
            &&& state.answered <==> exists|i: int|
                0 <= i < n && (#[trigger] replies[i]) is None
            &&& forall|i: int|
                n - state.streak <= i < n ==> #[trigger] replies[i] == Some(ErrorKind::Fatal)
            &&& threshold > 0 && !state.answered && state.streak < n ==> replies[n - state.streak
                - 1] != Some(ErrorKind::Fatal)
        }),
    decreases replies.len(),
{
    if replies.len() > 0 {
        let rest = replies.drop_last();
        let n = replies.len() as int;
        lemma_breaker_state(threshold, rest);
        assert forall|i: int| 0 <= i < rest.len() implies rest[i] == #[trigger] replies[i] by {}
        if breaker_after(threshold, rest).answered {
            let i = choose|i: int| 0 <= i < rest.len() && (#[trigger] rest[i]) is None;
            assert(replies[i] is None);
        }
        if replies.last() is None {
            assert(replies[n - 1] is None);
        }
        if exists|i: int| 0 <= i < replies.len() && (#[trigger] replies[i]) is None {
            let i = choose|i: int| 0 <= i < replies.len() && (#[trigger] replies[i]) is None;
            if i < rest.len() {
                assert(rest[i] is None);
            }
        }
        let streak = breaker_after(threshold, replies).streak;
        if 0 < streak < n {
            assert(rest[n - 1 - (streak - 1) - 1] == replies[n - streak - 1]);
        }
    }
}

/// Once the backend has answered, no later failure stops the run.
pub proof fn lemma_answer_disarms_the_breaker(
    threshold: nat,
    before: Seq<Option<ErrorKind>>,
    after: Seq<Option<ErrorKind>>,
)
    ensures
        !breaker_open(breaker_after(threshold, before.push(None) + after), threshold),
{
    let all = before.push(None) + after;
    lemma_breaker_state(threshold, all);
    assert(all[before.len() as int] is None);
}

/// Whether a reply to a record with this key takes a run from `before` to
/// `after`, and `step` follows.
pub open spec fn replied<O, X: OutputSpec<O>>(
    output: X,
    before: Execution,
    key: Option<String>,
    result: Result<ChatResponse, BackendError>,
    after: Execution,
    step: Step<O>,
) -> bool {
    &&& after.circuit_breaker == before.circuit_breaker
    &&& after.breaker() == breaker_next(
        before.breaker(),
        before.circuit_breaker as nat,
        match result {
            Ok(_) => None,
            Err(err) => Some(err.kind),
        },
    )
    &&& match result {
        Ok(response) => {
            &&& after.wf()
            &&& after.progress == (Progress {
                tokens: (before.progress.tokens + reply_tokens(response.usage)) as u64,
                ..before.progress
            })
            &&& answers(output, key, response.text@, step)
        },
        Err(err) => {
            &&& after.progress == before.progress
            &&& step is Deliver ==> after.wf()
            &&& if breaker_open(after.breaker(), before.circuit_breaker as nat) {
                step == Step::<O>::Stop(
                    RunError::Fatal {
                        completed: (before.progress.succeeded + before.progress.cached) as usize,
                        source: FatalCause::CircuitOpen { failures: after.fatal_streak, last: err },
                    },
                )
            } else {
                step == Step::<O>::Deliver(Delivery::Failed(CompletionError::Backend(err)))
            }
        },
    }
}

impl Execution {
    /// The state of the circuit breaker.
    pub open spec fn breaker(&self) -> BreakerView {
        BreakerView { answered: self.answered, streak: self.fatal_streak as nat }
    }

    /// Whether the counts add up, no more than every record has an outcome,
    /// and the circuit breaker is closed.
    pub open spec fn wf(&self) -> bool {
        &&& self.progress.done == self.progress.succeeded + self.progress.cached
            + self.progress.failed
        &&& self.progress.done <= self.progress.total
        &&& !breaker_open(self.breaker(), self.circuit_breaker as nat)
    }

    /// The start of a run over `total` records.
    pub fn new(total: usize, circuit_breaker: usize) -> (r: Execution)
        ensures
            r.wf(),
            r.progress == (Progress {
                total,
                done: 0,
                succeeded: 0,
                cached: 0,
                failed: 0,
                tokens: 0,
            }),
            r.breaker() == breaker_after(circuit_breaker as nat, Seq::empty()),
            r.circuit_breaker == circuit_breaker,
    {
        let progress = Progress {
            total,
            done: 0,
            succeeded: 0,
            cached: 0,
            failed: 0,
            tokens: 0,
        };
        Execution { progress, answered: false, fatal_streak: 0, circuit_breaker }
    }

    /// Takes the reply to a record, after any retries.
    ///
    /// An answer is parsed, and its output delivered once it is stored. A
    /// failure is delivered unless it opens the circuit breaker.
    pub fn on_reply<O, X: OutputSpec<O>>(
        &mut self,
        output: &X,
        key: Option<String>,
        result: Result<ChatResponse, BackendError>,
    ) -> (step: Step<O>)
        requires
            old(self).wf(),
            old(self).progress.done < old(self).progress.total,
            output.ready(),
            result matches Ok(response) ==> old(self).progress.tokens + reply_tokens(response.usage)
                <= u64::MAX,
        ensures
            replied(*output, *old(self), key, result, *final(self), step),
    {
        match result {
            Ok(response) => {
                self.answered = true;
                self.fatal_streak = 0;
                match response.usage {
                    Some(used) => {
                        self.progress.tokens = self.progress.tokens + used.total();
                    },
                    None => {},
                }
                let parsed = output.parse(response.text.as_str());
                let ghost given = parsed;
                proof {
                    assert(output.parses(response.text@, given));
                }
                match parsed {
                    Ok(value) => {
                        let step = Execution::store_or_deliver(output, key, value);
                        proof {
                            assert(given == Ok::<O, CompletionError>(value));
                            assert(answers(*output, key, response.text@, step));
                        }
                        step
                    },
                    Err(err) => {
                        let step = Step::Deliver(Delivery::Failed(err));
                        proof {
                            assert(given == Err::<O, CompletionError>(err));
                            assert(answers(*output, key, response.text@, step));
                        }
                        step
                    },
                }
            },
            Err(err) => {
                if err.kind == ErrorKind::Fatal && !self.answered && self.circuit_breaker > 0 {
                    self.fatal_streak = self.fatal_streak + 1;
                } else {
                    self.fatal_streak = 0;
                }
                if self.circuit_breaker > 0 && !self.answered && self.fatal_streak
                    >= self.circuit_breaker {
                    return Step::Stop(
                        RunError::Fatal {
                            completed: self.progress.succeeded + self.progress.cached,
                            source: FatalCause::CircuitOpen {
                                failures: self.fatal_streak,
                                last: err,
                            },
                        },
                    );
                }
                Step::Deliver(Delivery::Failed(CompletionError::Backend(err)))
            },
        }
    }

    /// Delivers an output, storing it first when it has a key and can be
    /// encoded.
    fn store_or_deliver<O, X: OutputSpec<O>>(output: &X, key: Option<String>, value: O) -> (step:
        Step<O>)
        requires
            output.ready(),
        ensures
            delivers_output(*output, key, value, step),
    {
        match key {
            None => Step::Deliver(Delivery::Fresh(value)),
            Some(k) => {
                let encoded = output.encode(&value);
                let ghost given = encoded;
                proof {
                    assert(output.encodes(value, given));
                }
                match encoded {
                    Some(json) => Step::Store { key: k, value: json, output: value },
                    None => Step::Deliver(Delivery::Fresh(value)),
                }
            },
        }
    }

    /// Takes what storing an output gave: the output is delivered, or the run
    /// stops.
    pub fn on_stored<O>(&self, output: O, stored: Result<(), CompletionCacheError>) -> (step: Step<
        O,
    >)
        requires
            self.wf(),
        ensures
            match stored {
                Ok(_) => step == Step::Deliver(Delivery::Fresh(output)),
                Err(err) => step == Step::<O>::Stop(
                    RunError::Fatal {
                        completed: (self.progress.succeeded + self.progress.cached) as usize,
                        source: FatalCause::Cache(err),
                    },
                ),
            },
    {
        match stored {
            Ok(_) => Step::Deliver(Delivery::Fresh(output)),
            Err(err) => Step::Stop(
                RunError::Fatal {
                    completed: self.progress.succeeded + self.progress.cached,
                    source: FatalCause::Cache(err),
                },
            ),
        }
    }

    /// Counts a delivery.
    pub fn count<O>(&mut self, delivery: &Delivery<O>)
        requires
            old(self).wf(),
            old(self).progress.done < old(self).progress.total,
        ensures
            final(self).wf(),
            final(self).answered == old(self).answered,
            final(self).fatal_streak == old(self).fatal_streak,
            final(self).circuit_breaker == old(self).circuit_breaker,
            final(self).progress == counted(old(self).progress, *delivery),
    {
        match delivery {
            Delivery::Fresh(_) => {
                self.progress.succeeded = self.progress.succeeded + 1;
            },
            Delivery::Cached(_) => {
                self.progress.cached = self.progress.cached + 1;
            },
            Delivery::Failed(_) => {
                self.progress.failed = self.progress.failed + 1;
            },
        }
        self.progress.done = self.progress.done + 1;
    }
}

/// A record that was sent, the reply to it, and the step that followed.
pub struct Answered<O> {
    /// The record.
    pub record: Pending,
    /// The reply, after any retries.
    pub result: Result<ChatResponse, BackendError>,
    /// What followed from it.
    pub step: Step<O>,
}

/// Whether the step is the one that follows from the reply in a run that goes
/// on; see [`Execution::on_reply`].
pub open spec fn follows<O, X: OutputSpec<O>>(output: X, event: Answered<O>) -> bool {
    match event.result {
        Ok(response) => answers(output, event.record.key, response.text@, event.step),
        Err(err) => event.step == Step::<O>::Deliver(
            Delivery::Failed(CompletionError::Backend(err)),
        ),
    }
}

/// Whether a record was answered.
pub open spec fn was_answered<O>(events: Seq<Answered<O>>, record: Pending) -> bool {
    exists|j: int| 0 <= j < events.len() && (#[trigger] events[j]).record == record
}

/// Whether `events` are the answers of a finished run, in the order they
/// arrived: one for each record that was sent.
pub open spec fn is_finished<O, X: OutputSpec<O>>(
    output: X,
    pending: Seq<Pending>,
    events: Seq<Answered<O>>,
) -> bool {
    &&& forall|j: int|
        0 <= j < events.len() ==> follows(output, #[trigger] events[j]) && pending.contains(
            events[j].record,
        )
    &&& forall|i: int, j: int|
        0 <= i < j < events.len() ==> (#[trigger] events[i]).record.index != (
        #[trigger] events[j]).record.index
    &&& forall|k: int| 0 <= k < pending.len() ==> #[trigger] was_answered(events, pending[k])
}

/// What a cache holds once every output that had to be stored is; see
/// [`CompletionCache::insert`].
pub open spec fn stored_after<O>(
    entries: Map<Seq<char>, JsonView>,
    events: Seq<Answered<O>>,
) -> Map<Seq<char>, JsonView>
    decreases events.len(),
{
    if events.len() == 0 {
        entries
    } else {
        let before = stored_after(entries, events.drop_last());
        match events.last().step {
            Step::Store { key, value, .. } => before.insert(key@, value@),
            _ => before,
        }
    }
}

/// Whether an event stores a value under a key.
pub open spec fn stores<O>(event: Answered<O>, key: Seq<char>, value: JsonView) -> bool {
    event.step matches Step::Store { key: k, value: v, .. } && k@ == key && v@ == value
}

/// Whether some event stores a value under a key.
pub open spec fn was_stored<O>(
    events: Seq<Answered<O>>,
    key: Seq<char>,
    value: JsonView,
) -> bool {
    exists|j: int| 0 <= j < events.len() && #[trigger] stores(events[j], key, value)
}

/// Every key holds what was stored under it, or else what it held before.
proof fn lemma_stored_after<O>(
    entries: Map<Seq<char>, JsonView>,
    events: Seq<Answered<O>>,
    key: Seq<char>,
)
    ensures
        ({
            let after = stored_after(entries, events);
            &&& entries.contains_key(key) ==> after.contains_key(key)
            &&& forall|j: int, value: JsonView|
                0 <= j < events.len() && #[trigger] stores(events[j], key, value)
                    ==> after.contains_key(key) && was_stored(events, key, after[key])
            &&& after.contains_key(key) && !was_stored(events, key, after[key])
                ==> entries.contains_key(key) && after[key] == entries[key]
        }),
    decreases events.len(),
{
    if events.len() > 0 {
        let rest = events.drop_last();
        let after = stored_after(entries, events);
        let before = stored_after(entries, rest);
        lemma_stored_after(entries, rest, key);
        assert(events.last() == events[events.len() - 1]);
        assert forall|j: int, value: JsonView|
            0 <= j < events.len() && #[trigger] stores(events[j], key, value) implies
            after.contains_key(key) && was_stored(events, key, after[key]) by {
            if j < rest.len() {
                assert(stores(rest[j], key, value));
            }
            lemma_later_stores(entries, events, key);
        }
        lemma_later_stores(entries, events, key);
    }
}

/// What the last event stores replaces what a key held.
proof fn lemma_later_stores<O>(
    entries: Map<Seq<char>, JsonView>,
    events: Seq<Answered<O>>,
    key: Seq<char>,
)
    requires
        events.len() > 0,
    ensures
        ({
            let before = stored_after(entries, events.drop_last());
            let after = stored_after(entries, events);
            if events.last().step matches Step::Store { key: k, .. } && k@ == key {
                after.contains_key(key) && was_stored(events, key, after[key])
            } else {
                &&& after.contains_key(key) == before.contains_key(key)
                &&& after.contains_key(key) ==> after[key] == before[key]
                &&& was_stored(events.drop_last(), key, before[key]) ==> was_stored(
                    events,
                    key,
                    after[key],
                )
            }
        }),
{
    let rest = events.drop_last();
    let before = stored_after(entries, rest);
    let after = stored_after(entries, events);
    let n = events.len() - 1;
    assert(events.last() == events[n]);
    if events.last().step matches Step::Store { key: k, .. } && k@ == key {
        assert(stores(events[n], key, after[key]));
    } else if was_stored(rest, key, before[key]) {
        let j = choose|j: int| 0 <= j < rest.len() && #[trigger] stores(rest[j], key, before[key]);
        assert(events[j] == rest[j]);
    }
}

/// Whether stored outputs can be relied on: what fits once always fits, and what
/// is stored for an output fits.
pub open spec fn is_steady<O, X: OutputSpec<O>>(output: X) -> bool {
    &&& forall|value: JsonView, found: O| #[trigger]
        output.decodes(value, Some(found)) ==> surely_decodes(output, value)
    &&& forall|given: O, value: JsonValue| #[trigger]
        output.encodes(given, Some(value)) ==> surely_decodes(output, value@)
}

/// Stored texts can be relied on.
pub proof fn lemma_text_is_steady()
    ensures
        is_steady::<String, TextOutput>(TextOutput),
{
}

/// Whether a record got no output, or one that can't be stored.
pub open spec fn got_nothing_stored<O, X: OutputSpec<O>>(output: X, step: Step<O>) -> bool {
    match step {
        Step::Deliver(Delivery::Failed(_)) => true,
        Step::Deliver(Delivery::Fresh(found)) => output.encodes(found, None),
        _ => false,
    }
}

/// A second run over the same records, with the cache that the first run left
/// and the same backend and transform, sends only records that the first run
/// sent and that got no output there, or one that can't be stored.
pub proof fn lemma_second_run_sends_the_rest<O, X: OutputSpec<O>>(
    output: X,
    identity: IdentityView,
    prompt: Seq<char>,
    cache: CompletionCache,
    later_cache: CompletionCache,
    inputs: Seq<Result<String, InputError>>,
    first: Seq<Resolved<O>>,
    events: Seq<Answered<O>>,
    second: Seq<Resolved<O>>,
    k: int,
)
    requires
        inputs.len() <= usize::MAX,
        is_steady(output),
        is_prepared(output, identity, prompt, Some(cache), inputs, first),
        is_finished(output, pending_of(first), events),
        later_cache@ == stored_after(cache@, events),
        is_prepared(output, identity, prompt, Some(later_cache), inputs, second),
        0 <= k < pending_of(second).len(),
    ensures
        exists|j: int|
            0 <= j < events.len() && (#[trigger] events[j]).record.index == pending_of(
                second,
            )[k].index && got_nothing_stored(output, events[j].step),
{
    let i = pending_of(second)[k].index as int;
    lemma_resolved_bounds(second);
    lemma_every_record_is_resolved(second, i);
    assert(second[i] is Send);
    assert(resolves(output, identity, prompt, Some(later_cache), inputs[i], second[i]));
    assert(resolves(output, identity, prompt, Some(cache), inputs[i], first[i]));
    let text = inputs[i]->Ok_0;
    let key = completion_key(identity, prompt, output.schema_spec(), text@);
    lemma_stored_after(cache@, events, key);
    assert forall|j: int, value: JsonView|
        0 <= j < events.len() && #[trigger] stores(events[j], key, value) implies surely_decodes(
        output,
        value,
    ) by {
        lemma_outputs_are_stored_first(output, events[j]);
    }
    if later_cache@.contains_key(key) && surely_decodes(output, later_cache@[key]) {
        lemma_stored_output_is_reused(output, identity, prompt, later_cache, text, second[i]);
    }
    if let Resolved::Deliver(delivery) = first[i] {
        assert(delivery is Cached);
        let found = delivery->Cached_0;
        assert(output.decodes(cache@[key], Some(found)));
        assert(surely_decodes(output, later_cache@[key]));
    }
    lemma_every_record_is_resolved(first, i);
    let record = Pending { index: i as usize, input: first[i]->input, key: first[i]->key };
    let at = choose|at: int| 0 <= at < pending_of(first).len() && pending_of(first)[at] == record;
    assert(was_answered(events, pending_of(first)[at]));
    let j = choose|j: int| 0 <= j < events.len() && (#[trigger] events[j]).record == record;
    assert(follows(output, events[j]));
    lemma_outputs_are_stored_first(output, events[j]);
    if let Step::Store { key: stored_key, value, .. } = events[j].step {
        assert(stores(events[j], key, value@));
    }
    assert(got_nothing_stored(output, events[j].step));
}

/// A second run over the same records, with the cache that the first run left
/// and the same backend and transform, takes from the cache every output that
/// the first run stored, and doesn't send those records.
pub proof fn lemma_second_run_reuses_what_was_stored<O, X: OutputSpec<O>>(
    output: X,
    identity: IdentityView,
    prompt: Seq<char>,
    cache: CompletionCache,
    later_cache: CompletionCache,
    inputs: Seq<Result<String, InputError>>,
    first: Seq<Resolved<O>>,
    events: Seq<Answered<O>>,
    second: Seq<Resolved<O>>,
    j: int,
)
    requires
        inputs.len() <= usize::MAX,
        is_steady(output),
        is_prepared(output, identity, prompt, Some(cache), inputs, first),
        is_finished(output, pending_of(first), events),
        later_cache@ == stored_after(cache@, events),
        is_prepared(output, identity, prompt, Some(later_cache), inputs, second),
        0 <= j < events.len(),
        events[j].step is Store,
    ensures
        ({
            let i = events[j].record.index as int;
            let key = completion_key(identity, prompt, output.schema_spec(), inputs[i]->Ok_0@);
            &&& inputs[i] is Ok
            &&& exists|found: O| #[trigger]
                output.decodes(later_cache@[key], Some(found)) && deliveries_of(second).contains(
                    (i as usize, Delivery::Cached(found)),
                )
            &&& forall|k: int|
                0 <= k < pending_of(second).len() ==> (#[trigger] pending_of(second)[k]).index != i
        }),
{
    let record = events[j].record;
    let i = record.index as int;
    lemma_sent_as_resolved(first, record);
    assert(resolves(output, identity, prompt, Some(cache), inputs[i], first[i]));
    let text = inputs[i]->Ok_0;
    let key = completion_key(identity, prompt, output.schema_spec(), text@);
    assert forall|e: int, value: JsonView|
        0 <= e < events.len() && #[trigger] stores(events[e], key, value) implies surely_decodes(
        output,
        value,
    ) by {
        lemma_outputs_are_stored_first(output, events[e]);
    }
    lemma_outputs_are_stored_first(output, events[j]);
    lemma_stored_after(cache@, events, key);
    assert(stores(events[j], key, events[j].step->value@));
    assert(surely_decodes(output, later_cache@[key]));
    lemma_cached_records_are_not_sent(
        output,
        identity,
        prompt,
        later_cache,
        inputs,
        second,
        i,
    );
}

/// Without a cache no record that is sent has a key, so nothing is stored.
pub proof fn lemma_without_cache_there_are_no_keys<O, X: OutputSpec<O>>(
    output: X,
    identity: IdentityView,
    prompt: Seq<char>,
    inputs: Seq<Result<String, InputError>>,
    resolved: Seq<Resolved<O>>,
)
    requires
        inputs.len() <= usize::MAX,
        is_prepared(output, identity, prompt, None, inputs, resolved),
    ensures
        forall|k: int|
            0 <= k < pending_of(resolved).len() ==> (#[trigger] pending_of(resolved)[k]).key is None,
{
    assert forall|k: int| 0 <= k < pending_of(resolved).len() implies (#[trigger] pending_of(
        resolved,
    )[k]).key is None by {
        let record = pending_of(resolved)[k];
        assert(pending_of(resolved).contains(record));
        lemma_sent_as_resolved(resolved, record);
        let i = record.index as int;
        assert(resolves(output, identity, prompt, None, inputs[i], resolved[i]));
    }
}

/// A record is sent as it was resolved.
proof fn lemma_sent_as_resolved<O>(resolved: Seq<Resolved<O>>, record: Pending)
    requires
        resolved.len() <= usize::MAX,
        pending_of(resolved).contains(record),
    ensures
        record.index < resolved.len(),
        resolved[record.index as int] == (Resolved::<O>::Send {
            input: record.input,
            key: record.key,
        }),
{
    let pending = pending_of(resolved);
    let at = choose|at: int| 0 <= at < pending.len() && pending[at] == record;
    let i = record.index as int;
    lemma_resolved_bounds(resolved);
    lemma_every_record_is_resolved(resolved, i);
    lemma_no_record_comes_twice(resolved);
    assert(resolved[i] is Send);
    let same = Pending { index: i as usize, input: resolved[i]->input, key: resolved[i]->key };
    let k = choose|k: int| 0 <= k < pending.len() && pending[k] == same;
    assert(pending[k].index == pending[at].index);
    assert(k == at);
}

/// An output is stored before it is delivered: what follows from a reply to a
/// record that has a key is either a failure, or storing what the output is
/// encoded as under that key; it is delivered at once only where it can't be
/// encoded.
pub proof fn lemma_outputs_are_stored_first<O, X: OutputSpec<O>>(output: X, event: Answered<O>)
    requires
        follows(output, event),
    ensures
        match event.step {
            Step::Store { key, value, output: given } => event.record.key == Some(key)
                && output.encodes(given, Some(value)),
            Step::Deliver(Delivery::Fresh(found)) => event.record.key is Some ==> output.encodes(
                found,
                None,
            ),
            Step::Deliver(Delivery::Failed(_)) => true,
            _ => false,
        },
{
}

/// Which of the records to send have been sent, and how many of them are still
/// unanswered.
#[derive(Debug, Clone)]
pub struct Flight {
    /// How many records there are to send.
    pub total: usize,
    /// How many requests may be unanswered at once.
    pub limit: usize,
    /// How many records were sent, in order.
    pub sent: usize,
    /// How many replies came.
    pub answered: usize,
}

impl Flight {
    /// How many requests are unanswered.
    pub open spec fn unanswered(&self) -> int {
        self.sent - self.answered
    }

    /// Whether no more requests are unanswered than may be.
    pub open spec fn wf(&self) -> bool {
        &&& self.limit > 0
        &&& self.answered <= self.sent <= self.total
        &&& self.unanswered() <= self.limit
    }

    /// The start of a run that sends `total` records.
    pub fn new(options: &Options, total: usize) -> (r: Flight)
        ensures
            r.wf(),
            r.total == total,
            r.limit == if options.concurrency == 0 {
                1
            } else {
                options.concurrency
            },
            r.sent == 0,
            r.answered == 0,
    {
        let limit: usize = if options.concurrency == 0 {
            1
        } else {
            options.concurrency
        };
        Flight { total, limit, sent: 0, answered: 0 }
    }

    /// The position of the record to send now. Records are sent in order, as
    /// soon as another request may be unanswered; `None` when there is no
    /// record left or no room. While there are records left, something is then
    /// unanswered.
    pub fn next(&mut self) -> (r: Option<usize>)
        requires
            old(self).wf(),
        ensures
            final(self).wf(),
            final(self).total == old(self).total,
            final(self).limit == old(self).limit,
            final(self).answered == old(self).answered,
            match r {
                Some(at) => at == old(self).sent && at < old(self).total && old(self).unanswered()
                    < old(self).limit && final(self).sent == at + 1,
                None => *final(self) == *old(self) && (old(self).sent == old(self).total || old(
                    self,
                ).unanswered() == old(self).limit),
            },
            r is None && final(self).answered < final(self).total ==> final(self).unanswered() > 0,
    {
        if self.sent == self.total || self.sent - self.answered == self.limit {
            return None;
        }
        let at: usize = self.sent;
        let total: usize = self.total;
        proof {
            assert(at < total);
        }
        self.sent = at + 1;
        Some(at)
    }

    /// Takes note of a reply.
    pub fn on_reply(&mut self)
        requires
            old(self).wf(),
            old(self).unanswered() > 0,
        ensures
            final(self).wf(),
            final(self).total == old(self).total,
            final(self).limit == old(self).limit,
            final(self).sent == old(self).sent,
            final(self).answered == old(self).answered + 1,
    {
        self.answered = self.answered + 1;
    }
}

/// Whether one state of a run follows another: the next record was sent, or a
/// reply came.
pub open spec fn flies_on(before: Flight, after: Flight) -> bool {
    &&& after.total == before.total
    &&& after.limit == before.limit
    &&& {
        ||| before.sent < before.total && before.unanswered() < before.limit && after.sent
            == before.sent + 1 && after.answered == before.answered
        ||| before.unanswered() > 0 && after.sent == before.sent && after.answered
            == before.answered + 1
    }
}

/// At no time are more requests unanswered than may be, from the start of a run
/// on.
pub proof fn lemma_never_over_the_limit(states: Seq<Flight>, i: int)
    requires
        0 <= i < states.len(),
        states[0].wf(),
        forall|k: int, next: int|
            0 <= k < states.len() - 1 && next == k + 1 ==> flies_on(
                #[trigger] states[k],
                #[trigger] states[next],
            ),
    ensures
        states[i].limit == states[0].limit,
        0 <= states[i].unanswered() <= states[0].limit,
        states[i].wf(),
    decreases i,
{
    if i > 0 {
        lemma_never_over_the_limit(states, i - 1);
        assert(flies_on(states[i - 1], states[i]));
    }
}

/// The progress after a delivery.
pub open spec fn counted<O>(progress: Progress, delivery: Delivery<O>) -> Progress {
    let done = (progress.done + 1) as usize;
    match delivery {
        Delivery::Fresh(_) => Progress {
            done,
            succeeded: (progress.succeeded + 1) as usize,
            ..progress
        },
        Delivery::Cached(_) => Progress { done, cached: (progress.cached + 1) as usize, ..progress },
        Delivery::Failed(_) => Progress { done, failed: (progress.failed + 1) as usize, ..progress },
    }
}

/// The outcome of a record that gets a delivery.
pub open spec fn outcome_of<O>(delivery: Delivery<O>) -> Outcome {
    match delivery {
        Delivery::Fresh(_) => Outcome::Applied,
        Delivery::Cached(_) => Outcome::Cached,
        Delivery::Failed(err) => Outcome::Failed(err),
    }
}

/// The result of a record that gets a delivery.
pub open spec fn result_of<O>(delivery: Delivery<O>) -> Result<O, CompletionError> {
    match delivery {
        Delivery::Fresh(output) => Ok(output),
        Delivery::Cached(output) => Ok(output),
        Delivery::Failed(err) => Err(err),
    }
}

/// A run that applies each output to its record.
pub struct Run<'a, I, X, A> {
    /// What to do.
    pub transform: &'a Transform<I, X, A>,
    /// How to go about it.
    pub options: Options,
}

impl<'a, I, X, A> Run<'a, I, X, A> {
    /// A run with the default options.
    pub fn new(transform: &'a Transform<I, X, A>) -> (r: Run<'a, I, X, A>)
        ensures
            r.transform == transform,
            r.options.concurrency == 1,
            r.options.retries == 2,
            r.options.backoff.nanos == 500 * 1_000_000,
            r.options.circuit_breaker == 3,
            r.options.cache is None,
    {
        Run { transform, options: Options::default() }
    }

    /// How many requests may be in flight at once. Defaults to 1.
    ///
    /// Outputs are still applied one by one, so the result doesn't depend on
    /// the order replies arrive in.
    pub fn concurrency(self, requests: usize) -> (r: Self)
        ensures
            r.transform == self.transform,
            r.options == (Options {
                concurrency: if requests == 0 {
                    1
                } else {
                    requests
                },
                ..self.options
            }),
    {
        Run { transform: self.transform, options: self.options.concurrency(requests) }
    }

    /// How many times a request that fails with a retryable error is sent
    /// again. Defaults to 2. Fatal and record-specific failures are never
    /// retried.
    pub fn retries(self, retries: u32) -> (r: Self)
        ensures
            r.transform == self.transform,
            r.options == (Options { retries, ..self.options }),
    {
        Run { transform: self.transform, options: self.options.retries(retries) }
    }

    /// The wait before the first retry, doubled for each one after, plus up to
    /// 25% jitter, and capped at 30 seconds. A `Retry-After` from the server
    /// takes precedence. Defaults to 500 ms.
    pub fn retry_backoff(self, backoff: Duration) -> (r: Self)
        ensures
            r.transform == self.transform,
            r.options == (Options { backoff, ..self.options }),
    {
        Run { transform: self.transform, options: self.options.retry_backoff(backoff) }
    }

    /// Stops the run when this many requests in a row fail with fatal errors
    /// before the backend has answered once, as happens with a wrong model
    /// name or API key. Defaults to 3; 0 turns it off.
    pub fn circuit_breaker(self, threshold: usize) -> (r: Self)
        ensures
            r.transform == self.transform,
            r.options == (Options { circuit_breaker: threshold, ..self.options }),
    {
        Run { transform: self.transform, options: self.options.circuit_breaker(threshold) }
    }

    /// Keeps completed outputs in the JSON Lines file at `path` and reuses
    /// them instead of calling the model again.
    ///
    /// An output is reused only for the same backend, model, prompt, schema
    /// and input, so rerunning an interrupted run sends only the records that
    /// didn't finish, and changing the prompt sends them all.
    pub fn cache(self, path: &str) -> (r: Self)
        ensures
            r.transform == self.transform,
            r.options.concurrency == self.options.concurrency,
            r.options.retries == self.options.retries,
            r.options.backoff == self.options.backoff,
            r.options.circuit_breaker == self.options.circuit_breaker,
            r.options.cache matches Some(p) && p@ == path@,
    {
        Run { transform: self.transform, options: self.options.cache(path) }
    }

    /// Begins the run over `total` records. A transform without an apply step
    /// can't be run.
    pub fn begin(&self, total: usize) -> (r: Result<RunState<'a, A>, RunError>)
        ensures
            self.transform.apply is Some <==> r is Ok,
            match r {
                Ok(state) => {
                    &&& state.wf()
                    &&& Some(*state.apply) == self.transform.apply
                    &&& state.execution.progress == (Progress {
                        total,
                        done: 0,
                        succeeded: 0,
                        cached: 0,
                        failed: 0,
                        tokens: 0,
                    })
                    &&& state.execution.breaker() == breaker_after(
                        self.options.circuit_breaker as nat,
                        Seq::empty(),
                    )
                    &&& state.execution.circuit_breaker == self.options.circuit_breaker
                },
                Err(err) => {
                    &&& err matches RunError::Fatal { completed, source }
                    &&& completed == 0
                    &&& source matches FatalCause::Config(message)
                    &&& message@ == NO_APPLY_MESSAGE@
                },
            },
    {
        match &self.transform.apply {
            Some(apply) => {
                let execution = Execution::new(total, self.options.circuit_breaker);
                let outcomes = unset::<Outcome>(total);
                proof {
                    lemma_unset_counts(outcomes@);
                }
                Ok(RunState { apply, execution, outcomes })
            },
            None => Err(
                RunError::Fatal {
                    completed: 0,
                    source: FatalCause::Config(owned(NO_APPLY_MESSAGE)),
                },
            ),
        }
    }
}

/// `n` records without an outcome.
fn unset<R>(n: usize) -> (r: Vec<Option<R>>)
    ensures
        r@.len() == n,
        forall|i: int| 0 <= i < n ==> (#[trigger] r@[i]) is None,
{
    let mut list: Vec<Option<R>> = Vec::new();
    let mut i: usize = 0;
    while i < n
        invariant
            i <= n,
            list@.len() == i,
            forall|j: int| 0 <= j < i ==> (#[trigger] list@[j]) is None,
        decreases n - i,
    {
        list.push(None);
        i += 1;
    }
    list
}

/// Nothing counts before the first outcome.
proof fn lemma_unset_counts(outcomes: Seq<Option<Outcome>>)
    requires
        forall|i: int| 0 <= i < outcomes.len() ==> (#[trigger] outcomes[i]) is None,
    ensures
        count_where(outcomes, is_set()) == 0,
        count_where(outcomes, is_applied()) == 0,
        count_where(outcomes, is_cached()) == 0,
        count_where(outcomes, is_failed()) == 0,
{
    lemma_count_none(outcomes, is_set());
    lemma_count_none(outcomes, is_applied());
    lemma_count_none(outcomes, is_cached());
    lemma_count_none(outcomes, is_failed());
}

/// Whether a record has its outcome.
pub open spec fn is_set<R>() -> spec_fn(Option<R>) -> bool {
    |x: Option<R>| x is Some
}

/// Whether a record was completed by the model.
pub open spec fn is_applied() -> spec_fn(Option<Outcome>) -> bool {
    |x: Option<Outcome>| x == Some(Outcome::Applied)
}

/// Whether a record was completed from the cache.
pub open spec fn is_cached() -> spec_fn(Option<Outcome>) -> bool {
    |x: Option<Outcome>| x == Some(Outcome::Cached)
}

/// Whether a record failed.
pub open spec fn is_failed() -> spec_fn(Option<Outcome>) -> bool {
    |x: Option<Outcome>| x matches Some(outcome) && outcome is Failed
}

/// A run under way: the outcome of every record so far.
pub struct RunState<'a, A> {
    /// Where outputs go.
    pub apply: &'a A,
    /// What has happened.
    pub execution: Execution,
    /// The outcome of each record, once it has one.
    pub outcomes: Vec<Option<Outcome>>,
}

impl<'a, A> RunState<'a, A> {
    /// Whether the outcomes and the progress agree.
    pub open spec fn wf(&self) -> bool {
        &&& self.execution.wf()
        &&& self.outcomes@.len() == self.execution.progress.total
        &&& count_where(self.outcomes@, is_set()) == self.execution.progress.done
        &&& count_where(self.outcomes@, is_applied()) == self.execution.progress.succeeded
        &&& count_where(self.outcomes@, is_cached()) == self.execution.progress.cached
        &&& count_where(self.outcomes@, is_failed()) == self.execution.progress.failed
    }

    /// How far the run is.
    pub fn progress(&self) -> (r: Progress)
        ensures
            r == self.execution.progress,
    {
        self.execution.progress
    }

    /// Gives the record at `index` its outcome, applying the output to it if
    /// there is one. A record that failed is left unchanged, and so is every
    /// other record.
    pub fn deliver<T, O>(&mut self, records: &mut [T], index: usize, delivery: Delivery<O>)
        where A: Fn(&mut T, O)
        requires
            old(self).wf(),
            index < old(self).outcomes@.len(),
            old(self).outcomes@[index as int] is None,
            old(records)@.len() == old(self).outcomes@.len(),
            forall|r: &mut T, o: O| call_requires(*old(self).apply, (r, o)),
        ensures
            final(self).wf(),
            final(self).apply == old(self).apply,
            final(self).execution == (Execution {
                progress: counted(old(self).execution.progress, delivery),
                ..old(self).execution
            }),
            final(self).outcomes@ == old(self).outcomes@.update(
                index as int,
                Some(outcome_of(delivery)),
            ),
            final(records)@.len() == old(records)@.len(),
            forall|j: int|
                0 <= j < old(records)@.len() && j != index ==> #[trigger] final(records)@[j]
                    == old(records)@[j],
            delivery matches Delivery::Fresh(o) ==> exists|r: &mut T| #[trigger]
                call_ensures(*old(self).apply, (r, o), ()) && *r == old(records)@[index as int]
                    && *final(r) == final(records)@[index as int],
            delivery matches Delivery::Cached(o) ==> exists|r: &mut T| #[trigger]
                call_ensures(*old(self).apply, (r, o), ()) && *r == old(records)@[index as int]
                    && *final(r) == final(records)@[index as int],
            delivery is Failed ==> final(records)@ == old(records)@,
    {
        proof {
            let before = self.outcomes@;
            let outcome = Some(outcome_of(delivery));
            lemma_count_update(before, index as int, outcome, is_set());
            lemma_count_update(before, index as int, outcome, is_applied());
            lemma_count_update(before, index as int, outcome, is_cached());
            lemma_count_update(before, index as int, outcome, is_failed());
            lemma_count_all(before, is_set());
            lemma_count_all(before.update(index as int, outcome), is_set());
        }
        self.execution.count(&delivery);
        match delivery {
            Delivery::Fresh(output) => {
                self.outcomes.set(index, Some(Outcome::Applied));
                apply_to(self.apply, records, index, output);
            },
            Delivery::Cached(output) => {
                self.outcomes.set(index, Some(Outcome::Cached));
                apply_to(self.apply, records, index, output);
            },
            Delivery::Failed(err) => {
                self.outcomes.set(index, Some(Outcome::Failed(err)));
            },
        }
    }

    /// The report, once every record has its outcome.
    pub fn finish(self) -> (r: Report)
        requires
            self.wf(),
            self.execution.progress.done == self.execution.progress.total,
        ensures
            r.tokens == self.execution.progress.tokens,
            r.outcomes@.len() == self.outcomes@.len(),
            forall|i: int|
                0 <= i < self.outcomes@.len() ==> Some(#[trigger] r.outcomes@[i])
                    == self.outcomes@[i],
            applied_count(r.outcomes@) == self.execution.progress.succeeded,
            cached_count(r.outcomes@) == self.execution.progress.cached,
            failures_of(r.outcomes@).len() == self.execution.progress.failed,
    {
        let tokens: u64 = self.execution.progress.tokens;
        proof {
            lemma_count_all(self.outcomes@, is_set());
        }
        let ghost all = self.outcomes@;
        let outcomes = unwrap_all(self.outcomes);
        proof {
            lemma_report_counts(all, outcomes@);
        }
        Report { outcomes, tokens }
    }
}

/// Applies an output to the record at `index`.
fn apply_to<T, O, A: Fn(&mut T, O)>(apply: &A, records: &mut [T], index: usize, output: O)
    requires
        index < old(records)@.len(),
        forall|r: &mut T, o: O| call_requires(*apply, (r, o)),
    ensures
        final(records)@.len() == old(records)@.len(),
        forall|j: int|
            0 <= j < old(records)@.len() && j != index ==> #[trigger] final(records)@[j] == old(
                records,
            )@[j],
        exists|r: &mut T| #[trigger]
            call_ensures(*apply, (r, output), ()) && *r == old(records)@[index as int] && *final(r)
                == final(records)@[index as int],
{
    apply(&mut records[index], output);
}

/// The values of a list in which every one is set.
fn unwrap_all<R>(list: Vec<Option<R>>) -> (r: Vec<R>)
    requires
        forall|i: int| 0 <= i < list@.len() ==> is_set::<R>()(#[trigger] list@[i]),
    ensures
        r@.len() == list@.len(),
        forall|i: int| 0 <= i < list@.len() ==> Some(#[trigger] r@[i]) == list@[i],
{
    let mut values: Vec<R> = Vec::new();
    for slot in it: list
        invariant
            it.seq() == list@,
            values@.len() == it.index(),
            forall|i: int| 0 <= i < list@.len() ==> is_set::<R>()(#[trigger] list@[i]),
            forall|i: int| 0 <= i < values@.len() ==> Some(#[trigger] values@[i]) == list@[i],
    {
        proof {
            assert(is_set::<R>()(list@[it.index()]));
        }
        match slot {
            Some(value) => values.push(value),
            None => {},
        }
    }
    values
}

/// The counts of a report are those of the outcomes it is made of.
proof fn lemma_report_counts(set: Seq<Option<Outcome>>, outcomes: Seq<Outcome>)
    requires
        set.len() == outcomes.len(),
        forall|i: int| 0 <= i < set.len() ==> Some(#[trigger] outcomes[i]) == set[i],
    ensures
        applied_count(outcomes) == count_where(set, is_applied()),
        cached_count(outcomes) == count_where(set, is_cached()),
        failures_of(outcomes).len() == count_where(set, is_failed()),
    decreases set.len(),
{
    if set.len() > 0 {
        let (s, o) = (set.drop_last(), outcomes.drop_last());
        assert forall|i: int| 0 <= i < s.len() implies Some(#[trigger] o[i]) == s[i] by {
            assert(Some(outcomes[i]) == set[i]);
        }
        assert(Some(outcomes[outcomes.len() - 1]) == set[set.len() - 1]);
        lemma_report_counts(s, o);
    }
}

/// A run that returns the outputs instead of applying them.
pub struct Complete<'a, I, X, A> {
    /// What to do.
    pub transform: &'a Transform<I, X, A>,
    /// How to go about it.
    pub options: Options,
}

impl<'a, I, X, A> Complete<'a, I, X, A> {
    /// A completion with the default options.
    pub fn new(transform: &'a Transform<I, X, A>) -> (r: Complete<'a, I, X, A>)
        ensures
            r.transform == transform,
            r.options.concurrency == 1,
            r.options.retries == 2,
            r.options.backoff.nanos == 500 * 1_000_000,
            r.options.circuit_breaker == 3,
            r.options.cache is None,
    {
        Complete { transform, options: Options::default() }
    }

    /// How many requests may be in flight at once; see [`Run::concurrency`].
    pub fn concurrency(self, requests: usize) -> (r: Self)
        ensures
            r.transform == self.transform,
            r.options == (Options {
                concurrency: if requests == 0 {
                    1
                } else {
                    requests
                },
                ..self.options
            }),
    {
        Complete { transform: self.transform, options: self.options.concurrency(requests) }
    }

    /// How many times a request is sent again; see [`Run::retries`].
    pub fn retries(self, retries: u32) -> (r: Self)
        ensures
            r.transform == self.transform,
            r.options == (Options { retries, ..self.options }),
    {
        Complete { transform: self.transform, options: self.options.retries(retries) }
    }

    /// The wait before the first retry; see [`Run::retry_backoff`].
    pub fn retry_backoff(self, backoff: Duration) -> (r: Self)
        ensures
            r.transform == self.transform,
            r.options == (Options { backoff, ..self.options }),
    {
        Complete { transform: self.transform, options: self.options.retry_backoff(backoff) }
    }

    /// How many fatal failures in a row stop the run; see
    /// [`Run::circuit_breaker`].
    pub fn circuit_breaker(self, threshold: usize) -> (r: Self)
        ensures
            r.transform == self.transform,
            r.options == (Options { circuit_breaker: threshold, ..self.options }),
    {
        Complete { transform: self.transform, options: self.options.circuit_breaker(threshold) }
    }

    /// The file that keeps completed outputs; see [`Run::cache`].
    pub fn cache(self, path: &str) -> (r: Self)
        ensures
            r.transform == self.transform,
            r.options.concurrency == self.options.concurrency,
            r.options.retries == self.options.retries,
            r.options.backoff == self.options.backoff,
            r.options.circuit_breaker == self.options.circuit_breaker,
            r.options.cache matches Some(p) && p@ == path@,
    {
        Complete { transform: self.transform, options: self.options.cache(path) }
    }

    /// Begins the run over `total` records.
    pub fn begin<O>(&self, total: usize) -> (state: CompleteState<O>)
        ensures
            state.wf(),
            state.execution.progress == (Progress {
                total,
                done: 0,
                succeeded: 0,
                cached: 0,
                failed: 0,
                tokens: 0,
            }),
            state.execution.breaker() == breaker_after(
                self.options.circuit_breaker as nat,
                Seq::empty(),
            ),
            state.execution.circuit_breaker == self.options.circuit_breaker,
    {
        let execution = Execution::new(total, self.options.circuit_breaker);
        let results = unset::<Result<O, CompletionError>>(total);
        proof {
            lemma_count_none(results@, is_set());
        }
        CompleteState { execution, results }
    }
}

/// A completion under way: the result of every record so far.
pub struct CompleteState<O> {
    /// What has happened.
    pub execution: Execution,
    /// The result of each record, once it has one.
    pub results: Vec<Option<Result<O, CompletionError>>>,
}

impl<O> CompleteState<O> {
    /// Whether the results and the progress agree.
    pub open spec fn wf(&self) -> bool {
        &&& self.execution.wf()
        &&& self.results@.len() == self.execution.progress.total
        &&& count_where(self.results@, is_set()) == self.execution.progress.done
    }

    /// How far the run is.
    pub fn progress(&self) -> (r: Progress)
        ensures
            r == self.execution.progress,
    {
        self.execution.progress
    }

    /// Gives the record at `index` its result.
    pub fn deliver(&mut self, index: usize, delivery: Delivery<O>)
        requires
            old(self).wf(),
            index < old(self).results@.len(),
            old(self).results@[index as int] is None,
        ensures
            final(self).wf(),
            final(self).execution == (Execution {
                progress: counted(old(self).execution.progress, delivery),
                ..old(self).execution
            }),
            final(self).results@ == old(self).results@.update(
                index as int,
                Some(result_of(delivery)),
            ),
    {
        proof {
            let before = self.results@;
            let result = Some(result_of(delivery));
            lemma_count_update(before, index as int, result, is_set());
            lemma_count_all(before.update(index as int, result), is_set());
        }
        self.execution.count(&delivery);
        let result = match delivery {
            Delivery::Fresh(output) => Ok(output),
            Delivery::Cached(output) => Ok(output),
            Delivery::Failed(err) => Err(err),
        };
        self.results.set(index, Some(result));
    }

    /// One result per record, in record order, once every record has its own.
    pub fn finish(self) -> (r: Vec<Result<O, CompletionError>>)
        requires
            self.wf(),
            self.execution.progress.done == self.execution.progress.total,
        ensures
            r@.len() == self.results@.len(),
            forall|i: int|
                0 <= i < self.results@.len() ==> Some(#[trigger] r@[i]) == self.results@[i],
    {
        proof {
            lemma_count_all(self.results@, is_set());
        }
        unwrap_all(self.results)
    }
}

/// The outcomes of `total` records after some deliveries, in the order they
/// arrived.
pub open spec fn arrived<R>(total: nat, events: Seq<(int, R)>) -> Seq<Option<R>>
    decreases events.len(),
{
    if events.len() == 0 {
        Seq::new(total, |i: int| None)
    } else {
        arrived(total, events.drop_last()).update(events.last().0, Some(events.last().1))
    }
}

/// Whether each of `total` records gets exactly one delivery.
pub open spec fn one_each<R>(total: nat, events: Seq<(int, R)>) -> bool {
    &&& forall|j: int| 0 <= j < events.len() ==> 0 <= (#[trigger] events[j]).0 < total
    &&& forall|i: int, j: int|
        0 <= i < j < events.len() ==> (#[trigger] events[i]).0 != (#[trigger] events[j]).0
    &&& forall|i: int| 0 <= i < total ==> #[trigger] is_delivered(events, i)
}

/// Whether the record at `i` gets a delivery.
pub open spec fn is_delivered<R>(events: Seq<(int, R)>, i: int) -> bool {
    exists|k: int| 0 <= k < events.len() && (#[trigger] events[k]).0 == i
}

/// When each record gets one delivery, every record ends with the outcome that
/// was delivered for it, at its own position.
pub proof fn lemma_outcomes_in_record_order<R>(total: nat, events: Seq<(int, R)>)
    requires
        one_each(total, events),
    ensures
        arrived(total, events).len() == total,
        forall|i: int| 0 <= i < total ==> (#[trigger] arrived(total, events)[i]) is Some,
        forall|k: int|
            0 <= k < events.len() ==> arrived(total, events)[(#[trigger] events[k]).0] == Some(
                events[k].1,
            ),
{
    lemma_arrived_len(total, events);
    assert forall|k: int| 0 <= k < events.len() implies arrived(total, events)[(
    #[trigger] events[k]).0] == Some(events[k].1) by {
        lemma_arrived_at(total, events, k);
    }
    assert forall|i: int| 0 <= i < total implies (#[trigger] arrived(total, events)[i]) is Some by {
        assert(is_delivered(events, i));
        let k = choose|k: int| 0 <= k < events.len() && (#[trigger] events[k]).0 == i;
        lemma_arrived_at(total, events, k);
    }
}

/// A delivery stays when no later one is for the same record.
proof fn lemma_arrived_at<R>(total: nat, events: Seq<(int, R)>, k: int)
    requires
        forall|j: int| 0 <= j < events.len() ==> 0 <= (#[trigger] events[j]).0 < total,
        forall|i: int, j: int|
            0 <= i < j < events.len() ==> (#[trigger] events[i]).0 != (#[trigger] events[j]).0,
        0 <= k < events.len(),
    ensures
        arrived(total, events)[events[k].0] == Some(events[k].1),
    decreases events.len(),
{
    let rest = events.drop_last();
    assert forall|j: int| 0 <= j < rest.len() implies 0 <= (#[trigger] rest[j]).0 < total by {
        assert(events[j] == rest[j]);
    }
    lemma_arrived_len(total, rest);
    assert(0 <= events[events.len() - 1].0 < total);
    if k < rest.len() {
        assert forall|i: int, j: int| 0 <= i < j < rest.len() implies (#[trigger] rest[i]).0 != (
        #[trigger] rest[j]).0 by {
            assert(events[i].0 != events[j].0);
        }
        lemma_arrived_at(total, rest, k);
        assert(rest[k] == events[k]);
        assert(events[k].0 != events[events.len() - 1].0);
    }
}

/// One outcome slot per record.
proof fn lemma_arrived_len<R>(total: nat, events: Seq<(int, R)>)
    requires
        forall|j: int| 0 <= j < events.len() ==> 0 <= (#[trigger] events[j]).0 < total,
    ensures
        arrived(total, events).len() == total,
    decreases events.len(),
{
    if events.len() > 0 {
        let rest = events.drop_last();
        assert forall|j: int| 0 <= j < rest.len() implies 0 <= (#[trigger] rest[j]).0 < total by {
            assert(events[j] == rest[j]);
        }
        lemma_arrived_len(total, rest);
        assert(0 <= events[events.len() - 1].0 < total);
    }
}

/// The order in which replies arrive doesn't change any outcome: two runs that
/// deliver the same outcomes, one per record, end alike.
pub proof fn lemma_arrival_order_does_not_matter<R>(
    total: nat,
    events: Seq<(int, R)>,
    other: Seq<(int, R)>,
)
    requires
        one_each(total, events),
        one_each(total, other),
        forall|x: (int, R)| events.contains(x) <==> other.contains(x),
    ensures
        arrived(total, events) == arrived(total, other),
{
    lemma_outcomes_in_record_order(total, events);
    lemma_outcomes_in_record_order(total, other);
    assert forall|i: int| 0 <= i < total implies arrived(total, events)[i] == arrived(
        total,
        other,
    )[i] by {
        assert(is_delivered(events, i));
        let k = choose|k: int| 0 <= k < events.len() && (#[trigger] events[k]).0 == i;
        assert(events.contains(events[k]));
        assert(other.contains(events[k]));
        let j = choose|j: int| 0 <= j < other.len() && other[j] == events[k];
        assert(other[j].0 == i);
    }
    assert(arrived(total, events) =~= arrived(total, other));
}

} // verus!
