//! What a run does with every record and every reply.

use crate::backend::{BackendError, BackendIdentity, ChatResponse, ErrorKind, OutputSchema, Usage};
use crate::json::JsonValue;
use crate::text::number::to_decimal;
use crate::time::Duration;
use crate::transform::cache::CompletionCache;
use crate::transform::definition::{OutputSpec, Transform};
use crate::transform::error::{
    CompletionCacheError, CompletionError, ErrorClass, FatalCause, InputError, RunError,
};
use crate::transform::llm::Llm;
use crate::transform::report::{
    applied_count, cached_count, failures_of, lemma_failures_in_record_order, Counts, Outcome,
    Progress, Report,
};
use crate::transform::run::{
    deliveries_of, lemma_every_record_is_resolved, lemma_no_record_comes_twice, pending_of,
    prepare, resolve, Complete, CompleteState, Delivery, Execution, Flight, Options, Pending,
    Resolved, Run, RunState, Step,
};
use vstd::prelude::*;
use vstd::string::*;

verus! {

/// Whether options are the ones that hold unless others are set.
pub open spec fn are_defaults(options: Options) -> bool {
    &&& options.concurrency == 1
    &&& options.retries == 2
    &&& options.backoff.nanos == 500_000_000
    &&& options.circuit_breaker == 3
    &&& options.cache is None
}

/// A run begins with the defaults, and with the transform it is for.
pub proof fn lemma_defaults<'a, B, I, X, A>(
    options: Options,
    llm: &Llm<B>,
    transform: &'a Transform<I, X, A>,
    run: Run<'a, I, X, A>,
    complete: Complete<'a, I, X, A>,
    r: Run<'a, I, X, A>,
    c: Complete<'a, I, X, A>,
)
    requires
        call_ensures(<Options as Default>::default, (), options),
        call_ensures(Run::<'a, I, X, A>::new, (transform,), run),
        call_ensures(Complete::<'a, I, X, A>::new, (transform,), complete),
        call_ensures(Llm::<B>::run::<I, X, A>, (llm, transform), r),
        call_ensures(Llm::<B>::complete::<I, X, A>, (llm, transform), c),
    ensures
        are_defaults(options),
        are_defaults(run.options) && run.transform == transform,
        are_defaults(complete.options) && complete.transform == transform,
        are_defaults(r.options) && r.transform == transform,
        are_defaults(c.options) && c.transform == transform,
{
}

/// Each option is set to what is given and changes no other. At least one
/// request is allowed at once.
pub proof fn lemma_options_change_nothing_else(
    options: Options,
    requests: usize,
    retries: u32,
    backoff: Duration,
    threshold: usize,
    path: &str,
    a: Options,
    b: Options,
    c: Options,
    d: Options,
    e: Options,
)
    requires
        call_ensures(Options::concurrency, (options, requests), a),
        call_ensures(Options::retries, (a, retries), b),
        call_ensures(Options::retry_backoff, (b, backoff), c),
        call_ensures(Options::circuit_breaker, (c, threshold), d),
        call_ensures(Options::cache, (d, path), e),
    ensures
        requests > 0 ==> e.concurrency == requests,
        requests == 0 ==> e.concurrency == 1,
        e.retries == retries,
        e.backoff == backoff,
        e.circuit_breaker == threshold,
        e.cache matches Some(p) && p@ == path@,
        a.retries == options.retries && a.backoff == options.backoff && a.circuit_breaker
            == options.circuit_breaker && a.cache == options.cache,
{
}

/// The same holds of the options of a run.
pub proof fn lemma_run_options<'a, I, X, A>(
    run: Run<'a, I, X, A>,
    requests: usize,
    retries: u32,
    backoff: Duration,
    threshold: usize,
    path: &str,
    a: Run<'a, I, X, A>,
    b: Run<'a, I, X, A>,
    c: Run<'a, I, X, A>,
    d: Run<'a, I, X, A>,
    e: Run<'a, I, X, A>,
)
    requires
        call_ensures(Run::<'a, I, X, A>::concurrency, (run, requests), a),
        call_ensures(Run::<'a, I, X, A>::retries, (a, retries), b),
        call_ensures(Run::<'a, I, X, A>::retry_backoff, (b, backoff), c),
        call_ensures(Run::<'a, I, X, A>::circuit_breaker, (c, threshold), d),
        call_ensures(Run::<'a, I, X, A>::cache, (d, path), e),
    ensures
        e.transform == run.transform,
        requests > 0 ==> e.options.concurrency == requests,
        requests == 0 ==> e.options.concurrency == 1,
        e.options.retries == retries,
        e.options.backoff == backoff,
        e.options.circuit_breaker == threshold,
        e.options.cache matches Some(p) && p@ == path@,
{
}

/// And of the options of a completion.
pub proof fn lemma_complete_options<'a, I, X, A>(
    run: Complete<'a, I, X, A>,
    requests: usize,
    retries: u32,
    backoff: Duration,
    threshold: usize,
    path: &str,
    a: Complete<'a, I, X, A>,
    b: Complete<'a, I, X, A>,
    c: Complete<'a, I, X, A>,
    d: Complete<'a, I, X, A>,
    e: Complete<'a, I, X, A>,
)
    requires
        call_ensures(Complete::<'a, I, X, A>::concurrency, (run, requests), a),
        call_ensures(Complete::<'a, I, X, A>::retries, (a, retries), b),
        call_ensures(Complete::<'a, I, X, A>::retry_backoff, (b, backoff), c),
        call_ensures(Complete::<'a, I, X, A>::circuit_breaker, (c, threshold), d),
        call_ensures(Complete::<'a, I, X, A>::cache, (d, path), e),
    ensures
        e.transform == run.transform,
        requests > 0 ==> e.options.concurrency == requests,
        requests == 0 ==> e.options.concurrency == 1,
        e.options.retries == retries,
        e.options.backoff == backoff,
        e.options.circuit_breaker == threshold,
        e.options.cache matches Some(p) && p@ == path@,
{
}

/// A record that can't be rendered fails with that error. One that can is sent
/// as it was rendered, whole, where there is no cache or the cache has nothing
/// for it that fits; otherwise it gets what the cache has.
pub proof fn lemma_records_are_resolved<O, X: OutputSpec<O>>(
    output: &X,
    identity: &BackendIdentity,
    prompt: &str,
    cache: &Option<CompletionCache>,
    input: Result<String, InputError>,
    schema: Option<&OutputSchema>,
    text: &str,
    key: String,
    asked: &str,
    hit: Option<&JsonValue>,
    r: Resolved<O>,
)
    requires
        call_ensures(resolve::<O, X>, (output, identity, prompt, cache, input), r),
        call_ensures(X::schema, (output,), schema),
        input matches Ok(rendered) ==> text@ == rendered@,
        call_ensures(CompletionCache::key, (identity, prompt, schema, text), key),
        asked@ == key@,
        *cache is Some ==> call_ensures(CompletionCache::get, (&cache->0, asked), hit),
    ensures
        input matches Err(err) ==> r == Resolved::<O>::Deliver(
            Delivery::Failed(CompletionError::Input(err)),
        ),
        input matches Ok(rendered) ==> match r {
            Resolved::Send { input: sent, key: k } => sent == rendered && (*cache is None
                ==> k is None) && (*cache is Some ==> (k matches Some(given) && given@ == key@) && (
            hit is None || output.decodes(hit->0@, None))),
            Resolved::Deliver(Delivery::Cached(found)) => *cache is Some && hit is Some
                && output.decodes(hit->0@, Some(found)),
            Resolved::Deliver(_) => false,
        },
{
}

/// Whether a record is among those that need no model.
pub open spec fn is_delivered_at<O>(delivered: Seq<(usize, Delivery<O>)>, i: int) -> bool {
    exists|k: int| 0 <= k < delivered.len() && (#[trigger] delivered[k]).0 == i
}

/// Whether a record is among those to send, as it was rendered.
pub open spec fn is_sent_at(pending: Seq<Pending>, i: int, text: String) -> bool {
    exists|k: int|
        0 <= k < pending.len() && (#[trigger] pending[k]).index == i && pending[k].input == text
}

/// Every record either needs no model or is sent as it was rendered, once, and
/// both lists are in record order. A record that can't be rendered isn't sent.
pub proof fn lemma_every_record_is_prepared<O, X: OutputSpec<O>>(
    output: &X,
    identity: &BackendIdentity,
    prompt: &str,
    cache: &Option<CompletionCache>,
    inputs: Vec<Result<String, InputError>>,
    r: (Vec<(usize, Delivery<O>)>, Vec<Pending>),
)
    requires
        call_ensures(prepare::<O, X>, (output, identity, prompt, cache, inputs), r),
        inputs@.len() <= usize::MAX,
    ensures
        r.0@.len() + r.1@.len() == inputs@.len(),
        forall|i: int|
            0 <= i < inputs@.len() ==> match #[trigger] inputs@[i] {
                Ok(text) => is_delivered_at(r.0@, i) || is_sent_at(r.1@, i, text),
                Err(_) => is_delivered_at(r.0@, i),
            },
        forall|j: int, k: int|
            0 <= j < k < r.0@.len() ==> (#[trigger] r.0@[j]).0 < (#[trigger] r.0@[k]).0,
        forall|j: int, k: int|
            0 <= j < k < r.1@.len() ==> (#[trigger] r.1@[j]).index < (#[trigger] r.1@[k]).index,
        *cache is None ==> forall|i: int|
            0 <= i < inputs@.len() ==> (#[trigger] inputs@[i] matches Ok(text) ==> is_sent_at(
                r.1@,
                i,
                text,
            )),
{
    let resolved = choose|resolved: Seq<Resolved<O>>| #[trigger]
        crate::transform::run::is_prepared(
            *output,
            identity@,
            prompt@,
            *cache,
            inputs@,
            resolved,
        ) && r.0@ == deliveries_of(resolved) && r.1@ == pending_of(resolved);
    lemma_no_record_comes_twice(resolved);
    if inputs@.len() > 0 {
        lemma_every_record_is_resolved(resolved, 0);
    } else {
        assert(deliveries_of(resolved).len() == 0);
        assert(pending_of(resolved).len() == 0);
    }
    assert forall|i: int| 0 <= i < inputs@.len() implies (match #[trigger] inputs@[i] {
        Ok(text) => is_delivered_at(r.0@, i) || is_sent_at(r.1@, i, text),
        Err(_) => is_delivered_at(r.0@, i),
    }) && (*cache is None ==> (inputs@[i] matches Ok(text) ==> is_sent_at(r.1@, i, text))) by {
        lemma_every_record_is_resolved(resolved, i);
        assert(crate::transform::run::resolves(
            *output,
            identity@,
            prompt@,
            *cache,
            inputs@[i],
            resolved[i],
        ));
        match resolved[i] {
            Resolved::Deliver(delivery) => {
                let x = (i as usize, delivery);
                let k = choose|k: int| 0 <= k < r.0@.len() && r.0@[k] == x;
                assert(r.0@[k].0 == i);
            },
            Resolved::Send { input, key } => {
                let x = Pending { index: i as usize, input, key };
                let k = choose|k: int| 0 <= k < r.1@.len() && r.1@[k] == x;
                assert(r.1@[k].index == i);
            },
        }
    }
}

/// Whether a step is what a reply with a text comes to: the output that it
/// parses into, stored under the key of the record first where it has one and
/// can be encoded, or the failure to parse it.
pub open spec fn follows_from_text<O, X: OutputSpec<O>>(
    output: X,
    key: Option<String>,
    text: Seq<char>,
    step: Step<O>,
) -> bool {
    match step {
        Step::Deliver(Delivery::Fresh(value)) => output.parses(text, Ok(value)) && (key is None
            || output.encodes(value, None)),
        Step::Deliver(Delivery::Failed(err)) => output.parses(text, Err(err)),
        Step::Store { key: k, value: json, output: value } => key == Some(k) && output.parses(
            text,
            Ok(value),
        ) && output.encodes(value, Some(json)),
        _ => false,
    }
}

/// An answer disarms the circuit breaker, adds its tokens, and comes to what its
/// whole text parses into.
pub proof fn lemma_answers<O, X: OutputSpec<O>>(
    run: &mut Execution,
    output: &X,
    key: Option<String>,
    response: ChatResponse,
    used: u64,
    step: Step<O>,
)
    requires
        call_ensures(
            Execution::on_reply::<O, X>,
            (run, output, key, Ok::<ChatResponse, BackendError>(response)),
            step,
        ),
        response.usage matches Some(usage) ==> call_ensures(Usage::total, (&usage,), used),
        old(run).progress.tokens + used <= u64::MAX,
    ensures
        final(run).answered,
        final(run).fatal_streak == 0,
        final(run).circuit_breaker == old(run).circuit_breaker,
        final(run).progress.tokens == if response.usage is Some {
            old(run).progress.tokens + used
        } else {
            old(run).progress.tokens as int
        },
        final(run).progress.total == old(run).progress.total && final(run).progress.done == old(run).progress.done && final(run).progress.succeeded == old(run).progress.succeeded && final(run).progress.cached == old(run).progress.cached && final(run).progress.failed == old(run).progress.failed,
        follows_from_text(*output, key, response.text@, step),
{
}

/// A failure is delivered to its record as it is. It stops the run instead where
/// the breaker is on, the backend has never answered, and with this one as many
/// replies in a row as allowed were fatal failures.
pub proof fn lemma_failures<O, X: OutputSpec<O>>(
    run: &mut Execution,
    output: &X,
    key: Option<String>,
    err: BackendError,
    step: Step<O>,
)
    requires
        call_ensures(
            Execution::on_reply::<O, X>,
            (run, output, key, Err::<ChatResponse, BackendError>(err)),
            step,
        ),
        old(run).wf(),
    ensures
        final(run).progress == old(run).progress,
        final(run).answered == old(run).answered,
        final(run).circuit_breaker == old(run).circuit_breaker,
        old(run).circuit_breaker > 0 && !old(run).answered && err.kind == ErrorKind::Fatal && old(run).fatal_streak + 1 >= old(run).circuit_breaker ==> (step matches Step::Stop(
            RunError::Fatal { completed, source: FatalCause::CircuitOpen { failures, last } },
        ) && last == err && failures == old(run).fatal_streak + 1 && completed == old(run).progress.succeeded + old(run).progress.cached),
        !(old(run).circuit_breaker > 0 && !old(run).answered && err.kind == ErrorKind::Fatal && old(run).fatal_streak + 1 >= old(run).circuit_breaker) ==> step == Step::<O>::Deliver(
            Delivery::Failed(CompletionError::Backend(err)),
        ),
        old(run).circuit_breaker > 0 && !old(run).answered && err.kind == ErrorKind::Fatal
            ==> final(run).fatal_streak == old(run).fatal_streak + 1,
        err.kind != ErrorKind::Fatal ==> final(run).fatal_streak == 0,
{
}

/// A stored output is delivered as it is; one that couldn't be stored stops the
/// run with that error.
pub proof fn lemma_stored_outputs_are_delivered<O>(
    run: &Execution,
    output: O,
    stored: Result<(), CompletionCacheError>,
    step: Step<O>,
)
    requires
        run.wf(),
        call_ensures(Execution::on_stored::<O>, (run, output, stored), step),
    ensures
        stored is Ok ==> step == Step::Deliver(Delivery::Fresh(output)),
        stored matches Err(err) ==> (step matches Step::Stop(
            RunError::Fatal { completed, source: FatalCause::Cache(e) },
        ) && e == err && completed == run.progress.succeeded + run.progress.cached),
{
}

/// Every delivery counts once, where it belongs.
pub proof fn lemma_deliveries_are_counted<O>(run: &mut Execution, delivery: &Delivery<O>)
    requires
        old(run).wf(),
        old(run).progress.done < old(run).progress.total,
        call_ensures(Execution::count::<O>, (run, delivery), ()),
    ensures
        final(run).progress.done == old(run).progress.done + 1,
        final(run).progress.succeeded == old(run).progress.succeeded + if *delivery is Fresh {
            1int
        } else {
            0
        },
        final(run).progress.cached == old(run).progress.cached + if *delivery is Cached {
            1int
        } else {
            0
        },
        final(run).progress.failed == old(run).progress.failed + if *delivery is Failed {
            1int
        } else {
            0
        },
        final(run).progress.total == old(run).progress.total,
        final(run).progress.tokens == old(run).progress.tokens,
{
}

/// A run begins with nothing done, and only with a transform that has an apply
/// step.
pub proof fn lemma_runs_begin<'a, I, X, A, O>(
    run: &Run<'a, I, X, A>,
    complete: &Complete<'a, I, X, A>,
    total: usize,
    r: Result<RunState<'a, A>, RunError>,
    c: CompleteState<O>,
)
    requires
        call_ensures(Run::<'a, I, X, A>::begin, (run, total), r),
        call_ensures(Complete::<'a, I, X, A>::begin::<O>, (complete, total), c),
    ensures
        r is Ok <==> run.transform.apply is Some,
        r matches Ok(state) ==> {
            &&& Some(*state.apply) == run.transform.apply
            &&& begins(state.execution, total, run.options.circuit_breaker)
            &&& state.outcomes@.len() == total
            &&& forall|i: int| 0 <= i < total ==> (#[trigger] state.outcomes@[i]) is None
        },
        begins(c.execution, total, complete.options.circuit_breaker),
        c.results@.len() == total,
        forall|i: int| 0 <= i < total ==> (#[trigger] c.results@[i]) is None,
{
    if let Ok(state) = r {
        lemma_nothing_set(state.outcomes@);
    }
    lemma_nothing_set(c.results@);
}

/// Nothing is set where nothing counts.
proof fn lemma_nothing_set<R>(list: Seq<Option<R>>)
    requires
        crate::list::count_where(list, crate::transform::run::is_set()) == 0,
    ensures
        forall|i: int| 0 <= i < list.len() ==> (#[trigger] list[i]) is None,
    decreases list.len(),
{
    if list.len() > 0 {
        let rest = list.drop_last();
        lemma_nothing_set(rest);
        assert forall|i: int| 0 <= i < list.len() implies (#[trigger] list[i]) is None by {
            if i < rest.len() {
                assert(rest[i] == list[i]);
            } else {
                assert(!crate::transform::run::is_set::<R>()(list.last()));
            }
        }
    }
}

/// Whether nothing has happened yet.
pub open spec fn begins(run: Execution, total: usize, circuit_breaker: usize) -> bool {
    &&& run.progress == (Progress { total, done: 0, succeeded: 0, cached: 0, failed: 0, tokens: 0 })
    &&& !run.answered
    &&& run.fatal_streak == 0
    &&& run.circuit_breaker == circuit_breaker
}

/// A delivery gives its record its outcome, and no other record an outcome or a
/// change. A failure is kept as it is, and changes no record.
pub proof fn lemma_records_get_their_outcomes<'a, A: Fn(&mut T, O), T, O>(
    state: &mut RunState<'a, A>,
    records: &mut [T],
    index: usize,
    delivery: Delivery<O>,
)
    requires
        index < old(state).outcomes@.len(),
        old(records)@.len() == old(state).outcomes@.len(),
        call_ensures(RunState::<'a, A>::deliver::<T, O>, (state, records, index, delivery), ()),
    ensures
        final(state).outcomes@.len() == old(state).outcomes@.len(),
        forall|i: int|
            0 <= i < old(state).outcomes@.len() && i != index ==> #[trigger] final(state).outcomes@[i]
                == old(state).outcomes@[i],
        delivery is Fresh ==> final(state).outcomes@[index as int] == Some(Outcome::Applied),
        delivery is Cached ==> final(state).outcomes@[index as int] == Some(Outcome::Cached),
        delivery matches Delivery::Failed(err) ==> final(state).outcomes@[index as int] == Some(
            Outcome::Failed(err),
        ) && final(records)@ == old(records)@,
        final(records)@.len() == old(records)@.len(),
        forall|i: int|
            0 <= i < old(records)@.len() && i != index ==> #[trigger] final(records)@[i] == old(records)@[i],
        delivery matches Delivery::Fresh(o) ==> exists|r: &mut T| #[trigger]
            call_ensures(*old(state).apply, (r, o), ()) && *r == old(records)@[index as int]
                && *final(r) == final(records)@[index as int],
        delivery matches Delivery::Cached(o) ==> exists|r: &mut T| #[trigger]
            call_ensures(*old(state).apply, (r, o), ()) && *r == old(records)@[index as int]
                && *final(r) == final(records)@[index as int],
{
}

/// A delivery gives its record its result, whole, and no other record.
pub proof fn lemma_records_get_their_results<O>(
    state: &mut CompleteState<O>,
    index: usize,
    delivery: Delivery<O>,
)
    requires
        index < old(state).results@.len(),
        call_ensures(CompleteState::<O>::deliver, (state, index, delivery), ()),
    ensures
        final(state).results@.len() == old(state).results@.len(),
        forall|i: int|
            0 <= i < old(state).results@.len() && i != index ==> #[trigger] final(state).results@[i]
                == old(state).results@[i],
        delivery matches Delivery::Fresh(o) ==> final(state).results@[index as int] == Some(
            Ok::<O, CompletionError>(o),
        ),
        delivery matches Delivery::Cached(o) ==> final(state).results@[index as int] == Some(
            Ok::<O, CompletionError>(o),
        ),
        delivery matches Delivery::Failed(e) ==> final(state).results@[index as int] == Some(
            Err::<O, CompletionError>(e),
        ),
{
}

/// A finished run gives every outcome, in record order, and its tokens.
pub proof fn lemma_finished_runs_give_everything<'a, A, O>(
    state: RunState<'a, A>,
    r: Report,
    other: CompleteState<O>,
    c: Vec<Result<O, CompletionError>>,
)
    requires
        call_ensures(RunState::<'a, A>::finish, (state,), r),
        call_ensures(CompleteState::<O>::finish, (other,), c),
    ensures
        r.outcomes@.len() == state.outcomes@.len(),
        forall|i: int|
            0 <= i < r.outcomes@.len() ==> Some(#[trigger] r.outcomes@[i]) == state.outcomes@[i],
        r.tokens == state.execution.progress.tokens,
        c@.len() == other.results@.len(),
        forall|i: int| 0 <= i < c@.len() ==> Some(#[trigger] c@[i]) == other.results@[i],
{
}

/// How far a run is, is told as it is.
pub proof fn lemma_progress_is_told<'a, A, O>(
    state: &RunState<'a, A>,
    other: &CompleteState<O>,
    r: Progress,
    s: Progress,
)
    requires
        call_ensures(RunState::<'a, A>::progress, (state,), r),
        call_ensures(CompleteState::<O>::progress, (other,), s),
    ensures
        r == state.execution.progress,
        s == other.execution.progress,
{
}

/// A report counts every outcome once, under its kind.
pub proof fn lemma_reports_count_every_outcome(report: &Report, r: Counts)
    requires
        call_ensures(Report::counts, (report,), r),
    ensures
        r.applied == report.outcomes@.filter(|o: Outcome| o is Applied).len(),
        r.cached == report.outcomes@.filter(|o: Outcome| o is Cached).len(),
        r.failed == report.outcomes@.filter(|o: Outcome| o is Failed).len(),
        r.applied + r.cached + r.failed == report.outcomes@.len(),
{
    lemma_counts(report.outcomes@);
}

/// The counts of outcomes.
proof fn lemma_counts(outcomes: Seq<Outcome>)
    ensures
        applied_count(outcomes) == outcomes.filter(|o: Outcome| o is Applied).len(),
        cached_count(outcomes) == outcomes.filter(|o: Outcome| o is Cached).len(),
        failures_of(outcomes).len() == outcomes.filter(|o: Outcome| o is Failed).len(),
        applied_count(outcomes) + cached_count(outcomes) + failures_of(outcomes).len()
            == outcomes.len(),
    decreases outcomes.len(),
{
    reveal(Seq::filter);
    if outcomes.len() > 0 {
        lemma_counts(outcomes.drop_last());
    }
}

/// A report lists every failure with its position and its error, in record
/// order, and nothing else.
pub proof fn lemma_reports_list_every_failure(report: &Report, r: Vec<(usize, &CompletionError)>)
    requires
        report.outcomes@.len() <= usize::MAX,
        call_ensures(Report::failures, (report,), r),
    ensures
        forall|k: int|
            0 <= k < r@.len() ==> (#[trigger] r@[k]).0 < report.outcomes@.len()
                && report.outcomes@[r@[k].0 as int] == Outcome::Failed(*r@[k].1),
        forall|j: int, k: int|
            0 <= j < k < r@.len() ==> (#[trigger] r@[j]).0 < (#[trigger] r@[k]).0,
        forall|i: int|
            0 <= i < report.outcomes@.len() && (#[trigger] report.outcomes@[i]) is Failed
                ==> is_listed(r@, i),
{
    let listed = failures_of(report.outcomes@);
    lemma_failures_in_record_order(report.outcomes@);
    assert forall|k: int| 0 <= k < r@.len() implies (#[trigger] r@[k]).0 < report.outcomes@.len()
        && report.outcomes@[r@[k].0 as int] == Outcome::Failed(*r@[k].1) by {
        let (index, err) = listed[k];
        assert(index < report.outcomes@.len());
    }
    assert forall|j: int, k: int| 0 <= j < k < r@.len() implies (#[trigger] r@[j]).0 < (
    #[trigger] r@[k]).0 by {
        assert(listed[j].0 < listed[k].0);
    }
    assert forall|i: int|
        0 <= i < report.outcomes@.len() && (
        #[trigger] report.outcomes@[i]) is Failed implies is_listed(r@, i) by {
        let k = choose|k: int| 0 <= k < listed.len() && (#[trigger] listed[k]).0 == i;
        assert(r@[k].0 == i);
    }
}

/// Whether a position is listed.
pub open spec fn is_listed(list: Seq<(usize, &CompletionError)>, i: int) -> bool {
    exists|k: int| 0 <= k < list.len() && (#[trigger] list[k]).0 == i
}

/// A report is complete, and passes, exactly when no record failed; otherwise
/// the error tells how many did, and of the first its position and its message.
pub proof fn lemma_incomplete_reports_fail(
    report: &Report,
    complete: bool,
    r: Result<(), RunError>,
    failures: Vec<(usize, &CompletionError)>,
    message: String,
)
    requires
        report.outcomes@.len() <= usize::MAX,
        call_ensures(Report::is_complete, (report,), complete),
        call_ensures(Report::ensure_all, (report,), r),
        call_ensures(Report::failures, (report,), failures),
        failures@.len() > 0 ==> call_ensures(
            CompletionError::display,
            (failures@[0].1,),
            message,
        ),
    ensures
        complete <==> forall|i: int|
            0 <= i < report.outcomes@.len() ==> !((#[trigger] report.outcomes@[i]) is Failed),
        r is Ok <==> complete,
        r matches Err(e) ==> (e matches RunError::Incomplete {
            failed,
            total,
            first_index,
            first_error,
        } && failed == failures@.len() && total == report.outcomes@.len() && first_index
            == failures@[0].0 && first_error@ == message@),
{
    crate::transform::report::lemma_complete_without_failures(report.outcomes@);
}

/// A report gives its outcomes and its tokens as they are.
pub proof fn lemma_reports_give_everything(
    report: &Report,
    outcomes: &[Outcome],
    tokens: u64,
    owned: Report,
    all: Vec<Outcome>,
)
    requires
        call_ensures(Report::outcomes, (report,), outcomes),
        call_ensures(Report::tokens, (report,), tokens),
        call_ensures(Report::into_outcomes, (owned,), all),
    ensures
        outcomes@ == report.outcomes@,
        tokens == report.tokens,
        all@ == owned.outcomes@,
{
}

/// Only a failure of the backend can be retryable or stop a run, by its kind;
/// any other concerns its record alone.
pub proof fn lemma_classes(e: &CompletionError, r: ErrorClass)
    requires
        call_ensures(CompletionError::class, (e,), r),
    ensures
        r == ErrorClass::Retryable <==> (*e is Backend && e->Backend_0.kind
            == ErrorKind::Retryable),
        r == ErrorClass::Fatal <==> (*e is Backend && e->Backend_0.kind == ErrorKind::Fatal),
        r == ErrorClass::Record <==> !(*e is Backend),
{
}

/// The text of a record's failure tells why, whole.
pub proof fn lemma_completion_errors_tell_why(e: &CompletionError, backend: String, r: String)
    requires
        call_ensures(CompletionError::display, (e,), r),
        e matches CompletionError::Backend(err) ==> call_ensures(
            BackendError::display,
            (err,),
            backend,
        ),
    ensures
        e matches CompletionError::Backend(err) ==> r@ == "backend request failed: "@ + backend@,
        *e is EmptyResponse ==> r@ == "the model returned an empty response"@,
        e matches CompletionError::Parse { raw, source } ==> r@
            == "could not parse the response as the output type: "@ + source@,
        e matches CompletionError::Input(err) ==> r@ == "could not render the record as input: "@
            + err.message@,
{
}

/// The text of a run's failure tells what was completed and what stopped it,
/// whole.
pub proof fn lemma_run_errors_tell_all(
    e: &RunError,
    cause: String,
    a: String,
    b: String,
    c: String,
    r: String,
)
    requires
        call_ensures(RunError::display, (e,), r),
        e matches RunError::Fatal { completed, source } ==> call_ensures(
            to_decimal,
            (*completed as u128,),
            a,
        ) && call_ensures(FatalCause::display, (source,), cause),
        e matches RunError::Incomplete { failed, total, first_index, first_error } ==> call_ensures(
            to_decimal,
            (*failed as u128,),
            a,
        ) && call_ensures(to_decimal, (*total as u128,), b) && call_ensures(
            to_decimal,
            (*first_index as u128,),
            c,
        ),
    ensures
        e matches RunError::Fatal { completed, source } ==> r@ == "run stopped after "@ + a@
            + " completed records: "@ + cause@,
        e matches RunError::Incomplete { failed, total, first_index, first_error } ==> r@ == a@
            + " of "@ + b@ + " records failed; first failure (record "@ + c@ + "): "@
            + first_error@,
{
}

/// The text of what stopped a run tells all of it.
pub proof fn lemma_fatal_causes_tell_all(
    e: &FatalCause,
    digits: String,
    backend: String,
    cache: String,
    r: String,
)
    requires
        call_ensures(FatalCause::display, (e,), r),
        e matches FatalCause::CircuitOpen { failures, last } ==> call_ensures(
            to_decimal,
            (*failures as u128,),
            digits,
        ) && call_ensures(BackendError::display, (last,), backend),
        e matches FatalCause::Cache(err) ==> call_ensures(
            CompletionCacheError::display,
            (err,),
            cache,
        ),
    ensures
        e matches FatalCause::CircuitOpen { failures, last } ==> r@ == digits@
            + " requests failed with fatal errors before any succeeded; last error: "@ + backend@,
        e matches FatalCause::Cache(err) ==> r@ == cache@ && r@ == "completion cache "@ + err.path@
            + ": "@ + err.source@,
        e matches FatalCause::Config(message) ==> r@ == "invalid configuration: "@ + message@,
{
}

/// Records are sent in order, one after the other, while fewer requests are
/// unanswered than may be; none is left out and none is sent twice.
pub proof fn lemma_records_are_sent_in_order(flight: &mut Flight, r: Option<usize>)
    requires
        old(flight).wf(),
        call_ensures(Flight::next, (flight,), r),
    ensures
        final(flight).total == old(flight).total && final(flight).limit == old(flight).limit
            && final(flight).answered == old(flight).answered,
        r matches Some(at) ==> at == old(flight).sent && final(flight).sent == old(flight).sent + 1
            && final(flight).sent <= old(flight).total && final(flight).sent - final(flight).answered <= old(flight).limit,
        r is None ==> *final(flight) == *old(flight) && (old(flight).sent == old(flight).total
            || old(flight).sent - old(flight).answered == old(flight).limit),
{
}

/// As many requests as allowed may be unanswered, and at least one; a reply
/// makes room for one.
pub proof fn lemma_room_for_requests(
    options: &Options,
    total: usize,
    begun: Flight,
    flight: &mut Flight,
)
    requires
        call_ensures(Flight::new, (options, total), begun),
        call_ensures(Flight::on_reply, (flight,), ()),
    ensures
        begun.total == total && begun.sent == 0 && begun.answered == 0,
        options.concurrency > 0 ==> begun.limit == options.concurrency,
        options.concurrency == 0 ==> begun.limit == 1,
        final(flight).answered == old(flight).answered + 1 && final(flight).sent == old(flight).sent
            && final(flight).total == old(flight).total && final(flight).limit == old(flight).limit,
{
}

} // verus!
