//! What the order in which replies arrive can't change.
//!
//! Two texts are the same when they read the same, so what replies lead to is
//! compared by what it says: `alike` tells when two outputs say the same.

use super::definition::{
    attempt, follows_first, json_parse, OutputSpec, StructuredOutput, TextOutput,
};
use super::error::CompletionError;
use super::run::{
    answers, delivers_output, follows, is_finished, replied, reply_tokens, was_answered, Answered,
    Delivery, Execution, Pending, Step,
};
use crate::backend::{BackendError, ChatResponse};
use crate::json::JsonValue;
use vstd::prelude::*;
use vstd::string::*;

verus! {

/// Whether two failures of a backend say the same.
pub open spec fn same_backend_error(a: BackendError, b: BackendError) -> bool {
    &&& a.kind == b.kind
    &&& a.status == b.status
    &&& a.message@ == b.message@
    &&& a.retry_after == b.retry_after
}

/// Whether two replies say the same.
pub open spec fn same_reply(
    a: Result<ChatResponse, BackendError>,
    b: Result<ChatResponse, BackendError>,
) -> bool {
    match (a, b) {
        (Ok(x), Ok(y)) => x.text@ == y.text@ && x.usage == y.usage,
        (Err(x), Err(y)) => same_backend_error(x, y),
        _ => false,
    }
}

/// Whether two failures of a record say the same.
pub open spec fn same_failure(a: CompletionError, b: CompletionError) -> bool {
    match (a, b) {
        (CompletionError::Backend(x), CompletionError::Backend(y)) => same_backend_error(x, y),
        (
            CompletionError::Parse { raw, source },
            CompletionError::Parse { raw: other_raw, source: other_source },
        ) => raw@ == other_raw@ && source@ == other_source@,
        _ => a == b,
    }
}

/// Whether two parses of a reply say the same.
pub open spec fn same_parse<O>(
    alike: spec_fn(O, O) -> bool,
    a: Result<O, CompletionError>,
    b: Result<O, CompletionError>,
) -> bool {
    match (a, b) {
        (Ok(x), Ok(y)) => alike(x, y),
        (Err(x), Err(y)) => same_failure(x, y),
        _ => false,
    }
}

/// Whether a reply has one parse.
pub open spec fn parses_one_way<O, X: OutputSpec<O>>(
    output: X,
    alike: spec_fn(O, O) -> bool,
) -> bool {
    forall|raw: Seq<char>, a: Result<O, CompletionError>, b: Result<O, CompletionError>| #[trigger]
        output.parses(raw, a) && #[trigger] output.parses(raw, b) ==> same_parse(alike, a, b)
}

/// Whether two stored values are the same.
pub open spec fn same_stored(a: Option<JsonValue>, b: Option<JsonValue>) -> bool {
    match (a, b) {
        (Some(x), Some(y)) => x@ == y@,
        (None, None) => true,
        _ => false,
    }
}

/// Whether outputs that say the same are stored the same way.
pub open spec fn encodes_one_way<O, X: OutputSpec<O>>(
    output: X,
    alike: spec_fn(O, O) -> bool,
) -> bool {
    forall|x: O, y: O, a: Option<JsonValue>, b: Option<JsonValue>| #[trigger]
        output.encodes(x, a) && #[trigger] output.encodes(y, b) && alike(x, y) ==> same_stored(a, b)
}

/// A text reply has one parse, which is stored one way.
pub proof fn lemma_text_parses_one_way()
    ensures
        parses_one_way::<String, TextOutput>(TextOutput, |a: String, b: String| a@ == b@),
        encodes_one_way::<String, TextOutput>(TextOutput, |a: String, b: String| a@ == b@),
{
}

/// Whether a parser gives one result per text.
pub open spec fn reads_one_way<O, P: Fn(&str) -> Result<O, String>>(
    from_json: P,
    alike: spec_fn(O, O) -> bool,
) -> bool {
    forall|text: Seq<char>, a: Result<O, String>, b: Result<O, String>| #[trigger]
        attempt(from_json, text, a) && #[trigger] attempt(from_json, text, b) ==> match (a, b) {
            (Ok(x), Ok(y)) => alike(x, y),
            (Err(x), Err(y)) => x@ == y@,
            _ => false,
        }
}

/// A JSON reply has one parse when its parser gives one result per text.
pub proof fn lemma_json_parses_one_way<
    O,
    P: Fn(&str) -> Result<O, String>,
    E: Fn(&O) -> Option<JsonValue>,
    D: Fn(JsonValue) -> Option<O>,
>(output: StructuredOutput<P, E, D>, alike: spec_fn(O, O) -> bool)
    requires
        reads_one_way(output.from_json, alike),
    ensures
        parses_one_way::<O, StructuredOutput<P, E, D>>(output, alike),
{
    assert forall|raw: Seq<char>, a: Result<O, CompletionError>, b: Result<O, CompletionError>|
        #[trigger] <StructuredOutput<P, E, D> as OutputSpec<O>>::parses(&output, raw, a)
            && #[trigger] <StructuredOutput<P, E, D> as OutputSpec<O>>::parses(
            &output,
            raw,
            b,
        ) implies same_parse(alike, a, b) by {
        lemma_one_json_parse(output.from_json, alike, raw, a, b);
    }
}

/// Two parses of a JSON reply say the same.
proof fn lemma_one_json_parse<O, P: Fn(&str) -> Result<O, String>>(
    from_json: P,
    alike: spec_fn(O, O) -> bool,
    raw: Seq<char>,
    a: Result<O, CompletionError>,
    b: Result<O, CompletionError>,
)
    requires
        reads_one_way(from_json, alike),
        json_parse(from_json, raw, a),
        json_parse(from_json, raw, b),
    ensures
        same_parse(alike, a, b),
{
    let text = crate::text::trim::trimmed(raw);
    if text.len() > 0 {
        let x = choose|x: Result<O, String>| #[trigger]
            attempt(from_json, text, x) && follows_first(from_json, raw, x, a);
        let y = choose|y: Result<O, String>| #[trigger]
            attempt(from_json, text, y) && follows_first(from_json, raw, y, b);
        assert(x is Ok <==> y is Ok);
    }
}

/// Whether what two records get says the same.
pub open spec fn same_delivery<O>(
    alike: spec_fn(O, O) -> bool,
    a: Delivery<O>,
    b: Delivery<O>,
) -> bool {
    match (a, b) {
        (Delivery::Fresh(x), Delivery::Fresh(y)) => alike(x, y),
        (Delivery::Cached(x), Delivery::Cached(y)) => alike(x, y),
        (Delivery::Failed(x), Delivery::Failed(y)) => same_failure(x, y),
        _ => false,
    }
}

/// Whether two steps do the same: deliver the same, or store the same and then
/// deliver the same.
pub open spec fn same_step<O>(alike: spec_fn(O, O) -> bool, a: Step<O>, b: Step<O>) -> bool {
    match (a, b) {
        (Step::Deliver(x), Step::Deliver(y)) => same_delivery(alike, x, y),
        (
            Step::Store { key, value, output },
            Step::Store { key: other_key, value: other_value, output: other_output },
        ) => key@ == other_key@ && value@ == other_value@ && alike(output, other_output),
        _ => false,
    }
}

/// The tokens of some answers.
pub open spec fn tokens_of<O>(events: Seq<Answered<O>>) -> nat
    decreases events.len(),
{
    if events.len() == 0 {
        0
    } else {
        tokens_of(events.drop_last()) + event_tokens(events.last())
    }
}

/// The tokens of an answer; see [`Execution::on_reply`].
pub open spec fn event_tokens<O>(event: Answered<O>) -> nat {
    match event.result {
        Ok(response) => reply_tokens(response.usage),
        Err(_) => 0,
    }
}

/// Neither how many requests are unanswered at once nor the order in which the
/// replies arrive changes what any record gets or how many tokens are counted.
///
/// Two finished runs send the same records, and a record gets the same reply in
/// both. A reply has one parse; and there is no cache, or outputs that say the
/// same are stored the same way. Then both runs answer the same records, each
/// with the same step, and count the same tokens.
pub proof fn lemma_order_of_replies_does_not_matter<O, X: OutputSpec<O>>(
    output: X,
    alike: spec_fn(O, O) -> bool,
    pending: Seq<Pending>,
    events: Seq<Answered<O>>,
    other: Seq<Answered<O>>,
)
    requires
        is_finished(output, pending, events),
        is_finished(output, pending, other),
        parses_one_way(output, alike),
        (forall|k: int| 0 <= k < pending.len() ==> (#[trigger] pending[k]).key is None)
            || encodes_one_way(output, alike),
        forall|i: int, j: int|
            0 <= i < events.len() && 0 <= j < other.len() && (#[trigger] events[i]).record == (
            #[trigger] other[j]).record ==> same_reply(events[i].result, other[j].result),
    ensures
        forall|i: int| 0 <= i < events.len() ==> was_answered(other, (#[trigger] events[i]).record),
        forall|j: int| 0 <= j < other.len() ==> was_answered(events, (#[trigger] other[j]).record),
        forall|i: int, j: int|
            0 <= i < events.len() && 0 <= j < other.len() && (#[trigger] events[i]).record == (
            #[trigger] other[j]).record ==> same_step(alike, events[i].step, other[j].step),
        tokens_of(events) == tokens_of(other),
{
    assert forall|i: int| 0 <= i < events.len() implies was_answered(
        other,
        (#[trigger] events[i]).record,
    ) by {
        let at = choose|at: int| 0 <= at < pending.len() && pending[at] == events[i].record;
        assert(was_answered(other, pending[at]));
    }
    assert forall|j: int| 0 <= j < other.len() implies was_answered(
        events,
        (#[trigger] other[j]).record,
    ) by {
        let at = choose|at: int| 0 <= at < pending.len() && pending[at] == other[j].record;
        assert(was_answered(events, pending[at]));
    }
    assert forall|i: int, j: int|
        0 <= i < events.len() && 0 <= j < other.len() && (#[trigger] events[i]).record == (
        #[trigger] other[j]).record implies same_step(alike, events[i].step, other[j].step) by {
        let at = choose|at: int| 0 <= at < pending.len() && pending[at] == events[i].record;
        assert(pending[at].key == events[i].record.key);
        lemma_same_step(output, alike, events[i], other[j]);
    }
    lemma_same_tokens(events, other);
}

/// The same step follows from the same reply to a record.
proof fn lemma_same_step<O, X: OutputSpec<O>>(
    output: X,
    alike: spec_fn(O, O) -> bool,
    a: Answered<O>,
    b: Answered<O>,
)
    requires
        follows(output, a),
        follows(output, b),
        a.record == b.record,
        same_reply(a.result, b.result),
        parses_one_way(output, alike),
        a.record.key is None || encodes_one_way(output, alike),
    ensures
        same_step(alike, a.step, b.step),
{
    if a.result is Ok {
        let raw = a.result->Ok_0.text@;
        assert(raw == b.result->Ok_0.text@);
        let key = a.record.key;
        assert(answers(output, key, raw, a.step));
        assert(answers(output, key, raw, b.step));
        let x = choose|x: Result<O, CompletionError>| #[trigger]
            output.parses(raw, x) && match x {
                Ok(value) => delivers_output(output, key, value, a.step),
                Err(err) => a.step == Step::<O>::Deliver(Delivery::Failed(err)),
            };
        let y = choose|y: Result<O, CompletionError>| #[trigger]
            output.parses(raw, y) && match y {
                Ok(value) => delivers_output(output, key, value, b.step),
                Err(err) => b.step == Step::<O>::Deliver(Delivery::Failed(err)),
            };
        assert(same_parse(alike, x, y));
    }
}

/// The same answers in another order count the same tokens.
proof fn lemma_same_tokens<O>(events: Seq<Answered<O>>, other: Seq<Answered<O>>)
    requires
        forall|i: int, j: int|
            0 <= i < j < events.len() ==> (#[trigger] events[i]).record.index != (
            #[trigger] events[j]).record.index,
        forall|i: int, j: int|
            0 <= i < j < other.len() ==> (#[trigger] other[i]).record.index != (
            #[trigger] other[j]).record.index,
        forall|i: int| 0 <= i < events.len() ==> was_answered(other, (#[trigger] events[i]).record),
        forall|j: int| 0 <= j < other.len() ==> was_answered(events, (#[trigger] other[j]).record),
        forall|i: int, j: int|
            0 <= i < events.len() && 0 <= j < other.len() && (#[trigger] events[i]).record == (
            #[trigger] other[j]).record ==> same_reply(events[i].result, other[j].result),
    ensures
        tokens_of(events) == tokens_of(other),
    decreases events.len(),
{
    if events.len() == 0 {
        if other.len() > 0 {
            assert(was_answered(events, other[0].record));
        }
    } else {
        let n = events.len() - 1;
        let last = events[n];
        let rest = events.drop_last();
        assert(was_answered(other, last.record));
        let at = choose|at: int| 0 <= at < other.len() && (#[trigger] other[at]).record
            == last.record;
        let others = other.remove(at);
        lemma_tokens_remove(other, at);
        assert(same_reply(events[n].result, other[at].result));
        assert forall|i: int| 0 <= i < rest.len() implies was_answered(
            others,
            (#[trigger] rest[i]).record,
        ) by {
            assert(rest[i] == events[i]);
            let j = choose|j: int| 0 <= j < other.len() && (#[trigger] other[j]).record
                == events[i].record;
            assert(events[i].record.index != events[n].record.index);
            if j < at {
                assert(others[j].record == rest[i].record);
            } else {
                assert(others[j - 1].record == rest[i].record);
            }
        }
        assert forall|j: int| 0 <= j < others.len() implies was_answered(
            rest,
            (#[trigger] others[j]).record,
        ) by {
            let from = kept(at, j);
            assert(others[j] == other[from]);
            let i = choose|i: int| 0 <= i < events.len() && (#[trigger] events[i]).record
                == other[from].record;
            assert(other[from].record.index != other[at].record.index);
            assert(rest[i].record == others[j].record);
        }
        assert forall|i: int, j: int| 0 <= i < j < rest.len() implies (
        #[trigger] rest[i]).record.index != (#[trigger] rest[j]).record.index by {
            assert(events[i].record.index != events[j].record.index);
        }
        assert forall|i: int, j: int| 0 <= i < j < others.len() implies (
        #[trigger] others[i]).record.index != (#[trigger] others[j]).record.index by {
            assert(other[kept(at, i)].record.index != other[kept(at, j)].record.index);
        }
        assert forall|i: int, j: int|
            0 <= i < rest.len() && 0 <= j < others.len() && (#[trigger] rest[i]).record == (
            #[trigger] others[j]).record implies same_reply(rest[i].result, others[j].result) by {
            assert(events[i].record == other[kept(at, j)].record);
        }
        lemma_same_tokens(rest, others);
    }
}

/// Where the item at `j` was before the one at `at` was taken out.
spec fn kept(at: int, j: int) -> int {
    if j < at {
        j
    } else {
        j + 1
    }
}

/// An answer that is taken out takes its tokens with it.
proof fn lemma_tokens_remove<O>(events: Seq<Answered<O>>, at: int)
    requires
        0 <= at < events.len(),
    ensures
        tokens_of(events) == tokens_of(events.remove(at)) + event_tokens(events[at]),
    decreases events.len(),
{
    let removed = events.remove(at);
    if at == events.len() - 1 {
        assert(removed =~= events.drop_last());
    } else {
        lemma_tokens_remove(events.drop_last(), at);
        assert(removed.drop_last() =~= events.drop_last().remove(at));
        assert(removed.last() == events.last());
    }
}

/// Whether a run takes these answers one after the other, with its circuit
/// breaker off: `before` and `after` are its states around each of them, and
/// nothing in between counts tokens.
pub open spec fn takes<O, X: OutputSpec<O>>(
    output: X,
    events: Seq<Answered<O>>,
    before: Seq<Execution>,
    after: Seq<Execution>,
) -> bool {
    &&& before.len() == events.len()
    &&& after.len() == events.len()
    &&& forall|j: int|
        0 <= j < events.len() ==> (#[trigger] before[j]).circuit_breaker == 0 && replied(
            output,
            before[j],
            events[j].record.key,
            events[j].result,
            after[j],
            events[j].step,
        ) && before[j].progress.tokens + event_tokens(events[j]) <= u64::MAX
    &&& forall|j: int, next: int|
        0 <= j < events.len() - 1 && next == j + 1 ==> (#[trigger] before[next]).progress.tokens == (
        #[trigger] after[j]).progress.tokens
}

/// With its circuit breaker off a run never stops on a reply, and it counts the
/// tokens of every answer.
pub proof fn lemma_answers_are_taken<O, X: OutputSpec<O>>(
    output: X,
    events: Seq<Answered<O>>,
    before: Seq<Execution>,
    after: Seq<Execution>,
)
    requires
        events.len() > 0,
        takes(output, events, before, after),
    ensures
        forall|j: int| 0 <= j < events.len() ==> follows(output, #[trigger] events[j]),
        after.last().progress.tokens == before[0].progress.tokens + tokens_of(events),
    decreases events.len(),
{
    let n = events.len() - 1;
    assert forall|j: int| 0 <= j < events.len() implies follows(output, #[trigger] events[j]) by {
        assert(before[j].circuit_breaker == 0);
    }
    assert(before[n].circuit_breaker == 0);
    assert(events.last() == events[n]);
    assert(after.last() == after[n]);
    assert(after[n].progress.tokens == before[n].progress.tokens + event_tokens(events[n]));
    if n > 0 {
        let rest = events.drop_last();
        let (first, later) = (before.drop_last(), after.drop_last());
        assert forall|j: int| 0 <= j < rest.len() implies (#[trigger] first[j]).circuit_breaker == 0
            && replied(
            output,
            first[j],
            rest[j].record.key,
            rest[j].result,
            later[j],
            rest[j].step,
        ) && first[j].progress.tokens + event_tokens(rest[j]) <= u64::MAX by {
            assert(first[j] == before[j]);
        }
        assert forall|j: int, next: int| 0 <= j < rest.len() - 1 && next == j + 1 implies (
        #[trigger] first[next]).progress.tokens == (#[trigger] later[j]).progress.tokens by {
            assert(first[next] == before[next]);
            assert(later[j] == after[j]);
        }
        lemma_answers_are_taken(output, rest, first, later);
        assert(later.last() == after[n - 1]);
        assert(first[0] == before[0]);
        assert(before[n].progress.tokens == after[n - 1].progress.tokens);
    } else {
        assert(tokens_of(events.drop_last()) == 0);
    }
}

} // verus!
