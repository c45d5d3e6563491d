//! What becomes of a model's reply, and what is asked of it.

use super::requests::lemma_one_core;
use super::texts::{
    all_white, is_core_of, is_white, lemma_core_is_whole, lemma_is_white, lemma_trimmed_is_core,
};
use crate::backend::{ChatRequest, ChatResponse, OutputSchema};
use crate::json::{JsonValue, JsonView};
use crate::text::lines::{first_index, lemma_first_index_is};
use crate::text::trim::{is_space, trimmed, trimmed_end};
use crate::transform::definition::{
    attempt, fence_body, follows_first, follows_second, name_char, parse_json, parse_text,
    schema_of, strip_code_fence, without_meta, CustomInput, JsonInput, OutputSpec, StructuredOutput, TextOutput,
    Transform,
};
use crate::transform::run::{Delivery, Execution, Pending, Step};
use crate::transform::{CompletionError, InputError};
use vstd::prelude::*;
use vstd::string::*;

verus! {

/// What a text reply becomes: all of it but the whitespace around it, or an
/// error when there is nothing else.
pub open spec fn is_text_of_reply(raw: Seq<char>, r: Result<String, CompletionError>) -> bool {
    match r {
        Ok(text) => text@.len() > 0 && is_core_of(text@, raw),
        Err(e) => e is EmptyResponse && all_white(raw),
    }
}

/// A text reply loses nothing but the whitespace around it, however long it is.
/// One with anything but whitespace at both ends is kept as it is.
pub proof fn lemma_text_reply_is_kept(raw: &str, r: Result<String, CompletionError>)
    requires
        call_ensures(parse_text, (raw,), r),
    ensures
        is_text_of_reply(raw@, r),
        raw@.len() > 0 && !is_white(raw@[0]) && !is_white(raw@.last()) ==> (r matches Ok(text)
            && text@ == raw@),
{
    lemma_text_output(raw@, r);
}

/// A text transform reads a reply as it is, but for the whitespace around it.
pub proof fn lemma_text_output(raw: Seq<char>, r: Result<String, CompletionError>)
    requires
        <TextOutput as OutputSpec<String>>::parses(&TextOutput, raw, r),
    ensures
        is_text_of_reply(raw, r),
        raw.len() > 0 && !is_white(raw[0]) && !is_white(raw.last()) ==> (r matches Ok(text)
            && text@ == raw),
{
    lemma_trimmed_is_core(raw);
    if raw.len() > 0 && !is_white(raw[0]) && !is_white(raw.last()) {
        lemma_core_is_whole(trimmed(raw), raw);
    }
}

/// A text transform asks for no schema, stores its output as a JSON string, and
/// reads that string back as the output.
pub proof fn lemma_text_outputs_are_stored_whole(
    output: String,
    stored: Option<JsonValue>,
    back: Option<String>,
)
    requires
        <TextOutput as OutputSpec<String>>::encodes(&TextOutput, output, stored),
        stored matches Some(value) ==> <TextOutput as OutputSpec<String>>::decodes(
            &TextOutput,
            value@,
            back,
        ),
    ensures
        <TextOutput as OutputSpec<String>>::schema_spec(&TextOutput) is None,
        stored matches Some(value) && value@ == JsonView::Text(output@),
        back matches Some(text) && text@ == output@,
{
}

/// Whether a text is a code fence around `body`: an opening line, the body, and
/// a closing mark with at most whitespace behind it.
pub open spec fn is_fence_around(text: Seq<char>, info: Seq<char>, body: Seq<char>, end: Seq<char>) -> bool {
    &&& text == seq!['`', '`', '`'] + info + seq!['\n'] + body + seq!['`', '`', '`'] + end
    &&& forall|i: int| 0 <= i < info.len() ==> (#[trigger] info[i]) != '\n'
    &&& all_white(end)
}

/// The body of a code fence is what stands between its marks, all of it but the
/// whitespace around it. What doesn't begin with a mark, or has no line in it,
/// is no fence.
pub proof fn lemma_fences<'a>(
    text: &'a str,
    info: Seq<char>,
    body: Seq<char>,
    end: Seq<char>,
    r: Option<&'a str>,
)
    requires
        call_ensures(strip_code_fence, (text,), r),
    ensures
        is_fence_around(text@, info, body, end) ==> (r matches Some(inner) && is_core_of(
            inner@,
            body,
        )),
        r is Some ==> text@.len() >= 3 && text@.take(3) == seq!['`', '`', '`'] && text@.contains(
            '\n',
        ),
{
    reveal_strlit("```");
    if is_fence_around(text@, info, body, end) {
        lemma_fence_body(text@, info, body, end);
        lemma_trimmed_is_core(body);
    }
    if r is Some {
        assert("```"@ =~= seq!['`', '`', '`']);
        assert(text@.take(3) =~= seq!['`', '`', '`']);
        let rest = text@.skip(3);
        let line = first_index(rest, '\n');
        crate::text::lines::lemma_first_index(rest, '\n');
        assert(text@[line + 3] == '\n');
    }
}

/// What stands between the marks of a fence.
proof fn lemma_fence_body(text: Seq<char>, info: Seq<char>, body: Seq<char>, end: Seq<char>)
    requires
        is_fence_around(text, info, body, end),
    ensures
        fence_body(text) == Some(trimmed(body)),
{
    reveal_strlit("```");
    let mark = seq!['`', '`', '`'];
    assert("```"@ =~= mark);
    let rest = text.skip(3);
    assert(rest =~= info + seq!['\n'] + body + mark + end);
    assert forall|i: int| 0 <= i < info.len() implies rest[i] != '\n' by {
        assert(rest[i] == info[i]);
    }
    lemma_first_index_is(rest, '\n', info.len() as int);
    let after = rest.skip(info.len() as int + 1);
    assert(after =~= body + mark + end);
    let closed = body + mark;
    assert(closed.last() == '`');
    lemma_is_white('`');
    lemma_ends_trimmed(closed, end);
    assert(after =~= closed + end);
    assert(text.take(3) =~= mark);
    assert(closed.skip(closed.len() - 3) =~= mark);
    assert(closed.take(closed.len() - 3) =~= body);
}

/// Whitespace behind a text is taken off.
proof fn lemma_ends_trimmed(s: Seq<char>, white: Seq<char>)
    requires
        s.len() > 0,
        !is_white(s.last()),
        all_white(white),
    ensures
        trimmed_end(s + white) == s,
    decreases white.len(),
{
    let p = |c: char| is_space(c);
    let all = s + white;
    if white.len() == 0 {
        assert(all =~= s);
        lemma_is_white(s.last());
        assert(!p(s.last()));
    } else {
        assert(all.last() == white[white.len() - 1]);
        lemma_is_white(all.last());
        assert(p(all.last()));
        assert(all.drop_last() =~= s + white.drop_last());
        assert forall|i: int| 0 <= i < white.drop_last().len() implies is_white(
            #[trigger] white.drop_last()[i],
        ) by {
            assert(is_white(white[i]));
        }
        lemma_ends_trimmed(s, white.drop_last());
    }
}

/// Whether a parser can give `x` for a text.
pub open spec fn gives<O, P: Fn(&str) -> Result<O, String>>(
    from_json: P,
    text: Seq<char>,
    x: Result<O, String>,
) -> bool {
    exists|t: &str| t@ == text && #[trigger] call_ensures(from_json, (t,), x)
}

/// Whether a parser can give `x` for the core of a text.
pub open spec fn gives_core<O, P: Fn(&str) -> Result<O, String>>(
    from_json: P,
    text: Seq<char>,
    x: Result<O, String>,
) -> bool {
    exists|core: Seq<char>| is_core_of(core, text) && #[trigger] gives(from_json, core, x)
}

/// A JSON reply is read from its core. What that gives is the output; when it
/// can't be read the reply is an error that keeps all of the reply, and the
/// message about the core, unless the core is a code fence whose body can be
/// read, and then that is the output.
pub proof fn lemma_json_reply_is_read<O, P: Fn(&str) -> Result<O, String>>(
    raw: &str,
    from_json: &P,
    inner: Seq<char>,
    r: Result<O, CompletionError>,
)
    requires
        call_ensures(parse_json::<O, P>, (raw, from_json), r),
        is_core_of(inner, raw@),
        inner.len() > 0,
    ensures
        match r {
            Ok(output) => gives(*from_json, inner, Ok(output)) || exists|
                info: Seq<char>,
                body: Seq<char>,
                end: Seq<char>,
            | #[trigger]
                is_fence_around(inner, info, body, end) && gives_core(
                    *from_json,
                    body,
                    Ok(output),
                ),
            Err(e) => e matches CompletionError::Parse { raw: kept, source } && kept@ == raw@
                && gives(*from_json, inner, Err::<O, String>(source)),
        },
        (forall|x: Result<O, String>| #[trigger] gives(*from_json, inner, x) ==> x is Ok) ==> (
        r matches Ok(output) && gives(*from_json, inner, Ok(output))),
{
    lemma_one_core(raw@, inner);
    let first = choose|first: Result<O, String>| #[trigger]
        attempt(*from_json, inner, first) && follows_first(*from_json, raw@, first, r);
    assert(gives(*from_json, inner, first));
    if let Err(message) = first {
        if let Some(within) = fence_body(inner) {
            let second = choose|second: Result<O, String>| #[trigger]
                attempt(*from_json, within, second) && follows_second(raw@, message, second, r);
            if second is Ok {
                assert(gives(*from_json, within, second));
                lemma_fence_core(inner);
            }
        }
    }
}

/// The parts of a fence.
proof fn lemma_fence_parts(text: Seq<char>)
    requires
        fence_body(text) is Some,
    ensures
        exists|info: Seq<char>, body: Seq<char>, end: Seq<char>| #[trigger]
            is_fence_around(text, info, body, end) && fence_body(text) == Some(trimmed(body)),
{
    reveal_strlit("```");
    let mark = seq!['`', '`', '`'];
    assert("```"@ =~= mark);
    let rest = text.skip(3);
    let line = first_index(rest, '\n');
    crate::text::lines::lemma_first_index(rest, '\n');
    let info = rest.take(line);
    let after = rest.skip(line + 1);
    let closed = trimmed_end(after);
    super::texts::lemma_trimmed_end(after);
    let end = choose|end: Seq<char>| after == #[trigger] (closed + end) && all_white(end);
    let body = closed.take(closed.len() - 3);
    assert(closed =~= body + mark);
    assert(text =~= text.take(3) + rest);
    assert(rest =~= info + seq!['\n'] + after);
    assert(text =~= mark + info + seq!['\n'] + body + mark + end);
    assert(is_fence_around(text, info, body, end));
}

/// What is read of a fence is the core of its body.
proof fn lemma_fence_core(text: Seq<char>)
    requires
        fence_body(text) is Some,
    ensures
        exists|info: Seq<char>, body: Seq<char>, end: Seq<char>| #[trigger]
            is_fence_around(text, info, body, end) && is_core_of(fence_body(text)->0, body),
{
    lemma_fence_parts(text);
    let (info, body, end) = choose|info: Seq<char>, body: Seq<char>, end: Seq<char>| #[trigger]
        is_fence_around(text, info, body, end) && fence_body(text) == Some(trimmed(body));
    lemma_trimmed_is_core(body);
    assert(is_fence_around(text, info, body, end));
}

/// A fenced JSON reply is accepted: when the reply itself can't be read and the
/// body of its fence can, the output is what the body gives.
pub proof fn lemma_fenced_json_is_read<O, P: Fn(&str) -> Result<O, String>>(
    raw: &str,
    from_json: &P,
    inner: Seq<char>,
    info: Seq<char>,
    body: Seq<char>,
    end: Seq<char>,
    r: Result<O, CompletionError>,
)
    requires
        call_ensures(parse_json::<O, P>, (raw, from_json), r),
        is_core_of(inner, raw@),
        is_fence_around(inner, info, body, end),
        forall|text: Seq<char>, x: Result<O, String>| #[trigger]
            gives(*from_json, text, x) ==> (x is Err <==> text == inner),
    ensures
        r matches Ok(output) && gives_core(*from_json, body, Ok(output)),
{
    assert(inner.len() > 0);
    lemma_one_core(raw@, inner);
    lemma_fence_body(inner, info, body, end);
    lemma_trimmed_is_core(body);
    let within = trimmed(body);
    let first = choose|first: Result<O, String>| #[trigger]
        attempt(*from_json, inner, first) && follows_first(*from_json, raw@, first, r);
    assert(gives(*from_json, inner, first));
    let message = first->Err_0;
    let second = choose|second: Result<O, String>| #[trigger]
        attempt(*from_json, within, second) && follows_second(raw@, message, second, r);
    assert(gives(*from_json, within, second));
    assert(within.len() < inner.len()) by {
        let (before, after) = choose|before: Seq<char>, after: Seq<char>|
            body == #[trigger] (before + within + after) && all_white(before) && all_white(after);
    }
}

/// A reply of nothing but whitespace is an error of its own.
pub proof fn lemma_blank_json_reply<O, P: Fn(&str) -> Result<O, String>>(
    raw: &str,
    from_json: &P,
    r: Result<O, CompletionError>,
)
    requires
        call_ensures(parse_json::<O, P>, (raw, from_json), r),
        all_white(raw@),
    ensures
        r matches Err(e) && e is EmptyResponse,
{
    let none = Seq::<char>::empty();
    assert(raw@ =~= raw@ + none + none);
    lemma_one_core(raw@, none);
}

/// How many members of an object are named `$schema`.
pub open spec fn meta_count(members: Seq<(Seq<char>, JsonView)>) -> nat {
    members.filter(|member: (Seq<char>, JsonView)| member.0 == "$schema"@).len()
}

/// The schema that is sent is the generated one without `$schema`: every other
/// member is in it, with its value and in its order, and nothing else is. What
/// isn't an object is sent as it is.
pub proof fn lemma_schema_is_sent_whole(title: &str, generated: &JsonValue, r: OutputSchema)
    requires
        call_ensures(schema_of, (title, generated), r),
    ensures
        !(generated@ is Object) ==> r.schema@ == generated@,
        generated@ matches JsonView::Object(members) ==> (r.schema@ matches JsonView::Object(sent)
            && sent == members.filter(|member: (Seq<char>, JsonView)| member.0 != "$schema"@)
            && sent.len() + meta_count(members) == members.len() && (forall|i: int|
            0 <= i < members.len() && (#[trigger] members[i]).0 != "$schema"@ ==> sent.contains(
                members[i],
            )) && forall|k: int|
            0 <= k < sent.len() ==> members.contains(#[trigger] sent[k]) && sent[k].0
                != "$schema"@),
{
    if let JsonView::Object(members) = generated@ {
        lemma_without_meta(members);
        let keep = |member: (Seq<char>, JsonView)| member.0 != "$schema"@;
        let sent = members.filter(keep);
        assert forall|i: int|
            0 <= i < members.len() && (#[trigger] members[i]).0 != "$schema"@ implies sent.contains(
            members[i],
        ) by {
            members.lemma_filter_contains(keep, i);
        }
        assert forall|k: int| 0 <= k < sent.len() implies members.contains(#[trigger] sent[k])
            && sent[k].0 != "$schema"@ by {
            members.lemma_filter_pred(keep, k);
            members.lemma_filter_contains_rev(keep, sent[k]);
        }
    }
}

/// Dropping `$schema` keeps the others.
proof fn lemma_without_meta(members: Seq<(Seq<char>, JsonView)>)
    ensures
        without_meta(members) == members.filter(
            |member: (Seq<char>, JsonView)| member.0 != "$schema"@,
        ),
        without_meta(members).len() + meta_count(members) == members.len(),
    decreases members.len(),
{
    reveal(Seq::filter);
    if members.len() > 0 {
        lemma_without_meta(members.drop_last());
    }
}

/// Whether a character may stand in the name of a schema.
pub open spec fn is_name_char(c: char) -> bool {
    'a' <= c <= 'z' || 'A' <= c <= 'Z' || '0' <= c <= '9' || c == '-'
}

/// A schema's name is its title, with `_` for what may not stand in a name, and
/// cut after 64 characters.
pub proof fn lemma_schema_is_named(title: &str, generated: &JsonValue, r: OutputSchema)
    requires
        call_ensures(schema_of, (title, generated), r),
    ensures
        r.name@.len() == if title@.len() <= 64 {
            title@.len()
        } else {
            64
        },
        forall|i: int|
            0 <= i < r.name@.len() ==> #[trigger] r.name@[i] == if is_name_char(title@[i]) {
                title@[i]
            } else {
                '_'
            },
{
    assert forall|i: int| 0 <= i < r.name@.len() implies #[trigger] r.name@[i] == if is_name_char(
        title@[i],
    ) {
        title@[i]
    } else {
        '_'
    } by {
        lemma_name_char(title@[i]);
    }
}

/// What a character becomes in a name.
proof fn lemma_name_char(c: char)
    ensures
        name_char(c) == if is_name_char(c) {
            c
        } else {
            '_'
        },
{
}

/// What is sent for a record is the transform's prompt and schema and the
/// record's input, all of them whole.
pub proof fn lemma_requests_hold_the_record<O, X: OutputSpec<O>>(
    record: &Pending,
    prompt: &str,
    output: &X,
    r: ChatRequest,
)
    requires
        call_ensures(Pending::request::<O, X>, (record, prompt, output), r),
    ensures
        r.system@ == prompt@,
        r.user@ == record.input@,
        match r.schema {
            Some(schema) => output.schema_spec() == Some(schema@),
            None => output.schema_spec() is None,
        },
{
}

/// A transform keeps its prompt and what it is told to send, read and apply.
pub proof fn lemma_transforms_keep_their_parts<J, A>(
    prompt: &str,
    to_json: J,
    r: Transform<JsonInput<J>, TextOutput, A>,
    apply: A,
    applied: Transform<JsonInput<J>, TextOutput, A>,
    shown: &str,
)
    requires
        call_ensures(Transform::<JsonInput<J>, TextOutput, A>::text, (prompt, to_json), r),
        call_ensures(Transform::<JsonInput<J>, TextOutput, A>::apply, (r, apply), applied),
        call_ensures(Transform::<JsonInput<J>, TextOutput, A>::prompt, (&applied,), shown),
    ensures
        shown@ == prompt@,
        applied.input.to_json == to_json,
        applied.apply == Some(apply),
{
}

/// An answer to a record of a text transform without a cache is delivered as it
/// is, but for the whitespace around it, and its tokens are counted.
pub proof fn lemma_answers_reach_the_record(
    before: &mut Execution,
    response: ChatResponse,
    step: Step<String>,
)
    requires
        call_ensures(
            Execution::on_reply::<String, TextOutput>,
            (before, &TextOutput, None, Ok(response)),
            step,
        ),
    ensures
        match step {
            Step::Deliver(Delivery::Fresh(text)) => text@.len() > 0 && is_core_of(
                text@,
                response.text@,
            ),
            Step::Deliver(Delivery::Failed(e)) => e is EmptyResponse && all_white(response.text@),
            _ => false,
        },
{
    let parsed = choose|parsed: Result<String, CompletionError>| #[trigger]
        <TextOutput as OutputSpec<String>>::parses(&TextOutput, response.text@, parsed)
            && match parsed {
            Ok(value) => crate::transform::run::delivers_output(TextOutput, None, value, step),
            Err(err) => step == Step::<String>::Deliver(Delivery::Failed(err)),
        };
    lemma_text_output(response.text@, parsed);
}

/// A record is sent as its JSON, whole; the error of one that has none is kept.
pub proof fn lemma_records_are_sent_as_json<T, J: Fn(&T) -> Result<String, String>, X, A>(
    transform: &Transform<JsonInput<J>, X, A>,
    record: &T,
    r: Result<String, InputError>,
)
    requires
        call_ensures(Transform::<JsonInput<J>, X, A>::render::<T>, (transform, record), r),
    ensures
        r matches Ok(text) ==> call_ensures(transform.input.to_json, (record,), Ok(text)),
        r matches Err(e) ==> call_ensures(transform.input.to_json, (record,), Err(e.message)),
{
}

/// A record with an input of its own is sent as that, whole.
pub proof fn lemma_records_are_sent_as_told<T, F: Fn(&T) -> String, X, A>(
    transform: &Transform<CustomInput<F>, X, A>,
    record: &T,
    r: Result<String, InputError>,
)
    requires
        call_ensures(Transform::<CustomInput<F>, X, A>::render::<T>, (transform, record), r),
    ensures
        r matches Ok(text) && call_ensures(transform.input.input, (record,), text),
{
}

/// A typed transform keeps its prompt and how its replies are read; setting what
/// is sent changes nothing else.
pub proof fn lemma_typed_transforms_keep_their_parts<J, P, E, D, A, F>(
    prompt: &str,
    to_json: J,
    output: StructuredOutput<P, E, D>,
    r: Transform<JsonInput<J>, StructuredOutput<P, E, D>, A>,
    input: F,
    s: Transform<CustomInput<F>, StructuredOutput<P, E, D>, A>,
)
    requires
        call_ensures(
            Transform::<JsonInput<J>, StructuredOutput<P, E, D>, A>::structured,
            (prompt, to_json, output),
            r,
        ),
        call_ensures(
            Transform::<JsonInput<J>, StructuredOutput<P, E, D>, A>::input::<F>,
            (r, input),
            s,
        ),
    ensures
        r.prompt@ == prompt@ && r.input.to_json == to_json && r.output == output && r.apply is None,
        s.prompt@ == prompt@ && s.input.input == input && s.output == output && s.apply is None,
{
}

/// A typed output is stored as what its type makes of it, and the schema of its
/// type is sent as it is.
pub proof fn lemma_typed_outputs_are_stored<
    O,
    P: Fn(&str) -> Result<O, String>,
    E: Fn(&O) -> Option<JsonValue>,
    D: Fn(JsonValue) -> Option<O>,
>(
    spec: &StructuredOutput<P, E, D>,
    output: &O,
    stored: Option<JsonValue>,
    schema: Option<&OutputSchema>,
)
    requires
        call_ensures(
            <StructuredOutput<P, E, D> as OutputSpec<O>>::encode,
            (spec, output),
            stored,
        ),
        call_ensures(<StructuredOutput<P, E, D> as OutputSpec<O>>::schema, (spec,), schema),
    ensures
        call_ensures(spec.to_value, (output,), stored),
        schema matches Some(sent) && sent@ == spec.schema@,
{
}

} // verus!
