//! What a transform asks for, and how its replies are read.

use super::error::{CompletionError, InputError};
use crate::backend::{OutputSchema, SchemaView};
use crate::json::{pairs, JsonValue, JsonView};
use crate::text::lines::{find_char, first_index};
use crate::text::search::{
    char_is_digit, char_is_letter, has_prefix, has_suffix, is_digit, is_letter, strip_prefix,
    strip_suffix,
};
use crate::text::trim::{trim, trim_end, trimmed, trimmed_end};
use crate::text::{chars_of, owned, same_text};
use vstd::prelude::*;
use vstd::string::*;

verus! {

/// What is sent for a record of type `T`.
pub trait Render<T> {
    /// Whether `record` may be rendered.
    spec fn can_render(&self, record: T) -> bool;

    /// Whether `r` can be what is sent for `record`.
    spec fn renders(&self, record: T, r: Result<String, InputError>) -> bool;

    /// Renders `record`.
    fn render(&self, record: &T) -> (r: Result<String, InputError>)
        requires
            self.can_render(*record),
        ensures
            self.renders(*record, r),
    ;
}

/// Sends each record as its JSON.
pub struct JsonInput<J> {
    /// Serializes a record, giving the serializer's message when it fails.
    pub to_json: J,
}

impl<T, J: Fn(&T) -> Result<String, String>> Render<T> for JsonInput<J> {
    open spec fn can_render(&self, record: T) -> bool {
        call_requires(self.to_json, (&record,))
    }

    open spec fn renders(&self, record: T, r: Result<String, InputError>) -> bool {
        match r {
            Ok(text) => call_ensures(self.to_json, (&record,), Ok(text)),
            Err(err) => call_ensures(self.to_json, (&record,), Err(err.message)),
        }
    }

    fn render(&self, record: &T) -> (r: Result<String, InputError>) {
        match (self.to_json)(record) {
            Ok(text) => Ok(text),
            Err(message) => Err(InputError { message }),
        }
    }
}

/// Sends what a function makes of each record.
pub struct CustomInput<F> {
    /// Makes the text to send.
    pub input: F,
}

impl<T, F: Fn(&T) -> String> Render<T> for CustomInput<F> {
    open spec fn can_render(&self, record: T) -> bool {
        call_requires(self.input, (&record,))
    }

    open spec fn renders(&self, record: T, r: Result<String, InputError>) -> bool {
        r matches Ok(text) && call_ensures(self.input, (&record,), text)
    }

    fn render(&self, record: &T) -> (r: Result<String, InputError>) {
        Ok((self.input)(record))
    }
}

/// How to parse a reply into `O`, and how to store `O` in the cache.
pub trait OutputSpec<O> {
    /// Whether replies can be parsed, and outputs encoded and decoded.
    spec fn ready(&self) -> bool;

    /// The model of the schema.
    spec fn schema_spec(&self) -> Option<SchemaView>;

    /// Whether `r` can be the parse of the reply `raw`.
    spec fn parses(&self, raw: Seq<char>, r: Result<O, CompletionError>) -> bool;

    /// Whether `r` can be what is stored for `output`.
    spec fn encodes(&self, output: O, r: Option<JsonValue>) -> bool;

    /// Whether `r` can be the output that a stored value holds.
    spec fn decodes(&self, value: JsonView, r: Option<O>) -> bool;

    /// The schema sent with each request.
    fn schema(&self) -> (r: Option<&OutputSchema>)
        ensures
            match r {
                Some(schema) => self.schema_spec() == Some(schema@),
                None => self.schema_spec() is None,
            },
    ;

    /// Parses a reply.
    fn parse(&self, raw: &str) -> (r: Result<O, CompletionError>)
        requires
            self.ready(),
        ensures
            self.parses(raw@, r),
    ;

    /// What to store for an output.
    fn encode(&self, output: &O) -> (r: Option<JsonValue>)
        requires
            self.ready(),
        ensures
            self.encodes(*output, r),
    ;

    /// The output that a stored value holds.
    fn decode(&self, value: JsonValue) -> (r: Option<O>)
        requires
            self.ready(),
        ensures
            self.decodes(value@, r),
    ;
}

/// A plain-text reply.
#[derive(Debug, Clone, Copy)]
pub struct TextOutput;

/// What a plain-text reply parses into.
pub open spec fn text_parse(raw: Seq<char>, r: Result<String, CompletionError>) -> bool {
    if trimmed(raw).len() == 0 {
        r == Err::<String, _>(CompletionError::EmptyResponse)
    } else {
        r matches Ok(text) && text@ == trimmed(raw)
    }
}

/// The text without surrounding whitespace. Nothing but whitespace is an
/// error.
pub fn parse_text(raw: &str) -> (r: Result<String, CompletionError>)
    ensures
        text_parse(raw@, r),
{
    let text = trim(raw);
    if text.is_empty() {
        return Err(CompletionError::EmptyResponse);
    }
    Ok(owned(text))
}

impl OutputSpec<String> for TextOutput {
    open spec fn ready(&self) -> bool {
        true
    }

    open spec fn schema_spec(&self) -> Option<SchemaView> {
        None
    }

    open spec fn parses(&self, raw: Seq<char>, r: Result<String, CompletionError>) -> bool {
        text_parse(raw, r)
    }

    open spec fn encodes(&self, output: String, r: Option<JsonValue>) -> bool {
        r matches Some(value) && value@ == JsonView::Text(output@)
    }

    open spec fn decodes(&self, value: JsonView, r: Option<String>) -> bool {
        match value {
            JsonView::Text(text) => r matches Some(output) && output@ == text,
            _ => r is None,
        }
    }

    fn schema(&self) -> (r: Option<&OutputSchema>) {
        None
    }

    fn parse(&self, raw: &str) -> (r: Result<String, CompletionError>) {
        parse_text(raw)
    }

    fn encode(&self, output: &String) -> (r: Option<JsonValue>) {
        Some(JsonValue::string(output.as_str()))
    }

    fn decode(&self, value: JsonValue) -> (r: Option<String>) {
        match value {
            JsonValue::Text(text) => Some(text),
            _ => None,
        }
    }
}

/// A typed JSON reply.
pub struct StructuredOutput<P, E, D> {
    /// The schema sent with each request.
    pub schema: OutputSchema,
    /// Parses a JSON text into the output, giving the parser's message when it
    /// doesn't fit.
    pub from_json: P,
    /// The JSON of an output, if it has one.
    pub to_value: E,
    /// The output that a JSON value holds, if it fits.
    pub from_value: D,
}

impl<
    O,
    P: Fn(&str) -> Result<O, String>,
    E: Fn(&O) -> Option<JsonValue>,
    D: Fn(JsonValue) -> Option<O>,
> OutputSpec<O> for StructuredOutput<P, E, D> {
    open spec fn ready(&self) -> bool {
        &&& forall|text: &str| call_requires(self.from_json, (text,))
        &&& forall|output: &O| call_requires(self.to_value, (output,))
        &&& forall|value: JsonValue| call_requires(self.from_value, (value,))
    }

    open spec fn schema_spec(&self) -> Option<SchemaView> {
        Some(self.schema@)
    }

    open spec fn parses(&self, raw: Seq<char>, r: Result<O, CompletionError>) -> bool {
        json_parse(self.from_json, raw, r)
    }

    open spec fn encodes(&self, output: O, r: Option<JsonValue>) -> bool {
        call_ensures(self.to_value, (&output,), r)
    }

    open spec fn decodes(&self, value: JsonView, r: Option<O>) -> bool {
        exists|held: JsonValue| held@ == value && call_ensures(self.from_value, (held,), r)
    }

    fn schema(&self) -> (r: Option<&OutputSchema>) {
        Some(&self.schema)
    }

    fn parse(&self, raw: &str) -> (r: Result<O, CompletionError>) {
        parse_json(raw, &self.from_json)
    }

    fn encode(&self, output: &O) -> (r: Option<JsonValue>) {
        (self.to_value)(output)
    }

    fn decode(&self, value: JsonValue) -> (r: Option<O>) {
        (self.from_value)(value)
    }
}

/// Whether `r` can be what `from_json` gives for a text.
pub open spec fn attempt<O, P: Fn(&str) -> Result<O, String>>(
    from_json: P,
    text: Seq<char>,
    r: Result<O, String>,
) -> bool {
    exists|t: &str| t@ == text && #[trigger] call_ensures(from_json, (t,), r)
}

/// The body of a Markdown code fence such as `` ```json\n{..}\n``` ``, if
/// `text` is one.
pub open spec fn fence_body(text: Seq<char>) -> Option<Seq<char>> {
    let rest = text.skip(3);
    let line = first_index(rest, '\n');
    let body = trimmed_end(rest.skip(line + 1));
    if has_prefix(text, "```"@) && line < rest.len() && has_suffix(body, "```"@) {
        Some(trimmed(body.take(body.len() - 3)))
    } else {
        None
    }
}

/// Whether `r` can be the parse of the reply `raw`: the reply itself, or else
/// the body of its code fence. The error is that of the reply itself.
pub open spec fn json_parse<O, P: Fn(&str) -> Result<O, String>>(
    from_json: P,
    raw: Seq<char>,
    r: Result<O, CompletionError>,
) -> bool {
    let text = trimmed(raw);
    if text.len() == 0 {
        r == Err::<O, _>(CompletionError::EmptyResponse)
    } else {
        exists|first: Result<O, String>| #[trigger]
            attempt(from_json, text, first) && follows_first(from_json, raw, first, r)
    }
}

/// Whether `r` can follow from what parsing the reply itself gave.
pub open spec fn follows_first<O, P: Fn(&str) -> Result<O, String>>(
    from_json: P,
    raw: Seq<char>,
    first: Result<O, String>,
    r: Result<O, CompletionError>,
) -> bool {
    match first {
        Ok(output) => r == Ok::<_, CompletionError>(output),
        Err(message) => match fence_body(trimmed(raw)) {
            None => unparsed(raw, message, r),
            Some(inner) => exists|second: Result<O, String>| #[trigger]
                attempt(from_json, inner, second) && follows_second(raw, message, second, r),
        },
    }
}

/// Whether `r` follows from what parsing the body of the code fence gave.
pub open spec fn follows_second<O>(
    raw: Seq<char>,
    message: String,
    second: Result<O, String>,
    r: Result<O, CompletionError>,
) -> bool {
    match second {
        Ok(output) => r == Ok::<_, CompletionError>(output),
        Err(_) => unparsed(raw, message, r),
    }
}

/// Whether `r` is the error of a reply that doesn't parse.
pub open spec fn unparsed<O>(
    raw: Seq<char>,
    message: String,
    r: Result<O, CompletionError>,
) -> bool {
    r matches Err(e) && e matches CompletionError::Parse { raw: kept, source } && kept@ == raw
        && source == message
}

/// Parses a JSON reply with `from_json`. A reply wrapped in a Markdown code
/// fence is accepted.
pub fn parse_json<O, P: Fn(&str) -> Result<O, String>>(raw: &str, from_json: &P) -> (r: Result<
    O,
    CompletionError,
>)
    requires
        forall|text: &str| call_requires(*from_json, (text,)),
    ensures
        json_parse(*from_json, raw@, r),
{
    let text = trim(raw);
    if text.is_empty() {
        return Err(CompletionError::EmptyResponse);
    }
    let first = from_json(text);
    let ghost given = first;
    let r = match first {
        Ok(output) => Ok(output),
        Err(message) => match strip_code_fence(text) {
            Some(inner) => {
                let second = from_json(inner);
                let ghost fenced = second;
                let r = match second {
                    Ok(output) => Ok(output),
                    Err(_) => Err(CompletionError::Parse { raw: owned(raw), source: message }),
                };
                proof {
                    assert(fence_body(trimmed(raw@)) == Some(inner@));
                    assert(attempt(*from_json, inner@, fenced));
                    assert(follows_second(raw@, message, fenced, r));
                    let body = fence_body(trimmed(raw@))->0;
                    assert(attempt(*from_json, body, fenced));
                    assert(given == Err::<O, String>(message));
                    assert(follows_first(*from_json, raw@, given, r));
                }
                r
            },
            None => {
                let r = Err(CompletionError::Parse { raw: owned(raw), source: message });
                proof {
                    assert(unparsed(raw@, message, r));
                    assert(follows_first(*from_json, raw@, given, r));
                }
                r
            },
        },
    };
    proof {
        assert(attempt(*from_json, trimmed(raw@), given));
    }
    r
}

/// The body of a Markdown code fence such as `` ```json\n{..}\n``` ``.
pub fn strip_code_fence(text: &str) -> (r: Option<&str>)
    ensures
        match r {
            Some(body) => fence_body(text@) == Some(body@),
            None => fence_body(text@) is None,
        },
{
    proof {
        reveal_strlit("```");
    }
    let rest = match strip_prefix(text, "```") {
        Some(rest) => rest,
        None => {
            return None;
        },
    };
    let chars = chars_of(rest);
    let line: usize = find_char(&chars, 0, '\n');
    proof {
        assert(chars@.skip(0) =~= rest@);
        assert("```"@.len() == 3);
    }
    if line >= chars.len() {
        return None;
    }
    let body = rest.substring_char(line + 1, chars.len());
    proof {
        assert(body@ =~= rest@.skip(line + 1));
    }
    match strip_suffix(trim_end(body), "```") {
        Some(inner) => Some(trim(inner)),
        None => None,
    }
}

/// A character of a schema's name.
pub open spec fn name_char(c: char) -> char {
    if is_letter(c) || is_digit(c) || c == '-' {
        c
    } else {
        '_'
    }
}

/// The name of a schema titled `title`: letters, digits and `-` as they are,
/// `_` for anything else, and at most 64 characters.
pub open spec fn schema_name(title: Seq<char>) -> Seq<char> {
    let name = title.map_values(|c: char| name_char(c));
    if name.len() <= 64 {
        name
    } else {
        name.take(64)
    }
}

/// The members of an object but those named `$schema`.
pub open spec fn without_meta(members: Seq<(Seq<char>, JsonView)>) -> Seq<(Seq<char>, JsonView)>
    decreases members.len(),
{
    if members.len() == 0 {
        Seq::empty()
    } else {
        let rest = without_meta(members.drop_last());
        if members.last().0 == "$schema"@ {
            rest
        } else {
            rest.push(members.last())
        }
    }
}

/// The schema that is sent for a type whose generated schema is `generated`.
pub open spec fn sent_schema(generated: JsonView) -> JsonView {
    match generated {
        JsonView::Object(members) => JsonView::Object(without_meta(members)),
        other => other,
    }
}

/// The schema to send for a type titled `title` whose generated JSON schema is
/// `generated`. `$schema` is dropped: it is not part of the schema proper, and
/// some servers reject it.
pub fn schema_of(title: &str, generated: &JsonValue) -> (r: OutputSchema)
    ensures
        r.name@ == schema_name(title@),
        r.schema@ == sent_schema(generated@),
{
    let chars = chars_of(title);
    let mut name = String::new();
    let mut i: usize = 0;
    while i < chars.len() && i < 64
        invariant
            i <= chars@.len(),
            i <= 64,
            chars@ == title@,
            name@ == title@.map_values(|c: char| name_char(c)).take(i as int),
        decreases chars@.len() - i,
    {
        let c: char = chars[i];
        if char_is_letter(c) || char_is_digit(c) || c == '-' {
            name.push(c);
        } else {
            name.push('_');
        }
        proof {
            let all = title@.map_values(|c: char| name_char(c));
            assert(all.take(i + 1) =~= all.take(i as int).push(all[i as int]));
        }
        i += 1;
    }
    proof {
        let all = title@.map_values(|c: char| name_char(c));
        assert(all.take(all.len() as int) =~= all);
    }
    let schema = match generated {
        JsonValue::Object(members) => {
            let ghost listed = generated@->Object_0;
            let mut kept: Vec<(String, JsonValue)> = Vec::new();
            let mut i: usize = 0;
            proof {
                assert(listed.take(0) =~= Seq::empty());
                assert(pairs(kept@) =~= Seq::empty());
            }
            while i < members.len()
                invariant
                    i <= members@.len(),
                    *generated == JsonValue::Object(*members),
                    listed == generated@->Object_0,
                    listed.len() == members@.len(),
                    pairs(kept@) == without_meta(listed.take(i as int)),
                decreases members@.len() - i,
            {
                proof {
                    assert(listed.take(i + 1).drop_last() =~= listed.take(i as int));
                    assert(listed.take(i + 1).last() == (
                        members@[i as int].0@,
                        members@[i as int].1@,
                    ));
                }
                if !same_text(members[i].0.as_str(), "$schema") {
                    let ghost before = kept@;
                    let member = (members[i].0.clone(), members[i].1.copy());
                    kept.push(member);
                    proof {
                        assert(pairs(kept@) =~= pairs(before).push((member.0@, member.1@)));
                    }
                }
                i += 1;
            }
            let out = JsonValue::Object(kept);
            proof {
                assert(listed.take(listed.len() as int) =~= listed);
                assert(out@->Object_0 =~= pairs(kept@));
            }
            out
        },
        _ => generated.copy(),
    };
    OutputSchema { name, schema }
}

/// A schema that is sent has no `$schema` member.
pub proof fn lemma_meta_is_dropped(members: Seq<(Seq<char>, JsonView)>)
    ensures
        forall|i: int|
            0 <= i < without_meta(members).len() ==> (#[trigger] without_meta(members)[i]).0
                != "$schema"@,
    decreases members.len(),
{
    if members.len() > 0 {
        let rest = without_meta(members.drop_last());
        lemma_meta_is_dropped(members.drop_last());
        assert forall|i: int| 0 <= i < without_meta(members).len() implies (
        #[trigger] without_meta(members)[i]).0 != "$schema"@ by {
            if i < rest.len() {
                assert(without_meta(members)[i] == rest[i]);
            }
        }
    }
}

/// One task for a chat model over records of some type: the instructions,
/// what to send for each record, and where the reply goes.
///
/// A transform doesn't hold a model, so the same transform runs against any
/// model, and a record type can have as many transforms as you need.
pub struct Transform<I, X, A> {
    /// The system prompt.
    pub prompt: String,
    /// What is sent for each record.
    pub input: I,
    /// How replies are read.
    pub output: X,
    /// Where the output goes.
    pub apply: Option<A>,
}

impl<J, A> Transform<JsonInput<J>, TextOutput, A> {
    /// A transform whose reply is plain text, trimmed of surrounding
    /// whitespace. `prompt` is the system prompt.
    ///
    /// Each record is sent as the JSON that `to_json` makes of it unless you
    /// set [`input`](Self::input).
    pub fn text(prompt: &str, to_json: J) -> (r: Self)
        ensures
            r.prompt@ == prompt@,
            r.input.to_json == to_json,
            r.output == TextOutput,
            r.apply is None,
    {
        Transform {
            prompt: owned(prompt),
            input: JsonInput { to_json },
            output: TextOutput,
            apply: None,
        }
    }
}

impl<J, P, E, D, A> Transform<JsonInput<J>, StructuredOutput<P, E, D>, A> {
    /// A transform whose reply is typed JSON. `prompt` is the system prompt.
    ///
    /// The schema is sent with every request, and each reply is parsed. A
    /// reply wrapped in a Markdown code fence is accepted. Each record is sent
    /// as the JSON that `to_json` makes of it unless you set
    /// [`input`](Self::input).
    pub fn structured(prompt: &str, to_json: J, output: StructuredOutput<P, E, D>) -> (r: Self)
        ensures
            r.prompt@ == prompt@,
            r.input.to_json == to_json,
            r.output == output,
            r.apply is None,
    {
        Transform { prompt: owned(prompt), input: JsonInput { to_json }, output, apply: None }
    }
}

impl<I, X, A> Transform<I, X, A> {
    /// Sets what is sent for each record, in place of its JSON.
    pub fn input<F>(self, input: F) -> (r: Transform<CustomInput<F>, X, A>)
        ensures
            r.prompt == self.prompt,
            r.input.input == input,
            r.output == self.output,
            r.apply == self.apply,
    {
        Transform {
            prompt: self.prompt,
            input: CustomInput { input },
            output: self.output,
            apply: self.apply,
        }
    }

    /// Sets where the output goes. A run needs it; a completion ignores it.
    pub fn apply(self, apply: A) -> (r: Self)
        ensures
            r.prompt == self.prompt,
            r.input == self.input,
            r.output == self.output,
            r.apply == Some(apply),
    {
        Transform {
            prompt: self.prompt,
            input: self.input,
            output: self.output,
            apply: Some(apply),
        }
    }

    /// The system prompt.
    pub fn prompt(&self) -> (r: &str)
        ensures
            r@ == self.prompt@,
    {
        self.prompt.as_str()
    }

    /// The schema sent with each request, for structured transforms.
    pub fn schema<O>(&self) -> (r: Option<&OutputSchema>) where X: OutputSpec<O>
        ensures
            match r {
                Some(schema) => self.output.schema_spec() == Some(schema@),
                None => self.output.schema_spec() is None,
            },
    {
        self.output.schema()
    }

    /// What is sent for `record`.
    pub fn render<T>(&self, record: &T) -> (r: Result<String, InputError>) where I: Render<T>
        requires
            self.input.can_render(*record),
        ensures
            self.input.renders(*record, r),
    {
        self.input.render(record)
    }
}

} // verus!
