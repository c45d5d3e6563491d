//! The OpenAI API, or any server that implements it: vLLM, LM Studio,
//! llama.cpp's server, OpenRouter, Groq, or Ollama's `/v1` endpoint.

use super::{
    embed_body, embed_body_view, join_url, joined_url, member, messages, messages_view, object, pair,
    BackendError, BackendIdentity, ChatBackend, ChatRequest, ChatResponse, ErrorKind,
    HttpPost, IdentityView, SchemaView, Usage, DEFAULT_TIMEOUT_SECS,
};
use crate::json::{JsonValue, JsonView};
use crate::text::lines::views;
use crate::text::owned;
use crate::time::Duration;
use vstd::prelude::*;
use vstd::string::*;

verus! {

/// OpenAI's API endpoint.
pub const OPENAI_BASE_URL: &'static str = "https://api.openai.com/v1";

/// The environment variable [`OpenAiCompatClient::openai`] reads the key from.
pub const OPENAI_API_KEY_VAR: &'static str = "OPENAI_API_KEY";

/// A client for the OpenAI API or a compatible server.
#[derive(Debug, Clone)]
pub struct OpenAiCompatClient {
    /// The base URL.
    pub base_url: String,
    /// The model name.
    pub model: String,
    /// The key, sent as a bearer token when set.
    pub api_key: Option<String>,
    /// How long one request may take.
    pub timeout: Duration,
}

/// What the server answers to a chat.
#[derive(Debug, Clone)]
pub struct OpenAiReply {
    /// The content of each choice's message.
    pub choices: Vec<Option<String>>,
    /// Token usage, when it is reported.
    pub usage: Option<Usage>,
}

/// One vector of an embedding reply and the input it belongs to.
#[derive(Debug, Clone)]
pub struct EmbeddingItem<V> {
    /// The vector.
    pub embedding: V,
    /// The position of its input.
    pub index: usize,
}

/// The `response_format` of a structured chat.
pub open spec fn response_format(schema: SchemaView) -> JsonView {
    JsonView::Object(
        seq![
            (
                "json_schema"@,
                JsonView::Object(
                    seq![
                        ("name"@, JsonView::Text(schema.name)),
                        ("schema"@, schema.schema),
                        ("strict"@, JsonView::Bool(false)),
                    ],
                ),
            ),
            ("type"@, JsonView::Text("json_schema"@)),
        ],
    )
}

/// The body of a chat request.
pub open spec fn openai_chat_body(
    model: Seq<char>,
    system: Seq<char>,
    user: Seq<char>,
    schema: Option<SchemaView>,
) -> JsonView {
    let base = seq![
        ("messages"@, messages_view(system, user)),
        ("model"@, JsonView::Text(model)),
    ];
    JsonView::Object(
        match schema {
            Some(s) => base.push(("response_format"@, response_format(s))),
            None => base,
        },
    )
}

/// The message of a missing key.
pub open spec fn missing_key_message() -> Seq<char> {
    OPENAI_API_KEY_VAR@ + " is not set, in the environment or in a .env file"@
}

/// Whether a lookup found a key that can be used.
pub open spec fn usable(key: Option<String>) -> bool {
    key matches Some(k) && k@.len() > 0
}

impl OpenAiCompatClient {
    /// A client for `model` on OpenAI's API.
    ///
    /// `lookup` reads `OPENAI_API_KEY`, and is told whether `load_dotenv` was
    /// called. When it gives no key, `load_dotenv` is called and the key is
    /// looked up once more; see [`resolve_api_key`].
    pub fn openai<L: Fn(bool) -> Option<String>, D: FnOnce() -> ()>(
        model: &str,
        lookup: L,
        load_dotenv: D,
    ) -> (r: Result<OpenAiCompatClient, BackendError>)
        requires
            call_requires(lookup, (false,)),
            forall|first: Option<String>| #[trigger]
                call_ensures(lookup, (false,), first) && !usable(first) ==> call_requires(
                    load_dotenv,
                    (),
                ),
            call_ensures(load_dotenv, (), ()) ==> call_requires(lookup, (true,)),
        ensures
            exists|first: Option<String>| #[trigger]
                call_ensures(lookup, (false,), first) && if usable(first) {
                    r matches Ok(client) && client.api_key == first
                } else {
                    &&& call_ensures(load_dotenv, (), ())
                    &&& exists|second: Option<String>| #[trigger]
                        call_ensures(lookup, (true,), second) && if usable(second) {
                            r matches Ok(client) && client.api_key == second
                        } else {
                            r matches Err(e) && e.kind == ErrorKind::Fatal && e.status is None
                                && e.message@ == missing_key_message() && e.retry_after is None
                        }
                },
            r matches Ok(client) ==> client.base_url@ == OPENAI_BASE_URL@ && client.model@ == model@
                && client.timeout.nanos == DEFAULT_TIMEOUT_SECS * 1_000_000_000,
    {
        match resolve_api_key(lookup, load_dotenv) {
            Ok(key) => Ok(OpenAiCompatClient::new(OPENAI_BASE_URL, model, Some(key))),
            Err(e) => Err(e),
        }
    }

    /// A client for `model` at `base_url`, such as `http://localhost:8000/v1`.
    /// `api_key` is sent as a bearer token when set.
    pub fn new(base_url: &str, model: &str, api_key: Option<String>) -> (r: OpenAiCompatClient)
        ensures
            r.base_url@ == base_url@,
            r.model@ == model@,
            r.api_key == api_key,
            r.timeout.nanos == DEFAULT_TIMEOUT_SECS * 1_000_000_000,
    {
        OpenAiCompatClient {
            base_url: owned(base_url),
            model: owned(model),
            api_key,
            timeout: Duration::from_secs(DEFAULT_TIMEOUT_SECS),
        }
    }

    /// How long one request may take. Defaults to two minutes.
    pub fn timeout(self, timeout: Duration) -> (r: OpenAiCompatClient)
        ensures
            r.base_url == self.base_url,
            r.model == self.model,
            r.api_key == self.api_key,
            r.timeout == timeout,
    {
        OpenAiCompatClient {
            base_url: self.base_url,
            model: self.model,
            api_key: self.api_key,
            timeout,
        }
    }

    /// The JSON body of a chat: the system and user messages and nothing
    /// else, with the schema in `response_format` when there is one.
    ///
    /// The schema is not strict: a strict one would have to require every
    /// property. The reply is parsed and checked locally either way.
    pub fn chat_body(&self, request: &ChatRequest) -> (r: JsonValue)
        ensures
            r@ == openai_chat_body(
                self.model@,
                request.system@,
                request.user@,
                super::schema_view(request.schema),
            ),
    {
        let mut members: Vec<(String, JsonValue)> = Vec::new();
        members.push(
            member("messages", messages(request.system.as_str(), request.user.as_str())),
        );
        members.push(member("model", JsonValue::string(self.model.as_str())));
        match &request.schema {
            Some(schema) => {
                let mut inner: Vec<(String, JsonValue)> = Vec::new();
                inner.push(member("name", JsonValue::string(schema.name.as_str())));
                inner.push(member("schema", schema.schema.copy()));
                inner.push(member("strict", JsonValue::Bool(false)));
                let json_schema = object(inner);
                let format = pair(
                    member("json_schema", json_schema),
                    member("type", JsonValue::string("json_schema")),
                );
                proof {
                    let expected = response_format(schema@);
                    assert(json_schema@->Object_0 =~= expected->Object_0[0].1->Object_0);
                    assert(format@->Object_0 =~= expected->Object_0);
                }
                members.push(member("response_format", format));
            },
            None => {},
        }
        let r = object(members);
        proof {
            assert(r@->Object_0 =~= openai_chat_body(
                self.model@,
                request.system@,
                request.user@,
                super::schema_view(request.schema),
            )->Object_0);
        }
        r
    }

    /// The request that sends a chat.
    pub fn chat_post(&self, request: &ChatRequest) -> (r: HttpPost)
        ensures
            r.url@ == joined_url(self.base_url@, "/chat/completions"@),
            r.bearer == self.api_key,
            r.timeout == self.timeout,
            r.body@ == openai_chat_body(
                self.model@,
                request.system@,
                request.user@,
                super::schema_view(request.schema),
            ),
    {
        HttpPost {
            url: join_url(self.base_url.as_str(), "/chat/completions"),
            bearer: self.bearer(),
            timeout: self.timeout,
            body: self.chat_body(request),
        }
    }

    /// The request that embeds `inputs`, each exactly as given.
    pub fn embed_post(&self, inputs: &Vec<String>) -> (r: HttpPost)
        ensures
            r.url@ == joined_url(self.base_url@, "/embeddings"@),
            r.bearer == self.api_key,
            r.timeout == self.timeout,
            r.body@ == embed_body_view(self.model@, views(inputs@)),
    {
        HttpPost {
            url: join_url(self.base_url.as_str(), "/embeddings"),
            bearer: self.bearer(),
            timeout: self.timeout,
            body: embed_body(self.model.as_str(), inputs),
        }
    }

    fn bearer(&self) -> (r: Option<String>)
        ensures
            r == self.api_key,
    {
        match &self.api_key {
            Some(key) => Some(key.clone()),
            None => None,
        }
    }
}

/// The key to use without a `.env` file, given what the environment holds. An
/// empty key counts as a missing one.
pub fn key_from_environment(first: Option<String>) -> (r: Option<String>)
    ensures
        r == if usable(first) {
            first
        } else {
            None
        },
{
    match first {
        Some(key) => if key.as_str().is_empty() {
            None
        } else {
            Some(key)
        },
        None => None,
    }
}

/// The key to use once a `.env` file was loaded, given what the environment
/// holds by then. An empty key counts as a missing one.
pub fn key_after_dotenv(second: Option<String>) -> (r: Result<String, BackendError>)
    ensures
        if usable(second) {
            r == Ok::<String, BackendError>(second->0)
        } else {
            r matches Err(e) && e.kind == ErrorKind::Fatal && e.status is None && e.message@
                == missing_key_message() && e.retry_after is None
        },
{
    match key_from_environment(second) {
        Some(key) => Ok(key),
        None => {
            let mut message = owned(OPENAI_API_KEY_VAR);
            message.append(" is not set, in the environment or in a .env file");
            Err(BackendError::config(message.as_str()))
        },
    }
}

/// Reads the key, calling `load_dotenv` only when the first lookup gives none.
///
/// `lookup` is told whether `load_dotenv` was called: it is asked once before,
/// and once after when the first key can't be used.
pub fn resolve_api_key<L: Fn(bool) -> Option<String>, D: FnOnce() -> ()>(
    lookup: L,
    load_dotenv: D,
) -> (r: Result<String, BackendError>)
    requires
        call_requires(lookup, (false,)),
        forall|first: Option<String>| #[trigger]
            call_ensures(lookup, (false,), first) && !usable(first) ==> call_requires(
                load_dotenv,
                (),
            ),
        call_ensures(load_dotenv, (), ()) ==> call_requires(lookup, (true,)),
    ensures
        exists|first: Option<String>| #[trigger]
            call_ensures(lookup, (false,), first) && if usable(first) {
                r matches Ok(key) && Some(key) == first
            } else {
                &&& call_ensures(load_dotenv, (), ())
                &&& exists|second: Option<String>| #[trigger]
                    call_ensures(lookup, (true,), second) && if usable(second) {
                        r matches Ok(key) && Some(key) == second
                    } else {
                        r matches Err(e) && e.kind == ErrorKind::Fatal && e.status is None
                            && e.message@ == missing_key_message() && e.retry_after is None
                    }
            },
{
    match key_from_environment(lookup(false)) {
        Some(key) => Ok(key),
        None => {
            load_dotenv();
            key_after_dotenv(lookup(true))
        },
    }
}

/// The reply to a chat: the content of the first choice, or no text without
/// one, and the usage as reported.
pub fn openai_response(reply: OpenAiReply) -> (r: ChatResponse)
    ensures
        r.text@ == if reply.choices@.len() > 0 && reply.choices@[0] is Some {
            reply.choices@[0]->0@
        } else {
            Seq::empty()
        },
        r.usage == reply.usage,
{
    let text = if reply.choices.len() > 0 {
        match &reply.choices[0] {
            Some(content) => content.clone(),
            None => String::new(),
        }
    } else {
        String::new()
    };
    ChatResponse { text, usage: reply.usage }
}

/// The items of one input, in order.
pub open spec fn with_index<V>(items: Seq<EmbeddingItem<V>>, index: usize) -> Seq<
    EmbeddingItem<V>,
> {
    items.filter(|item: EmbeddingItem<V>| item.index == index)
}

/// Whether `ordered` holds `items` by ascending index, items of the same index
/// in the order they had.
pub open spec fn stably_ordered<V>(
    items: Seq<EmbeddingItem<V>>,
    ordered: Seq<EmbeddingItem<V>>,
) -> bool {
    &&& ordered.len() == items.len()
    &&& forall|i: int, j: int|
        0 <= i <= j < ordered.len() ==> (#[trigger] ordered[i]).index <= (
        #[trigger] ordered[j]).index
    &&& forall|index: usize| #[trigger]
        with_index(items, index) == with_index(ordered, index)
}

/// Inserting the item before the first that doesn't have a smaller index keeps
/// the order, for a list that the item precedes.
proof fn lemma_ordered_insert<V>(
    item: EmbeddingItem<V>,
    items: Seq<EmbeddingItem<V>>,
    ordered: Seq<EmbeddingItem<V>>,
    at: int,
)
    requires
        stably_ordered(items, ordered),
        0 <= at <= ordered.len(),
        forall|i: int| 0 <= i < at ==> (#[trigger] ordered[i]).index < item.index,
        at < ordered.len() ==> item.index <= ordered[at].index,
    ensures
        stably_ordered(seq![item] + items, ordered.insert(at, item)),
{
    let all = seq![item] + items;
    let placed = ordered.insert(at, item);
    let before = ordered.take(at);
    let after = ordered.skip(at);
    assert(placed =~= before + (seq![item] + after));
    assert(ordered =~= before + after);
    assert forall|index: usize| #[trigger] with_index(all, index) == with_index(placed, index) by {
        let here = |x: EmbeddingItem<V>| x.index == index;
        Seq::filter_distributes_over_add(seq![item], items, here);
        Seq::filter_distributes_over_add(seq![item], after, here);
        Seq::filter_distributes_over_add(before, seq![item] + after, here);
        Seq::filter_distributes_over_add(before, after, here);
        assert(with_index(items, index) == with_index(ordered, index));
        if index == item.index {
            lemma_none_selected(before, here);
            assert(before.filter(here) =~= Seq::empty());
            assert(all.filter(here) =~= placed.filter(here));
        } else {
            lemma_none_selected(seq![item], here);
            assert(seq![item].filter(here) =~= Seq::empty());
            assert(all.filter(here) =~= items.filter(here));
            assert(placed.filter(here) =~= ordered.filter(here));
        }
    }
}

/// Nothing is left of a list when nothing in it is selected.
proof fn lemma_none_selected<A>(list: Seq<A>, selected: spec_fn(A) -> bool)
    requires
        forall|i: int| 0 <= i < list.len() ==> !selected(#[trigger] list[i]),
    ensures
        list.filter(selected).len() == 0,
    decreases list.len(),
{
    reveal(Seq::filter);
    if list.len() > 0 {
        assert(!selected(list[list.len() - 1]));
        assert forall|i: int| 0 <= i < list.drop_last().len() implies !selected(
            #[trigger] list.drop_last()[i],
        ) by {
            assert(!selected(list[i]));
        }
        lemma_none_selected(list.drop_last(), selected);
    }
}

/// The vectors of an embedding reply by the input they belong to.
pub fn openai_embeddings<V>(data: Vec<EmbeddingItem<V>>) -> (r: Vec<V>)
    ensures
        exists|ordered: Seq<EmbeddingItem<V>>| #[trigger]
            stably_ordered(data@, ordered) && r@ == ordered.map_values(
                |item: EmbeddingItem<V>| item.embedding,
            ),
{
    let ghost all = data@;
    let mut rest = data;
    let mut ordered: Vec<EmbeddingItem<V>> = Vec::new();
    proof {
        assert(all.skip(all.len() as int) =~= Seq::empty());
    }
    while rest.len() > 0
        invariant
            rest@ == all.take(rest@.len() as int),
            rest@.len() <= all.len(),
            stably_ordered(all.skip(rest@.len() as int), ordered@),
        decreases rest@.len(),
    {
        let ghost left = rest@.len() - 1;
        match rest.pop() {
            Some(item) => {
                let mut at: usize = 0;
                while at < ordered.len() && ordered[at].index < item.index
                    invariant
                        at <= ordered@.len(),
                        forall|i: int| 0 <= i < at ==> (#[trigger] ordered@[i]).index < item.index,
                    decreases ordered@.len() - at,
                {
                    at += 1;
                }
                proof {
                    lemma_ordered_insert(item, all.skip(left + 1), ordered@, at as int);
                    assert(all.skip(left) =~= seq![item] + all.skip(left + 1));
                    assert(rest@ =~= all.take(left));
                }
                ordered.insert(at, item);
            },
            None => {},
        }
    }
    let ghost sorted = ordered@;
    proof {
        assert(all.skip(0) =~= all);
    }
    let mut vectors: Vec<V> = Vec::new();
    for item in it: ordered
        invariant
            it.seq() == sorted,
            vectors@.len() == it.index(),
            forall|i: int|
                0 <= i < vectors@.len() ==> #[trigger] vectors@[i] == sorted[i].embedding,
    {
        vectors.push(item.embedding);
    }
    proof {
        assert(vectors@ =~= sorted.map_values(|item: EmbeddingItem<V>| item.embedding));
    }
    vectors
}

/// At most one item is selected by an index that no two items share.
proof fn lemma_one_selected<V>(items: Seq<EmbeddingItem<V>>, index: usize)
    requires
        forall|i: int, j: int|
            0 <= i < j < items.len() ==> (#[trigger] items[i]).index != (#[trigger] items[j]).index,
    ensures
        with_index(items, index).len() <= 1,
    decreases items.len(),
{
    reveal(Seq::filter);
    if items.len() > 0 {
        let here = |item: EmbeddingItem<V>| item.index == index;
        let rest = items.drop_last();
        lemma_one_selected(rest, index);
        if items.last().index == index {
            assert forall|i: int| 0 <= i < rest.len() implies !here(#[trigger] rest[i]) by {
                assert(items[i].index != items[items.len() - 1].index);
            }
            lemma_none_selected(rest, here);
        }
    }
}

/// When every input has exactly one vector in the reply, the vectors come out
/// one per input, in input order.
pub proof fn lemma_vectors_in_input_order<V>(
    items: Seq<EmbeddingItem<V>>,
    ordered: Seq<EmbeddingItem<V>>,
)
    requires
        stably_ordered(items, ordered),
        forall|i: int| 0 <= i < items.len() ==> (#[trigger] items[i]).index < items.len(),
        forall|i: int, j: int|
            0 <= i < j < items.len() ==> (#[trigger] items[i]).index != (#[trigger] items[j]).index,
    ensures
        forall|j: int| 0 <= j < items.len() ==> ordered[(#[trigger] items[j]).index as int] == items[j],
{
    let n = ordered.len() as int;
    assert forall|i: int, j: int| 0 <= i < j < n implies (#[trigger] ordered[i]).index < (
    #[trigger] ordered[j]).index by {
        if ordered[i].index == ordered[j].index {
            let index = ordered[i].index;
            let here = |item: EmbeddingItem<V>| item.index == index;
            let head = ordered.take(i + 1);
            let tail = ordered.skip(i + 1);
            assert(ordered =~= head + tail);
            Seq::filter_distributes_over_add(head, tail, here);
            assert(head[i] == ordered[i]);
            head.lemma_filter_contains(here, i);
            assert(tail[j - i - 1] == ordered[j]);
            tail.lemma_filter_contains(here, j - i - 1);
            assert(with_index(items, index) == with_index(ordered, index));
            lemma_one_selected(items, index);
        }
    }
    assert forall|i: int| 0 <= i < n implies (#[trigger] ordered[i]).index < n by {
        let index = ordered[i].index;
        let here = |item: EmbeddingItem<V>| item.index == index;
        ordered.lemma_filter_contains(here, i);
        assert(with_index(items, index) == with_index(ordered, index));
        if index >= n {
            lemma_none_selected(items, here);
        }
    }
    assert forall|i: int| 0 <= i < n implies (#[trigger] ordered[i]).index == i by {
        lemma_at_least_position(ordered, i);
        lemma_at_most_position(ordered, i);
    }
    assert forall|j: int| 0 <= j < items.len() implies ordered[(
    #[trigger] items[j]).index as int] == items[j] by {
        let index = items[j].index;
        let here = |item: EmbeddingItem<V>| item.index == index;
        items.lemma_filter_contains(here, j);
        assert(with_index(items, index) == with_index(ordered, index));
        assert(ordered.filter(here).contains(items[j]));
        lemma_filter_source(ordered, here, items[j]);
        let at = choose|at: int| 0 <= at < ordered.len() && ordered[at] == items[j];
        assert(ordered[at].index == at);
    }
}

/// What is selected from a list stands in it.
proof fn lemma_filter_source<A>(list: Seq<A>, selected: spec_fn(A) -> bool, x: A)
    requires
        list.filter(selected).contains(x),
    ensures
        exists|at: int| 0 <= at < list.len() && list[at] == x,
    decreases list.len(),
{
    reveal(Seq::filter);
    if list.len() > 0 {
        let rest = list.drop_last();
        if list.last() == x {
            assert(list[list.len() - 1] == x);
        } else {
            let i = choose|i: int| 0 <= i < list.filter(selected).len() && list.filter(selected)[i] == x;
            assert(rest.filter(selected)[i] == x);
            lemma_filter_source(rest, selected, x);
            let at = choose|at: int| 0 <= at < rest.len() && rest[at] == x;
            assert(list[at] == x);
        }
    }
}

/// Strictly ascending indices are at least their positions.
proof fn lemma_at_least_position<V>(ordered: Seq<EmbeddingItem<V>>, i: int)
    requires
        0 <= i < ordered.len(),
        forall|i: int, j: int|
            0 <= i < j < ordered.len() ==> (#[trigger] ordered[i]).index < (
            #[trigger] ordered[j]).index,
    ensures
        i <= ordered[i].index,
    decreases i,
{
    if i > 0 {
        lemma_at_least_position(ordered, i - 1);
        assert(ordered[i - 1].index < ordered[i].index);
    }
}

/// Strictly ascending indices below the length are at most their positions.
proof fn lemma_at_most_position<V>(ordered: Seq<EmbeddingItem<V>>, i: int)
    requires
        0 <= i < ordered.len(),
        forall|i: int, j: int|
            0 <= i < j < ordered.len() ==> (#[trigger] ordered[i]).index < (
            #[trigger] ordered[j]).index,
        forall|i: int| 0 <= i < ordered.len() ==> (#[trigger] ordered[i]).index < ordered.len(),
    ensures
        ordered[i].index <= i,
    decreases ordered.len() - i,
{
    if i + 1 < ordered.len() {
        lemma_at_most_position(ordered, i + 1);
        assert(ordered[i].index < ordered[i + 1].index);
    }
}

impl ChatBackend for OpenAiCompatClient {
    fn identity(&self) -> (r: BackendIdentity)
        ensures
            r@ == (IdentityView { kind: "openai"@, base_url: self.base_url@, model: self.model@ }),
    {
        BackendIdentity {
            kind: owned("openai"),
            base_url: self.base_url.clone(),
            model: self.model.clone(),
        }
    }
}

} // verus!
