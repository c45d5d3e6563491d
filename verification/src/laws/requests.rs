//! Requests to chat and embedding servers, and what becomes of their replies.

use super::texts::{all_white, is_core_of, lemma_trimmed_is_core};
use crate::backend::ollama::{ollama_response, OllamaReply};
use crate::backend::openai::{
    lemma_vectors_in_input_order, openai_embeddings, openai_response, stably_ordered,
    EmbeddingItem, OpenAiReply,
};
use crate::backend::{
    classify_status, is_success, join_url, BackendError, BackendIdentity, ChatBackend, ChatRequest,
    ChatResponse, ErrorKind, HttpPost, OllamaClient, OpenAiCompatClient,
};
use crate::json::JsonView;
use crate::text::lines::views;
use crate::text::number::to_decimal;
use crate::text::trim::{skip_leading, skip_trailing, trimmed};
use crate::time::Duration;
use vstd::prelude::*;
use vstd::string::*;
use vstd::utf8::{decode_utf8, valid_utf8};

verus! {

/// Whether a JSON value is an object with just these members, each once, in
/// whatever order.
pub open spec fn has_just(v: JsonView, wanted: Seq<(Seq<char>, JsonView)>) -> bool {
    v matches JsonView::Object(members) && members.len() == wanted.len() && (forall|i: int|
        0 <= i < wanted.len() ==> members.contains(#[trigger] wanted[i]))
}

/// Whether a JSON value is the list of some texts, each whole and in order.
pub open spec fn lists_texts(v: JsonView, texts: Seq<String>) -> bool {
    v matches JsonView::Array(items) && items.len() == texts.len() && forall|i: int|
        0 <= i < texts.len() ==> #[trigger] items[i] == JsonView::Text(texts[i]@)
}

/// Whether a JSON value is an embedding request: the model and every text, each
/// exactly as given, in order.
pub open spec fn is_embed_request(body: JsonView, model: Seq<char>, texts: Seq<String>) -> bool {
    body matches JsonView::Object(members) && members.len() == 2 && members[0].0 == "input"@
        && lists_texts(members[0].1, texts) && members[1] == ("model"@, JsonView::Text(model))
}

/// An embedding request holds the model and one string per text, each equal to
/// its text however long that is, in text order.
pub proof fn lemma_texts_are_sent_whole(
    ollama: &OllamaClient,
    openai: &OpenAiCompatClient,
    texts: &Vec<String>,
    a: HttpPost,
    b: HttpPost,
)
    requires
        call_ensures(OllamaClient::embed_post, (ollama, texts), a),
        call_ensures(OpenAiCompatClient::embed_post, (openai, texts), b),
    ensures
        is_embed_request(a.body@, ollama.model@, texts@),
        is_embed_request(b.body@, openai.model@, texts@),
        a.bearer is None,
        b.bearer == openai.api_key,
        a.timeout == ollama.timeout,
        b.timeout == openai.timeout,
{
    assert(views(texts@).len() == texts@.len());
    assert(forall|i: int| 0 <= i < texts@.len() ==> #[trigger] views(texts@)[i] == texts@[i]@);
}

/// The texts can be read back from an embedding request: requests for different
/// texts differ.
pub proof fn lemma_different_texts_are_sent_differently(
    client: &OllamaClient,
    compatible: &OpenAiCompatClient,
    texts: &Vec<String>,
    others: &Vec<String>,
    a: HttpPost,
    b: HttpPost,
)
    requires
        call_ensures(OllamaClient::embed_post, (client, texts), a) && call_ensures(
            OllamaClient::embed_post,
            (client, others),
            b,
        ) || call_ensures(OpenAiCompatClient::embed_post, (compatible, texts), a) && call_ensures(
            OpenAiCompatClient::embed_post,
            (compatible, others),
            b,
        ),
        a.body@ == b.body@,
    ensures
        texts@.len() == others@.len(),
        forall|i: int| 0 <= i < texts@.len() ==> (#[trigger] texts@[i])@ == others@[i]@,
{
    assert(views(texts@).len() == texts@.len());
    assert(views(others@).len() == others@.len());
    let sent = a.body@->Object_0[0].1->Array_0;
    assert(sent == b.body@->Object_0[0].1->Array_0);
    let inputs = crate::backend::inputs_view(views(texts@));
    let other_inputs = crate::backend::inputs_view(views(others@));
    assert(a.body@->Object_0[0].1 == inputs);
    assert(b.body@->Object_0[0].1 == other_inputs);
    assert(inputs->Array_0.len() == texts@.len());
    assert(other_inputs->Array_0.len() == others@.len());
    assert forall|i: int| 0 <= i < texts@.len() implies (#[trigger] texts@[i])@ == others@[i]@ by {
        assert(sent[i] == JsonView::Text(views(texts@)[i]));
        assert(sent[i] == JsonView::Text(views(others@)[i]));
    }
}

/// A message of a chat: who says it, and all of what is said.
pub open spec fn says(v: JsonView, role: Seq<char>, content: Seq<char>) -> bool {
    has_just(v, seq![("role"@, JsonView::Text(role)), ("content"@, JsonView::Text(content))])
}

/// Whether a JSON value is the messages of a chat: the system prompt and the
/// user's input, both whole, and nothing else.
pub open spec fn are_messages(v: JsonView, system: Seq<char>, user: Seq<char>) -> bool {
    v matches JsonView::Array(items) && items.len() == 2 && says(items[0], "system"@, system)
        && says(items[1], "user"@, user)
}

/// A chat is sent with the system prompt, the user's input and the schema as
/// they are, and nothing else: Ollama gets the schema as `format`, and no
/// streaming.
pub proof fn lemma_ollama_chat(client: &OllamaClient, request: &ChatRequest, post: HttpPost)
    requires
        call_ensures(OllamaClient::chat_post, (client, request), post),
    ensures
        post.bearer is None,
        post.timeout == client.timeout,
        exists|messages: JsonView| #[trigger]
            are_messages(messages, request.system@, request.user@) && has_just(
                post.body@,
                match request.schema {
                    Some(schema) => seq![
                        ("model"@, JsonView::Text(client.model@)),
                        ("messages"@, messages),
                        ("stream"@, JsonView::Bool(false)),
                        ("format"@, schema.schema@),
                    ],
                    None => seq![
                        ("model"@, JsonView::Text(client.model@)),
                        ("messages"@, messages),
                        ("stream"@, JsonView::Bool(false)),
                    ],
                },
            ),
{
    let members = post.body@->Object_0;
    let first = if request.schema is Some {
        1int
    } else {
        0
    };
    let messages = members[first].1;
    lemma_messages(messages, request.system@, request.user@);
    assert(members[first] == ("messages"@, messages));
    assert(members[first + 1] == ("model"@, JsonView::Text(client.model@)));
    assert(members[first + 2] == ("stream"@, JsonView::Bool(false)));
    if let Some(schema) = request.schema {
        assert(members[0] == ("format"@, schema.schema@));
    }
}

/// Whether a JSON value asks for replies of the schema in `inner`.
pub open spec fn is_schema_format(format: JsonView, inner: JsonView) -> bool {
    has_just(format, seq![("type"@, JsonView::Text("json_schema"@)), ("json_schema"@, inner)])
}

/// A chat is sent with the system prompt, the user's input and the schema as
/// they are, and nothing else: an OpenAI-compatible server gets the schema and
/// its name in `response_format`, not strict, and the key as bearer token.
pub proof fn lemma_openai_chat(client: &OpenAiCompatClient, request: &ChatRequest, post: HttpPost)
    requires
        call_ensures(OpenAiCompatClient::chat_post, (client, request), post),
    ensures
        post.bearer == client.api_key,
        post.timeout == client.timeout,
        exists|messages: JsonView| #[trigger]
            are_messages(messages, request.system@, request.user@) && match request.schema {
                Some(schema) => exists|format: JsonView, inner: JsonView| #[trigger]
                    is_schema_format(format, inner) && has_just(
                        post.body@,
                        seq![
                            ("model"@, JsonView::Text(client.model@)),
                            ("messages"@, messages),
                            ("response_format"@, format),
                        ],
                    ) && has_just(
                        inner,
                        seq![
                            ("name"@, JsonView::Text(schema.name@)),
                            ("schema"@, schema.schema@),
                            ("strict"@, JsonView::Bool(false)),
                        ],
                    ),
                None => has_just(
                    post.body@,
                    seq![("model"@, JsonView::Text(client.model@)), ("messages"@, messages)],
                ),
            },
{
    let members = post.body@->Object_0;
    let messages = members[0].1;
    lemma_messages(messages, request.system@, request.user@);
    assert(members[0] == ("messages"@, messages));
    assert(members[1] == ("model"@, JsonView::Text(client.model@)));
    if let Some(schema) = request.schema {
        let format = members[2].1;
        let parts = format->Object_0;
        let inner = parts[0].1;
        let fields = inner->Object_0;
        assert(members[2] == ("response_format"@, format));
        assert(parts[0] == ("json_schema"@, inner));
        assert(parts[1] == ("type"@, JsonView::Text("json_schema"@)));
        assert(fields[0] == ("name"@, JsonView::Text(schema.name@)));
        assert(fields[1] == ("schema"@, schema.schema@));
        assert(fields[2] == ("strict"@, JsonView::Bool(false)));
        assert(is_schema_format(format, inner));
    }
}

/// The messages of a chat say what they should.
proof fn lemma_messages(messages: JsonView, system: Seq<char>, user: Seq<char>)
    requires
        messages == crate::backend::messages_view(system, user),
    ensures
        are_messages(messages, system, user),
{
    let items = messages->Array_0;
    let (a, b) = (items[0]->Object_0, items[1]->Object_0);
    assert(a[0] == ("content"@, JsonView::Text(system)));
    assert(a[1] == ("role"@, JsonView::Text("system"@)));
    assert(b[0] == ("content"@, JsonView::Text(user)));
    assert(b[1] == ("role"@, JsonView::Text("user"@)));
}

/// Whether a text is nothing but slashes.
pub open spec fn all_slashes(s: Seq<char>) -> bool {
    forall|i: int| 0 <= i < s.len() ==> #[trigger] s[i] == '/'
}

/// A base URL and a path are joined with one slash, and neither loses anything
/// but the slashes where they meet.
pub proof fn lemma_urls_are_joined(
    base_url: &str,
    path: &str,
    stem: Seq<char>,
    after_stem: Seq<char>,
    before_tail: Seq<char>,
    tail: Seq<char>,
    r: String,
)
    requires
        call_ensures(join_url, (base_url, path), r),
        base_url@ == stem + after_stem,
        all_slashes(after_stem),
        stem.len() > 0 ==> stem.last() != '/',
        path@ == before_tail + tail,
        all_slashes(before_tail),
        tail.len() > 0 ==> tail[0] != '/',
    ensures
        r@ == stem + seq!['/'] + tail,
{
    reveal_strlit("/");
    lemma_no_trailing_slashes(stem, after_stem);
    lemma_no_leading_slashes(before_tail, tail);
    assert("/"@ =~= seq!['/']);
}

/// Trailing slashes are taken off.
proof fn lemma_no_trailing_slashes(stem: Seq<char>, slashes: Seq<char>)
    requires
        all_slashes(slashes),
        stem.len() > 0 ==> stem.last() != '/',
    ensures
        skip_trailing(stem + slashes, |c: char| c == '/') == stem,
    decreases slashes.len(),
{
    let p = |c: char| c == '/';
    let all = stem + slashes;
    if slashes.len() == 0 {
        assert(all =~= stem);
        assert(skip_trailing(stem, p) == stem);
    } else {
        assert(all.last() == slashes[slashes.len() - 1]);
        assert(p(all.last()));
        assert(all.drop_last() =~= stem + slashes.drop_last());
        lemma_no_trailing_slashes(stem, slashes.drop_last());
    }
}

/// Leading slashes are taken off.
proof fn lemma_no_leading_slashes(slashes: Seq<char>, tail: Seq<char>)
    requires
        all_slashes(slashes),
        tail.len() > 0 ==> tail[0] != '/',
    ensures
        skip_leading(slashes + tail, |c: char| c == '/') == tail,
    decreases slashes.len(),
{
    let p = |c: char| c == '/';
    let all = slashes + tail;
    if slashes.len() == 0 {
        assert(all =~= tail);
        assert(skip_leading(tail, p) == tail);
    } else {
        assert(all[0] == slashes[0]);
        assert(p(all[0]));
        assert(all.drop_first() =~= slashes.drop_first() + tail);
        lemma_no_leading_slashes(slashes.drop_first(), tail);
    }
}

/// Where the requests of a client go: the base URL, one slash and the path of
/// the API.
pub proof fn lemma_endpoints(
    ollama: &OllamaClient,
    openai: &OpenAiCompatClient,
    request: &ChatRequest,
    texts: &Vec<String>,
    stem: Seq<char>,
    slashes: Seq<char>,
    ollama_chat: HttpPost,
    ollama_embed: HttpPost,
    openai_chat: HttpPost,
    openai_embed: HttpPost,
)
    requires
        ollama.base_url@ == stem + slashes,
        openai.base_url@ == stem + slashes,
        all_slashes(slashes),
        stem.len() > 0 ==> stem.last() != '/',
        call_ensures(OllamaClient::chat_post, (ollama, request), ollama_chat),
        call_ensures(OllamaClient::embed_post, (ollama, texts), ollama_embed),
        call_ensures(OpenAiCompatClient::chat_post, (openai, request), openai_chat),
        call_ensures(OpenAiCompatClient::embed_post, (openai, texts), openai_embed),
    ensures
        ollama_chat.url@ == stem + "/api/chat"@,
        ollama_embed.url@ == stem + "/api/embed"@,
        openai_chat.url@ == stem + "/chat/completions"@,
        openai_embed.url@ == stem + "/embeddings"@,
{
    reveal_strlit("/");
    reveal_strlit("/api/chat");
    reveal_strlit("/api/embed");
    reveal_strlit("/chat/completions");
    reveal_strlit("/embeddings");
    lemma_no_trailing_slashes(stem, slashes);
    lemma_path(stem, "/api/chat"@);
    lemma_path(stem, "/api/embed"@);
    lemma_path(stem, "/chat/completions"@);
    lemma_path(stem, "/embeddings"@);
}

/// A path that begins with one slash stands behind the base as it is.
proof fn lemma_path(stem: Seq<char>, path: Seq<char>)
    requires
        path.len() > 1,
        path[0] == '/',
        path[1] != '/',
    ensures
        stem + "/"@ + skip_leading(path, |c: char| c == '/') == stem + path,
{
    reveal_strlit("/");
    let tail = path.skip(1);
    let slash = seq!['/'];
    assert(path =~= slash + tail);
    lemma_no_leading_slashes(slash, tail);
    assert(stem + "/"@ + tail =~= stem + path);
}

/// Too many requests, a timeout and a server's own failure may pass when tried
/// again; any other error status stands.
pub proof fn lemma_which_statuses_are_retried(
    status: u16,
    body: &str,
    retry_after: Option<&str>,
    wait: Option<Duration>,
    kind: ErrorKind,
    from_status: BackendError,
    from_reply: BackendError,
    again: bool,
)
    requires
        call_ensures(classify_status, (status,), kind),
        call_ensures(BackendError::from_status, (status, body, wait), from_status),
        call_ensures(BackendError::from_reply, (status, retry_after, body), from_reply),
        call_ensures(BackendError::is_retryable, (&from_reply,), again),
    ensures
        from_status.kind == kind,
        from_reply.kind == kind,
        again == (kind == ErrorKind::Retryable),
        status == 408 || status == 429 || status / 100 == 5 ==> kind == ErrorKind::Retryable,
        status != 408 && status != 429 && status / 100 != 5 ==> kind == ErrorKind::Fatal,
        from_status.status == Some(status),
        from_reply.status == Some(status),
        from_status.retry_after == wait,
        from_reply.message@ == from_status.message@,
{
}

/// The statuses from 200 to 299 mean success.
pub proof fn lemma_success(status: u16, r: bool)
    requires
        call_ensures(is_success, (status,), r),
    ensures
        r == (status / 100 == 2),
{
}

/// The message of an error response is the server's, without the whitespace
/// around it: whole up to 500 characters, and its first 500 beyond that.
pub proof fn lemma_servers_message_is_kept(
    status: u16,
    body: &str,
    wait: Option<Duration>,
    inner: Seq<char>,
    r: BackendError,
)
    requires
        call_ensures(BackendError::from_status, (status, body, wait), r),
        is_core_of(inner, body@),
        inner.len() > 0,
    ensures
        inner.len() <= 500 ==> r.message@ == inner,
        inner.len() > 500 ==> r.message@ == inner.take(500),
{
    lemma_one_core(body@, inner);
}

/// A text has one core.
pub proof fn lemma_one_core(outer: Seq<char>, inner: Seq<char>)
    requires
        is_core_of(inner, outer),
    ensures
        inner.len() > 0 ==> trimmed(outer) == inner,
        inner.len() == 0 ==> trimmed(outer).len() == 0,
{
    lemma_trimmed_is_core(outer);
    let found = trimmed(outer);
    let (before, after) = choose|before: Seq<char>, after: Seq<char>|
        outer == #[trigger] (before + inner + after) && all_white(before) && all_white(after);
    let (lead, trail) = choose|lead: Seq<char>, trail: Seq<char>|
        outer == #[trigger] (lead + found + trail) && all_white(lead) && all_white(trail);
    let n = before.len() as int;
    let m = lead.len() as int;
    if inner.len() > 0 {
        assert(outer[n] == inner[0]);
        assert(outer[n + inner.len() - 1] == inner.last());
        if found.len() == 0 {
            if n < m {
                assert(outer[n] == lead[n]);
            } else {
                assert(outer[n] == trail[n - m]);
            }
            assert(false);
        }
        assert(outer[m] == found[0]);
        assert(outer[m + found.len() - 1] == found.last());
        if n < m {
            assert(outer[n] == lead[n]);
        } else if m < n {
            assert(outer[m] == before[m]);
        }
        let end = n + inner.len();
        let stop = m + found.len();
        if end < stop {
            assert(outer[stop - 1] == after[stop - 1 - end]);
        } else if stop < end {
            assert(outer[end - 1] == trail[end - 1 - stop]);
        }
        assert forall|i: int| 0 <= i < inner.len() implies inner[i] == found[i] by {
            assert(inner[i] == outer[n + i]);
            assert(found[i] == outer[m + i]);
        }
        assert(inner =~= found);
    } else if found.len() > 0 {
        assert(outer[m] == found[0]);
        if m < n {
            assert(outer[m] == before[m]);
        } else {
            assert(outer[m] == after[m - n]);
        }
    }
}

/// A server that names a number of seconds is waited for that long.
pub proof fn lemma_retry_after_is_heeded(
    status: u16,
    header: &str,
    body: &str,
    secs: u64,
    digits: String,
    r: BackendError,
)
    requires
        call_ensures(to_decimal, (secs as u128,), digits),
        is_core_of(digits@, header@),
        call_ensures(BackendError::from_reply, (status, Some(header), body), r),
    ensures
        r.retry_after matches Some(wait) && wait.nanos == secs * 1_000_000_000,
{
    super::texts::lemma_decimal_value(secs as nat);
    lemma_one_core(header@, digits@);
    assert(crate::text::number::without_plus(digits@) == digits@);
}

/// What isn't between 0 and 9 is no digit.
proof fn lemma_not_digit(c: char)
    ensures
        crate::text::search::is_digit(c) == ('0' <= c <= '9'),
{
}

/// A response without a wait, or with one that isn't a number, names none.
pub proof fn lemma_other_headers_name_no_wait(
    status: u16,
    header: &str,
    body: &str,
    inner: Seq<char>,
    i: int,
    r: BackendError,
    none: BackendError,
)
    requires
        call_ensures(BackendError::from_reply, (status, None, body), none),
        call_ensures(BackendError::from_reply, (status, Some(header), body), r),
        is_core_of(inner, header@),
        0 < i < inner.len(),
        !('0' <= inner[i] <= '9'),
    ensures
        none.retry_after is None,
        r.retry_after is None,
{
    lemma_one_core(header@, inner);
    let digits = crate::text::number::without_plus(inner);
    if inner[0] == '+' {
        assert(digits[i - 1] == inner[i]);
        lemma_not_digit(digits[i - 1]);
    } else {
        assert(digits[i] == inner[i]);
        lemma_not_digit(digits[i]);
    }
}

/// The text of an error names the status, if there is one, and ends with the
/// whole message.
pub proof fn lemma_error_text(err: &BackendError, code: u16, digits: String, r: String)
    requires
        call_ensures(BackendError::display, (err,), r),
        call_ensures(to_decimal, (code as u128,), digits),
        err.status is Some ==> err.status == Some(code),
    ensures
        r@ == if err.status is Some {
            "HTTP "@ + digits@ + ": "@ + err.message@
        } else {
            err.message@
        },
{
}

/// A reply that can't be read is a fatal error that names the URL and what went
/// wrong, and shows the body: all of it up to 300 characters, and the first 300
/// beyond that.
pub proof fn lemma_unreadable_reply(url: &str, err: &str, body: &[u8], r: BackendError)
    requires
        call_ensures(BackendError::unexpected_body, (url, err, body), r),
        valid_utf8(body@),
    ensures
        r.kind == ErrorKind::Fatal,
        ({
            let text = decode_utf8(body@);
            let head = "unexpected response from "@ + url@ + ": "@ + err@ + "; body: "@;
            r.message@ == head + if text.len() <= 300 {
                text
            } else {
                text.take(300)
            }
        }),
{
}

/// A reply is what the server wrote: the first choice's whole content, or
/// Ollama's whole message, and the tokens as they are reported.
pub proof fn lemma_replies_are_kept(
    reply: OpenAiReply,
    other: OllamaReply,
    r: ChatResponse,
    s: ChatResponse,
)
    requires
        call_ensures(openai_response, (reply,), r),
        call_ensures(ollama_response, (other,), s),
    ensures
        reply.choices@.len() > 0 ==> (reply.choices@[0] matches Some(content) ==> r.text@
            == content@),
        r.usage == reply.usage,
        other.content matches Some(content) ==> s.text@ == content@,
        other.prompt_eval_count matches Some(n) ==> (s.usage matches Some(u) && u.prompt_tokens
            == n),
        other.eval_count matches Some(n) ==> (s.usage matches Some(u) && u.completion_tokens == n),
        s.usage matches Some(u) ==> (u.prompt_tokens > 0 ==> other.prompt_eval_count == Some(
            u.prompt_tokens,
        )) && (u.completion_tokens > 0 ==> other.eval_count == Some(u.completion_tokens)),
{
}

/// When each input has one vector in the reply, the vectors come out in input
/// order, whatever order the reply has.
pub proof fn lemma_vectors_by_input<V>(data: Vec<EmbeddingItem<V>>, r: Vec<V>)
    requires
        call_ensures(openai_embeddings::<V>, (data,), r),
        forall|i: int| 0 <= i < data@.len() ==> (#[trigger] data@[i]).index < data@.len(),
        forall|i: int, j: int|
            0 <= i < j < data@.len() ==> (#[trigger] data@[i]).index != (#[trigger] data@[j]).index,
    ensures
        r@.len() == data@.len(),
        forall|j: int|
            0 <= j < data@.len() ==> r@[(#[trigger] data@[j]).index as int] == data@[j].embedding,
{
    let ordered = choose|ordered: Seq<EmbeddingItem<V>>| #[trigger]
        stably_ordered(data@, ordered) && r@ == ordered.map_values(
            |item: EmbeddingItem<V>| item.embedding,
        );
    lemma_vectors_in_input_order(data@, ordered);
}

/// A client is told apart by its provider, its endpoint and its model, each
/// whole.
pub proof fn lemma_identities(
    ollama: &OllamaClient,
    openai: &OpenAiCompatClient,
    a: BackendIdentity,
    b: BackendIdentity,
)
    requires
        call_ensures(<OllamaClient as ChatBackend>::identity, (ollama,), a),
        call_ensures(<OpenAiCompatClient as ChatBackend>::identity, (openai,), b),
    ensures
        a.base_url@ == ollama.base_url@,
        a.model@ == ollama.model@,
        b.base_url@ == openai.base_url@,
        b.model@ == openai.model@,
        a.kind@ != b.kind@,
{
    reveal_strlit("ollama");
    reveal_strlit("openai");
    let (x, y) = (a@.kind, b@.kind);
    assert(x.len() > 1 && y.len() > 1 ==> x[1] == 'l');
}

} // verus!
