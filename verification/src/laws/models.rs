//! Clients and their keys, waits between attempts, and embedding in batches.

use crate::backend::openai::{key_after_dotenv, key_from_environment, resolve_api_key};
use crate::backend::{
    decode_reply, BackendError, ChatResponse, ErrorKind, OllamaClient, OpenAiCompatClient,
    OutputSchema, Usage,
};
use crate::inference::completion_model::{
    Completions, DumpedCompletions, FieldEnhanceable, Response, Role, SetupError,
};
use crate::inference::embedding_model::{texts_between, EmbedError, EmbedSession};
use crate::inference::{CompletionModel, EmbeddingProvider};
use crate::intake::dataset::DataSet;
use crate::text::number::to_decimal;
use crate::time::{doublings, Duration};
use crate::transform::llm::Llm;
use crate::transform::retry::{after_attempt, most_jitter, wait_before_jitter, with_jitter, Attempt};
use vstd::prelude::*;
use vstd::string::*;

verus! {

/// Seconds and milliseconds are so many nanoseconds, and the milliseconds come
/// back.
pub proof fn lemma_spans(secs: u64, millis: u64, a: Duration, b: Duration, none: Duration, back: u128)
    requires
        call_ensures(Duration::from_secs, (secs,), a),
        call_ensures(Duration::from_millis, (millis,), b),
        call_ensures(Duration::zero, (), none),
        call_ensures(Duration::as_millis, (&b,), back),
    ensures
        a.nanos == 1_000_000_000 * secs,
        b.nanos == 1_000_000 * millis,
        none.nanos == 0,
        back == millis,
{
}

/// A span is capped by another, and multiplied up to the longest span.
pub proof fn lemma_spans_are_capped(
    span: &Duration,
    cap: Duration,
    times: u32,
    r: Duration,
    s: Duration,
)
    requires
        call_ensures(Duration::at_most, (span, cap), r),
        call_ensures(Duration::saturating_mul, (span, times), s),
    ensures
        r.nanos <= span.nanos && r.nanos <= cap.nanos,
        r.nanos == span.nanos || r.nanos == cap.nanos,
        s.nanos <= span.nanos * times,
        s.nanos == span.nanos * times || s.nanos == 18446744073709551615999999999,
        span.nanos * times <= 18446744073709551615999999999 ==> s.nanos == span.nanos * times,
{
}

/// Every doubling doubles, as far as 32 bits go.
pub proof fn lemma_doublings(n: u32, r: u32, s: u32, first: u32)
    requires
        n < u32::MAX,
        call_ensures(doublings, (n,), r),
        call_ensures(doublings, ((n + 1) as u32,), s),
        call_ensures(doublings, (0,), first),
    ensures
        first == 1,
        n < 31 ==> s == 2 * r,
        n >= 31 ==> s == u32::MAX,
{
    vstd::arithmetic::power2::lemma2_to64();
    if n < 31 {
        vstd::arithmetic::power2::lemma_pow2_unfold((n + 1) as nat);
    }
}

/// The server's wish is heeded, up to thirty seconds; without one the backoff is
/// multiplied by the doublings of the attempts before, up to thirty seconds.
pub proof fn lemma_waits(
    err: &BackendError,
    attempt: u32,
    backoff: Duration,
    factor: u32,
    r: Duration,
)
    requires
        call_ensures(wait_before_jitter, (err, attempt, backoff), r),
        call_ensures(doublings, (attempt,), factor),
    ensures
        r.nanos <= 30_000_000_000,
        err.retry_after matches Some(wait) ==> r.nanos == if wait.nanos <= 30_000_000_000 {
            wait.nanos as int
        } else {
            30_000_000_000
        },
        err.retry_after is None ==> r.nanos == if backoff.nanos * factor <= 30_000_000_000 {
            backoff.nanos * factor
        } else {
            30_000_000_000
        },
{
}

/// A wait gets at most a quarter more, and is never over thirty seconds; it is
/// never shortened.
pub proof fn lemma_jitter(wait: Duration, most: u64, jitter_ms: u64, r: Duration)
    requires
        wait.nanos <= 30_000_000_000,
        call_ensures(most_jitter, (wait,), most),
        jitter_ms <= most,
        call_ensures(with_jitter, (wait, jitter_ms), r),
    ensures
        4 * most * 1_000_000 <= wait.nanos < 4 * (most + 1) * 1_000_000,
        wait.nanos <= r.nanos <= 30_000_000_000,
        r.nanos <= wait.nanos + wait.nanos / 4,
        wait.nanos + jitter_ms * 1_000_000 <= 30_000_000_000 ==> r.nanos == wait.nanos + jitter_ms
            * 1_000_000,
{
}

/// Only a retryable failure with retries left is sent again, after its wait and
/// some jitter; any other result stands as it is.
pub proof fn lemma_attempts(
    result: Result<ChatResponse, BackendError>,
    attempt: u32,
    retries: u32,
    backoff: Duration,
    base: Duration,
    r: Attempt,
)
    requires
        call_ensures(after_attempt, (result, attempt, retries, backoff), r),
        result matches Err(err) ==> call_ensures(
            wait_before_jitter,
            (&err, attempt, backoff),
            base,
        ),
    ensures
        match r {
            Attempt::Done(kept) => kept == result && !(result is Err && result->Err_0.kind
                == ErrorKind::Retryable && attempt < retries),
            Attempt::Again(wait) => result is Err && result->Err_0.kind == ErrorKind::Retryable
                && attempt < retries && base.nanos <= wait.nanos <= 30_000_000_000 && wait.nanos
                <= base.nanos + base.nanos / 4,
        },
{
}

/// Prompt and reply tokens are added up.
pub proof fn lemma_usage(usage: &Usage, r: u64)
    requires
        call_ensures(Usage::total, (usage,), r),
    ensures
        r == usage.prompt_tokens + usage.completion_tokens,
{
}

/// A copy of a schema is the same.
pub proof fn lemma_schema_copies(schema: &OutputSchema, r: OutputSchema)
    requires
        call_ensures(OutputSchema::copy, (schema,), r),
    ensures
        r.name@ == schema.name@,
        r.schema@ == schema.schema@,
{
    assert(r@.name == schema@.name);
    assert(r@.schema == schema@.schema);
}

/// A reply that can be read is handed on as it was read; only one that can't be
/// is an error, and no retry helps.
pub proof fn lemma_replies_are_decoded<R, P: Fn(&[u8]) -> Result<R, String>>(
    url: &str,
    body: &[u8],
    decode: P,
    r: Result<R, BackendError>,
)
    requires
        call_ensures(decode_reply::<R, P>, (url, body, decode), r),
    ensures
        r matches Ok(reply) ==> call_ensures(decode, (body,), Ok::<R, String>(reply)),
        r matches Err(e) ==> e.kind == ErrorKind::Fatal && e.status is None && e.retry_after is None
            && exists|err: String| #[trigger]
            call_ensures(decode, (body,), Err::<R, String>(err)),
{
    let decoded = choose|decoded: Result<R, String>| #[trigger]
        call_ensures(decode, (body,), decoded) && match decoded {
            Ok(reply) => r == Ok::<R, BackendError>(reply),
            Err(err) => r is Err && r->Err_0.kind == ErrorKind::Fatal,
        };
    if let Err(err) = decoded {
        assert(call_ensures(decode, (body,), Err::<R, String>(err)));
    }
}

/// A failure of the transport keeps its status and its message; it is worth
/// another attempt unless the request couldn't be built. A configuration error
/// keeps its message and isn't.
pub proof fn lemma_failures_keep_their_message(
    unbuildable: bool,
    status: Option<u16>,
    message: String,
    text: &str,
    r: BackendError,
    s: BackendError,
    t: BackendError,
    retryable: bool,
)
    requires
        call_ensures(BackendError::from_transport, (unbuildable, status, message), r),
        call_ensures(BackendError::config, (text,), s),
        call_ensures(BackendError::invalid_response, (message,), t),
        call_ensures(BackendError::is_retryable, (&r,), retryable),
    ensures
        retryable == !unbuildable,
        r.status == status && r.message == message && r.retry_after is None,
        s.kind == ErrorKind::Fatal && s.status is None && s.message@ == text@
            && s.retry_after is None,
        t.kind == ErrorKind::Fatal && t.status is None && t.message == message
            && t.retry_after is None,
{
}

/// A client keeps its endpoint, its model and its key; its timeout is two
/// minutes unless another is set, which changes nothing else.
pub proof fn lemma_openai_clients(
    base_url: &str,
    model: &str,
    api_key: Option<String>,
    r: OpenAiCompatClient,
    timeout: Duration,
    s: OpenAiCompatClient,
    llm: Llm<OpenAiCompatClient>,
    provider: EmbeddingProvider<OpenAiCompatClient>,
)
    requires
        call_ensures(OpenAiCompatClient::new, (base_url, model, api_key), r),
        call_ensures(OpenAiCompatClient::timeout, (r, timeout), s),
        call_ensures(
            Llm::<OpenAiCompatClient>::openai_compatible,
            (base_url, model, api_key),
            llm,
        ),
        call_ensures(
            EmbeddingProvider::<OpenAiCompatClient>::openai_compatible,
            (base_url, model, api_key),
            provider,
        ),
    ensures
        r.base_url@ == base_url@ && r.model@ == model@ && r.api_key == api_key && r.timeout.nanos
            == 120_000_000_000,
        s.base_url@ == base_url@ && s.model@ == model@ && s.api_key == api_key && s.timeout
            == timeout,
        llm.backend.base_url@ == base_url@ && llm.backend.model@ == model@ && llm.backend.api_key
            == api_key && llm.backend.timeout.nanos == 120_000_000_000,
        provider.backend.base_url@ == base_url@ && provider.backend.model@ == model@
            && provider.backend.api_key == api_key && provider.backend.timeout.nanos
            == 120_000_000_000,
{
}

/// An Ollama client keeps its endpoint and its model. Without an endpoint it
/// goes to the local one.
pub proof fn lemma_ollama_clients(
    base_url: &str,
    model: &str,
    url: Option<&str>,
    r: OllamaClient,
    s: OllamaClient,
    timeout: Duration,
    t: OllamaClient,
    llm: Llm<OllamaClient>,
    provider: EmbeddingProvider<OllamaClient>,
)
    requires
        call_ensures(OllamaClient::with_base_url, (base_url, model), r),
        call_ensures(OllamaClient::new, (model, url), s),
        call_ensures(OllamaClient::timeout, (s, timeout), t),
        call_ensures(Llm::<OllamaClient>::ollama, (model, url), llm),
        call_ensures(EmbeddingProvider::<OllamaClient>::new, (model, url), provider),
    ensures
        r.base_url@ == base_url@ && r.model@ == model@ && r.timeout.nanos == 120_000_000_000,
        url matches Some(given) ==> s.base_url@ == given@,
        url is None ==> s.base_url@ == "http://127.0.0.1:11434"@,
        s.model@ == model@ && s.timeout.nanos == 120_000_000_000,
        t.base_url@ == s.base_url@ && t.model@ == model@ && t.timeout == timeout,
        llm.backend.base_url@ == s.base_url@ && llm.backend.model@ == model@
            && llm.backend.timeout.nanos == 120_000_000_000,
        provider.backend.base_url@ == s.base_url@ && provider.backend.model@ == model@
            && provider.backend.timeout.nanos == 120_000_000_000,
{
}

/// A backend is used as it is.
pub proof fn lemma_backends_are_kept<B>(backend: B, llm: Llm<B>, provider: EmbeddingProvider<B>)
    requires
        call_ensures(Llm::<B>::from_backend, (backend,), llm),
        call_ensures(EmbeddingProvider::<B>::from_backend, (backend,), provider),
    ensures
        llm.backend == backend,
        provider.backend == backend,
{
}

/// A key is used as it is, unless it is empty.
pub proof fn lemma_keys_are_used_whole(
    found: Option<String>,
    r: Option<String>,
    s: Result<String, BackendError>,
)
    requires
        call_ensures(key_from_environment, (found,), r),
        call_ensures(key_after_dotenv, (found,), s),
    ensures
        found matches Some(key) ==> (key@.len() > 0 ==> r == Some(key) && s == Ok::<
            String,
            BackendError,
        >(key)),
        found is None || found->0@.len() == 0 ==> r is None && (s matches Err(e) && e.kind
            == ErrorKind::Fatal),
{
}

/// The key is the one that the environment holds, or else the one that it holds
/// after a `.env` file was loaded; the file is loaded only where the first can't
/// be used.
pub proof fn lemma_the_environment_comes_first<L: Fn(bool) -> Option<String>, D: FnOnce() -> ()>(
    lookup: L,
    load_dotenv: D,
    r: Result<String, BackendError>,
)
    requires
        call_ensures(resolve_api_key::<L, D>, (lookup, load_dotenv), r),
    ensures
        r matches Ok(key) ==> key@.len() > 0 && (call_ensures(lookup, (false,), Some(key)) || (
        call_ensures(load_dotenv, (), ()) && call_ensures(lookup, (true,), Some(key)))),
        r matches Err(e) ==> e.kind == ErrorKind::Fatal && call_ensures(load_dotenv, (), ()),
{
}

/// The chat about a record ends with the record, whole, behind two fixed
/// messages.
pub proof fn lemma_records_are_sent_whole(
    model: &CompletionModel,
    record: &str,
    r: Vec<(Role, String)>,
)
    requires
        call_ensures(CompletionModel::messages, (model, record), r),
    ensures
        r@.len() == 3,
        r@.last().0 == Role::User && r@.last().1@ == record@,
        r@[0].0 == Role::Assistant && r@[1].0 == Role::User,
        r@[0].1@ == "Please provide me with the information I need for summarization"@,
        r@[1].1@ == "you will find it in the next message"@,
{
}

/// A model keeps its name and its prompt, whole.
pub proof fn lemma_prompts_are_kept(
    model: &str,
    prompt: &str,
    url: Option<&str>,
    r: CompletionModel,
)
    requires
        call_ensures(CompletionModel::new, (model, prompt, url), r),
    ensures
        r.model@ == model@ && r.prompt@ == prompt@ && r.api_key is None,
        url matches Some(given) ==> r.base_url@ == given@,
        url is None ==> r.base_url@ == "http://127.0.0.1:11434"@,
{
}

/// A response text is kept whole, behind those before it; a record that fails is
/// noted by its position; tokens are added up.
pub proof fn lemma_responses_are_kept(
    state: &mut Completions,
    reply: Result<Response, String>,
)
    requires
        call_ensures(Completions::on_reply, (state, reply), ()),
    ensures
        final(state).sent == old(state).sent + 1,
        reply matches Ok(response) ==> {
            &&& response.text matches Some(text) ==> final(state).responses@ == old(state).responses@.push(text)
            &&& response.text is None ==> final(state).responses@ == old(state).responses@
            &&& final(state).failed@ == old(state).failed@
            &&& response.total_tokens matches Some(used) ==> final(state).tokens == old(state).tokens
                + used
            &&& response.total_tokens is None ==> final(state).tokens == old(state).tokens
        },
        reply is Err ==> final(state).responses@ == old(state).responses@ && final(state).failed@
            == old(state).failed@.push(old(state).sent) && final(state).tokens == old(state).tokens,
{
}

/// A record whose response has a text gets that text, whole, and is kept behind
/// those before it; any other reply keeps no record.
pub proof fn lemma_updated_records_are_kept<T: FieldEnhanceable>(
    state: &mut DumpedCompletions<T>,
    record: T,
    reply: Result<Response, String>,
    save: bool,
)
    requires
        call_ensures(DumpedCompletions::<T>::on_reply, (state, record, reply), save),
    ensures
        save <==> reply is Ok && reply->Ok_0.text is Some,
        !save ==> final(state).objects@ == old(state).objects@ && final(state).completions.responses@ == old(state).completions.responses@,
        save ==> final(state).objects@.len() == old(state).objects@.len() + 1 && final(state).objects@.drop_last() == old(state).objects@ && final(state).completions.responses@ == old(state).completions.responses@.push(
            reply->Ok_0.text->0,
        ),
        save ==> exists|r: &mut T, given: String| #[trigger]
            call_ensures(T::set_field, (r, given), ()) && given == reply->Ok_0.text->0 && *r
                == record && *final(r) == final(state).objects@.last(),
        final(state).completions.sent == old(state).completions.sent + 1,
        final(state).completions.failed@ == if reply is Err {
            old(state).completions.failed@.push(old(state).completions.sent)
        } else {
            old(state).completions.failed@
        },
{
    if save {
        let text = reply->Ok_0.text->0;
        let (r, given) = choose|r: &mut T, given: String| #[trigger]
            call_ensures(T::set_field, (r, given), ()) && given == text && *r == record
                && *final(r) == final(state).objects@.last();
        assert(call_ensures(T::set_field, (r, given), ()));
    }
}

/// The texts of a request are those between two positions, whole and in order.
pub proof fn lemma_texts_between(texts: &Vec<String>, from: usize, to: usize, r: Vec<String>)
    requires
        from <= to <= texts@.len(),
        call_ensures(texts_between, (texts, from, to), r),
    ensures
        r@.len() == to - from,
        forall|i: int| 0 <= i < r@.len() ==> (#[trigger] r@[i]) == texts@[from + i],
{
}

/// A request begins with the first text that has no vector yet. It holds fifty
/// texts, or those that are left where they are fewer, or one where the batch
/// is sent one by one. No request is left when every text has its vector.
pub proof fn lemma_what_is_embedded_next<V>(
    session: &EmbedSession<V>,
    r: Option<(usize, usize)>,
)
    requires
        session.wf(),
        call_ensures(EmbedSession::<V>::next, (session,), r),
    ensures
        r is None <==> session.embeddings@.len() == session.total,
        r matches Some((from, to)) ==> from == session.embeddings@.len() && from < to
            <= session.total && (if from < session.single_until {
            to == from + 1
        } else {
            to == from + 50 || to == session.total && to < from + 50
        }),
{
    if let Some((from, to)) = r {
        let total = session.total as nat;
        if from >= session.single_until {
            let q = from as nat / 50;
            assert(from as nat % 50 == 0);
            assert(from as nat == 50 * q);
            assert((q + 1) * 50 == from + 50);
        }
    }
}

/// One vector per text is kept, whole and in order, behind those before. A batch
/// with anything else is sent one text at a time, and loses no vector; a single
/// text with anything else fails, by its position.
pub proof fn lemma_vectors_are_kept<V>(
    session: &mut EmbedSession<V>,
    asked: &EmbedSession<V>,
    from: usize,
    to: usize,
    reply: Result<Vec<V>, BackendError>,
    r: Result<(), EmbedError>,
)
    requires
        *asked == *old(session),
        call_ensures(EmbedSession::<V>::next, (asked,), Some((from, to))),
        call_ensures(EmbedSession::<V>::on_reply, (session, reply), r),
    ensures
        final(session).total == old(session).total,
        reply is Ok && reply->Ok_0@.len() == to - from ==> r is Ok && final(session).embeddings@
            == old(session).embeddings@ + reply->Ok_0@ && final(session).single_until == old(session).single_until,
        !(reply is Ok && reply->Ok_0@.len() == to - from) && to - from > 1 ==> r is Ok && final(session).embeddings@ == old(session).embeddings@ && final(session).single_until == to,
        !(reply is Ok && reply->Ok_0@.len() == to - from) && to - from == 1 ==> r is Err && final(session).embeddings@ == old(session).embeddings@,
        to - from == 1 ==> (reply matches Err(err) ==> r == Err::<(), EmbedError>(
            EmbedError::Backend { index: from, source: err },
        )),
{
}

/// A session begins with no vector, ends with one per text, and gives them all.
pub proof fn lemma_every_text_has_its_vector<B, V>(
    provider: &EmbeddingProvider<B>,
    texts: &Vec<String>,
    begun: EmbedSession<V>,
    done: EmbedSession<V>,
    r: Vec<V>,
)
    requires
        call_ensures(EmbeddingProvider::<B>::embed_texts::<V>, (provider, texts), begun),
        done.is_done(),
        call_ensures(EmbedSession::<V>::finish, (done,), r),
    ensures
        begun.total == texts@.len() && begun.embeddings@.len() == 0 && begun.single_until == 0,
        r@ == done.embeddings@,
        r@.len() == done.total,
{
}

/// Every record of a dataset is embedded as its JSON, in order; the first that
/// has none is named by its position.
pub proof fn lemma_every_record_is_embedded<B, T, J: Fn(&T) -> Result<String, String>>(
    provider: &EmbeddingProvider<B>,
    dataset: DataSet<T>,
    to_json: J,
    r: Result<Vec<String>, EmbedError>,
)
    requires
        call_ensures(
            EmbeddingProvider::<B>::embed_properties::<T, J>,
            (provider, dataset, to_json),
            r,
        ),
    ensures
        dataset.data is None ==> r == Err::<Vec<String>, EmbedError>(EmbedError::NoData),
        dataset.data matches Some(data) ==> match r {
            Ok(texts) => texts@.len() == data@.len() && forall|i: int|
                0 <= i < data@.len() ==> call_ensures(
                    to_json,
                    (&data@[i],),
                    Ok::<String, String>(#[trigger] texts@[i]),
                ),
            Err(e) => e matches EmbedError::Serialize { index, message } && index < data@.len()
                && call_ensures(to_json, (&data@[index as int],), Err::<String, String>(message)),
        },
{
}

/// The text of an embedding error tells which input failed and why.
pub proof fn lemma_embed_errors_tell_all(
    e: &EmbedError,
    at: usize,
    digits: String,
    other: usize,
    others: String,
    backend: String,
    r: String,
)
    requires
        call_ensures(EmbedError::display, (e,), r),
        call_ensures(to_decimal, (at as u128,), digits),
        call_ensures(to_decimal, (other as u128,), others),
        e matches EmbedError::Backend { index, source } ==> call_ensures(
            BackendError::display,
            (source,),
            backend,
        ),
    ensures
        e matches EmbedError::Serialize { index, message } ==> (*index == at ==> r@
            == "could not serialize record "@ + digits@ + " as JSON: "@ + message@),
        e matches EmbedError::Backend { index, source } ==> (*index == at ==> r@
            == "embedding input "@ + digits@ + " failed: "@ + backend@),
        e matches EmbedError::CountMismatch { expected, got } ==> (*got == at && *expected == other
            ==> r@ == "the backend returned "@ + digits@ + " vectors for "@ + others@
            + " inputs"@),
        *e is NoData ==> r@ == "the dataset has no data to embed"@,
{
}

/// An OpenAI chat model keeps its name, its prompt and its key, whole.
pub proof fn lemma_openai_chat_models<
    D: FnOnce() -> Result<(), String>,
    L: FnOnce() -> Result<String, String>,
>(
    model: &str,
    prompt: &str,
    load_dotenv: D,
    lookup: L,
    r: Result<CompletionModel, SetupError>,
)
    requires
        call_ensures(CompletionModel::new_openai::<D, L>, (model, prompt, load_dotenv, lookup), r),
    ensures
        match r {
            Ok(m) => m.model@ == model@ && m.prompt@ == prompt@ && m.base_url@
                == "https://api.openai.com/v1"@ && (m.api_key matches Some(key) && call_ensures(
                lookup,
                (),
                Ok::<String, String>(key),
            )),
            Err(SetupError::EnvAbsent(message)) => call_ensures(
                load_dotenv,
                (),
                Err::<(), String>(message),
            ),
            Err(SetupError::ApiKeyAbsent(message)) => call_ensures(
                lookup,
                (),
                Err::<String, String>(message),
            ),
        },
{
}

/// An OpenAI client, however it is used, keeps its model and the key that was
/// looked up, whole.
pub proof fn lemma_openai_keys<L: Fn(bool) -> Option<String>, D: FnOnce() -> ()>(
    model: &str,
    lookup: L,
    load_dotenv: D,
    client: OpenAiCompatClient,
    r: Result<OpenAiCompatClient, BackendError>,
    llm: Result<Llm<OpenAiCompatClient>, BackendError>,
    provider: Result<EmbeddingProvider<OpenAiCompatClient>, BackendError>,
)
    requires
        ({
            ||| call_ensures(
                OpenAiCompatClient::openai::<L, D>,
                (model, lookup, load_dotenv),
                r,
            ) && r == Ok::<OpenAiCompatClient, BackendError>(client)
            ||| call_ensures(
                Llm::<OpenAiCompatClient>::openai::<L, D>,
                (model, lookup, load_dotenv),
                llm,
            ) && llm is Ok && llm->Ok_0.backend == client
            ||| call_ensures(
                EmbeddingProvider::<OpenAiCompatClient>::openai::<L, D>,
                (model, lookup, load_dotenv),
                provider,
            ) && provider is Ok && provider->Ok_0.backend == client
        }),
    ensures
        client.model@ == model@,
        client.base_url@ == "https://api.openai.com/v1"@,
        client.timeout.nanos == 120_000_000_000,
        client.api_key is Some && client.api_key->0@.len() > 0,
        call_ensures(lookup, (false,), client.api_key) || call_ensures(load_dotenv, (), ())
            && call_ensures(lookup, (true,), client.api_key),
{
}

/// Sending records begins with nothing sent and nothing kept.
pub proof fn lemma_chats_begin<T>(
    model: &CompletionModel,
    r: Completions,
    s: DumpedCompletions<T>,
)
    requires
        call_ensures(CompletionModel::perform_completion, (model,), r),
        call_ensures(CompletionModel::perform_completion_dump_inelegant::<T>, (model,), s),
    ensures
        r.responses@.len() == 0 && r.failed@.len() == 0 && r.sent == 0 && r.tokens == 0,
        s.completions.responses@.len() == 0 && s.completions.failed@.len() == 0
            && s.completions.sent == 0 && s.completions.tokens == 0 && s.objects@.len() == 0,
{
}

} // verus!
