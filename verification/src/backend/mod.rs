//! Requests to chat and embedding models, and what their replies mean.
//!
//! Every failure is a [`BackendError`] whose [`ErrorKind`] says whether trying
//! again can help: rate limits, server errors, timeouts and connection
//! failures are [`ErrorKind::Retryable`]; authentication failures, unknown
//! models and rejected requests are [`ErrorKind::Fatal`].

/// The clients as embedding backends.
mod embed;
/// Ollama's native API.
pub mod ollama;
/// The OpenAI API and compatible servers.
pub mod openai;

use crate::json::{JsonValue, JsonView};
use crate::text::lines::views;
use crate::text::number::{decimal, parse_unsigned, parsed_unsigned, to_decimal};
use crate::text::owned;
use crate::text::search::{shorten, shortened};
use crate::text::trim::{
    lemma_skipped, skip_leading, skip_trailing, trim, trim_end_char, trim_start_char, trimmed,
};
use crate::time::Duration;
pub use ollama::OllamaClient;
pub use openai::OpenAiCompatClient;
use vstd::prelude::*;
use vstd::string::*;
use vstd::utf8::{decode_utf8, valid_utf8};

verus! {

/// How many seconds a single request may take before it fails as retryable.
pub const DEFAULT_TIMEOUT_SECS: u64 = 120;

/// Which provider, endpoint and model a backend talks to.
///
/// It is part of every completion cache key, so outputs from one model are
/// never reused for another.
#[derive(Debug, Clone, PartialEq, Eq, Hash)]
pub struct BackendIdentity {
    /// The kind of API, such as `"ollama"` or `"openai"`.
    pub kind: String,
    /// The base URL requests go to.
    pub base_url: String,
    /// The model name.
    pub model: String,
}

/// The model of a [`BackendIdentity`].
pub struct IdentityView {
    /// The kind of API.
    pub kind: Seq<char>,
    /// The base URL.
    pub base_url: Seq<char>,
    /// The model name.
    pub model: Seq<char>,
}

impl View for BackendIdentity {
    type V = IdentityView;

    open spec fn view(&self) -> IdentityView {
        IdentityView { kind: self.kind@, base_url: self.base_url@, model: self.model@ }
    }
}

/// A JSON schema the model's reply must follow.
#[derive(Debug)]
pub struct OutputSchema {
    /// A name for the schema, made of ASCII letters, digits, `_` and `-`.
    pub name: String,
    /// The JSON schema itself.
    pub schema: JsonValue,
}

/// The model of an [`OutputSchema`].
pub struct SchemaView {
    /// The name.
    pub name: Seq<char>,
    /// The schema.
    pub schema: JsonView,
}

impl View for OutputSchema {
    type V = SchemaView;

    open spec fn view(&self) -> SchemaView {
        SchemaView { name: self.name@, schema: self.schema@ }
    }
}

/// The model of an optional schema.
pub open spec fn schema_view(schema: Option<OutputSchema>) -> Option<SchemaView> {
    match schema {
        Some(s) => Some(s@),
        None => None,
    }
}

impl OutputSchema {
    /// A copy of this schema.
    pub fn copy(&self) -> (r: OutputSchema)
        ensures
            r@ == self@,
    {
        OutputSchema { name: self.name.clone(), schema: self.schema.copy() }
    }
}

/// One chat: a system prompt and one user message.
#[derive(Debug)]
pub struct ChatRequest {
    /// The instructions.
    pub system: String,
    /// The input for this record.
    pub user: String,
    /// When set, the reply must be JSON that follows this schema.
    pub schema: Option<OutputSchema>,
}

/// Tokens a request used, when the backend reports them.
#[derive(Debug, Clone, Copy, PartialEq, Eq, Structural)]
pub struct Usage {
    /// Tokens in the prompt.
    pub prompt_tokens: u64,
    /// Tokens in the reply.
    pub completion_tokens: u64,
}

impl Usage {
    /// Prompt and reply tokens together.
    pub open spec fn total_view(self) -> nat {
        self.prompt_tokens as nat + self.completion_tokens as nat
    }

    /// Prompt and reply tokens together.
    pub fn total(&self) -> (r: u64)
        requires
            self.total_view() <= u64::MAX,
        ensures
            r == self.total_view(),
    {
        self.prompt_tokens + self.completion_tokens
    }
}

impl Default for Usage {
    fn default() -> (r: Usage)
        ensures
            r.prompt_tokens == 0,
            r.completion_tokens == 0,
    {
        Usage { prompt_tokens: 0, completion_tokens: 0 }
    }
}

/// The model's reply to a [`ChatRequest`].
#[derive(Debug, Clone, PartialEq)]
pub struct ChatResponse {
    /// The reply text. Empty when the model returned no content.
    pub text: String,
    /// Token usage, when the backend reports it.
    pub usage: Option<Usage>,
}

/// Whether a failed request is worth trying again.
#[derive(Debug, Clone, Copy, PartialEq, Eq, Structural)]
pub enum ErrorKind {
    /// Rate limits, server errors, timeouts and connection failures.
    Retryable,
    /// Authentication failures, unknown models, rejected requests and
    /// configuration errors. Trying again gives the same result.
    Fatal,
}

/// A failed request to a model backend.
#[derive(Debug, Clone)]
pub struct BackendError {
    /// Whether trying again can help.
    pub kind: ErrorKind,
    /// The HTTP status, when the server answered.
    pub status: Option<u16>,
    /// What went wrong, with the server's message when there is one.
    pub message: String,
    /// How long the server asked to wait before trying again.
    pub retry_after: Option<Duration>,
}

/// The message made of the body of an error response. A long page is cut
/// after 500 characters.
pub open spec fn status_message(body: Seq<char>) -> Seq<char> {
    if trimmed(body).len() == 0 {
        "the server returned no details"@
    } else {
        shortened(trimmed(body), 500)
    }
}

/// The seconds in a `Retry-After` header, when it holds a number of them.
pub open spec fn retry_after_secs(header: Option<Seq<char>>) -> Option<nat> {
    match header {
        Some(text) => parsed_unsigned(trimmed(text), u64::MAX as nat),
        None => None,
    }
}

/// The text of a backend error.
pub open spec fn backend_error_text(status: Option<u16>, message: Seq<char>) -> Seq<char> {
    match status {
        Some(code) => "HTTP "@ + decimal(code as nat) + ": "@ + message,
        None => message,
    }
}

/// The kind of an HTTP error status.
pub open spec fn status_kind(status: u16) -> ErrorKind {
    if status == 408 || status == 429 || 500 <= status <= 599 {
        ErrorKind::Retryable
    } else {
        ErrorKind::Fatal
    }
}

/// The message about a reply that is not what the API promises.
pub open spec fn unexpected_message(url: Seq<char>, err: Seq<char>, body: Seq<char>) -> Seq<char> {
    "unexpected response from "@ + url + ": "@ + err + "; body: "@ + shortened(body, 300)
}

impl BackendError {
    /// A fatal error that is not tied to an HTTP response, such as a missing
    /// API key.
    pub fn config(message: &str) -> (r: BackendError)
        ensures
            r.kind == ErrorKind::Fatal,
            r.status is None,
            r.message@ == message@,
            r.retry_after is None,
    {
        BackendError {
            kind: ErrorKind::Fatal,
            status: None,
            message: owned(message),
            retry_after: None,
        }
    }

    /// Whether this error is [`ErrorKind::Retryable`].
    pub fn is_retryable(&self) -> (r: bool)
        ensures
            r == (self.kind == ErrorKind::Retryable),
    {
        self.kind == ErrorKind::Retryable
    }

    /// The error of a response with an error status.
    pub fn from_status(status: u16, body: &str, retry_after: Option<Duration>) -> (r: BackendError)
        ensures
            r.kind == status_kind(status),
            r.status == Some(status),
            r.message@ == status_message(body@),
            r.retry_after == retry_after,
    {
        let body = trim(body);
        let message = if body.is_empty() {
            owned("the server returned no details")
        } else {
            shorten(body, 500)
        };
        BackendError { kind: classify_status(status), status: Some(status), message, retry_after }
    }

    /// The error of a response with an error status, given its `Retry-After`
    /// header and its body. Only a header that holds whole seconds counts.
    pub fn from_reply(status: u16, retry_after: Option<&str>, body: &str) -> (r: BackendError)
        ensures
            r.kind == status_kind(status),
            r.status == Some(status),
            r.message@ == status_message(body@),
            ({
                let header = match retry_after {
                    Some(text) => Some(text@),
                    None => None,
                };
                match retry_after_secs(header) {
                    Some(secs) => r.retry_after matches Some(wait) && wait.nanos == secs
                        * 1_000_000_000,
                    None => r.retry_after is None,
                }
            }),
    {
        let wait = match retry_after {
            Some(text) => match parse_unsigned(trim(text), u64::MAX) {
                Some(secs) => Some(Duration::from_secs(secs)),
                None => None,
            },
            None => None,
        };
        BackendError::from_status(status, body, wait)
    }

    /// The error of a request that got no usable response. A request that
    /// could not be built fails again; a timeout, a refused or reset
    /// connection or a truncated body may not.
    pub fn from_transport(unbuildable: bool, status: Option<u16>, message: String) -> (r:
        BackendError)
        ensures
            r.kind == if unbuildable {
                ErrorKind::Fatal
            } else {
                ErrorKind::Retryable
            },
            r.status == status,
            r.message == message,
            r.retry_after is None,
    {
        let kind = if unbuildable {
            ErrorKind::Fatal
        } else {
            ErrorKind::Retryable
        };
        BackendError { kind, status, message, retry_after: None }
    }

    /// The error of a successful response whose body is not what the API
    /// promises: another server is listening there, and trying again won't
    /// change that.
    pub fn invalid_response(message: String) -> (r: BackendError)
        ensures
            r.kind == ErrorKind::Fatal,
            r.status is None,
            r.message == message,
            r.retry_after is None,
    {
        BackendError { kind: ErrorKind::Fatal, status: None, message, retry_after: None }
    }

    /// The error of a successful response from `url` whose body failed to
    /// decode with `err`.
    pub fn unexpected_body(url: &str, err: &str, body: &[u8]) -> (r: BackendError)
        ensures
            r.kind == ErrorKind::Fatal,
            r.status is None,
            r.message@ == unexpected_message(url@, err@, lossy_text(body@)),
            valid_utf8(body@) ==> lossy_text(body@) == decode_utf8(body@),
            r.retry_after is None,
    {
        let text = decode_lossy(body);
        let mut message = owned("unexpected response from ");
        message.append(url);
        message.append(": ");
        message.append(err);
        message.append("; body: ");
        let shown = shorten(text.as_str(), 300);
        message.append(shown.as_str());
        BackendError::invalid_response(message)
    }

    /// The text of this error.
    pub fn display(&self) -> (r: String)
        ensures
            r@ == backend_error_text(self.status, self.message@),
    {
        match self.status {
            Some(code) => {
                let mut out = owned("HTTP ");
                let digits = to_decimal(code as u128);
                out.append(digits.as_str());
                out.append(": ");
                out.append(self.message.as_str());
                out
            },
            None => self.message.clone(),
        }
    }
}

/// Reads the body of a successful response from `url` with `decode`, which
/// gives the decoder's message when the body is not what the API promises.
pub fn decode_reply<R, P: Fn(&[u8]) -> Result<R, String>>(url: &str, body: &[u8], decode: P) -> (r:
    Result<R, BackendError>)
    requires
        call_requires(decode, (body,)),
    ensures
        exists|decoded: Result<R, String>| #[trigger]
            call_ensures(decode, (body,), decoded) && match decoded {
                Ok(reply) => r == Ok::<R, BackendError>(reply),
                Err(err) => r matches Err(e) && e.kind == ErrorKind::Fatal && e.status is None
                    && e.message@ == unexpected_message(url@, err@, lossy_text(body@))
                    && e.retry_after is None,
            },
{
    match decode(body) {
        Ok(reply) => Ok(reply),
        Err(err) => Err(BackendError::unexpected_body(url, err.as_str(), body)),
    }
}

/// What `String::from_utf8_lossy` gives for some bytes.
pub uninterp spec fn lossy_text(bytes: Seq<u8>) -> Seq<char>;

/// Decodes UTF-8, with U+FFFD for every ill-formed sequence. Calls
/// `String::from_utf8_lossy`.
///
/// Claims that the result depends on the bytes alone, and that well-formed
/// UTF-8 gives the characters it encodes.
#[verifier::external_body]
fn decode_lossy(bytes: &[u8]) -> (r: String)
    ensures
        r@ == lossy_text(bytes@),
        valid_utf8(bytes@) ==> r@ == decode_utf8(bytes@),
{
    String::from_utf8_lossy(bytes).into_owned()
}

/// Whether an HTTP status means success.
pub fn is_success(status: u16) -> (r: bool)
    ensures
        r == (200 <= status <= 299),
{
    200 <= status && status <= 299
}

/// Classifies an HTTP error status: 408, 429 and 5xx are retryable, every
/// other status is fatal.
pub fn classify_status(status: u16) -> (r: ErrorKind)
    ensures
        r == status_kind(status),
{
    if status == 408 || status == 429 || (500 <= status && status <= 599) {
        ErrorKind::Retryable
    } else {
        ErrorKind::Fatal
    }
}

/// A base URL and a path with one slash between them.
pub open spec fn joined_url(base_url: Seq<char>, path: Seq<char>) -> Seq<char> {
    skip_trailing(base_url, |c: char| c == '/') + "/"@ + skip_leading(path, |c: char| c == '/')
}

/// Joins a base URL and a path without doubling or dropping the slash.
pub fn join_url(base_url: &str, path: &str) -> (r: String)
    ensures
        r@ == joined_url(base_url@, path@),
{
    let mut out = owned(trim_end_char(base_url, '/'));
    out.append("/");
    out.append(trim_start_char(path, '/'));
    out
}

/// A base URL and a path are joined with exactly one slash: what stands before
/// it doesn't end with one, what stands after it doesn't begin with one, and
/// slashes there make no difference.
pub proof fn lemma_one_slash(base_url: Seq<char>, path: Seq<char>)
    ensures
        exists|before: Seq<char>, after: Seq<char>|
            #![trigger before + "/"@ + after]
            joined_url(base_url, path) == before + "/"@ + after && (before.len() > 0
                ==> before.last() != '/') && (after.len() > 0 ==> after[0] != '/'),
        joined_url(base_url.push('/'), path) == joined_url(base_url, path),
        joined_url(base_url, seq!['/'] + path) == joined_url(base_url, path),
{
    let slash = |c: char| c == '/';
    let before = skip_trailing(base_url, slash);
    let after = skip_leading(path, slash);
    lemma_skipped(base_url, slash);
    lemma_skipped(path, slash);
    assert(joined_url(base_url, path) == before + "/"@ + after);
    let longer = base_url.push('/');
    assert(slash(longer.last()));
    assert(longer.drop_last() =~= base_url);
    let later = seq!['/'] + path;
    assert(slash(later[0]));
    assert(later.drop_first() =~= path);
}

/// A chat model.
pub trait ChatBackend {
    /// The provider, endpoint and model this backend talks to.
    fn identity(&self) -> BackendIdentity;
}

/// An embedding model.
pub trait EmbedBackend {
    /// The provider, endpoint and model this backend talks to.
    fn identity(&self) -> BackendIdentity;
}

/// A JSON request to send.
#[derive(Debug)]
pub struct HttpPost {
    /// Where it goes.
    pub url: String,
    /// The bearer token, if one is sent.
    pub bearer: Option<String>,
    /// How long it may take.
    pub timeout: Duration,
    /// The JSON body.
    pub body: JsonValue,
}

/// The two messages of a chat.
pub open spec fn messages_view(system: Seq<char>, user: Seq<char>) -> JsonView {
    JsonView::Array(seq![message_view("system"@, system), message_view("user"@, user)])
}

/// One message of a chat.
pub open spec fn message_view(role: Seq<char>, content: Seq<char>) -> JsonView {
    JsonView::Object(
        seq![("content"@, JsonView::Text(content)), ("role"@, JsonView::Text(role))],
    )
}

/// The inputs of an embedding request.
pub open spec fn inputs_view(inputs: Seq<Seq<char>>) -> JsonView {
    JsonView::Array(inputs.map_values(|s: Seq<char>| JsonView::Text(s)))
}

/// The body of an embedding request.
pub open spec fn embed_body_view(model: Seq<char>, inputs: Seq<Seq<char>>) -> JsonView {
    JsonView::Object(seq![("input"@, inputs_view(inputs)), ("model"@, JsonView::Text(model))])
}

/// An object member.
pub(crate) fn member(name: &str, value: JsonValue) -> (r: (String, JsonValue))
    ensures
        r.0@ == name@,
        r.1 == value,
{
    (owned(name), value)
}

/// An object with the given members.
pub(crate) fn object(members: Vec<(String, JsonValue)>) -> (r: JsonValue)
    ensures
        r@ is Object,
        r@->Object_0.len() == members@.len(),
        forall|i: int|
            0 <= i < members@.len() ==> #[trigger] r@->Object_0[i] == (
                members@[i].0@,
                members@[i].1@,
            ),
{
    JsonValue::Object(members)
}

/// An object with two members.
pub(crate) fn pair(first: (String, JsonValue), second: (String, JsonValue)) -> (r: JsonValue)
    ensures
        r@ == JsonView::Object(
            seq![(first.0@, first.1@), (second.0@, second.1@)],
        ),
{
    let mut members: Vec<(String, JsonValue)> = Vec::new();
    members.push(first);
    members.push(second);
    let r = JsonValue::Object(members);
    proof {
        assert(r@->Object_0 =~= seq![(first.0@, first.1@), (second.0@, second.1@)]);
    }
    r
}

/// The two messages of a chat.
pub(crate) fn messages(system: &str, user: &str) -> (r: JsonValue)
    ensures
        r@ == messages_view(system@, user@),
{
    let mut items: Vec<JsonValue> = Vec::new();
    items.push(
        pair(
            member("content", JsonValue::string(system)),
            member("role", JsonValue::string("system")),
        ),
    );
    items.push(
        pair(
            member("content", JsonValue::string(user)),
            member("role", JsonValue::string("user")),
        ),
    );
    let r = JsonValue::Array(items);
    proof {
        assert(r@->Array_0 =~= messages_view(system@, user@)->Array_0);
    }
    r
}

/// The body of an embedding request.
pub(crate) fn embed_body(model: &str, inputs: &Vec<String>) -> (r: JsonValue)
    ensures
        r@ == embed_body_view(model@, views(inputs@)),
{
    let mut items: Vec<JsonValue> = Vec::new();
    let mut i: usize = 0;
    while i < inputs.len()
        invariant
            i <= inputs@.len(),
            items@.len() == i,
            forall|j: int| 0 <= j < i ==> (#[trigger] items@[j])@ == JsonView::Text(inputs@[j]@),
        decreases inputs@.len() - i,
    {
        items.push(JsonValue::string(inputs[i].as_str()));
        i += 1;
    }
    let input = JsonValue::Array(items);
    proof {
        assert(input@->Array_0 =~= inputs_view(views(inputs@))->Array_0);
    }
    pair(member("input", input), member("model", JsonValue::string(model)))
}

} // verus!
