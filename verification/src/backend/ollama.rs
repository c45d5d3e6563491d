//! Ollama's native API, for both chat and embedding models.

use super::{
    embed_body, embed_body_view, join_url, joined_url, member, messages, messages_view, object,
    BackendIdentity, ChatBackend, ChatRequest, ChatResponse, HttpPost, IdentityView,
    SchemaView, Usage, DEFAULT_TIMEOUT_SECS,
};
use crate::json::{JsonValue, JsonView};
use crate::text::lines::views;
use crate::text::owned;
use crate::time::Duration;
use vstd::prelude::*;
use vstd::string::*;

verus! {

/// The endpoint used when `OLLAMA_URL` isn't set.
pub const DEFAULT_OLLAMA_URL: &'static str = "http://127.0.0.1:11434";

/// A client for Ollama's native API.
#[derive(Debug, Clone)]
pub struct OllamaClient {
    /// The base URL.
    pub base_url: String,
    /// The model name.
    pub model: String,
    /// How long one request may take.
    pub timeout: Duration,
}

/// What Ollama answers to a chat.
#[derive(Debug, Clone)]
pub struct OllamaReply {
    /// The content of the reply's message, when it has one.
    pub content: Option<String>,
    /// Tokens in the prompt.
    pub prompt_eval_count: Option<u64>,
    /// Tokens in the reply.
    pub eval_count: Option<u64>,
}

/// The body of a chat request.
pub open spec fn ollama_chat_body(
    model: Seq<char>,
    system: Seq<char>,
    user: Seq<char>,
    schema: Option<SchemaView>,
) -> JsonView {
    let rest = seq![
        ("messages"@, messages_view(system, user)),
        ("model"@, JsonView::Text(model)),
        ("stream"@, JsonView::Bool(false)),
    ];
    JsonView::Object(
        match schema {
            Some(s) => seq![("format"@, s.schema)] + rest,
            None => rest,
        },
    )
}

impl OllamaClient {
    /// A client for `model` at `ollama_url`, the value of the `OLLAMA_URL`
    /// variable, or at `http://127.0.0.1:11434` when that isn't set.
    ///
    /// Nothing is contacted until the first request, so a wrong model name
    /// shows up then, as a fatal error.
    pub fn new(model: &str, ollama_url: Option<&str>) -> (r: OllamaClient)
        ensures
            r.base_url@ == match ollama_url {
                Some(url) => url@,
                None => DEFAULT_OLLAMA_URL@,
            },
            r.model@ == model@,
            r.timeout.nanos == DEFAULT_TIMEOUT_SECS * 1_000_000_000,
    {
        match ollama_url {
            Some(url) => OllamaClient::with_base_url(url, model),
            None => OllamaClient::with_base_url(DEFAULT_OLLAMA_URL, model),
        }
    }

    /// A client for `model` at `base_url`, such as `http://gpu-box:11434`.
    pub fn with_base_url(base_url: &str, model: &str) -> (r: OllamaClient)
        ensures
            r.base_url@ == base_url@,
            r.model@ == model@,
            r.timeout.nanos == DEFAULT_TIMEOUT_SECS * 1_000_000_000,
    {
        OllamaClient {
            base_url: owned(base_url),
            model: owned(model),
            timeout: Duration::from_secs(DEFAULT_TIMEOUT_SECS),
        }
    }

    /// How long one request may take. Defaults to two minutes.
    pub fn timeout(self, timeout: Duration) -> (r: OllamaClient)
        ensures
            r.base_url == self.base_url,
            r.model == self.model,
            r.timeout == timeout,
    {
        OllamaClient { base_url: self.base_url, model: self.model, timeout }
    }

    /// The JSON body of a chat: the system and user messages and nothing
    /// else, with the schema as `format` when there is one.
    pub fn chat_body(&self, request: &ChatRequest) -> (r: JsonValue)
        ensures
            r@ == ollama_chat_body(
                self.model@,
                request.system@,
                request.user@,
                super::schema_view(request.schema),
            ),
    {
        let mut members: Vec<(String, JsonValue)> = Vec::new();
        match &request.schema {
            Some(schema) => members.push(member("format", schema.schema.copy())),
            None => {},
        }
        members.push(
            member("messages", messages(request.system.as_str(), request.user.as_str())),
        );
        members.push(member("model", JsonValue::string(self.model.as_str())));
        members.push(member("stream", JsonValue::Bool(false)));
        let r = object(members);
        proof {
            assert(r@->Object_0 =~= ollama_chat_body(
                self.model@,
                request.system@,
                request.user@,
                super::schema_view(request.schema),
            )->Object_0);
        }
        r
    }

    /// The request that sends a chat.
    pub fn chat_post(&self, request: &ChatRequest) -> (r: HttpPost)
        ensures
            r.url@ == joined_url(self.base_url@, "/api/chat"@),
            r.bearer is None,
            r.timeout == self.timeout,
            r.body@ == ollama_chat_body(
                self.model@,
                request.system@,
                request.user@,
                super::schema_view(request.schema),
            ),
    {
        HttpPost {
            url: join_url(self.base_url.as_str(), "/api/chat"),
            bearer: None,
            timeout: self.timeout,
            body: self.chat_body(request),
        }
    }

    /// The request that embeds `inputs`, each exactly as given.
    pub fn embed_post(&self, inputs: &Vec<String>) -> (r: HttpPost)
        ensures
            r.url@ == joined_url(self.base_url@, "/api/embed"@),
            r.bearer is None,
            r.timeout == self.timeout,
            r.body@ == embed_body_view(self.model@, views(inputs@)),
    {
        HttpPost {
            url: join_url(self.base_url.as_str(), "/api/embed"),
            bearer: None,
            timeout: self.timeout,
            body: embed_body(self.model.as_str(), inputs),
        }
    }
}

/// The reply to a chat: the message's content, or no text without one, and
/// the token counts when at least one of them is reported.
pub fn ollama_response(reply: OllamaReply) -> (r: ChatResponse)
    ensures
        r.text@ == match reply.content {
            Some(content) => content@,
            None => Seq::empty(),
        },
        reply.prompt_eval_count is None && reply.eval_count is None <==> r.usage is None,
        r.usage matches Some(usage) ==> {
            &&& usage.prompt_tokens == match reply.prompt_eval_count {
                Some(n) => n,
                None => 0,
            }
            &&& usage.completion_tokens == match reply.eval_count {
                Some(n) => n,
                None => 0,
            }
        },
{
    let usage = match (reply.prompt_eval_count, reply.eval_count) {
        (None, None) => None,
        (prompt, completion) => Some(
            Usage {
                prompt_tokens: match prompt {
                    Some(n) => n,
                    None => 0,
                },
                completion_tokens: match completion {
                    Some(n) => n,
                    None => 0,
                },
            },
        ),
    };
    let text = match reply.content {
        Some(content) => content,
        None => String::new(),
    };
    ChatResponse { text, usage }
}

impl ChatBackend for OllamaClient {
    fn identity(&self) -> (r: BackendIdentity)
        ensures
            r@ == (IdentityView { kind: "ollama"@, base_url: self.base_url@, model: self.model@ }),
    {
        BackendIdentity {
            kind: owned("ollama"),
            base_url: self.base_url.clone(),
            model: self.model.clone(),
        }
    }
}

} // verus!
