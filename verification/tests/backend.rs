//! Requests to chat and embedding models, and what their replies mean.

use std::cell::{Cell, RefCell};

use lvv::backend::ollama::{ollama_response, OllamaReply};
use lvv::backend::openai::{
    key_after_dotenv, key_from_environment, openai_embeddings, openai_response, resolve_api_key, EmbeddingItem, OpenAiReply,
    OPENAI_API_KEY_VAR, OPENAI_BASE_URL,
};
use lvv::backend::{
    classify_status, decode_reply, is_success, join_url, BackendError, ChatBackend, ChatRequest,
    EmbedBackend, ErrorKind, OllamaClient, OpenAiCompatClient, OutputSchema, Usage,
    DEFAULT_TIMEOUT_SECS,
};
use lvv::json::JsonValue;
use lvv::time::Duration;
use serde_json::Value;

fn json(text: &str) -> Value {
    serde_json::from_str(text).unwrap()
}

fn sent(body: &JsonValue) -> Value {
    json(&body.text())
}

fn request(user: &str, schema: Option<OutputSchema>) -> ChatRequest {
    ChatRequest { system: "Extract keywords".to_string(), user: user.to_string(), schema }
}

fn tags_schema() -> OutputSchema {
    OutputSchema {
        name: "Tags".to_string(),
        schema: JsonValue::parse("{\"type\": \"object\"}").unwrap(),
    }
}

#[test]
fn statuses_are_classified() {
    for status in [408, 429, 500, 502, 503, 504] {
        assert_eq!(classify_status(status), ErrorKind::Retryable, "{status}");
    }
    for status in [400, 401, 403, 404, 422] {
        assert_eq!(classify_status(status), ErrorKind::Fatal, "{status}");
    }
}

#[test]
fn urls_join_with_one_slash() {
    assert_eq!(join_url("http://x:1/", "/api/chat"), "http://x:1/api/chat");
    assert_eq!(
        join_url("http://x:1/v1", "chat/completions"),
        "http://x:1/v1/chat/completions"
    );
}

#[test]
fn extra_slashes_make_no_difference() {
    assert_eq!(join_url("http://x", "y"), "http://x/y");
    assert_eq!(join_url("http://x///", "///y"), "http://x/y");
    assert_eq!(join_url("", ""), "/");
}

#[test]
fn http_errors_are_classified_end_to_end() {
    let cases = [
        (429, Some("7"), ErrorKind::Retryable, Some(Duration::from_secs(7))),
        (503, None, ErrorKind::Retryable, None),
        (401, None, ErrorKind::Fatal, None),
        (404, None, ErrorKind::Fatal, None),
    ];
    for (status, retry_after, kind, expected_wait) in cases {
        assert!(!is_success(status));
        let err = BackendError::from_reply(status, retry_after, "{\"error\":\"nope\"}");
        assert_eq!(err.kind, kind, "status {status}");
        assert_eq!(err.status, Some(status));
        assert_eq!(err.retry_after, expected_wait);
        assert!(err.message.contains("nope"));
    }
}

#[test]
fn only_whole_seconds_count_as_retry_after() {
    let wait = |header: &str| BackendError::from_reply(429, Some(header), "").retry_after;
    assert_eq!(wait(" 12 "), Some(Duration::from_secs(12)));
    assert_eq!(wait("+3"), Some(Duration::from_secs(3)));
    assert_eq!(wait("1.5"), None);
    assert_eq!(wait("Wed, 21 Oct 2015 07:28:00 GMT"), None);
    assert_eq!(wait("18446744073709551615"), Some(Duration::from_secs(u64::MAX)));
    assert_eq!(wait("18446744073709551616"), None);
}

#[test]
fn an_error_without_details_says_so() {
    let err = BackendError::from_status(500, " \n", None);
    assert_eq!(err.message, "the server returned no details");
    assert_eq!(err.display(), "HTTP 500: the server returned no details");
    let long = BackendError::from_status(500, &"é".repeat(600), None);
    assert_eq!(long.message, "é".repeat(500));
}

#[test]
fn timeouts_and_refused_connections_are_retryable() {
    let err = BackendError::from_transport(false, None, "operation timed out".to_string());
    assert_eq!(err.kind, ErrorKind::Retryable);
    assert!(err.is_retryable());
    assert_eq!(err.display(), "operation timed out");
    let err = BackendError::from_transport(true, None, "bad URL".to_string());
    assert_eq!(err.kind, ErrorKind::Fatal);
}

#[test]
fn an_unexpected_body_is_fatal() {
    let decode = |bytes: &[u8]| {
        serde_json::from_slice::<Value>(bytes).map_err(|e| e.to_string())
    };
    let err = decode_reply("http://x/y", b"<html>hi</html>", decode).unwrap_err();
    assert_eq!(err.kind, ErrorKind::Fatal);
    assert_eq!(err.status, None);
    assert_eq!(
        err.message,
        "unexpected response from http://x/y: expected value at line 1 column 1; body: \
         <html>hi</html>"
    );
    let value = decode_reply("http://x/y", b"[1]", decode).unwrap();
    assert_eq!(value, json("[1]"));
}

#[test]
fn an_ill_formed_body_is_shown_with_replacement_characters() {
    let err = BackendError::unexpected_body("u", "e", &[b'a', 0xff, b'b']);
    assert_eq!(err.message, "unexpected response from u: e; body: a\u{fffd}b");
    let err = BackendError::unexpected_body("u", "e", &[b'x'; 400]);
    assert_eq!(err.message, format!("unexpected response from u: e; body: {}", "x".repeat(300)));
}

#[test]
fn configuration_errors_are_fatal() {
    let err = BackendError::config("no key");
    assert_eq!(err.kind, ErrorKind::Fatal);
    assert_eq!(err.display(), "no key");
    assert!(!err.is_retryable());
}

#[test]
fn usage_adds_up() {
    assert_eq!(Usage::default().total(), 0);
    assert_eq!(Usage { prompt_tokens: 12, completion_tokens: 3 }.total(), 15);
}

#[test]
fn ollama_chat_body_has_exactly_the_system_and_user_messages() {
    let client = OllamaClient::with_base_url("http://x", "llama3.2");
    let body = sent(&client.chat_body(&request("{\"title\":\"Rust\"}", None)));
    assert_eq!(
        body["messages"],
        json(
            r#"[
                {"role": "system", "content": "Extract keywords"},
                {"role": "user", "content": "{\"title\":\"Rust\"}"}
            ]"#
        )
    );
    assert_eq!(body["stream"], json("false"));
    assert!(body.get("format").is_none());
}

#[test]
fn chat_body_sends_the_schema_as_format() {
    let client = OllamaClient::with_base_url("http://x", "llama3.2");
    let schema = json("{\"type\": \"object\"}");
    let body = sent(&client.chat_body(&request("{\"title\":\"Rust\"}", Some(tags_schema()))));
    assert_eq!(body["format"], schema);
}

#[test]
fn chat_parses_text_and_usage() {
    let client = OllamaClient::with_base_url("http://host:1", "llama3.2");
    let response = ollama_response(OllamaReply {
        content: Some("rust, vectors".to_string()),
        prompt_eval_count: Some(12),
        eval_count: Some(3),
    });
    assert_eq!(response.text, "rust, vectors");
    assert_eq!(response.usage.unwrap().total(), 15);
    let post = client.chat_post(&request("u", None));
    assert_eq!(post.url, "http://host:1/api/chat");
    assert_eq!(post.bearer, None);
    assert_eq!(post.timeout, Duration::from_secs(DEFAULT_TIMEOUT_SECS));
    assert_eq!(sent(&post.body)["model"], json("\"llama3.2\""));
}

#[test]
fn a_reply_without_counts_has_no_usage() {
    let none = OllamaReply { content: None, prompt_eval_count: None, eval_count: None };
    let response = ollama_response(none);
    assert_eq!(response.text, "");
    assert_eq!(response.usage, None);
    let half = OllamaReply { content: None, prompt_eval_count: None, eval_count: Some(4) };
    assert_eq!(
        ollama_response(half).usage,
        Some(Usage { prompt_tokens: 0, completion_tokens: 4 })
    );
}

#[test]
fn unknown_model_is_fatal() {
    let body = r#"{"error":"model \"nope\" not found, try pulling it first"}"#;
    let err = BackendError::from_reply(404, None, body);
    assert_eq!(err.kind, ErrorKind::Fatal);
    assert!(err.message.contains("not found"));
}

#[test]
fn embed_sends_raw_inputs() {
    let client = OllamaClient::with_base_url("http://x", "embeddinggemma");
    let post = client.embed_post(&vec!["Researcher\nUNLP".to_string()]);
    assert_eq!(post.url, "http://x/api/embed");
    assert_eq!(sent(&post.body)["input"], json(r#"["Researcher\nUNLP"]"#));
    assert_eq!(post.body.text(), r#"{"input":["Researcher\nUNLP"],"model":"embeddinggemma"}"#);
}

#[test]
fn ollama_endpoint_comes_from_the_variable() {
    assert_eq!(OllamaClient::new("m", None).base_url, "http://127.0.0.1:11434");
    let client = OllamaClient::new("m", Some("http://gpu-box:11434"));
    assert_eq!(client.base_url, "http://gpu-box:11434");
    let client = client.timeout(Duration::from_secs(5));
    assert_eq!(client.timeout, Duration::from_secs(5));
    let identity = ChatBackend::identity(&client);
    assert_eq!(identity.kind, "ollama");
    assert_eq!(identity.base_url, "http://gpu-box:11434");
    assert_eq!(identity.model, "m");
    assert_eq!(EmbedBackend::identity(&client), identity);
}

#[test]
fn key_from_the_environment_skips_dotenv() {
    let loaded = Cell::new(false);
    let key = resolve_api_key(|_| Some("sk-env".into()), || loaded.set(true)).unwrap();
    assert_eq!(key, "sk-env");
    assert!(!loaded.get(), "a .env file must not be required");
}

#[test]
fn key_from_dotenv_when_the_environment_has_none() {
    let loaded = Cell::new(false);
    let key = resolve_api_key(
        |_| if loaded.get() { Some("sk-dotenv".to_string()) } else { None },
        || loaded.set(true),
    )
    .unwrap();
    assert_eq!(key, "sk-dotenv");
}

#[test]
fn the_key_is_read_again_once_dotenv_was_loaded() {
    let calls = RefCell::new(Vec::new());
    let lookup = |loaded: bool| {
        calls.borrow_mut().push(format!("lookup {loaded}"));
        Some(if loaded { "sk-dotenv".to_string() } else { String::new() })
    };
    let key = resolve_api_key(lookup, || calls.borrow_mut().push("load".to_string())).unwrap();
    assert_eq!(key, "sk-dotenv");
    assert_eq!(*calls.borrow(), vec!["lookup false", "load", "lookup true"]);
    assert_eq!(key_from_environment(Some("k".to_string())).as_deref(), Some("k"));
    assert_eq!(key_from_environment(Some(String::new())), None);
    assert_eq!(key_from_environment(None), None);
    assert_eq!(key_after_dotenv(Some("k".to_string())).unwrap(), "k");
    assert_eq!(key_after_dotenv(Some(String::new())).unwrap_err().kind, ErrorKind::Fatal);
}

#[test]
fn missing_key_names_the_variable() {
    let err = resolve_api_key(|_| None, || {}).unwrap_err();
    assert_eq!(err.kind, ErrorKind::Fatal);
    assert!(err.message.contains(OPENAI_API_KEY_VAR));
}

#[test]
fn an_empty_key_counts_as_missing() {
    let err = OpenAiCompatClient::openai("m", |_| Some(String::new()), || {}).unwrap_err();
    assert_eq!(
        err.display(),
        "OPENAI_API_KEY is not set, in the environment or in a .env file"
    );
    let client = OpenAiCompatClient::openai("m", |_| Some("k".to_string()), || {}).unwrap();
    assert_eq!(client.base_url, OPENAI_BASE_URL);
    assert_eq!(client.api_key.as_deref(), Some("k"));
}

#[test]
fn openai_chat_body_has_exactly_the_system_and_user_messages() {
    let client = OpenAiCompatClient::new("http://x/v1", "gpt-4o-mini", None);
    let body = sent(&client.chat_body(&request("text", None)));
    assert_eq!(
        body["messages"],
        json(
            r#"[
                {"role": "system", "content": "Extract keywords"},
                {"role": "user", "content": "text"}
            ]"#
        )
    );
    assert!(body.get("response_format").is_none());
}

#[test]
fn chat_body_sends_the_schema_as_response_format() {
    let client = OpenAiCompatClient::new("http://x/v1", "gpt-4o-mini", None);
    let body = sent(&client.chat_body(&request("u", Some(tags_schema()))));
    assert_eq!(body["response_format"]["type"], json("\"json_schema\""));
    assert_eq!(body["response_format"]["json_schema"]["name"], json("\"Tags\""));
    assert_eq!(
        body["response_format"]["json_schema"]["schema"],
        json("{\"type\": \"object\"}")
    );
    assert_eq!(body["response_format"]["json_schema"]["strict"], json("false"));
}

#[test]
fn chat_sends_the_key_and_parses_the_reply() {
    let client = OpenAiCompatClient::new("http://host/v1", "m", Some("sk-test".into()));
    let response = openai_response(OpenAiReply {
        choices: vec![Some("hi".to_string())],
        usage: Some(Usage { prompt_tokens: 5, completion_tokens: 1 }),
    });
    assert_eq!(response.text, "hi");
    assert_eq!(response.usage.unwrap().total(), 6);
    let post = client.chat_post(&request("u", None));
    assert_eq!(post.url, "http://host/v1/chat/completions");
    assert_eq!(post.bearer.as_deref(), Some("sk-test"));
    let empty = openai_response(OpenAiReply { choices: Vec::new(), usage: None });
    assert_eq!((empty.text.as_str(), empty.usage), ("", None));
}

#[test]
fn embeddings_come_back_in_input_order() {
    let data = vec![
        EmbeddingItem { embedding: vec![2.0f32], index: 1 },
        EmbeddingItem { embedding: vec![1.0f32], index: 0 },
    ];
    let vectors = openai_embeddings(data);
    assert_eq!(vectors, vec![vec![1.0], vec![2.0]]);
    let client = OpenAiCompatClient::new("http://host/v1", "m", None);
    let post = client.embed_post(&vec!["a".to_string(), "b".to_string()]);
    assert_eq!(post.url, "http://host/v1/embeddings");
    assert_eq!(sent(&post.body)["input"], json(r#"["a", "b"]"#));
}

#[test]
fn vectors_of_the_same_index_keep_their_order() {
    let item = |embedding: u8, index: usize| EmbeddingItem { embedding, index };
    let data = vec![item(1, 3), item(2, 0), item(3, 3), item(4, 0), item(5, 1)];
    assert_eq!(openai_embeddings(data), vec![2, 4, 5, 1, 3]);
}

#[test]
fn json_values_read_back() {
    let text = r#"{"a":[1,-2,true,null],"b":{"c":"x\u0001\n\"y\""},"é":""}"#;
    let value = JsonValue::parse(text).unwrap();
    assert_eq!(value.text(), text);
    assert_eq!(sent(&value), json(text));
    assert_eq!(sent(&value.copy()), json(text));
    assert_eq!(value.member("é").and_then(|v| v.as_text()), Some(""));
    assert!(value.member("z").is_none());
    assert!(value.is_object());
    assert!(JsonValue::parse("{\"a\":").is_err());
}

#[test]
fn json_nests_to_the_depth_that_is_read_back() {
    let nested = |depth: usize| format!("{}{}", "[".repeat(depth), "]".repeat(depth));
    assert_eq!(JsonValue::parse(&nested(127)).unwrap().text(), nested(127));
    assert!(JsonValue::parse(&nested(128)).is_err());
}
