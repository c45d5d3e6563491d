//! Embedding texts in batches, and sending records to a chat model.

use std::cell::{Cell, RefCell};

use lvv::backend::{
    classify_status, BackendError, BackendIdentity, EmbedBackend, OllamaClient,
};
use lvv::inference::completion_model::{
    CompletionModel, FieldEnhanceable, FieldEnhanceableG, FieldsEnhanceable, Response, Role, SetupError, ANNOUNCEMENT,
    ASSISTANT_MESSAGE,
};
use lvv::inference::embedding_model::{
    texts_between, EmbedError, EmbedSession, EmbeddingProvider, BATCH_SIZE,
};
use lvv::intake::dataset::DataSet;
use lvv::store::TextMap;

type Vectors = Result<Vec<Vec<f32>>, BackendError>;

/// Embeds with a closure and records every batch it receives.
struct Model {
    script: fn(&[String]) -> Vectors,
    batches: RefCell<Vec<Vec<String>>>,
}

impl Model {
    fn new(script: fn(&[String]) -> Vectors) -> Model {
        Model { script, batches: RefCell::new(Vec::new()) }
    }

    /// A one-dimensional vector holding each input's length.
    fn lengths() -> Model {
        Model::new(|inputs| Ok(inputs.iter().map(|i| vec![i.len() as f32]).collect()))
    }

    fn embed(&self, inputs: Vec<String>) -> Vectors {
        let reply = (self.script)(&inputs);
        self.batches.borrow_mut().push(inputs);
        reply
    }
}

impl EmbedBackend for &Model {
    fn identity(&self) -> BackendIdentity {
        BackendIdentity {
            kind: "mock".to_string(),
            base_url: "mock://".to_string(),
            model: "mock-embed".to_string(),
        }
    }
}

fn http_error(status: u16) -> BackendError {
    BackendError {
        kind: classify_status(status),
        status: Some(status),
        message: format!("mock status {status}"),
        retry_after: None,
    }
}

fn embed_texts(model: &Model, texts: &Vec<String>) -> Result<Vec<Vec<f32>>, EmbedError> {
    let mut session: EmbedSession<Vec<f32>> =
        EmbeddingProvider::from_backend(model).embed_texts(texts);
    while let Some((from, to)) = session.next() {
        let reply = model.embed(texts_between(texts, from, to));
        session.on_reply(reply)?;
    }
    Ok(session.finish())
}

fn texts(list: &[&str]) -> Vec<String> {
    list.iter().map(|t| t.to_string()).collect()
}

#[test]
fn texts_are_sent_as_is() {
    let model = Model::lengths();
    embed_texts(&model, &texts(&["Researcher\nUNLP"])).unwrap();
    assert_eq!(*model.batches.borrow(), vec![vec!["Researcher\nUNLP".to_string()]]);
}

#[test]
fn records_are_sent_as_json() {
    let model = Model::lengths();
    let record: serde_json::Value = serde_json::from_str("{\"title\": \"Rust\"}").unwrap();
    let dataset = DataSet::new("memory", "t", vec![record]);
    let texts = EmbeddingProvider::from_backend(&model)
        .embed_properties(dataset, |r| serde_json::to_string(r).map_err(|e| e.to_string()))
        .unwrap();
    embed_texts(&model, &texts).unwrap();
    assert_eq!(*model.batches.borrow(), vec![vec![r#"{"title":"Rust"}"#.to_string()]]);
}

#[test]
fn inputs_go_in_batches_of_fifty() {
    let model = Model::lengths();
    let texts: Vec<String> = (0..120).map(|i| "x".repeat(i)).collect();
    let vectors = embed_texts(&model, &texts).unwrap();
    let sizes: Vec<usize> = model.batches.borrow().iter().map(Vec::len).collect();
    assert_eq!(sizes, vec![50, 50, 20]);
    assert_eq!(vectors.len(), 120);
    assert!(vectors.iter().enumerate().all(|(i, v)| v[0] == i as f32));
    assert_eq!(BATCH_SIZE, 50);
}

#[test]
fn rejected_batches_fall_back_to_single_inputs_in_order() {
    let model = Model::new(|inputs| {
        if inputs.len() > 1 {
            Err(http_error(400))
        } else {
            Ok(vec![vec![inputs[0].len() as f32]])
        }
    });
    let texts = texts(&["a", "bb", "ccc", "dddd", "eeeee"]);
    let vectors = embed_texts(&model, &texts).unwrap();
    assert_eq!(vectors, vec![vec![1.0], vec![2.0], vec![3.0], vec![4.0], vec![5.0]]);
}

#[test]
fn a_genuine_failure_names_the_input() {
    let model = Model::new(|inputs| {
        if inputs.contains(&"bad".to_string()) {
            Err(http_error(400))
        } else {
            Ok(inputs.iter().map(|_| vec![0.0]).collect())
        }
    });
    let err = embed_texts(&model, &texts(&["ok", "fine", "bad", "ok"])).unwrap_err();
    assert!(matches!(err, EmbedError::Backend { index: 2, .. }), "{err:?}");
    assert_eq!(err.display(), "embedding input 2 failed: HTTP 400: mock status 400");
}

#[test]
fn a_short_reply_is_retried_one_by_one() {
    let model = Model::new(|inputs| Ok(vec![vec![0.0]; inputs.len().min(1)]));
    let vectors = embed_texts(&model, &texts(&["a", "b"])).unwrap();
    assert_eq!(vectors.len(), 2);
}

#[test]
fn a_single_input_with_two_vectors_is_an_error() {
    let model = Model::new(|_| Ok(vec![vec![0.0], vec![1.0]]));
    let err = embed_texts(&model, &texts(&["a"])).unwrap_err();
    assert!(matches!(err, EmbedError::CountMismatch { expected: 1, got: 2 }));
    assert_eq!(err.display(), "the backend returned 2 vectors for 1 inputs");
}

#[test]
fn requests_are_at_most_one_per_text_and_batch() {
    let model = Model::new(|inputs| {
        if inputs.len() > 1 {
            Err(http_error(400))
        } else {
            Ok(vec![vec![0.0]])
        }
    });
    let texts: Vec<String> = (0..101).map(|i| i.to_string()).collect();
    embed_texts(&model, &texts).unwrap();
    // Two batches are rejected and sent text by text; the last holds one text.
    assert_eq!(model.batches.borrow().len(), 2 + 101);
    assert!(model.batches.borrow().len() <= 101 + 3);
}

#[test]
fn embedding_nothing_sends_nothing() {
    let model = Model::lengths();
    assert!(embed_texts(&model, &Vec::new()).unwrap().is_empty());
    assert!(model.batches.borrow().is_empty());
}

#[test]
fn datasets_must_serialize() {
    let provider = EmbeddingProvider::new("m", None);
    let none: DataSet<u8> =
        DataSet { filename: "f".to_string(), identifier: "i".to_string(), data: None };
    let err = provider.embed_properties(none, |n| Ok(n.to_string())).unwrap_err();
    assert_eq!(err.display(), "the dataset has no data to embed");
    let odd = |n: &u8| if n % 2 == 1 { Err("odd".to_string()) } else { Ok(n.to_string()) };
    let err = provider
        .embed_properties(DataSet::new("f", "i", vec![2u8, 3, 5]), odd)
        .unwrap_err();
    assert_eq!(err.display(), "could not serialize record 1 as JSON: odd");
}

#[test]
fn embedding_providers_have_an_identity() {
    let provider = EmbeddingProvider::new("m", Some("http://h"));
    let identity = provider.identity();
    assert_eq!(
        (identity.kind.as_str(), identity.base_url.as_str(), identity.model.as_str()),
        ("ollama", "http://h", "m")
    );
    let provider = EmbeddingProvider::openai("m", |_| Some("k".to_string()), || {}).unwrap();
    assert_eq!(provider.identity().kind, "openai");
    let provider = EmbeddingProvider::openai_compatible("http://h/v1", "m", None);
    assert_eq!(provider.identity().base_url, "http://h/v1");
    let client = OllamaClient::with_base_url("http://x", "n");
    assert_eq!(EmbeddingProvider::from_backend(client).identity().model, "n");
    let model = Model::lengths();
    assert_eq!(EmbeddingProvider::from_backend(&model).identity().model, "mock-embed");
}

#[test]
fn a_chat_introduces_the_record() {
    let model = CompletionModel::new("llama3.2", "Summarize.", None);
    assert_eq!(model.base_url, "http://127.0.0.1:11434");
    assert_eq!(
        model.messages("{}"),
        vec![
            (Role::Assistant, ASSISTANT_MESSAGE.to_string()),
            (Role::User, ANNOUNCEMENT.to_string()),
            (Role::User, "{}".to_string()),
        ]
    );
}

#[test]
fn an_openai_chat_needs_a_dotenv_file_and_a_key() {
    let err =
        CompletionModel::new_openai("m", "p", || Err("no file".to_string()), || Ok("k".into()))
            .unwrap_err();
    assert!(matches!(err, SetupError::EnvAbsent(e) if e == "no file"));
    let err = CompletionModel::new_openai("m", "p", || Ok(()), || Err("unset".to_string()))
        .unwrap_err();
    assert!(matches!(err, SetupError::ApiKeyAbsent(e) if e == "unset"));
    let model = CompletionModel::new_openai("m", "p", || Ok(()), || Ok("k".to_string())).unwrap();
    let loaded = Cell::new(false);
    let late = CompletionModel::new_openai(
        "m",
        "p",
        || Ok(loaded.set(true)),
        || if loaded.get() { Ok("late".to_string()) } else { Err("unset".to_string()) },
    );
    assert_eq!(late.unwrap().api_key.as_deref(), Some("late"));
    assert_eq!(model.api_key.as_deref(), Some("k"));
    assert_eq!(model.base_url, "https://api.openai.com/v1");
}

#[derive(Debug, PartialEq)]
struct Note {
    text: String,
}

impl FieldEnhanceable for Note {
    fn set_field(&mut self, modifications: String) {
        self.text = modifications;
    }
}

fn reply(text: Option<&str>, total_tokens: Option<u32>) -> Result<Response, String> {
    Ok(Response { text: text.map(|t| t.to_string()), total_tokens })
}

struct Suffix;

impl FieldEnhanceableG<String> for Suffix {
    fn set_field(&mut self, _modifications: String) {}
}

impl FieldEnhanceableG<String> for Note {
    fn set_field(&mut self, modifications: String) {
        self.text.push_str(&modifications);
    }
}

#[derive(Default)]
struct Names(Vec<String>);

impl FieldsEnhanceable<String> for Names {
    fn set_fields(&mut self, modifications: TextMap<Box<dyn FieldEnhanceableG<String>>>) {
        for i in 0..modifications.len() {
            self.0.push(modifications.entry(i).0.to_string());
        }
    }
}

#[test]
fn named_fields_take_values_of_several_types() {
    let mut fields: TextMap<Box<dyn FieldEnhanceableG<String>>> = TextMap::new();
    fields.insert("b".to_string(), Box::new(Suffix));
    fields.insert("a".to_string(), Box::new(Note { text: String::new() }));
    let mut names = Names::default();
    names.set_fields(fields);
    assert_eq!(names.0, vec!["b", "a"]);
    let mut note = Note { text: "x".to_string() };
    FieldEnhanceableG::set_field(&mut note, "y".to_string());
    assert_eq!(note.text, "xy");
}

#[test]
fn failed_records_are_left_out_of_the_responses() {
    let model = CompletionModel::new("m", "p", None);
    let mut completions = model.perform_completion();
    completions.on_reply(reply(Some("a"), Some(3)));
    completions.on_reply(Err("down".to_string()));
    completions.on_reply(reply(None, Some(4)));
    completions.on_reply(reply(Some("b"), None));
    assert_eq!(completions.responses, vec!["a".to_string(), "b".to_string()]);
    assert_eq!(completions.failed, vec![1]);
    assert_eq!((completions.sent, completions.tokens), (4, 7));
}

#[test]
fn updated_records_are_saved_after_every_response() {
    let model = CompletionModel::new("m", "p", None);
    let mut dumped = model.perform_completion_dump_inelegant();
    let note = || Note { text: "raw".to_string() };
    assert!(dumped.on_reply(note(), reply(Some("a"), None)));
    assert!(!dumped.on_reply(note(), Err("down".to_string())));
    assert!(!dumped.on_reply(note(), reply(None, None)));
    assert!(dumped.on_reply(note(), reply(Some("b"), None)));
    assert_eq!(
        dumped.objects,
        vec![Note { text: "a".to_string() }, Note { text: "b".to_string() }]
    );
    assert_eq!(dumped.completions.failed, vec![1]);
}
