//! Transforms, and runs of them against a scripted model.

use std::cell::{Cell, RefCell};

use lvv::backend::{
    classify_status, BackendError, BackendIdentity, ChatBackend, ChatRequest, ChatResponse,
    ErrorKind, Usage,
};
use lvv::json::JsonValue;
use lvv::time::Duration;
use lvv::transform::cache::CompletionCache;
use lvv::transform::definition::{
    parse_json, parse_text, schema_of, strip_code_fence, CustomInput, JsonInput, OutputSpec,
    Render, StructuredOutput, TextOutput,
};
use lvv::transform::retry::{after_attempt, most_jitter, wait_before_jitter, with_jitter, Attempt};
use lvv::transform::run::{
    prepare, Delivery, Execution, Flight, Options, Pending, Step, NO_APPLY_MESSAGE,
};
use lvv::transform::{
    CompletionCacheError, CompletionError, ErrorClass, FatalCause, InputError, Llm, Outcome,
    Progress, Report, RunError, Transform,
};

/// A reply of type `{"keywords": [..]}`.
#[derive(Debug, Clone, PartialEq)]
struct Tags {
    keywords: Vec<String>,
}

fn tags_from(value: &serde_json::Value) -> Option<Tags> {
    let mut keywords = Vec::new();
    for keyword in value.get("keywords")?.as_array()? {
        keywords.push(keyword.as_str()?.to_string());
    }
    Some(Tags { keywords })
}

fn tags_from_json(text: &str) -> Result<Tags, String> {
    let value: serde_json::Value = serde_json::from_str(text).map_err(|e| e.to_string())?;
    tags_from(&value).ok_or("missing field `keywords`".to_string())
}

#[derive(Debug, Clone, PartialEq)]
struct Position {
    title: String,
    summary: Option<String>,
    keywords: Vec<String>,
}

fn position_json(p: &Position) -> Result<String, String> {
    let keywords: Vec<String> = p.keywords.iter().map(|k| format!("{k:?}")).collect();
    let summary = p.summary.as_ref().map_or("null".to_string(), |s| format!("{s:?}"));
    Ok(format!(
        "{{\"title\":{:?},\"summary\":{summary},\"keywords\":[{}]}}",
        p.title,
        keywords.join(",")
    ))
}

fn positions(n: usize) -> Vec<Position> {
    (0..n)
        .map(|i| Position { title: format!("p{i}"), summary: None, keywords: Vec::new() })
        .collect()
}

/// Answers each request with a closure of the request and the call number,
/// and records what it receives.
struct Model<'a> {
    script: Box<dyn Fn(&ChatRequest, usize) -> Result<String, BackendError> + 'a>,
    calls: Cell<usize>,
    seen: RefCell<Vec<(String, String, Option<String>)>>,
    name: String,
}

impl<'a> Model<'a> {
    fn new(
        script: impl Fn(&ChatRequest, usize) -> Result<String, BackendError> + 'a,
    ) -> Model<'a> {
        Model {
            script: Box::new(script),
            calls: Cell::new(0),
            seen: RefCell::new(Vec::new()),
            name: "mock-model".to_string(),
        }
    }

    fn echo() -> Model<'static> {
        Model::new(|request, _| Ok(request.user.clone()))
    }

    fn named(mut self, name: &str) -> Model<'a> {
        self.name = name.to_string();
        self
    }

    fn chat(&self, request: &ChatRequest) -> Result<ChatResponse, BackendError> {
        let call = self.calls.get();
        self.calls.set(call + 1);
        self.seen.borrow_mut().push((
            request.system.clone(),
            request.user.clone(),
            request.schema.as_ref().map(|s| s.name.clone()),
        ));
        (self.script)(request, call).map(|text| ChatResponse {
            text,
            usage: Some(Usage { prompt_tokens: 1, completion_tokens: 1 }),
        })
    }
}

impl<'a> ChatBackend for &Model<'a> {
    fn identity(&self) -> BackendIdentity {
        BackendIdentity {
            kind: "mock".to_string(),
            base_url: "mock://".to_string(),
            model: self.name.clone(),
        }
    }
}

fn http_error(status: u16) -> BackendError {
    BackendError {
        kind: classify_status(status),
        status: Some(status),
        message: format!("mock status {status}"),
        retry_after: None,
    }
}

fn timeout() -> BackendError {
    BackendError {
        kind: ErrorKind::Retryable,
        status: None,
        message: "mock timeout".to_string(),
        retry_after: None,
    }
}

/// The text of a completion cache file, and how many writes succeed.
struct CacheFile {
    text: String,
    writes: usize,
}

impl CacheFile {
    fn empty() -> CacheFile {
        CacheFile { text: String::new(), writes: usize::MAX }
    }

    fn open(&mut self) -> CompletionCache {
        let (cache, ends_mid_line) = CompletionCache::open("cache.jsonl", Some(&self.text));
        if ends_mid_line {
            self.text.push('\n');
        }
        cache
    }

    fn write(&mut self, line: &str) -> Result<(), String> {
        if self.writes == 0 {
            return Err("disk full".to_string());
        }
        self.writes -= 1;
        self.text.push_str(line);
        Ok(())
    }
}

/// Sends a request, and again while that is due. Waits are not slept.
fn call(model: &Model, request: &ChatRequest, options: &Options) -> Result<ChatResponse, BackendError> {
    let mut attempt = 0;
    loop {
        let result = model.chat(request);
        match after_attempt(result, attempt, options.retries, options.backoff) {
            Attempt::Done(result) => return result,
            Attempt::Again(_) => attempt += 1,
        }
    }
}

/// Takes the pending records in the order that `order` puts them in, and hands
/// every delivery to `deliver`.
fn execute<X: OutputSpec<O>, O>(
    model: &Model,
    prompt: &str,
    output: &X,
    options: &Options,
    inputs: Vec<Result<String, InputError>>,
    file: &mut Option<CacheFile>,
    order: impl Fn(&mut Vec<Pending>),
    mut execution: impl FnMut() -> Execution,
    mut set: impl FnMut(Execution),
    mut deliver: impl FnMut(usize, Delivery<O>),
) -> Result<(), RunError> {
    let identity = model.identity();
    let mut cache = file.as_mut().map(|f| f.open());
    let (delivered, mut pending) = prepare(output, &identity, prompt, &cache, inputs);
    for (index, delivery) in delivered {
        deliver(index, delivery);
    }
    order(&mut pending);
    for record in pending {
        let request = record.request(prompt, output);
        let result = call(model, &request, options);
        let mut state = execution();
        let step = state.on_reply(output, record.key, result);
        set(state.clone());
        let step = match step {
            Step::Store { key, value, output } => {
                let line = CompletionCache::line(&key, &value);
                let written = file.as_mut().unwrap().write(&line);
                let stored = cache.as_mut().unwrap().insert(key, value, written);
                state.on_stored(output, stored)
            }
            step => step,
        };
        match step {
            Step::Deliver(delivery) => deliver(record.index, delivery),
            Step::Stop(err) => return Err(err),
            Step::Store { .. } => unreachable!(),
        }
    }
    Ok(())
}

struct Settings {
    options: Options,
    file: Option<CacheFile>,
    backwards: bool,
}

impl Settings {
    fn plain() -> Settings {
        Settings { options: Options::default(), file: None, backwards: false }
    }
}

fn run<I, X, A, O>(
    model: &Model,
    transform: &Transform<I, X, A>,
    records: &mut [Position],
    settings: &mut Settings,
    mut hook: impl FnMut(&Progress),
) -> Result<Report, RunError>
where
    I: Render<Position>,
    X: OutputSpec<O>,
    A: Fn(&mut Position, O),
{
    let llm = Llm::from_backend(model);
    let mut run = llm.run(transform);
    run.options = settings.options.clone();
    let state = RefCell::new(run.begin(records.len())?);
    let inputs = records.iter().map(|r| transform.render(r)).collect();
    let backwards = settings.backwards;
    execute(
        model,
        transform.prompt(),
        &transform.output,
        &run.options,
        inputs,
        &mut settings.file,
        |pending| {
            if backwards {
                pending.reverse();
            }
        },
        || state.borrow().execution.clone(),
        |execution| state.borrow_mut().execution = execution,
        |index, delivery| {
            state.borrow_mut().deliver(records, index, delivery);
            hook(&state.borrow().progress());
        },
    )?;
    Ok(state.into_inner().finish())
}

fn complete<I, X, A, O>(
    model: &Model,
    transform: &Transform<I, X, A>,
    records: &[Position],
    options: Options,
) -> Result<Vec<Result<O, CompletionError>>, RunError>
where
    I: Render<Position>,
    X: OutputSpec<O>,
{
    let llm = Llm::from_backend(model);
    let mut run = llm.complete(transform);
    run.options = options;
    let state = RefCell::new(run.begin::<O>(records.len()));
    let inputs = records.iter().map(|r| transform.render(r)).collect();
    execute(
        model,
        transform.prompt(),
        &transform.output,
        &run.options,
        inputs,
        &mut None,
        |_| {},
        || state.borrow().execution.clone(),
        |execution| state.borrow_mut().execution = execution,
        |index, delivery| state.borrow_mut().deliver(index, delivery),
    )?;
    Ok(state.into_inner().finish())
}

type Apply<O> = fn(&mut Position, O);
type ToJson = fn(&Position) -> Result<String, String>;
type Input = fn(&Position) -> String;
type TagsOutput = StructuredOutput<
    fn(&str) -> Result<Tags, String>,
    fn(&Tags) -> Option<JsonValue>,
    fn(JsonValue) -> Option<Tags>,
>;

fn summarize_with(prompt: &str) -> Transform<CustomInput<Input>, TextOutput, Apply<String>> {
    Transform::text(prompt, position_json as ToJson)
        .input((|p: &Position| p.title.clone()) as Input)
        .apply(|p: &mut Position, summary| p.summary = Some(summary))
}

fn summarize() -> Transform<CustomInput<Input>, TextOutput, Apply<String>> {
    summarize_with("Summarize the position.")
}

fn tags_output() -> TagsOutput {
    let generated = JsonValue::parse(
        "{\"$schema\":\"https://json-schema.org/draft/2020-12/schema\",\"title\":\"Tags\",\
         \"type\":\"object\",\"properties\":{\"keywords\":{\"type\":\"array\"}}}",
    )
    .unwrap();
    StructuredOutput {
        schema: schema_of("Tags", &generated),
        from_json: tags_from_json,
        to_value: |tags| {
            let items = tags.keywords.iter().map(|k| JsonValue::string(k)).collect();
            Some(JsonValue::Object(vec![("keywords".to_string(), JsonValue::Array(items))]))
        },
        from_value: |value| tags_from(&serde_json::from_str(&value.text()).unwrap()),
    }
}

fn tag() -> Transform<CustomInput<Input>, TagsOutput, Apply<Tags>> {
    Transform::structured("List keywords.", position_json as ToJson, tags_output())
        .input((|p: &Position| p.title.clone()) as Input)
        .apply(|p: &mut Position, tags: Tags| p.keywords = tags.keywords)
}

#[test]
fn text_is_trimmed_and_empty_is_an_error() {
    assert_eq!(parse_text("  hi \n").unwrap(), "hi");
    assert!(matches!(parse_text(" \n"), Err(CompletionError::EmptyResponse)));
}

#[test]
fn json_parses_plain_and_fenced() {
    let plain: Tags = parse_json(r#"{"keywords":["rust"]}"#, &tags_from_json).unwrap();
    let fenced: Tags =
        parse_json("```json\n{\"keywords\":[\"rust\"]}\n```", &tags_from_json).unwrap();
    assert_eq!(plain, fenced);
}

#[test]
fn unparseable_json_keeps_the_raw_reply() {
    match parse_json("not json", &tags_from_json) {
        Err(CompletionError::Parse { raw, .. }) => assert_eq!(raw, "not json"),
        other => panic!("expected a parse error, got {other:?}"),
    }
}

#[test]
fn a_fence_that_does_not_parse_keeps_the_first_error() {
    match parse_json::<Tags, _>(" ```\n{}\n``` ", &tags_from_json) {
        Err(CompletionError::Parse { raw, source }) => {
            assert_eq!(raw, " ```\n{}\n``` ");
            assert_eq!(source, "expected value at line 1 column 1");
        }
        other => panic!("expected a parse error, got {other:?}"),
    }
    assert!(matches!(
        parse_json(" \t", &tags_from_json),
        Err(CompletionError::EmptyResponse)
    ));
}

#[test]
fn fences_are_stripped() {
    assert_eq!(strip_code_fence("```json\n{\"a\":1}\n```"), Some("{\"a\":1}"));
    assert_eq!(strip_code_fence("```\n x \n\n```\n"), Some("x"));
    assert_eq!(strip_code_fence("```json {} ```"), None);
    assert_eq!(strip_code_fence("```\nopen"), None);
    assert_eq!(strip_code_fence("plain"), None);
    assert_eq!(strip_code_fence("```\n```"), Some(""));
}

#[test]
fn schema_names_are_plain_and_short() {
    let generated = JsonValue::parse("{\"$schema\":\"x\",\"type\":\"object\"}").unwrap();
    let schema = schema_of("Vec<Tag-1>é", &generated);
    assert_eq!(schema.name, "Vec_Tag-1__");
    assert_eq!(schema.schema.text(), "{\"type\":\"object\"}");
    assert_eq!(schema_of(&"a".repeat(70), &JsonValue::Bool(true)).name, "a".repeat(64));
    assert_eq!(schema_of("T", &JsonValue::Bool(true)).schema.text(), "true");
}

#[test]
fn a_failure_in_the_middle_keeps_alignment() {
    let model = Model::new(|req, _| {
        if req.user == "p1" {
            Err(http_error(400))
        } else {
            Ok(format!("summary of {}", req.user))
        }
    });
    let records = positions(3);
    let results = complete(&model, &summarize(), &records, Options::default()).unwrap();
    assert_eq!(results.len(), 3);
    assert_eq!(results[0].as_ref().unwrap(), "summary of p0");
    assert!(results[1].is_err());
    assert_eq!(results[2].as_ref().unwrap(), "summary of p2");
}

#[test]
fn run_applies_successes_and_reports_failures_by_index() {
    let model = Model::new(|req, _| {
        if req.user == "p1" {
            Err(http_error(400))
        } else {
            Ok(format!("summary of {}", req.user))
        }
    });
    let mut records = positions(3);
    let report =
        run(&model, &summarize(), &mut records, &mut Settings::plain(), |_| {}).unwrap();
    assert_eq!(records[0].summary.as_deref(), Some("summary of p0"));
    assert_eq!(records[1].summary, None);
    assert_eq!(records[2].summary.as_deref(), Some("summary of p2"));
    let failures = report.failures();
    assert_eq!(failures.len(), 1);
    assert_eq!(failures[0].0, 1);
    assert!(matches!(failures[0].1, CompletionError::Backend(e) if e.status == Some(400)));
    assert!(report.ensure_all().is_err());
    assert!(!report.is_complete());
}

#[test]
fn two_transforms_fill_two_fields_of_the_same_type() {
    let model = Model::new(|req, _| {
        Ok(if req.schema.is_some() {
            format!(r#"{{"keywords":["{}"]}}"#, req.user)
        } else {
            format!("summary of {}", req.user)
        })
    });
    let mut records = positions(2);
    let mut settings = Settings::plain();
    run(&model, &summarize(), &mut records, &mut settings, |_| {})
        .unwrap()
        .ensure_all()
        .unwrap();
    run(&model, &tag(), &mut records, &mut settings, |_| {}).unwrap().ensure_all().unwrap();
    assert_eq!(records[1].summary.as_deref(), Some("summary of p1"));
    assert_eq!(records[1].keywords, vec!["p1".to_string()]);
}

#[test]
fn custom_input_is_the_user_message() {
    let model = Model::echo();
    let transform: Transform<_, _, Apply<String>> =
        Transform::text("s", position_json as ToJson)
            .input(|p: &Position| format!("title={}", p.title));
    complete(&model, &transform, &positions(1), Options::default()).unwrap();
    assert_eq!(model.seen.borrow()[0].1, "title=p0");
}

#[test]
fn the_default_input_is_the_record_as_json() {
    let model = Model::echo();
    let transform: Transform<JsonInput<ToJson>, TextOutput, Apply<String>> =
        Transform::text("s", position_json);
    let records = positions(1);
    complete(&model, &transform, &records, Options::default()).unwrap();
    assert_eq!(model.seen.borrow()[0].1, position_json(&records[0]).unwrap());
}

#[test]
fn only_the_system_prompt_and_the_input_are_sent() {
    let model = Model::echo();
    let transform: Transform<_, _, Apply<String>> =
        Transform::text("Extract keywords", position_json as ToJson)
            .input(|p: &Position| p.title.clone());
    complete(&model, &transform, &positions(1), Options::default()).unwrap();
    let seen = model.seen.borrow();
    assert_eq!(seen.len(), 1);
    assert_eq!(seen[0], ("Extract keywords".to_string(), "p0".to_string(), None));
    assert!(transform.schema().is_none());
}

#[test]
fn structured_output_is_parsed_and_the_schema_is_sent() {
    let model = Model::new(|_, _| Ok(r#"{"keywords":["rust"]}"#.into()));
    let mut records = positions(1);
    run(&model, &tag(), &mut records, &mut Settings::plain(), |_| {})
        .unwrap()
        .ensure_all()
        .unwrap();
    assert_eq!(records[0].keywords, vec!["rust".to_string()]);
    assert_eq!(model.seen.borrow()[0].2.as_deref(), Some("Tags"));
    let transform = tag();
    let schema = transform.schema().expect("schema sent");
    assert_eq!(schema.name, "Tags");
    let properties = schema.schema.member("properties").unwrap();
    assert!(properties.member("keywords").unwrap().is_object());
    assert!(schema.schema.member("$schema").is_none());
}

#[test]
fn an_unparseable_response_fails_only_that_record() {
    let model = Model::new(|req, _| {
        Ok(if req.user == "p0" {
            "not json".into()
        } else {
            r#"{"keywords":["ok"]}"#.into()
        })
    });
    let mut records = positions(3);
    let report = run(&model, &tag(), &mut records, &mut Settings::plain(), |_| {}).unwrap();
    match &report.outcomes()[0] {
        Outcome::Failed(CompletionError::Parse { raw, .. }) => assert_eq!(raw, "not json"),
        other => panic!("expected a parse failure, got {other:?}"),
    }
    assert_eq!(report.counts().applied, 2);
    assert_eq!(records[2].keywords, vec!["ok".to_string()]);
}

#[test]
fn errors_are_classified() {
    let class = |err: CompletionError| err.class();
    assert_eq!(class(CompletionError::Backend(http_error(429))), ErrorClass::Retryable);
    assert_eq!(class(CompletionError::Backend(http_error(503))), ErrorClass::Retryable);
    assert_eq!(class(CompletionError::Backend(timeout())), ErrorClass::Retryable);
    assert_eq!(class(CompletionError::Backend(http_error(401))), ErrorClass::Fatal);
    assert_eq!(class(CompletionError::Backend(http_error(404))), ErrorClass::Fatal);
    assert_eq!(class(CompletionError::EmptyResponse), ErrorClass::Record);
    let parse = tags_from_json("x").unwrap_err();
    assert_eq!(
        class(CompletionError::Parse { raw: "x".into(), source: parse }),
        ErrorClass::Record
    );
    let input = InputError { message: "m".to_string() };
    assert_eq!(class(CompletionError::Input(input)), ErrorClass::Record);
}

#[test]
fn an_empty_reply_is_a_record_failure() {
    let model = Model::new(|_, _| Ok("  \n".into()));
    let results = complete(&model, &summarize(), &positions(1), Options::default()).unwrap();
    assert!(matches!(results[0], Err(CompletionError::EmptyResponse)));
}

#[test]
fn an_unrenderable_record_is_not_sent() {
    let model = Model::echo();
    let transform: Transform<_, _, Apply<String>> = Transform::text("s", |p: &Position| {
        if p.title == "p1" {
            Err("key must be a string".to_string())
        } else {
            Ok(p.title.clone())
        }
    });
    let results = complete(&model, &transform, &positions(3), Options::default()).unwrap();
    match &results[1] {
        Err(err @ CompletionError::Input(_)) => assert_eq!(
            err.display(),
            "could not render the record as input: key must be a string"
        ),
        other => panic!("expected an input failure, got {other:?}"),
    }
    assert_eq!(model.calls.get(), 2);
}

#[test]
fn a_transient_failure_recovers() {
    let model = Model::new(|_, call| {
        if call == 0 {
            Err(http_error(503))
        } else {
            Ok("fine".into())
        }
    });
    let mut records = positions(1);
    let mut settings = Settings::plain();
    settings.options = settings.options.retries(2).retry_backoff(Duration::from_millis(1));
    let report = run(&model, &summarize(), &mut records, &mut settings, |_| {}).unwrap();
    report.ensure_all().unwrap();
    assert_eq!(model.calls.get(), 2);
}

#[test]
fn retries_stop_at_the_limit() {
    let model = Model::new(|_, _| Err(timeout()));
    let options = Options::default().retries(2).retry_backoff(Duration::from_millis(1));
    let results = complete(&model, &summarize(), &positions(1), options).unwrap();
    assert!(results[0].is_err());
    assert_eq!(model.calls.get(), 3);
}

#[test]
fn a_fatal_failure_is_not_retried() {
    let model = Model::new(|_, _| Err(http_error(401)));
    let options = Options::default()
        .retries(2)
        .retry_backoff(Duration::from_millis(1))
        .circuit_breaker(0);
    let results = complete(&model, &summarize(), &positions(1), options).unwrap();
    assert!(results[0].is_err());
    assert_eq!(model.calls.get(), 1);
}

#[test]
fn waits_double_and_are_capped() {
    let err = timeout();
    let backoff = Duration::from_millis(500);
    let wait = |attempt: u32| wait_before_jitter(&err, attempt, backoff);
    assert_eq!(wait(0), Duration::from_millis(500));
    assert_eq!(wait(1), Duration::from_millis(1000));
    assert_eq!(wait(5), Duration::from_millis(16000));
    assert_eq!(wait(6), Duration::from_secs(30));
    assert_eq!(wait(u32::MAX), Duration::from_secs(30));
    let mut asked = timeout();
    asked.retry_after = Some(Duration::from_secs(7));
    assert_eq!(wait_before_jitter(&asked, 3, backoff), Duration::from_secs(7));
    asked.retry_after = Some(Duration::from_secs(3600));
    assert_eq!(wait_before_jitter(&asked, 0, backoff), Duration::from_secs(30));
}

#[test]
fn jitter_adds_at_most_a_quarter() {
    assert_eq!(most_jitter(Duration::from_millis(500)), 125);
    assert_eq!(most_jitter(Duration::from_millis(3)), 0);
    let wait = with_jitter(Duration::from_millis(500), 125);
    assert_eq!(wait, Duration::from_millis(625));
    assert_eq!(with_jitter(Duration::from_secs(29), 5000), Duration::from_secs(30));
    let mut waits = Vec::new();
    for _ in 0..64 {
        match after_attempt(Err(timeout()), 0, 1, Duration::from_secs(8)) {
            Attempt::Again(wait) => waits.push(wait.as_millis()),
            Attempt::Done(_) => panic!("a retryable failure is retried"),
        }
    }
    assert!(waits.iter().all(|ms| (8000..=10000).contains(ms)));
    assert!(waits.iter().any(|ms| *ms != waits[0]), "the jitter never changes");
}

#[test]
fn a_wrong_model_name_stops_the_run_early() {
    let model = Model::new(|_, _| Err(http_error(404)));
    let mut records = positions(100);
    let mut settings = Settings::plain();
    settings.options = settings.options.circuit_breaker(3);
    let err = run(&model, &summarize(), &mut records, &mut settings, |_| {}).unwrap_err();
    match &err {
        RunError::Fatal {
            completed: 0,
            source: FatalCause::CircuitOpen { failures: 3, .. },
        } => {}
        other => panic!("expected an open circuit, got {other:?}"),
    }
    assert!(model.calls.get() <= 3, "sent {} requests", model.calls.get());
    assert_eq!(
        err.display(),
        "run stopped after 0 completed records: 3 requests failed with fatal errors before any \
         succeeded; last error: HTTP 404: mock status 404"
    );
}

#[test]
fn record_failures_do_not_open_the_circuit() {
    let model = Model::new(|_, call| {
        Ok(if call < 5 {
            "not json".into()
        } else {
            r#"{"keywords":[]}"#.into()
        })
    });
    let mut records = positions(10);
    let mut settings = Settings::plain();
    settings.options = settings.options.circuit_breaker(3);
    let report = run(&model, &tag(), &mut records, &mut settings, |_| {}).unwrap();
    assert_eq!(model.calls.get(), 10);
    let failed: Vec<usize> = report.failures().iter().map(|(i, _)| *i).collect();
    assert_eq!(failed, vec![0, 1, 2, 3, 4]);
}

#[test]
fn a_success_disarms_the_circuit() {
    let model = Model::new(|req, _| {
        if req.user == "p0" {
            Ok("fine".into())
        } else {
            Err(http_error(404))
        }
    });
    let mut records = positions(10);
    let report =
        run(&model, &summarize(), &mut records, &mut Settings::plain(), |_| {}).unwrap();
    assert_eq!(report.counts().failed, 9);
    assert_eq!(model.calls.get(), 10);
}

#[test]
fn fatal_failures_count_in_a_row() {
    // A retryable failure comes between the second and the third fatal one.
    let model = Model::new(|req, _| {
        Err(if req.user == "p2" { http_error(503) } else { http_error(404) })
    });
    let mut records = positions(10);
    let mut settings = Settings::plain();
    settings.options = settings.options.retries(0).circuit_breaker(3);
    let err = run(&model, &summarize(), &mut records, &mut settings, |_| {}).unwrap_err();
    assert!(matches!(
        err,
        RunError::Fatal {
            completed: 0,
            source: FatalCause::CircuitOpen { failures: 3, .. }
        }
    ));
    assert_eq!(model.calls.get(), 6);
}

#[test]
fn a_cache_write_failure_keeps_the_completed_records() {
    let model = Model::new(|req, _| Ok(format!("summary of {}", req.user)));
    let mut records = positions(5);
    let mut settings = Settings::plain();
    settings.file = Some(CacheFile { text: String::new(), writes: 3 });
    let err = run(&model, &summarize(), &mut records, &mut settings, |_| {}).unwrap_err();
    match &err {
        RunError::Fatal { completed: 3, source: FatalCause::Cache(_) } => {}
        other => panic!("expected a cache failure after 3 records, got {other:?}"),
    }
    assert_eq!(
        err.display(),
        "run stopped after 3 completed records: completion cache cache.jsonl: disk full"
    );
    let summaries: Vec<_> = records.iter().map(|r| r.summary.is_some()).collect();
    assert_eq!(summaries, vec![true, true, true, false, false]);
}

#[test]
fn run_without_apply_fails_before_sending_anything() {
    let model = Model::echo();
    let transform: Transform<JsonInput<ToJson>, TextOutput, Apply<String>> =
        Transform::text("s", position_json);
    let err = run(&model, &transform, &mut positions(2), &mut Settings::plain(), |_| {})
        .unwrap_err();
    match &err {
        RunError::Fatal { completed: 0, source: FatalCause::Config(message) } => {
            assert_eq!(message, NO_APPLY_MESSAGE)
        }
        other => panic!("expected a configuration error, got {other:?}"),
    }
    assert!(err.display().starts_with(
        "run stopped after 0 completed records: invalid configuration: the transform has no apply"
    ));
    assert_eq!(model.calls.get(), 0);
}

#[test]
fn an_interrupted_run_resumes_from_the_cache() {
    let mut records = positions(10);
    let mut settings = Settings::plain();
    settings.file = Some(CacheFile::empty());

    // The first run finishes six records before it stops.
    let first = Model::new(|req, _| Ok(format!("summary of {}", req.user)));
    run(&first, &summarize(), &mut records[..6], &mut settings, |_| {}).unwrap();

    let second = Model::new(|req, _| Ok(format!("summary of {}", req.user)));
    let mut fresh = positions(10);
    let report = run(&second, &summarize(), &mut fresh, &mut settings, |_| {}).unwrap();
    assert_eq!(second.calls.get(), 4);
    assert_eq!(report.counts().cached, 6);
    assert_eq!(report.counts().applied, 4);
    assert!(fresh.iter().all(|r| r.summary.is_some()));
    assert_eq!(fresh[3].summary.as_deref(), Some("summary of p3"));
}

#[test]
fn a_second_run_sends_only_what_got_no_output() {
    let mut settings = Settings::plain();
    settings.file = Some(CacheFile::empty());
    let first = Model::new(|req, _| match req.user.as_str() {
        "p1" => Err(http_error(400)),
        "p3" => Ok("not json".to_string()),
        user => Ok(format!("{{\"keywords\":[{user:?}]}}")),
    });
    let report = run(&first, &tag(), &mut positions(5), &mut settings, |_| {}).unwrap();
    assert_eq!((first.calls.get(), report.counts().applied), (5, 3));

    let second = Model::new(|_, _| Ok(r#"{"keywords":["again"]}"#.into()));
    let mut records = positions(5);
    let report = run(&second, &tag(), &mut records, &mut settings, |_| {}).unwrap();
    let sent: Vec<String> = second.seen.borrow().iter().map(|seen| seen.1.clone()).collect();
    assert_eq!(sent, vec!["p1", "p3"]);
    assert_eq!((report.counts().cached, report.counts().applied), (3, 2));
    assert_eq!(records[2].keywords, vec!["p2".to_string()]);
    assert_eq!(records[3].keywords, vec!["again".to_string()]);

    let third = Model::echo();
    run(&third, &tag(), &mut positions(5), &mut settings, |_| {}).unwrap();
    assert_eq!(third.calls.get(), 0);
}

#[test]
fn concurrency_runs_requests_in_parallel() {
    let model = Model::echo();
    let transform = summarize();
    let options = Options::default().concurrency(4);
    let inputs = positions(8).iter().map(|r| transform.render(r)).collect();
    let identity = (&model).identity();
    let (_, pending) = prepare(&transform.output, &identity, transform.prompt(), &None, inputs);
    let mut flight = Flight::new(&options, pending.len());
    let mut execution = Execution::new(8, 0);
    let mut waiting = Vec::new();
    let mut most = 0;
    loop {
        while let Some(at) = flight.next() {
            waiting.push(at);
            most = most.max(waiting.len());
        }
        // The first 4 start before any finishes.
        if execution.progress.tokens == 0 {
            assert_eq!(waiting, vec![0, 1, 2, 3]);
        }
        let Some(at) = waiting.pop() else { break };
        let request = pending[at].request(transform.prompt(), &transform.output);
        flight.on_reply();
        let step = execution.on_reply(&transform.output, None, model.chat(&request));
        assert!(matches!(step, Step::Deliver(Delivery::Fresh(text)) if text == format!("p{at}")));
    }
    assert!(most >= 4);
    assert_eq!((most, model.calls.get(), execution.progress.tokens), (4, 8, 16));
}

#[test]
fn requests_in_flight_stay_within_the_limit() {
    let mut flight = Flight::new(&Options::default().concurrency(2), 3);
    assert_eq!((flight.next(), flight.next(), flight.next()), (Some(0), Some(1), None));
    flight.on_reply();
    assert_eq!((flight.next(), flight.next()), (Some(2), None));
    flight.on_reply();
    flight.on_reply();
    assert_eq!(flight.next(), None);
    assert_eq!((flight.sent, flight.answered), (3, 3));
    assert_eq!(Flight::new(&Options::default(), 0).next(), None);
    assert_eq!(Flight::new(&Options::default().concurrency(0), 1).limit, 1);
}

#[test]
fn a_prompt_change_invalidates_the_cache() {
    let model = Model::echo();
    let mut records = positions(4);
    let mut settings = Settings::plain();
    settings.file = Some(CacheFile::empty());
    run(&model, &summarize(), &mut records, &mut settings, |_| {}).unwrap();
    assert_eq!(model.calls.get(), 4);

    let reworded = summarize_with("Summarize the position briefly.");
    run(&model, &reworded, &mut records, &mut settings, |_| {}).unwrap();
    assert_eq!(model.calls.get(), 8);
}

#[test]
fn a_different_model_does_not_reuse_the_cache() {
    let a = Model::echo().named("a");
    let b = Model::echo().named("b");
    let mut records = positions(2);
    let mut settings = Settings::plain();
    settings.file = Some(CacheFile::empty());
    run(&a, &summarize(), &mut records, &mut settings, |_| {}).unwrap();
    run(&b, &summarize(), &mut records, &mut settings, |_| {}).unwrap();
    assert_eq!(b.calls.get(), 2);
}

#[test]
fn structured_outputs_are_cached_too() {
    let model = Model::new(|_, _| Ok(r#"{"keywords":["rust"]}"#.into()));
    let mut records = positions(2);
    let mut settings = Settings::plain();
    settings.file = Some(CacheFile::empty());
    run(&model, &tag(), &mut records, &mut settings, |_| {}).unwrap();
    let mut again = positions(2);
    let report = run(&model, &tag(), &mut again, &mut settings, |_| {}).unwrap();
    assert_eq!(model.calls.get(), 2);
    assert_eq!(report.counts().cached, 2);
    assert_eq!(again[1].keywords, vec!["rust".to_string()]);
}

#[test]
fn a_truncated_cache_line_is_a_miss() {
    let model = Model::echo();
    let mut records = positions(2);
    let mut settings = Settings::plain();
    settings.file = Some(CacheFile::empty());
    run(&model, &summarize(), &mut records, &mut settings, |_| {}).unwrap();
    // Cut the last entry off mid-write.
    let file = settings.file.as_mut().unwrap();
    let length = file.text.len();
    file.text.truncate(length - 10);

    let mut again = positions(2);
    let report = run(&model, &summarize(), &mut again, &mut settings, |_| {}).unwrap();
    assert_eq!(report.counts().cached, 1);
    assert_eq!(report.counts().applied, 1);
    assert_eq!(model.calls.get(), 3);
}

#[test]
fn a_concurrent_run_stays_aligned() {
    // Later records answer first.
    let model = Model::echo();
    let mut records = positions(20);
    let mut settings = Settings::plain();
    settings.options = settings.options.concurrency(4);
    settings.backwards = true;
    let report = run(&model, &summarize(), &mut records, &mut settings, |_| {}).unwrap();
    report.ensure_all().unwrap();
    assert!(records.iter().all(|r| r.summary.as_deref() == Some(r.title.as_str())));
    let mut in_order = positions(20);
    let again = run(&model, &summarize(), &mut in_order, &mut Settings::plain(), |_| {}).unwrap();
    assert_eq!(records, in_order);
    assert_eq!((report.tokens(), again.tokens()), (40, 40));
}

#[test]
fn progress_is_reported_through_the_hook() {
    let model = Model::echo();
    let mut seen: Vec<Progress> = Vec::new();
    let report = run(
        &model,
        &summarize(),
        &mut positions(5),
        &mut Settings::plain(),
        |p| seen.push(*p),
    )
    .unwrap();
    assert_eq!(seen.len(), 5);
    let last = seen.last().unwrap();
    assert_eq!((last.total, last.done, last.succeeded), (5, 5, 5));
    assert_eq!(last.tokens, 10);
    assert_eq!(report.tokens(), 10);
    assert!(seen.iter().all(|p| p.done == p.succeeded + p.cached + p.failed));
}

#[test]
fn options_have_their_defaults() {
    let llm = Llm::ollama("m", None);
    let transform = summarize();
    let run = llm.run(&transform);
    assert_eq!(run.options.concurrency, 1);
    assert_eq!(run.options.retries, 2);
    assert_eq!(run.options.backoff, Duration::from_millis(500));
    assert_eq!(run.options.circuit_breaker, 3);
    assert_eq!(run.options.cache, None);
    let run = run.concurrency(0).retries(7).cache("c.jsonl").circuit_breaker(0);
    assert_eq!(run.options.concurrency, 1);
    assert_eq!(run.options.retries, 7);
    assert_eq!(run.options.circuit_breaker, 0);
    assert_eq!(run.options.cache.as_deref(), Some("c.jsonl"));
    let complete = llm
        .complete(&transform)
        .concurrency(4)
        .retries(1)
        .retry_backoff(Duration::from_secs(2))
        .circuit_breaker(9)
        .cache("d");
    assert_eq!(complete.options.concurrency, 4);
    assert_eq!(complete.options.backoff, Duration::from_secs(2));
    assert_eq!(llm.identity().kind, "ollama");
    let compatible = Llm::openai_compatible("http://h/v1", "m", None);
    assert_eq!(compatible.identity().base_url, "http://h/v1");
    assert!(Llm::openai("m", |_| None, || {}).is_err());
}

#[test]
fn reports_count_and_describe_their_outcomes() {
    let failed = |status: u16| Outcome::Failed(CompletionError::Backend(http_error(status)));
    let report = Report {
        outcomes: vec![Outcome::Applied, failed(400), Outcome::Cached, failed(401)],
        tokens: 3,
    };
    let counts = report.counts();
    assert_eq!((counts.applied, counts.cached, counts.failed), (1, 1, 2));
    let err = report.ensure_all().unwrap_err();
    assert_eq!(
        err.display(),
        "2 of 4 records failed; first failure (record 1): backend request failed: HTTP 400: mock \
         status 400"
    );
    assert_eq!(report.into_outcomes().len(), 4);
    let empty = Report { outcomes: Vec::new(), tokens: 0 };
    assert!(empty.is_complete());
    assert!(empty.ensure_all().is_ok());
}

#[test]
fn completion_errors_describe_themselves() {
    assert_eq!(
        CompletionError::EmptyResponse.display(),
        "the model returned an empty response"
    );
    let parse = CompletionError::Parse { raw: "r".to_string(), source: "s".to_string() };
    assert_eq!(parse.display(), "could not parse the response as the output type: s");
    let cache = CompletionCacheError { path: "p".to_string(), source: "s".to_string() };
    assert_eq!(FatalCause::Cache(cache).display(), "completion cache p: s");
}
