//! Jobs, and queues of them.

use lvv::backend::BackendError;
use lvv::cache::cache_embeddings::Cache;
use lvv::db::sink::{Sink, SinkError};
use lvv::db::vector_database::{DatabaseParams, Distance, Location};
use lvv::inference::embedding_model::EmbedError;
use lvv::intake::dataset::DataSet;
use lvv::intake::IntakeError;
use lvv::jobs::job::JobBuilderError;
use lvv::jobs::job_queue::{JobQueue, QueueAction, Ready};
use lvv::jobs::{Job, JobBuilder, JobError, Provider};
use lvv::json::JsonValue;

type Vectors = Vec<Vec<f32>>;

fn job(identifier: &str, rows: Vec<u32>) -> Job<u32, Vectors> {
    JobBuilder::default()
        .dataset(DataSet::new("memory", identifier, rows))
        .provider(Provider::Ollama("nomic:latest".to_string()))
        .dims(3)
        .extends(false)
        .distance(Distance::Cosine)
        .collection_name()
        .build()
        .unwrap()
}

fn to_json(n: &u32) -> Result<String, String> {
    Ok(n.to_string())
}

fn to_value(n: &u32) -> Result<JsonValue, String> {
    JsonValue::parse(&format!("{{\"n\":{n}}}"))
}

fn params() -> DatabaseParams {
    DatabaseParams::new(Location::new_local("x"), "c".to_string(), Distance::Dot, 3)
}

#[derive(Debug, Clone)]
struct Named(&'static str);

impl Sink for Named {
    fn name(&self) -> &str {
        self.0
    }
}

#[test]
fn collections_are_named_after_provider_metric_and_dataset() {
    let job = job("docs", vec![1]);
    assert_eq!(job.collection_name, "ollama_nomic_latest_Cosine_docs");
    assert_eq!(job.get_model(), "nomic_latest");
    let builder: JobBuilder<u32, Vectors> = JobBuilder::default()
        .dataset(DataSet::new("f", "i", Vec::new()))
        .provider(Provider::OpenAI("text:a:b".to_string()))
        .distance(Distance::Euclid)
        .collection_name();
    assert_eq!(builder.collection_name.as_deref(), Some("openai_text_a_b_Euclid_i"));
}

#[test]
fn a_job_needs_every_field_but_the_embeddings() {
    let build = |builder: JobBuilder<u32, Vectors>| match builder.build() {
        Err(JobBuilderError::UninitializedField(name)) => name,
        Ok(job) => panic!("built {job:?}"),
    };
    let builder = JobBuilder::default();
    assert_eq!(build(builder), "dataset");
    let builder = JobBuilder::default().dataset(DataSet::new("f", "i", vec![1]));
    assert_eq!(build(builder), "provider");
    let provided = || {
        JobBuilder::default()
            .dataset(DataSet::new("f", "i", vec![1]))
            .provider(Provider::OpenAI("m".to_string()))
    };
    assert_eq!(build(provided()), "dims");
    assert_eq!(build(provided().dims(1)), "extends");
    assert_eq!(build(provided().dims(1).extends(true)), "distance");
    let all = provided().dims(1).extends(true).distance(Distance::Dot);
    assert_eq!(build(all), "collection_name");
    let all = provided().dims(1).extends(true).distance(Distance::Dot).embedding(vec![vec![1.0]]);
    let job = all.collection_name().build().unwrap();
    assert_eq!(job.embedding, Some(vec![vec![1.0]]));
    assert_eq!(
        JobBuilderError::UninitializedField("dims").display(),
        "`dims` must be initialized"
    );
}

#[test]
fn jobs_show_themselves() {
    assert_eq!(
        job("docs", vec![1, 2]).display(),
        "Job {\n\tdataset: docs,\n\tprovider: Ollama(\"nomic:latest\"),\n\tcollection_name: \
         ollama_nomic_latest_Cosine_docs,\n\tdims: 3,\n\textends: false\n}\nDataset size: 2 \
         entries"
    );
}

#[test]
fn rows_become_values_and_payloads() {
    let job = job("docs", vec![7, 8]);
    let values = job.get_payload_values(to_value).unwrap();
    assert_eq!(values[1].text(), "{\"n\":8}");
    let payloads = job.get_payloads(to_value).unwrap();
    assert_eq!(payloads[0].to_value().text(), "{\"n\":7}");
    let err = job.get_payloads(|n| JsonValue::parse(&n.to_string())).unwrap_err();
    assert_eq!(
        err.display(),
        "building a Qdrant payload: JSON cannot be converted to payload, only JSON objects are \
         supported"
    );
    let err = job.get_payload_values(|n| Err(format!("bad {n}"))).unwrap_err();
    assert_eq!(err.display(), "serializing a row: bad 7");
    let mut empty = job;
    empty.dataset.data = None;
    let err = empty.get_payloads(to_value).unwrap_err();
    assert_eq!(err.display(), "the job's dataset has no data");
    assert!(matches!(empty.get_payload_values(to_value), Err(JobError::NoData)));
}

#[test]
fn cached_embeddings_are_resolved() {
    let mut cache = Cache::new();
    cache.add_embedding("nomic_latest", &vec!["1".to_string()], vec![vec![0.5f32]]);
    let mut queue: JobQueue<u32, Vectors, Named> =
        JobQueue::from_vec(vec![job("a", vec![1]), job("b", vec![2])]);
    queue.build(to_json);
    assert_eq!(queue.queue[0].embedding, None);
    assert_eq!(queue.known_embedding(0, to_json), None);
    queue.with_cache(cache).with_sink(Named("s")).with_qdrant_sink(params());
    assert_eq!(queue.known_embedding(0, to_json), Some(vec![vec![0.5]]));
    assert_eq!(queue.known_embedding(1, to_json), None);
    assert_eq!(queue.known_embedding(0, |_| Err("bad".to_string())), None);
    let built = queue.with_database_params(params()).build(to_json);
    assert_eq!(built.queue[0].embedding, Some(vec![vec![0.5]]));
    assert_eq!(built.queue[1].embedding, None);
    assert_eq!(built.queue[1].collection_name, "ollama_nomic_latest_Cosine_b");
    assert_eq!(built.queue[1].dataset.data, Some(vec![2]));
    assert_eq!(built.known_embedding(1, to_json), None);
    assert_eq!(built.run().sinks, vec!["s", "qdrant", "qdrant"]);
    assert_eq!(queue.queue[0].embedding, Some(vec![vec![0.5]]));
    assert_eq!(queue.queue[1].embedding, None);
    assert_eq!(queue.known_embedding(0, |_| Err("bad".to_string())), Some(vec![vec![0.5]]));
}

fn ready(rows: usize) -> Ready<Vectors> {
    Ready {
        embeddings: vec![vec![0.0]; rows],
        rows: (0..rows).map(|_| JsonValue::Null).collect(),
    }
}

#[test]
fn jobs_are_written_to_every_sink_in_order() {
    let mut queue = JobQueue::from_vec(vec![job("a", vec![1]), job("b", vec![2])]);
    queue.with_sink(Named("postgres"));
    queue.with_qdrant_sink(params());
    queue.with_database_params(params());
    let mut run = queue.run();
    assert_eq!(run.sinks, vec!["postgres", "qdrant", "qdrant"]);
    let mut log = Vec::new();
    loop {
        match run.next() {
            QueueAction::Finished => break,
            QueueAction::Embed { job } => {
                log.push(format!("embed {job}"));
                run.on_embedded(Ok(ready(1))).unwrap();
            }
            QueueAction::Write { job, sink } => {
                log.push(format!("write {job} to {sink}"));
                run.on_written(Ok(())).unwrap();
            }
        }
    }
    assert_eq!(
        log,
        vec![
            "embed 0",
            "write 0 to 0",
            "write 0 to 1",
            "write 0 to 2",
            "embed 1",
            "write 1 to 0",
            "write 1 to 1",
            "write 1 to 2",
        ]
    );
}

#[test]
fn a_failing_sink_names_the_ones_already_written() {
    let mut queue = JobQueue::from_vec(vec![job("a", vec![1])]);
    queue.with_sink(Named("first"));
    queue.with_sink(Named("second"));
    queue.with_sink(Named("third"));
    let mut run = queue.run();
    run.on_embedded(Ok(ready(1))).unwrap();
    run.on_written(Ok(())).unwrap();
    run.on_written(Ok(())).unwrap();
    let err = run.on_written(Err(SinkError::Other("down".to_string()))).unwrap_err();
    assert_eq!(
        err.display(),
        "sink 'third' failed for collection 'ollama_nomic_latest_Cosine_a'. Written: [first, \
         second]; not written: 'third' and any sink after it. Re-run to reconcile (writes are \
         idempotent)."
    );
    match err {
        JobError::Sink { written, source: SinkError::Other(message), .. } => {
            assert_eq!(written, vec!["first", "second"]);
            assert_eq!(message, "down");
        }
        other => panic!("expected a sink failure, got {other:?}"),
    }
}

#[test]
fn a_queue_without_sinks_only_embeds() {
    let queue: JobQueue<u32, Vectors, Named> = JobQueue::from_vec(vec![job("a", vec![1])]);
    let mut run = queue.run();
    assert_eq!(run.next(), QueueAction::Embed { job: 0 });
    run.on_embedded(Ok(ready(1))).unwrap();
    assert_eq!(run.next(), QueueAction::Finished);
}

#[test]
fn a_failed_embedding_ends_the_run() {
    let mut queue = JobQueue::from_vec(vec![job("a", vec![1])]);
    queue.with_sink(Named("s"));
    let mut run = queue.run();
    let failure = JobError::Embed { collection: "c".to_string(), source: EmbedError::NoData };
    let err = run.on_embedded(Err(failure)).unwrap_err();
    assert_eq!(err.display(), "embedding collection 'c': the dataset has no data to embed");
}

#[test]
fn job_errors_describe_themselves() {
    let err = JobError::Embedder(BackendError::config("no key"));
    assert_eq!(err.display(), "creating the embedder: no key");
    let err = JobError::Intake(IntakeError::NoData);
    assert_eq!(err.display(), "the dataset has no data");
}
