//! What becomes of a job: its names, its rows, and the order of a run.

use crate::backend::BackendError;
use crate::cache::cache_embeddings::Cache;
use crate::db::payload::Payload;
use crate::db::sink::{Sink, SinkError};
use crate::db::vector_database::{DatabaseParams, Distance};
use crate::inference::embedding_model::EmbedError;
use crate::intake::dataset::DataSet;
use crate::intake::IntakeError;
use crate::jobs::job::JobBuilderError;
use crate::jobs::job_queue::{JobQueue, QueueAction, QueueRun, QueueSink, Ready};
use crate::jobs::{Job, JobBuilder, JobError, Provider};
use crate::json::{JsonValue, JsonView};
use crate::text::lines::{join, views};
use crate::text::number::to_decimal;
use crate::text::search::replace_char;
use vstd::prelude::*;
use vstd::string::*;

verus! {

/// The model of a provider.
pub open spec fn model_of(provider: Provider) -> String {
    match provider {
        Provider::Ollama(model) => model,
        Provider::OpenAI(model) => model,
    }
}

/// A collection is named by its provider, its whole model with colons replaced,
/// its metric and the whole identifier of its dataset.
pub proof fn lemma_collections_are_named<T, E>(
    builder: JobBuilder<T, E>,
    model: &str,
    escaped: String,
    metric: &'static str,
    r: JobBuilder<T, E>,
)
    requires
        builder.provider is Some,
        builder.distance is Some,
        builder.dataset is Some,
        call_ensures(JobBuilder::<T, E>::collection_name, (builder,), r),
        model@ == model_of(builder.provider->0)@,
        call_ensures(replace_char, (model, ':', '_'), escaped),
        call_ensures(Distance::name, (&builder.distance->0,), metric),
    ensures
        r.collection_name matches Some(name) && name@ == (if builder.provider->0 is Ollama {
            "ollama_"@
        } else {
            "openai_"@
        }) + escaped@ + "_"@ + metric@ + "_"@ + builder.dataset->0.identifier@,
        r.dataset == builder.dataset && r.provider == builder.provider && r.dims == builder.dims
            && r.extends == builder.extends && r.distance == builder.distance && r.embedding
            == builder.embedding,
{
    if let Some(name) = r.collection_name {
        assert(name@ =~= (if builder.provider->0 is Ollama {
            "ollama_"@
        } else {
            "openai_"@
        }) + escaped@ + "_"@ + metric@ + "_"@ + builder.dataset->0.identifier@);
    }
}

/// The model of a job stands in keys with its colons replaced, and nothing else
/// changed.
pub proof fn lemma_models_are_named<T, E>(job: &Job<T, E>, r: String)
    requires
        call_ensures(Job::<T, E>::get_model, (job,), r),
    ensures
        has_colons_replaced(r@, model_of(job.provider)@),
{
}

/// Every row becomes its JSON value, in order.
pub proof fn lemma_every_row_is_valued<T, E, J: Fn(&T) -> Result<JsonValue, String>>(
    job: &Job<T, E>,
    to_value: J,
    r: Result<Vec<JsonValue>, JobError>,
)
    requires
        call_ensures(Job::<T, E>::get_payload_values::<J>, (job, to_value), r),
    ensures
        job.dataset.data is None <==> r == Err::<Vec<JsonValue>, _>(JobError::NoData),
        job.dataset.data matches Some(data) ==> (r matches Ok(values) ==> values@.len()
            == data@.len() && forall|i: int|
            0 <= i < data@.len() ==> call_ensures(
                to_value,
                (&data@[i],),
                Ok::<JsonValue, String>(#[trigger] values@[i]),
            )),
{
}

/// Whether a row can become a payload.
pub open spec fn is_payload_of_row<T, J: Fn(&T) -> Result<JsonValue, String>>(
    to_value: J,
    row: T,
    payload: Payload,
) -> bool {
    exists|value: JsonValue| #[trigger]
        call_ensures(to_value, (&row,), Ok::<JsonValue, String>(value)) && value@
            == JsonView::Object(payload@)
}

/// Every row becomes the payload with the members of its object, in order.
pub proof fn lemma_every_row_has_its_payload<T, E, J: Fn(&T) -> Result<JsonValue, String>>(
    job: &Job<T, E>,
    to_value: J,
    r: Result<Vec<Payload>, JobError>,
)
    requires
        call_ensures(Job::<T, E>::get_payloads::<J>, (job, to_value), r),
    ensures
        job.dataset.data is None <==> r == Err::<Vec<Payload>, _>(JobError::NoData),
        job.dataset.data matches Some(data) ==> (r matches Ok(payloads) ==> payloads@.len()
            == data@.len() && forall|i: int|
            0 <= i < data@.len() ==> is_payload_of_row(
                to_value,
                data@[i],
                #[trigger] payloads@[i],
            )),
{
    if let Some(data) = job.dataset.data {
        if let Ok(payloads) = r {
            let values = choose|values: Seq<JsonValue>| #[trigger]
                crate::jobs::job::valued(to_value, data@, values) && values.len() == data@.len()
                    && (forall|i: int|
                    0 <= i < values.len() ==> (#[trigger] values[i])@ == JsonView::Object(
                        payloads@[i]@,
                    ));
            assert forall|i: int| 0 <= i < data@.len() implies is_payload_of_row(
                to_value,
                data@[i],
                #[trigger] payloads@[i],
            ) by {
                assert(values[i]@ == JsonView::Object(payloads@[i]@));
                assert(call_ensures(to_value, (&data@[i],), Ok::<JsonValue, String>(values[i])));
            }
        }
    }
}

/// A copy of a job is the same job, with clones of its rows, one for each, and
/// of its embeddings.
pub proof fn lemma_copies_of_jobs<T: Clone, E: Clone>(job: &Job<T, E>, r: Job<T, E>)
    requires
        call_ensures(Job::<T, E>::copy, (job,), r),
    ensures
        r.dataset.filename == job.dataset.filename,
        r.dataset.identifier == job.dataset.identifier,
        job.dataset.data is None ==> r.dataset.data is None,
        job.dataset.data matches Some(rows) ==> (r.dataset.data matches Some(copies) && copies@.len()
            == rows@.len() && forall|i: int|
            0 <= i < rows@.len() ==> cloned(rows@[i], #[trigger] copies@[i])),
        r.provider == job.provider,
        r.dims == job.dims,
        r.extends == job.extends,
        r.distance == job.distance,
        r.collection_name == job.collection_name,
        job.embedding is None ==> r.embedding is None,
        job.embedding matches Some(e) ==> (r.embedding matches Some(c) && cloned(e, c)),
{
}

/// The text of a job shows its dataset, its collection, its size and its number
/// of rows.
pub proof fn lemma_job_text<T, E>(
    job: &Job<T, E>,
    dims: String,
    count: String,
    r: String,
)
    requires
        job.dataset.data is Some,
        job.dataset.data->0@.len() <= usize::MAX,
        call_ensures(Job::<T, E>::display, (job,), r),
        call_ensures(to_decimal, (job.dims as u128,), dims),
        call_ensures(to_decimal, (job.dataset.data->0@.len() as u128,), count),
    ensures
        r@ == "Job {\n\tdataset: "@ + job.dataset.identifier@ + ",\n\tprovider: "@ + (match job.provider {
            Provider::Ollama(model) => "Ollama("@ + crate::intake::debug_text(model@) + ")"@,
            Provider::OpenAI(model) => "OpenAI("@ + crate::intake::debug_text(model@) + ")"@,
        }) + ",\n\tcollection_name: "@ + job.collection_name@ + ",\n\tdims: "@ + dims@
            + ",\n\textends: "@ + (if job.extends {
            "true"@
        } else {
            "false"@
        }) + "\n}\nDataset size: "@ + count@ + " entries"@,
{
}

/// Each setting of a builder changes itself and nothing else.
pub proof fn lemma_settings_change_nothing_else<T, E>(
    builder: JobBuilder<T, E>,
    dataset: DataSet<T>,
    provider: Provider,
    dims: u64,
    extends: bool,
    distance: Distance,
    embedding: E,
    a: JobBuilder<T, E>,
    b: JobBuilder<T, E>,
    c: JobBuilder<T, E>,
    d: JobBuilder<T, E>,
    e: JobBuilder<T, E>,
    f: JobBuilder<T, E>,
)
    requires
        call_ensures(JobBuilder::<T, E>::dataset, (builder, dataset), a),
        call_ensures(JobBuilder::<T, E>::provider, (a, provider), b),
        call_ensures(JobBuilder::<T, E>::dims, (b, dims), c),
        call_ensures(JobBuilder::<T, E>::extends, (c, extends), d),
        call_ensures(JobBuilder::<T, E>::distance, (d, distance), e),
        call_ensures(JobBuilder::<T, E>::embedding, (e, embedding), f),
    ensures
        f.dataset == Some(dataset),
        f.provider == Some(provider),
        f.dims == Some(dims),
        f.extends == Some(extends),
        f.distance == Some(distance),
        f.embedding == Some(embedding),
        f.collection_name == builder.collection_name,
{
}

/// A new builder has nothing set.
pub proof fn lemma_new_builders_are_empty<T, E>(r: JobBuilder<T, E>)
    requires
        call_ensures(<JobBuilder<T, E> as Default>::default, (), r),
    ensures
        r.dataset is None && r.provider is None && r.dims is None && r.extends is None
            && r.distance is None && r.collection_name is None && r.embedding is None,
{
}

/// A job has the fields of its builder, and is built exactly when all that it
/// needs are set; otherwise the error names one that isn't.
pub proof fn lemma_jobs_are_built<T, E>(
    builder: JobBuilder<T, E>,
    r: Result<Job<T, E>, JobBuilderError>,
)
    requires
        call_ensures(JobBuilder::<T, E>::build, (builder,), r),
    ensures
        match r {
            Ok(job) => builder.dataset == Some(job.dataset) && builder.provider == Some(
                job.provider,
            ) && builder.dims == Some(job.dims) && builder.extends == Some(job.extends)
                && builder.distance == Some(job.distance) && builder.collection_name == Some(
                job.collection_name,
            ) && builder.embedding == job.embedding,
            Err(JobBuilderError::UninitializedField(name)) => {
                ||| name@ == "dataset"@ && builder.dataset is None
                ||| name@ == "provider"@ && builder.provider is None
                ||| name@ == "dims"@ && builder.dims is None
                ||| name@ == "extends"@ && builder.extends is None
                ||| name@ == "distance"@ && builder.distance is None
                ||| name@ == "collection_name"@ && builder.collection_name is None
            },
        },
{
}

/// The error of a builder names the field.
pub proof fn lemma_builder_errors_name_the_field(e: &JobBuilderError, r: String)
    requires
        call_ensures(JobBuilderError::display, (e,), r),
    ensures
        e matches JobBuilderError::UninitializedField(name) && r@ == "`"@ + name@
            + "` must be initialized"@,
{
}

/// The text of a job error tells what failed and why, whole.
pub proof fn lemma_job_errors_tell_all(
    e: &JobError,
    backend: String,
    embed: String,
    intake: String,
    names: String,
    r: String,
)
    requires
        call_ensures(JobError::display, (e,), r),
        e matches JobError::Embedder(err) ==> call_ensures(BackendError::display, (err,), backend),
        e matches JobError::Embed { collection, source } ==> call_ensures(
            EmbedError::display,
            (source,),
            embed,
        ),
        e matches JobError::Intake(err) ==> call_ensures(IntakeError::display, (err,), intake),
        e matches JobError::Sink { sink, collection, written, source } ==> call_ensures(
            join,
            (written, ", "),
            names,
        ),
    ensures
        *e is NoData ==> r@ == "the job's dataset has no data"@,
        e matches JobError::Serialize(message) ==> r@ == "serializing a row: "@ + message@,
        e matches JobError::Payload(message) ==> r@ == "building a Qdrant payload: "@ + message@,
        e matches JobError::Embedder(err) ==> r@ == "creating the embedder: "@ + backend@,
        e matches JobError::Embed { collection, source } ==> r@ == "embedding collection '"@
            + collection@ + "': "@ + embed@,
        e matches JobError::Intake(err) ==> r@ == intake@,
        e matches JobError::Sink { sink, collection, written, source } ==> r@ == "sink '"@ + sink@
            + "' failed for collection '"@ + collection@ + "'. Written: ["@ + names@
            + "]; not written: '"@ + sink@
            + "' and any sink after it. Re-run to reconcile (writes are idempotent)."@,
{
}

/// A queue holds its jobs in order, and begins without a cache and sinks.
pub proof fn lemma_queues_hold_their_jobs<T, E, S>(jobs: Vec<Job<T, E>>, r: JobQueue<T, E, S>)
    requires
        call_ensures(JobQueue::<T, E, S>::from_vec, (jobs,), r),
    ensures
        r.queue == jobs,
        r.cache is None && r.connection is None && r.sinks@.len() == 0,
{
}

/// A sink is registered behind those before it, and nothing else changes.
pub proof fn lemma_sinks_are_registered_in_order<T, E, S>(
    queue: &mut JobQueue<T, E, S>,
    sink: S,
    r: &mut JobQueue<T, E, S>,
    other: &mut JobQueue<T, E, S>,
    params: DatabaseParams,
    s: &mut JobQueue<T, E, S>,
)
    requires
        call_ensures(JobQueue::<T, E, S>::with_sink, (queue, sink), r),
        call_ensures(JobQueue::<T, E, S>::with_qdrant_sink, (other, params), s),
    ensures
        old(r).sinks@ == old(queue).sinks@.push(QueueSink::Custom(sink)),
        old(r).queue == old(queue).queue && old(r).cache == old(queue).cache && old(r).connection
            == old(queue).connection,
        *final(queue) == *final(r),
        old(s).sinks@.len() == old(other).sinks@.len() + 1,
        old(s).sinks@.drop_last() == old(other).sinks@,
        old(s).sinks@.last() matches QueueSink::Qdrant(q) && q.params == params,
        old(s).queue == old(other).queue && old(s).cache == old(other).cache && old(s).connection
            == old(other).connection,
        *final(other) == *final(s),
{
}

/// The cache and the single target are set, and nothing else changes.
pub proof fn lemma_targets_are_set<T, E, S>(
    queue: &mut JobQueue<T, E, S>,
    cache: Cache<E>,
    r: &mut JobQueue<T, E, S>,
    other: &mut JobQueue<T, E, S>,
    params: DatabaseParams,
    s: &mut JobQueue<T, E, S>,
)
    requires
        call_ensures(JobQueue::<T, E, S>::with_cache, (queue, cache), r),
        call_ensures(JobQueue::<T, E, S>::with_database_params, (other, params), s),
    ensures
        old(r).cache == Some(cache),
        old(r).queue == old(queue).queue && old(r).connection == old(queue).connection && old(
            r,
        ).sinks == old(queue).sinks,
        old(s).connection == Some(params),
        old(s).queue == old(other).queue && old(s).cache == old(other).cache && old(s).sinks == old(
            other,
        ).sinks,
        *final(queue) == *final(r),
        *final(other) == *final(s),
{
}

/// Whether some texts are the JSON of all rows of a job, in order.
pub open spec fn are_row_texts<T, E, J: Fn(&T) -> Result<String, String>>(
    to_json: J,
    job: Job<T, E>,
    texts: Seq<String>,
) -> bool {
    job.dataset.data matches Some(data) && texts.len() == data@.len() && forall|i: int|
        0 <= i < data@.len() ==> call_ensures(
            to_json,
            (&data@[i],),
            Ok::<String, String>(#[trigger] texts[i]),
        )
}

/// Whether `found` can be what a cache finds for the model and the rows of a
/// job.
pub open spec fn is_found_for<T, E: Clone, J: Fn(&T) -> Result<String, String>>(
    cache: &Cache<E>,
    to_json: J,
    job: Job<T, E>,
    texts: Seq<String>,
    found: Option<E>,
) -> bool {
    &&& are_row_texts(to_json, job, texts)
    &&& forall|name: &str, list: &Vec<String>, hit: Option<&E>|
        has_colons_replaced(name@, model_of(job.provider)@) && list@ == texts
            && #[trigger] call_ensures(Cache::<E>::get_embedding, (cache, name, list), hit)
            ==> match hit {
            Some(e) => found matches Some(c) && cloned(*e, c),
            None => found is None,
        }
}

/// Whether a name is that of a model with its colons replaced by underscores.
pub open spec fn has_colons_replaced(name: Seq<char>, model: Seq<char>) -> bool {
    name.len() == model.len() && forall|i: int|
        0 <= i < name.len() ==> #[trigger] name[i] == if model[i] == ':' {
            '_'
        } else {
            model[i]
        }
}

/// What resolves a job is found for it.
proof fn lemma_found<T, E: Clone, J: Fn(&T) -> Result<String, String>>(
    cache: &Cache<E>,
    to_json: J,
    job: Job<T, E>,
    texts: Seq<String>,
    found: Option<E>,
)
    requires
        crate::jobs::job_queue::resolves_with(*cache, to_json, job, texts, found),
    ensures
        is_found_for(cache, to_json, job, texts, found),
{
    let model = model_of(job.provider)@;
    assert forall|name: &str, list: &Vec<String>, hit: Option<&E>|
        has_colons_replaced(name@, model) && list@ == texts && #[trigger] call_ensures(
            Cache::<E>::get_embedding,
            (cache, name, list),
            hit,
        ) implies match hit {
        Some(e) => found matches Some(c) && cloned(*e, c),
        None => found is None,
    } by {
        assert(name@ =~= crate::jobs::job::escaped(model));
    }
}

/// A job with embeddings of its own keeps them; another has those that the
/// cache holds for its model and all of its rows; without a cache it has none.
pub proof fn lemma_known_embeddings<T, E: Clone, S, J: Fn(&T) -> Result<String, String>>(
    queue: &JobQueue<T, E, S>,
    index: usize,
    to_json: J,
    r: Option<E>,
)
    requires
        index < queue.queue@.len(),
        call_ensures(JobQueue::<T, E, S>::known_embedding::<J>, (queue, index, to_json), r),
    ensures
        queue.queue@[index as int].embedding matches Some(own) ==> (r matches Some(c) && cloned(
            own,
            c,
        )),
        queue.queue@[index as int].embedding is None && (queue.cache is None
            || queue.queue@[index as int].dataset.data is None) ==> r is None,
        queue.queue@[index as int].embedding is None ==> (queue.cache matches Some(cache)
            ==> r is None || exists|texts: Seq<String>| #[trigger]
            is_found_for(&cache, to_json, queue.queue@[index as int], texts, r)),
{
    let job = queue.queue@[index as int];
    if job.embedding is None {
        if let Some(cache) = queue.cache {
            if let Some(data) = job.dataset.data {
                if exists|texts: Seq<String>| #[trigger]
                    crate::jobs::job_queue::resolves_with(cache, to_json, job, texts, r) {
                    let texts = choose|texts: Seq<String>| #[trigger]
                        crate::jobs::job_queue::resolves_with(cache, to_json, job, texts, r);
                    lemma_found(&cache, to_json, job, texts, r);
                }
            }
        }
    }
}

/// Building a queue with a cache gives every job what the cache holds for its
/// model and all of its rows, and changes nothing else of it; without a cache
/// nothing changes. The result is a copy of the queue.
pub proof fn lemma_queues_are_built<
    T: Clone,
    E: Clone,
    S: Clone,
    J: Fn(&T) -> Result<String, String>,
>(queue: &mut JobQueue<T, E, S>, to_json: J, r: JobQueue<T, E, S>)
    requires
        call_ensures(JobQueue::<T, E, S>::build::<J>, (queue, to_json), r),
    ensures
        final(queue).cache == old(queue).cache,
        final(queue).connection == old(queue).connection,
        final(queue).sinks == old(queue).sinks,
        final(queue).queue@.len() == old(queue).queue@.len(),
        r.queue@.len() == old(queue).queue@.len(),
        r.sinks@.len() == old(queue).sinks@.len(),
        old(queue).cache is None ==> final(queue).queue == old(queue).queue,
        old(queue).cache matches Some(cache) ==> forall|i: int|
            0 <= i < old(queue).queue@.len() ==> is_resolved_job(
                &cache,
                to_json,
                old(queue).queue@[i],
                #[trigger] final(queue).queue@[i],
            ),
{
    if let Some(cache) = old(queue).cache {
        assert forall|i: int| 0 <= i < old(queue).queue@.len() implies is_resolved_job(
            &cache,
            to_json,
            old(queue).queue@[i],
            #[trigger] final(queue).queue@[i],
        ) by {
            let job = old(queue).queue@[i];
            let after = final(queue).queue@[i];
            assert(crate::jobs::job_queue::is_resolved(cache, to_json, job, after));
            let texts = choose|texts: Seq<String>| #[trigger]
                crate::jobs::job_queue::resolves_with(cache, to_json, job, texts, after.embedding);
            lemma_found(&cache, to_json, job, texts, after.embedding);
        }
    }
}

/// Whether a job has what a cache holds for it, and is otherwise the same.
pub open spec fn is_resolved_job<T, E: Clone, J: Fn(&T) -> Result<String, String>>(
    cache: &Cache<E>,
    to_json: J,
    job: Job<T, E>,
    after: Job<T, E>,
) -> bool {
    &&& after.dataset == job.dataset
    &&& after.provider == job.provider
    &&& after.dims == job.dims
    &&& after.extends == job.extends
    &&& after.distance == job.distance
    &&& after.collection_name == job.collection_name
    &&& exists|texts: Seq<String>| #[trigger]
        is_found_for(cache, to_json, job, texts, after.embedding)
}

/// A run goes through all jobs of a queue, in order, under their collections,
/// and writes to all of its sinks: the registered ones, and last the single
/// target.
pub proof fn lemma_runs_hold_the_queue<T, E, S: Sink>(queue: &JobQueue<T, E, S>, r: QueueRun<E>)
    requires
        call_ensures(JobQueue::<T, E, S>::run, (queue,), r),
    ensures
        r.job == 0 && r.sink == 0 && r.ready is None,
        r.collections@.len() == queue.queue@.len(),
        forall|i: int|
            0 <= i < queue.queue@.len() ==> (#[trigger] r.collections@[i])@
                == queue.queue@[i].collection_name@,
        queue.connection is None ==> r.sinks@.len() == queue.sinks@.len(),
        queue.connection is Some ==> r.sinks@.len() == queue.sinks@.len() + 1 && r.sinks@.last()@
            == "qdrant"@,
        forall|i: int| 0 <= i < queue.sinks@.len() ==> is_name_of(queue.sinks@[i], #[trigger] r.sinks@[i]),
{
    assert(views(r.sinks@).len() == r.sinks@.len());
    assert forall|i: int| 0 <= i < queue.sinks@.len() implies is_name_of(
        queue.sinks@[i],
        #[trigger] r.sinks@[i],
    ) by {
        assert(crate::db::sink::has_name(queue.sinks@[i], views(r.sinks@)[i]));
        let s = choose|s: &str| #[trigger]
            call_ensures(<QueueSink<S> as Sink>::name, (&queue.sinks@[i],), s) && s@ == views(
                r.sinks@,
            )[i];
        assert(call_ensures(<QueueSink<S> as Sink>::name, (&queue.sinks@[i],), s));
    }
    if queue.connection is Some {
        assert(views(r.sinks@).last() == r.sinks@.last()@);
    }
}

/// Whether a name is that of a sink.
pub open spec fn is_name_of<S: Sink>(sink: QueueSink<S>, name: String) -> bool {
    match sink {
        QueueSink::Custom(own) => exists|s: &str| #[trigger]
            call_ensures(S::name, (&own,), s) && s@ == name@,
        QueueSink::Qdrant(_) => name@ == "qdrant"@,
    }
}

/// A run embeds the job at hand, unless that is done, writes it to the sink at
/// hand, and is finished when no job is left.
pub proof fn lemma_what_a_run_does_next<E>(run: &QueueRun<E>, r: QueueAction)
    requires
        call_ensures(QueueRun::<E>::next, (run,), r),
    ensures
        r == QueueAction::Finished <==> run.job == run.collections@.len(),
        run.job != run.collections@.len() && run.ready is None ==> r == (QueueAction::Embed {
            job: run.job,
        }),
        run.job != run.collections@.len() && run.ready is Some ==> r == (QueueAction::Write {
            job: run.job,
            sink: run.sink,
        }),
{
}

/// An embedded job is written to every sink, beginning with the first; without
/// sinks the next job follows. A failure stops the run where it is.
pub proof fn lemma_embedded_jobs_are_written<E>(
    run: &mut QueueRun<E>,
    output: Result<Ready<E>, JobError>,
    r: Result<(), JobError>,
)
    requires
        call_ensures(QueueRun::<E>::on_embedded, (run, output), r),
    ensures
        final(run).collections == old(run).collections && final(run).sinks == old(run).sinks,
        output matches Err(e) ==> r == Err::<(), JobError>(e) && *final(run) == *old(run),
        output matches Ok(ready) ==> r is Ok && (old(run).sinks@.len() > 0 ==> final(run).ready
            == Some(ready) && final(run).job == old(run).job && final(run).sink == 0) && (old(
            run,
        ).sinks@.len() == 0 ==> final(run).ready is None && final(run).job == old(run).job + 1),
{
}

/// After a write the next sink follows, with the same output, and after the
/// last sink the next job. A failure names the sink, the collection and the
/// sinks before, which were written.
pub proof fn lemma_every_sink_is_written<E>(
    run: &mut QueueRun<E>,
    result: Result<(), SinkError>,
    r: Result<(), JobError>,
)
    requires
        call_ensures(QueueRun::<E>::on_written, (run, result), r),
    ensures
        final(run).collections == old(run).collections && final(run).sinks == old(run).sinks,
        result is Ok ==> r is Ok && (old(run).sink + 1 < old(run).sinks@.len() ==> final(run).job
            == old(run).job && final(run).sink == old(run).sink + 1 && final(run).ready == old(
            run,
        ).ready) && (old(run).sink + 1 >= old(run).sinks@.len() ==> final(run).job == old(run).job
            + 1 && final(run).sink == 0 && final(run).ready is None),
        result matches Err(err) ==> *final(run) == *old(run) && (r matches Err(e)
            && e matches JobError::Sink { sink, collection, written, source } && source == err
            && sink@ == old(run).sinks@[old(run).sink as int]@ && collection@ == old(
            run,
        ).collections@[old(run).job as int]@ && views(written@) == views(old(run).sinks@).take(
            old(run).sink as int,
        )),
{
}

} // verus!
