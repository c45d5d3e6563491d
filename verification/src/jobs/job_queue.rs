//! Queue orchestration, caching, and sink dispatch.

use super::job::{escaped, is_clone, Job};
use super::JobError;
use crate::cache::cache_embeddings::{embedding_key, Cache};
use crate::db::sink::{has_name, QdrantSink, Sink, SinkError};
use crate::db::vector_database::DatabaseParams;
use crate::intake::dataset::{serialize_all, serialized};
use crate::json::JsonValue;
use crate::text::lines::{lemma_views_push, views};
use crate::text::owned;
use vstd::prelude::*;
use vstd::string::*;

verus! {

/// A sink of a queue.
#[derive(Debug)]
pub enum QueueSink<S> {
    /// One that was registered as it is.
    Custom(S),
    /// A Qdrant deployment.
    Qdrant(QdrantSink),
}

impl<S: Clone> QueueSink<S> {
    /// Whether this is a copy of another sink.
    pub open spec fn is_copy_of(self, other: QueueSink<S>) -> bool {
        match other {
            QueueSink::Custom(sink) => self matches QueueSink::Custom(copy) && cloned(sink, copy),
            QueueSink::Qdrant(_) => self == other,
        }
    }

    /// A copy of this sink.
    pub fn copy(&self) -> (r: QueueSink<S>)
        ensures
            r.is_copy_of(*self),
    {
        match self {
            QueueSink::Custom(sink) => QueueSink::Custom(sink.clone()),
            QueueSink::Qdrant(sink) => QueueSink::Qdrant(QdrantSink::new(sink.params.copy())),
        }
    }
}

impl<S: Sink> Sink for QueueSink<S> {
    fn name(&self) -> (r: &str)
        ensures
            match self {
                QueueSink::Custom(sink) => call_ensures(S::name, (sink,), r),
                QueueSink::Qdrant(_) => r@ == "qdrant"@,
            },
    {
        match self {
            QueueSink::Custom(sink) => sink.name(),
            QueueSink::Qdrant(sink) => sink.name(),
        }
    }
}

/// Executes embedding jobs sequentially and writes each result to configured
/// sinks.
///
/// The queue checks its optional [`Cache`] before contacting an embedding
/// provider. Explicit sinks execute in registration order; the first error
/// aborts processing and holds the names of the sinks already written.
pub struct JobQueue<T, E, S> {
    /// The jobs.
    pub queue: Vec<Job<T, E>>,
    /// Embeddings from earlier runs.
    pub cache: Option<Cache<E>>,
    /// A single Qdrant target, written after the explicit sinks.
    pub connection: Option<DatabaseParams>,
    /// Explicit sinks, written in registration order.
    pub sinks: Vec<QueueSink<S>>,
}

/// Whether `names` are those of the sinks that a job is written to: the
/// explicit ones in registration order, and last the single Qdrant target.
pub open spec fn is_sink_order<T, E, S: Sink>(
    queue: JobQueue<T, E, S>,
    names: Seq<Seq<char>>,
) -> bool {
    let explicit = queue.sinks@.len();
    &&& names.len() == explicit + if queue.connection is Some {
        1nat
    } else {
        0nat
    }
    &&& forall|i: int| 0 <= i < explicit ==> has_name(queue.sinks@[i], #[trigger] names[i])
    &&& queue.connection is Some ==> names.last() == "qdrant"@
}

/// The embeddings that a cache holds for a model and some texts.
pub open spec fn stored<E>(cache: Cache<E>, model: Seq<char>, texts: Seq<Seq<char>>) -> Option<E> {
    let key = embedding_key(model, texts);
    if cache.cache@.contains_key(key) {
        Some(cache.cache@[key])
    } else {
        None
    }
}

/// Looks embeddings up.
fn look_up<E: Clone>(cache: &Cache<E>, model: &str, texts: &Vec<String>) -> (r: Option<E>)
    requires
        cache.wf(),
    ensures
        is_clone(stored(*cache, model@, views(texts@)), r),
{
    match cache.get_embedding(model, texts) {
        Some(found) => Some(found.clone()),
        None => None,
    }
}

impl<T, E, S> JobQueue<T, E, S> {
    /// Whether the cache is well formed.
    pub open spec fn wf(&self) -> bool {
        self.cache matches Some(cache) ==> cache.wf()
    }

    /// Creates a queue from jobs, without a cache or sinks.
    pub fn from_vec(vec: Vec<Job<T, E>>) -> (r: Self)
        ensures
            r.wf(),
            r.queue == vec,
            r.cache is None,
            r.connection is None,
            r.sinks@.len() == 0,
    {
        JobQueue { queue: vec, cache: None, connection: None, sinks: Vec::new() }
    }

    /// Whether this queue has copies of the jobs, the cache and the sinks of
    /// another.
    pub open spec fn is_copy_of(self, other: Self) -> bool where T: Clone, E: Clone, S: Clone {
        &&& self.queue@.len() == other.queue@.len()
        &&& forall|i: int|
            0 <= i < other.queue@.len() ==> (#[trigger] self.queue@[i]).is_copy_of(other.queue@[i])
        &&& match other.cache {
            Some(cache) => self.cache matches Some(copy) && copy.wf() && copy.is_copy_of(cache),
            None => self.cache is None,
        }
        &&& self.connection == other.connection
        &&& self.sinks@.len() == other.sinks@.len()
        &&& forall|i: int|
            0 <= i < other.sinks@.len() ==> (#[trigger] self.sinks@[i]).is_copy_of(other.sinks@[i])
    }

    /// A copy of this queue.
    pub fn copy(&self) -> (r: Self) where T: Clone, E: Clone, S: Clone
        requires
            self.wf(),
        ensures
            r.wf(),
            r.is_copy_of(*self),
    {
        let mut queue: Vec<Job<T, E>> = Vec::new();
        let mut i: usize = 0;
        while i < self.queue.len()
            invariant
                i <= self.queue@.len(),
                queue@.len() == i,
                forall|j: int|
                    0 <= j < i ==> (#[trigger] queue@[j]).is_copy_of(self.queue@[j]),
            decreases self.queue@.len() - i,
        {
            queue.push(self.queue[i].copy());
            i += 1;
        }
        let mut sinks: Vec<QueueSink<S>> = Vec::new();
        let mut k: usize = 0;
        while k < self.sinks.len()
            invariant
                k <= self.sinks@.len(),
                sinks@.len() == k,
                forall|j: int|
                    0 <= j < k ==> (#[trigger] sinks@[j]).is_copy_of(self.sinks@[j]),
            decreases self.sinks@.len() - k,
        {
            sinks.push(self.sinks[k].copy());
            k += 1;
        }
        let cache = match &self.cache {
            Some(cache) => Some(cache.copy()),
            None => None,
        };
        let connection = match &self.connection {
            Some(params) => Some(params.copy()),
            None => None,
        };
        JobQueue { queue, cache, connection, sinks }
    }

    /// Adds an embedding cache used while building and running the queue.
    pub fn with_cache(&mut self, cache: Cache<E>) -> (r: &mut Self)
        requires
            cache.wf(),
        ensures
            r.wf(),
            r.cache == Some(cache),
            r.queue == old(self).queue,
            r.connection == old(self).connection,
            r.sinks == old(self).sinks,
            *final(self) == *final(r),
    {
        self.cache = Some(cache);
        self
    }

    /// Registers a single Qdrant target, written after every other sink.
    pub fn with_database_params(&mut self, params: DatabaseParams) -> (r: &mut Self)
        ensures
            old(self).wf() ==> r.wf(),
            r.connection == Some(params),
            r.queue == old(self).queue,
            r.cache == old(self).cache,
            r.sinks == old(self).sinks,
            *final(self) == *final(r),
    {
        self.connection = Some(params);
        self
    }

    /// Registers a sink. Sinks run in registration order; for a dual write put
    /// the authoritative store first so a partial failure leaves the durable
    /// store written and the derived index behind.
    pub fn with_sink(&mut self, sink: S) -> (r: &mut Self)
        ensures
            old(self).wf() ==> r.wf(),
            r.sinks@ == old(self).sinks@.push(QueueSink::Custom(sink)),
            r.queue == old(self).queue,
            r.cache == old(self).cache,
            r.connection == old(self).connection,
            *final(self) == *final(r),
    {
        self.sinks.push(QueueSink::Custom(sink));
        self
    }

    /// Registers a Qdrant deployment as a sink.
    pub fn with_qdrant_sink(&mut self, params: DatabaseParams) -> (r: &mut Self)
        ensures
            old(self).wf() ==> r.wf(),
            r.sinks@ == old(self).sinks@.push(QueueSink::Qdrant(QdrantSink { params })),
            r.queue == old(self).queue,
            r.cache == old(self).cache,
            r.connection == old(self).connection,
            *final(self) == *final(r),
    {
        self.sinks.push(QueueSink::Qdrant(QdrantSink::new(params)));
        self
    }

    /// Resolves cached embeddings and returns a clone of the queue: with a
    /// cache, every job gets the embeddings stored for its model and its rows'
    /// JSON, or none.
    pub fn build<J: Fn(&T) -> Result<String, String>>(&mut self, to_json: J) -> (r: Self) where
        T: Clone,
        E: Clone,
        S: Clone,

        requires
            old(self).wf(),
            old(self).cache is Some ==> forall|i: int|
                0 <= i < old(self).queue@.len() ==> (#[trigger] old(self).queue@[i]).dataset.data is Some,
            forall|record: &T| call_requires(to_json, (record,)),
            forall|record: &T, r: Result<String, String>|
                call_ensures(to_json, (record,), r) ==> r is Ok,
        ensures
            r.is_copy_of(*final(self)),
            final(self).wf(),
            final(self).cache == old(self).cache,
            final(self).connection == old(self).connection,
            final(self).sinks == old(self).sinks,
            final(self).queue@.len() == old(self).queue@.len(),
            old(self).cache is None ==> final(self).queue == old(self).queue,
            old(self).cache matches Some(cache) ==> forall|i: int|
                0 <= i < old(self).queue@.len() ==> is_resolved(
                    cache,
                    to_json,
                    old(self).queue@[i],
                    #[trigger] final(self).queue@[i],
                ),
    {
        let ghost before = self.queue@;
        match &self.cache {
            None => {},
            Some(cache) => {
                let mut i: usize = 0;
                while i < self.queue.len()
                    invariant
                        i <= self.queue@.len(),
                        self.queue@.len() == before.len(),
                        cache.wf(),
                        forall|j: int|
                            0 <= j < before.len() ==> (#[trigger] before[j]).dataset.data is Some,
                        forall|record: &T| call_requires(to_json, (record,)),
                        forall|record: &T, r: Result<String, String>|
                            call_ensures(to_json, (record,), r) ==> r is Ok,
                        forall|j: int|
                            0 <= j < i ==> is_resolved(
                                *cache,
                                to_json,
                                before[j],
                                #[trigger] self.queue@[j],
                            ),
                        forall|j: int|
                            i <= j < before.len() ==> #[trigger] self.queue@[j] == before[j],
                        self.connection == old(self).connection,
                        self.sinks == old(self).sinks,
                        self.cache == Some(*cache),
                        self.cache == old(self).cache,
                        before == old(self).queue@,
                    decreases self.queue@.len() - i,
                {
                    let ghost job = self.queue@[i as int];
                    proof {
                        assert(job == before[i as int]);
                        assert(job.dataset.data is Some);
                    }
                    let model = self.queue[i].get_model();
                    let found = match &self.queue[i].dataset.data {
                        Some(data) => match serialize_all(data, &to_json) {
                            Ok(texts) => {
                                let found = look_up(cache, model.as_str(), &texts);
                                proof {
                                    assert(resolves_with(*cache, to_json, job, texts@, found));
                                }
                                found
                            },
                            Err(_) => None,
                        },
                        None => None,
                    };
                    self.queue[i].embedding = found;
                    proof {
                        assert(self.queue@[i as int] == (Job { embedding: found, ..job }));
                        assert(is_resolved(*cache, to_json, job, self.queue@[i as int]));
                    }
                    i += 1;
                }
            },
        }
        self.copy()
    }

    /// The embeddings of a job that are known without contacting its provider:
    /// its own, or those that the cache holds for its model and its rows'
    /// JSON. Rows that can't be serialized have none.
    pub fn known_embedding<J: Fn(&T) -> Result<String, String>>(
        &self,
        index: usize,
        to_json: J,
    ) -> (r: Option<E>) where E: Clone
        requires
            self.wf(),
            index < self.queue@.len(),
            forall|record: &T| call_requires(to_json, (record,)),
        ensures
            ({
                let job = self.queue@[index as int];
                match job.embedding {
                    Some(_) => is_clone(job.embedding, r),
                    None => match (self.cache, job.dataset.data) {
                        (Some(cache), Some(data)) => {
                            ||| exists|texts: Seq<String>| #[trigger]
                                resolves_with(cache, to_json, job, texts, r)
                            ||| r is None && exists|at: int, message: String|
                                0 <= at < data@.len() && #[trigger] call_ensures(
                                    to_json,
                                    (&data@[at],),
                                    Err(message),
                                )
                        },
                        _ => r is None,
                    },
                }
            }),
    {
        let job = &self.queue[index];
        match &job.embedding {
            Some(embedding) => Some(embedding.clone()),
            None => match (&self.cache, &job.dataset.data) {
                (Some(cache), Some(data)) => match serialize_all(data, &to_json) {
                    Ok(texts) => {
                        let model = job.get_model();
                        let found = look_up(cache, model.as_str(), &texts);
                        proof {
                            assert(resolves_with(*cache, to_json, *job, texts@, found));
                        }
                        found
                    },
                    Err(_) => None,
                },
                _ => None,
            },
        }
    }

    /// Begins a run: every job is embedded and written to each sink in order.
    pub fn run(&self) -> (r: QueueRun<E>) where S: Sink
        ensures
            r.wf(),
            r.job == 0,
            r.ready is None,
            r.sink == 0,
            r.collections@.len() == self.queue@.len(),
            forall|i: int|
                0 <= i < self.queue@.len() ==> (#[trigger] r.collections@[i])@
                    == self.queue@[i].collection_name@,
            is_sink_order(*self, views(r.sinks@)),
    {
        let mut collections: Vec<String> = Vec::new();
        let mut i: usize = 0;
        while i < self.queue.len()
            invariant
                i <= self.queue@.len(),
                collections@.len() == i,
                forall|j: int|
                    0 <= j < i ==> (#[trigger] collections@[j])@ == self.queue@[j].collection_name@,
            decreases self.queue@.len() - i,
        {
            collections.push(self.queue[i].collection_name.clone());
            i += 1;
        }
        let mut sinks: Vec<String> = Vec::new();
        let mut k: usize = 0;
        while k < self.sinks.len()
            invariant
                k <= self.sinks@.len(),
                sinks@.len() == k,
                forall|j: int|
                    0 <= j < k ==> has_name(self.sinks@[j], (#[trigger] sinks@[j])@),
            decreases self.sinks@.len() - k,
        {
            let name = self.sinks[k].name();
            proof {
                assert(has_name(self.sinks@[k as int], name@));
            }
            sinks.push(owned(name));
            k += 1;
        }
        match &self.connection {
            Some(_) => {
                sinks.push(owned("qdrant"));
            },
            None => {},
        }
        QueueRun { collections, sinks, job: 0, ready: None, sink: 0 }
    }
}

/// Whether `found` can be the embeddings that the cache holds for a job, whose
/// rows serialize as `texts`.
pub open spec fn resolves_with<T, E: Clone, J: Fn(&T) -> Result<String, String>>(
    cache: Cache<E>,
    to_json: J,
    job: Job<T, E>,
    texts: Seq<String>,
    found: Option<E>,
) -> bool {
    &&& job.dataset.data matches Some(data) && texts.len() == data@.len() && serialized(
        to_json,
        data@,
        texts,
    )
    &&& is_clone(stored(cache, escaped(job.provider.model_view()), views(texts)), found)
}

/// Whether `after` is the job with its cached embeddings resolved.
pub open spec fn is_resolved<T, E: Clone, J: Fn(&T) -> Result<String, String>>(
    cache: Cache<E>,
    to_json: J,
    job: Job<T, E>,
    after: Job<T, E>,
) -> bool {
    &&& after == Job { embedding: after.embedding, ..job }
    &&& exists|texts: Seq<String>| #[trigger]
        resolves_with(cache, to_json, job, texts, after.embedding)
}

/// What a run of a queue does next.
#[derive(Debug, Clone, Copy, PartialEq, Eq, Structural)]
pub enum QueueAction {
    /// Embed the rows of a job, and make its JSON rows.
    Embed {
        /// The job's position.
        job: usize,
    },
    /// Write a job to a sink.
    Write {
        /// The job's position.
        job: usize,
        /// The sink's position.
        sink: usize,
    },
    /// Every job is done.
    Finished,
}

/// The output of a job, ready to be written.
#[derive(Debug)]
pub struct Ready<E> {
    /// The embeddings.
    pub embeddings: E,
    /// The rows, one per embedding.
    pub rows: Vec<JsonValue>,
}

/// A run of a queue under way.
#[derive(Debug)]
pub struct QueueRun<E> {
    /// The collection of each job.
    pub collections: Vec<String>,
    /// The names of the sinks, in the order they are written.
    pub sinks: Vec<String>,
    /// The job at hand.
    pub job: usize,
    /// Its output, once it is embedded.
    pub ready: Option<Ready<E>>,
    /// The sink to write next.
    pub sink: usize,
}

impl<E> QueueRun<E> {
    /// Whether the run is at a job and a sink that are there.
    pub open spec fn wf(&self) -> bool {
        &&& self.job <= self.collections@.len()
        &&& self.ready is Some ==> self.job < self.collections@.len() && self.sink
            < self.sinks@.len()
        &&& self.ready is None ==> self.sink == 0
    }

    /// How many writes are done.
    pub open spec fn writes(&self) -> nat {
        self.job as nat * self.sinks@.len() + self.sink as nat
    }

    /// What to do next.
    pub fn next(&self) -> (r: QueueAction)
        requires
            self.wf(),
        ensures
            r == if self.job == self.collections@.len() {
                QueueAction::Finished
            } else if self.ready is None {
                QueueAction::Embed { job: self.job }
            } else {
                QueueAction::Write { job: self.job, sink: self.sink }
            },
    {
        if self.job == self.collections.len() {
            return QueueAction::Finished;
        }
        match &self.ready {
            None => QueueAction::Embed { job: self.job },
            Some(_) => QueueAction::Write { job: self.job, sink: self.sink },
        }
    }

    /// Takes the output of the job at hand. A failure ends the run.
    pub fn on_embedded(&mut self, output: Result<Ready<E>, JobError>) -> (r: Result<(), JobError>)
        requires
            old(self).wf(),
            old(self).ready is None,
            old(self).job < old(self).collections@.len(),
        ensures
            final(self).wf(),
            final(self).collections == old(self).collections,
            final(self).sinks == old(self).sinks,
            final(self).sink == 0,
            match output {
                Err(e) => r == Err::<(), _>(e) && *final(self) == *old(self),
                Ok(ready) => r is Ok && if old(self).sinks@.len() == 0 {
                    final(self).job == old(self).job + 1 && final(self).ready is None
                } else {
                    final(self).job == old(self).job && final(self).ready == Some(ready)
                },
            },
            final(self).writes() == old(self).writes(),
    {
        match output {
            Err(e) => Err(e),
            Ok(ready) => {
                let jobs: usize = self.collections.len();
                if self.sinks.len() == 0 {
                    proof {
                        assert(self.job < jobs);
                    }
                    let ghost before = self.job as nat;
                    self.job = self.job + 1;
                    proof {
                        let after = self.job as nat;
                        assert(before * 0 == 0) by (nonlinear_arith);
                        assert(after * 0 == 0) by (nonlinear_arith);
                    }
                } else {
                    self.ready = Some(ready);
                }
                Ok(())
            },
        }
    }

    /// Takes what writing the job at hand to the sink at hand gave. A failure
    /// ends the run, and names the sinks that the job was written to before.
    pub fn on_written(&mut self, result: Result<(), SinkError>) -> (r: Result<(), JobError>)
        requires
            old(self).wf(),
            old(self).ready is Some,
        ensures
            final(self).wf(),
            final(self).collections == old(self).collections,
            final(self).sinks == old(self).sinks,
            match result {
                Ok(_) => {
                    &&& r is Ok
                    &&& if old(self).sink + 1 < old(self).sinks@.len() {
                        final(self).job == old(self).job && final(self).ready == old(self).ready
                            && final(self).sink == old(self).sink + 1
                    } else {
                        final(self).job == old(self).job + 1 && final(self).ready is None
                            && final(self).sink == 0
                    }
                    &&& final(self).writes() == old(self).writes() + 1
                },
                Err(err) => {
                    &&& *final(self) == *old(self)
                    &&& r matches Err(e)
                    &&& e matches JobError::Sink { sink, collection, written, source }
                    &&& sink@ == old(self).sinks@[old(self).sink as int]@
                    &&& collection@ == old(self).collections@[old(self).job as int]@
                    &&& views(written@) == views(old(self).sinks@).take(old(self).sink as int)
                    &&& source == err
                },
            },
    {
        match result {
            Ok(_) => {
                let jobs: usize = self.collections.len();
                let sinks: usize = self.sinks.len();
                proof {
                    assert(self.job < jobs);
                    assert(self.sink < sinks);
                }
                if self.sink + 1 < sinks {
                    self.sink = self.sink + 1;
                } else {
                    proof {
                        let n = self.sinks@.len();
                        assert((self.job + 1) * n == self.job * n + n) by (nonlinear_arith);
                    }
                    self.job = self.job + 1;
                    self.ready = None;
                    self.sink = 0;
                }
                Ok(())
            },
            Err(source) => {
                let mut written: Vec<String> = Vec::new();
                let mut i: usize = 0;
                while i < self.sink
                    invariant
                        *self == *old(self),
                        self.wf(),
                        self.ready is Some,
                        i <= self.sink,
                        views(written@) == views(self.sinks@).take(i as int),
                    decreases self.sink - i,
                {
                    let ghost before = written@;
                    let name = self.sinks[i].clone();
                    written.push(name);
                    proof {
                        lemma_views_push(before, name);
                        assert(views(written@) =~= views(self.sinks@).take(i + 1));
                    }
                    i += 1;
                }
                Err(
                    JobError::Sink {
                        sink: self.sinks[self.sink].clone(),
                        collection: self.collections[self.job].clone(),
                        written,
                        source,
                    },
                )
            },
        }
    }
}

/// Jobs are written one after the other, each to every sink in order: write
/// number `writes` of a run, counted from 0, is to the sink and for the job
/// that this number says.
pub proof fn lemma_writes_in_registration_order<E>(run: QueueRun<E>)
    requires
        run.wf(),
        run.ready is Some,
    ensures
        run.sink == run.writes() % run.sinks@.len(),
        run.job == run.writes() / run.sinks@.len(),
{
    let n = run.sinks@.len() as int;
    let j = run.job as int;
    let k = run.sink as int;
    vstd::arithmetic::div_mod::lemma_fundamental_div_mod_converse(j * n + k, n, j, k);
}

} // verus!
