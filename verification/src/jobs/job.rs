//! An embedding job and its builder.

use super::JobError;
use crate::db::payload::{Payload, NOT_AN_OBJECT_MESSAGE};
use crate::db::vector_database::{distance_name, Distance};
use crate::intake::dataset::DataSet;
use crate::intake::{debug_quote, debug_text};
use crate::json::{JsonValue, JsonView};
use crate::text::number::{decimal, to_decimal};
use crate::text::owned;
use crate::text::search::{replace_char, replaced};
use vstd::prelude::*;
use vstd::string::*;

verus! {

/// Which provider embeds a job, and with which model.
#[derive(Debug, Clone)]
pub enum Provider {
    /// Ollama.
    Ollama(String),
    /// OpenAI.
    OpenAI(String),
}

/// A job's rows, how to embed them, and where the result goes. `E` holds the
/// embeddings.
#[derive(Debug)]
pub struct Job<T, E> {
    /// The rows.
    pub dataset: DataSet<T>,
    /// The embedding model.
    pub provider: Provider,
    /// The size of the vectors.
    pub dims: u64,
    /// Whether a populated collection is extended.
    pub extends: bool,
    /// The metric.
    pub distance: Distance,
    /// The collection.
    pub collection_name: String,
    /// The embeddings, when they are there already.
    pub embedding: Option<E>,
}

/// Whether `copy` can be a clone of `value`, or nothing when that is nothing.
pub open spec fn is_clone<E: Clone>(value: Option<E>, copy: Option<E>) -> bool {
    match value {
        Some(e) => copy matches Some(c) && cloned(e, c),
        None => copy is None,
    }
}

impl<T: Clone, E: Clone> Job<T, E> {
    /// Whether this is a copy of another job.
    pub open spec fn is_copy_of(self, other: Job<T, E>) -> bool {
        &&& self.dataset.filename == other.dataset.filename
        &&& self.dataset.identifier == other.dataset.identifier
        &&& match other.dataset.data {
            Some(rows) => self.dataset.data matches Some(copies) && copies@.len() == rows@.len()
                && forall|i: int|
                0 <= i < rows@.len() ==> cloned(rows@[i], #[trigger] copies@[i]),
            None => self.dataset.data is None,
        }
        &&& self.provider == other.provider
        &&& self.dims == other.dims
        &&& self.extends == other.extends
        &&& self.distance == other.distance
        &&& self.collection_name == other.collection_name
        &&& is_clone(other.embedding, self.embedding)
    }

    /// A copy of this job.
    pub fn copy(&self) -> (r: Job<T, E>)
        ensures
            r.is_copy_of(*self),
    {
        let provider = match &self.provider {
            Provider::Ollama(model) => Provider::Ollama(model.clone()),
            Provider::OpenAI(model) => Provider::OpenAI(model.clone()),
        };
        let data = match &self.dataset.data {
            Some(rows) => Some(rows.clone()),
            None => None,
        };
        let embedding = match &self.embedding {
            Some(embedding) => Some(embedding.clone()),
            None => None,
        };
        Job {
            dataset: DataSet {
                filename: self.dataset.filename.clone(),
                identifier: self.dataset.identifier.clone(),
                data,
            },
            provider,
            dims: self.dims,
            extends: self.extends,
            distance: self.distance,
            collection_name: self.collection_name.clone(),
            embedding,
        }
    }
}

/// A model name that can stand in a collection name.
pub open spec fn escaped(model: Seq<char>) -> Seq<char> {
    replaced(model, ':', '_')
}

impl Provider {
    /// The model name.
    pub open spec fn model_view(self) -> Seq<char> {
        match self {
            Provider::Ollama(model) => model@,
            Provider::OpenAI(model) => model@,
        }
    }

    /// The part of a collection name that stands for the provider.
    pub open spec fn prefix_view(self) -> Seq<char> {
        match self {
            Provider::Ollama(model) => "ollama_"@ + escaped(model@),
            Provider::OpenAI(model) => "openai_"@ + escaped(model@),
        }
    }

    /// The `Debug` text.
    pub open spec fn debug_view(self) -> Seq<char> {
        match self {
            Provider::Ollama(model) => "Ollama("@ + debug_text(model@) + ")"@,
            Provider::OpenAI(model) => "OpenAI("@ + debug_text(model@) + ")"@,
        }
    }

    /// The part of a collection name that stands for the provider.
    fn prefix(&self) -> (r: String)
        ensures
            r@ == self.prefix_view(),
    {
        match self {
            Provider::Ollama(model) => {
                let mut out = owned("ollama_");
                let name = replace_char(model.as_str(), ':', '_');
                out.append(name.as_str());
                out
            },
            Provider::OpenAI(model) => {
                let mut out = owned("openai_");
                let name = replace_char(model.as_str(), ':', '_');
                out.append(name.as_str());
                out
            },
        }
    }

    /// The `Debug` text.
    fn debug(&self) -> (r: String)
        ensures
            r@ == self.debug_view(),
    {
        match self {
            Provider::Ollama(model) => {
                let mut out = owned("Ollama(");
                let quoted = debug_quote(model.as_str());
                out.append(quoted.as_str());
                out.append(")");
                out
            },
            Provider::OpenAI(model) => {
                let mut out = owned("OpenAI(");
                let quoted = debug_quote(model.as_str());
                out.append(quoted.as_str());
                out.append(")");
                out
            },
        }
    }
}

/// The collection of a job: its provider and model, its metric and its
/// dataset.
pub open spec fn collection_of(
    provider: Provider,
    distance: Distance,
    identifier: Seq<char>,
) -> Seq<char> {
    provider.prefix_view() + "_"@ + distance_name(distance) + "_"@ + identifier
}

/// Whether `values` can be the JSON values of the first rows.
pub open spec fn valued<T, J: Fn(&T) -> Result<JsonValue, String>>(
    to_value: J,
    data: Seq<T>,
    values: Seq<JsonValue>,
) -> bool {
    &&& values.len() <= data.len()
    &&& forall|i: int|
        0 <= i < values.len() ==> call_ensures(to_value, (&data[i],), Ok(#[trigger] values[i]))
}

/// Whether `e` is the error of the first row that can't be serialized.
pub open spec fn unserialized<T, J: Fn(&T) -> Result<JsonValue, String>>(
    to_value: J,
    data: Seq<T>,
    e: JobError,
) -> bool {
    e matches JobError::Serialize(message) && exists|values: Seq<JsonValue>| #[trigger]
        valued(to_value, data, values) && values.len() < data.len() && call_ensures(
            to_value,
            (&data[values.len() as int],),
            Err(message),
        )
}

/// Whether `e` is the error of the first row that isn't an object: the last of
/// those serialized so far.
pub open spec fn not_object<T, J: Fn(&T) -> Result<JsonValue, String>>(
    to_value: J,
    data: Seq<T>,
    e: JobError,
) -> bool {
    e matches JobError::Payload(message) && message@ == NOT_AN_OBJECT_MESSAGE@ && exists|
        values: Seq<JsonValue>,
    | #[trigger]
        valued(to_value, data, values) && values.len() > 0 && !(values.last()@ is Object) && (
        forall|i: int| 0 <= i < values.len() - 1 ==> (#[trigger] values[i])@ is Object)
}

/// `true` or `false`.
pub open spec fn bool_text(b: bool) -> Seq<char> {
    if b {
        "true"@
    } else {
        "false"@
    }
}

/// The text of a job with `size` rows.
pub open spec fn job_text<T, E>(job: Job<T, E>, size: nat) -> Seq<char> {
    "Job {\n\tdataset: "@ + job.dataset.identifier@ + ",\n\tprovider: "@
        + job.provider.debug_view() + ",\n\tcollection_name: "@ + job.collection_name@
        + ",\n\tdims: "@ + decimal(job.dims as nat) + ",\n\textends: "@ + bool_text(job.extends)
        + "\n}\nDataset size: "@ + decimal(size) + " entries"@
}

impl<T, E> Job<T, E> {
    /// The model name as it stands in collection names and cache keys.
    pub fn get_model(&self) -> (r: String)
        ensures
            r@ == escaped(self.provider.model_view()),
    {
        match &self.provider {
            Provider::Ollama(model) => replace_char(model.as_str(), ':', '_'),
            Provider::OpenAI(model) => replace_char(model.as_str(), ':', '_'),
        }
    }

    /// The rows as JSON values, made with `to_value`, in row order. Sinks turn
    /// them into their own representations.
    pub fn get_payload_values<J: Fn(&T) -> Result<JsonValue, String>>(&self, to_value: J) -> (r:
        Result<Vec<JsonValue>, JobError>)
        requires
            self.dataset.data matches Some(data) ==> forall|i: int|
                0 <= i < data@.len() ==> call_requires(to_value, (&#[trigger] data@[i],)),
        ensures
            match self.dataset.data {
                None => r == Err::<Vec<JsonValue>, _>(JobError::NoData),
                Some(data) => match r {
                    Ok(values) => values@.len() == data@.len() && valued(to_value, data@, values@),
                    Err(e) => unserialized(to_value, data@, e),
                },
            },
    {
        match &self.dataset.data {
            None => Err(JobError::NoData),
            Some(data) => {
                let mut values: Vec<JsonValue> = Vec::new();
                let mut i: usize = 0;
                while i < data.len()
                    invariant
                        i <= data@.len(),
                        values@.len() == i,
                        self.dataset.data == Some(*data),
                        forall|i: int|
                            0 <= i < data@.len() ==> call_requires(
                                to_value,
                                (&#[trigger] data@[i],),
                            ),
                        valued(to_value, data@, values@),
                    decreases data@.len() - i,
                {
                    match to_value(&data[i]) {
                        Ok(value) => values.push(value),
                        Err(message) => {
                            let e = JobError::Serialize(message);
                            proof {
                                assert(unserialized(to_value, data@, e));
                            }
                            return Err(e);
                        },
                    }
                    i += 1;
                }
                Ok(values)
            },
        }
    }

    /// The rows as payloads, in row order. Every row must be a JSON object.
    pub fn get_payloads<J: Fn(&T) -> Result<JsonValue, String>>(&self, to_value: J) -> (r: Result<
        Vec<Payload>,
        JobError,
    >)
        requires
            self.dataset.data matches Some(data) ==> forall|i: int|
                0 <= i < data@.len() ==> call_requires(to_value, (&#[trigger] data@[i],)),
        ensures
            match self.dataset.data {
                None => r == Err::<Vec<Payload>, _>(JobError::NoData),
                Some(data) => match r {
                    Ok(payloads) => payloads@.len() == data@.len() && exists|
                        values: Seq<JsonValue>,
                    | #[trigger]
                        valued(to_value, data@, values) && values.len() == data@.len() && (forall|
                            i: int,
                        |
                            0 <= i < values.len() ==> (#[trigger] values[i])@ == JsonView::Object(
                                payloads@[i]@,
                            )),
                    Err(e) => unserialized(to_value, data@, e) || not_object(to_value, data@, e),
                },
            },
    {
        match &self.dataset.data {
            None => Err(JobError::NoData),
            Some(data) => {
                let mut payloads: Vec<Payload> = Vec::new();
                let ghost mut values: Seq<JsonValue> = Seq::empty();
                let mut i: usize = 0;
                while i < data.len()
                    invariant
                        i <= data@.len(),
                        payloads@.len() == i,
                        values.len() == i,
                        self.dataset.data == Some(*data),
                        forall|i: int|
                            0 <= i < data@.len() ==> call_requires(
                                to_value,
                                (&#[trigger] data@[i],),
                            ),
                        valued(to_value, data@, values),
                        forall|i: int|
                            0 <= i < values.len() ==> (#[trigger] values[i])@ == JsonView::Object(
                                payloads@[i]@,
                            ),
                    decreases data@.len() - i,
                {
                    match to_value(&data[i]) {
                        Ok(value) => {
                            let ghost held = value;
                            proof {
                                values = values.push(held);
                                assert(valued(to_value, data@, values));
                            }
                            match Payload::from_value(value) {
                                Ok(payload) => payloads.push(payload),
                                Err(message) => {
                                    let e = JobError::Payload(message);
                                    proof {
                                        assert(values.last() == held);
                                        assert(not_object(to_value, data@, e));
                                    }
                                    return Err(e);
                                },
                            }
                        },
                        Err(message) => {
                            let e = JobError::Serialize(message);
                            proof {
                                assert(unserialized(to_value, data@, e));
                            }
                            return Err(e);
                        },
                    }
                    i += 1;
                }
                Ok(payloads)
            },
        }
    }

    /// The text of this job, whose dataset must have data.
    pub fn display(&self) -> (r: String)
        requires
            self.dataset.data is Some,
        ensures
            r@ == job_text(*self, self.dataset.data->0@.len()),
    {
        let size: usize = match &self.dataset.data {
            Some(data) => data.len(),
            None => 0,
        };
        let mut out = owned("Job {\n\tdataset: ");
        out.append(self.dataset.identifier.as_str());
        out.append(",\n\tprovider: ");
        let provider = self.provider.debug();
        out.append(provider.as_str());
        out.append(",\n\tcollection_name: ");
        out.append(self.collection_name.as_str());
        out.append(",\n\tdims: ");
        let dims = to_decimal(self.dims as u128);
        out.append(dims.as_str());
        out.append(",\n\textends: ");
        if self.extends {
            out.append("true");
        } else {
            out.append("false");
        }
        out.append("\n}\nDataset size: ");
        let count = to_decimal(size as u128);
        out.append(count.as_str());
        out.append(" entries");
        out
    }
}

/// A field that was not set.
#[derive(Debug)]
pub enum JobBuilderError {
    /// The name of the field.
    UninitializedField(&'static str),
}

impl JobBuilderError {
    /// The name of the field.
    pub open spec fn field(self) -> Seq<char> {
        match self {
            JobBuilderError::UninitializedField(name) => name@,
        }
    }

    /// The text of this error.
    pub fn display(&self) -> (r: String)
        ensures
            r@ == "`"@ + self.field() + "` must be initialized"@,
    {
        match self {
            JobBuilderError::UninitializedField(name) => {
                let mut out = owned("`");
                out.append(name);
                out.append("` must be initialized");
                out
            },
        }
    }
}

/// Builds a [`Job`] field by field.
#[derive(Debug)]
pub struct JobBuilder<T, E> {
    /// The rows.
    pub dataset: Option<DataSet<T>>,
    /// The embedding model.
    pub provider: Option<Provider>,
    /// The size of the vectors.
    pub dims: Option<u64>,
    /// Whether a populated collection is extended.
    pub extends: Option<bool>,
    /// The metric.
    pub distance: Option<Distance>,
    /// The collection.
    pub collection_name: Option<String>,
    /// The embeddings.
    pub embedding: Option<E>,
}

impl<T, E> Default for JobBuilder<T, E> {
    fn default() -> (r: JobBuilder<T, E>)
        ensures
            r.dataset is None,
            r.provider is None,
            r.dims is None,
            r.extends is None,
            r.distance is None,
            r.collection_name is None,
            r.embedding is None,
    {
        JobBuilder {
            dataset: None,
            provider: None,
            dims: None,
            extends: None,
            distance: None,
            collection_name: None,
            embedding: None,
        }
    }
}

/// The first field that has to be set and isn't, if there is one.
pub open spec fn missing_field<T, E>(builder: JobBuilder<T, E>) -> Option<Seq<char>> {
    if builder.dataset is None {
        Some("dataset"@)
    } else if builder.provider is None {
        Some("provider"@)
    } else if builder.dims is None {
        Some("dims"@)
    } else if builder.extends is None {
        Some("extends"@)
    } else if builder.distance is None {
        Some("distance"@)
    } else if builder.collection_name is None {
        Some("collection_name"@)
    } else {
        None
    }
}

impl<T, E> JobBuilder<T, E> {
    /// Sets the rows.
    pub fn dataset(self, dataset: DataSet<T>) -> (r: Self)
        ensures
            r == (JobBuilder { dataset: Some(dataset), ..self }),
    {
        let mut builder = self;
        builder.dataset = Some(dataset);
        builder
    }

    /// Sets the embedding model.
    pub fn provider(self, provider: Provider) -> (r: Self)
        ensures
            r == (JobBuilder { provider: Some(provider), ..self }),
    {
        let mut builder = self;
        builder.provider = Some(provider);
        builder
    }

    /// Sets the size of the vectors.
    pub fn dims(self, dims: u64) -> (r: Self)
        ensures
            r == (JobBuilder { dims: Some(dims), ..self }),
    {
        let mut builder = self;
        builder.dims = Some(dims);
        builder
    }

    /// Sets whether a populated collection is extended.
    pub fn extends(self, extends: bool) -> (r: Self)
        ensures
            r == (JobBuilder { extends: Some(extends), ..self }),
    {
        let mut builder = self;
        builder.extends = Some(extends);
        builder
    }

    /// Sets the metric.
    pub fn distance(self, distance: Distance) -> (r: Self)
        ensures
            r == (JobBuilder { distance: Some(distance), ..self }),
    {
        let mut builder = self;
        builder.distance = Some(distance);
        builder
    }

    /// Sets embeddings that are there already.
    pub fn embedding(self, embedding: E) -> (r: Self)
        ensures
            r == (JobBuilder { embedding: Some(embedding), ..self }),
    {
        let mut builder = self;
        builder.embedding = Some(embedding);
        builder
    }

    /// Derives the collection name from the provider, the metric and the
    /// dataset, which must be set before.
    pub fn collection_name(self) -> (r: Self)
        requires
            self.provider is Some,
            self.distance is Some,
            self.dataset is Some,
        ensures
            r.dataset == self.dataset,
            r.provider == self.provider,
            r.dims == self.dims,
            r.extends == self.extends,
            r.distance == self.distance,
            r.embedding == self.embedding,
            r.collection_name matches Some(name) && name@ == collection_of(
                self.provider->0,
                self.distance->0,
                self.dataset->0.identifier@,
            ),
    {
        let mut name = match &self.provider {
            Some(provider) => provider.prefix(),
            None => String::new(),
        };
        name.append("_");
        match self.distance {
            Some(distance) => name.append(distance.name()),
            None => {},
        }
        name.append("_");
        match &self.dataset {
            Some(dataset) => name.append(dataset.identifier.as_str()),
            None => {},
        }
        let mut builder = self;
        builder.collection_name = Some(name);
        builder
    }

    /// The job, once every field but the embeddings is set.
    pub fn build(self) -> (r: Result<Job<T, E>, JobBuilderError>)
        ensures
            match missing_field(self) {
                Some(name) => r matches Err(e) && e.field() == name,
                None => r == Ok::<_, JobBuilderError>(
                    Job {
                        dataset: self.dataset->0,
                        provider: self.provider->0,
                        dims: self.dims->0,
                        extends: self.extends->0,
                        distance: self.distance->0,
                        collection_name: self.collection_name->0,
                        embedding: self.embedding,
                    },
                ),
            },
    {
        let dataset = match self.dataset {
            Some(value) => value,
            None => {
                return Err(JobBuilderError::UninitializedField("dataset"));
            },
        };
        let provider = match self.provider {
            Some(value) => value,
            None => {
                return Err(JobBuilderError::UninitializedField("provider"));
            },
        };
        let dims: u64 = match self.dims {
            Some(value) => value,
            None => {
                return Err(JobBuilderError::UninitializedField("dims"));
            },
        };
        let extends = match self.extends {
            Some(value) => value,
            None => {
                return Err(JobBuilderError::UninitializedField("extends"));
            },
        };
        let distance = match self.distance {
            Some(value) => value,
            None => {
                return Err(JobBuilderError::UninitializedField("distance"));
            },
        };
        let collection_name = match self.collection_name {
            Some(value) => value,
            None => {
                return Err(JobBuilderError::UninitializedField("collection_name"));
            },
        };
        Ok(
            Job {
                dataset,
                provider,
                dims,
                extends,
                distance,
                collection_name,
                embedding: self.embedding,
            },
        )
    }
}

} // verus!
