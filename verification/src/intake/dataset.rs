//! A named collection of records to embed.

use super::IntakeError;
use crate::text::owned;
use vstd::prelude::*;
use vstd::string::*;

verus! {

/// A named collection of records to embed.
///
/// `data` is optional to support job descriptions in which the records are
/// populated later.
#[derive(Debug, Clone)]
pub struct DataSet<T> {
    /// Name or path of the dataset's origin.
    pub filename: String,
    /// Stable logical name used when deriving collection names.
    pub identifier: String,
    /// Records contained in the dataset.
    pub data: Option<Vec<T>>,
}

/// Whether `texts` can be what `to_json` makes of the first records.
pub open spec fn serialized<T, J: Fn(&T) -> Result<String, String>>(
    to_json: J,
    data: Seq<T>,
    texts: Seq<String>,
) -> bool {
    &&& texts.len() <= data.len()
    &&& forall|i: int|
        0 <= i < texts.len() ==> call_ensures(to_json, (&data[i],), Ok(#[trigger] texts[i]))
}

/// Whether the first `n` records could be serialized.
pub open spec fn is_serialized_to<T, J: Fn(&T) -> Result<String, String>>(
    to_json: J,
    data: Seq<T>,
    n: nat,
) -> bool {
    exists|texts: Seq<String>| #[trigger] serialized(to_json, data, texts) && texts.len() == n
}

/// Whether a message is that of a record whose predecessors were serialized.
pub open spec fn stops_with<T, J: Fn(&T) -> Result<String, String>>(
    to_json: J,
    data: Seq<T>,
    message: String,
) -> bool {
    exists|texts: Seq<String>| #[trigger]
        serialized(to_json, data, texts) && texts.len() < data.len() && call_ensures(
            to_json,
            (&data[texts.len() as int],),
            Err(message),
        )
}

/// Serializes records one by one until one fails, giving its position and the
/// serializer's message.
pub fn serialize_all<T, J: Fn(&T) -> Result<String, String>>(data: &Vec<T>, to_json: &J) -> (r:
    Result<Vec<String>, (usize, String)>)
    requires
        forall|i: int| 0 <= i < data@.len() ==> call_requires(*to_json, (&#[trigger] data@[i],)),
    ensures
        match r {
            Ok(texts) => texts@.len() == data@.len() && serialized(*to_json, data@, texts@),
            Err((index, message)) => index < data@.len() && call_ensures(
                *to_json,
                (&data@[index as int],),
                Err(message),
            ) && is_serialized_to(*to_json, data@, index as nat),
        },
{
    let mut texts: Vec<String> = Vec::new();
    let mut i: usize = 0;
    while i < data.len()
        invariant
            i <= data@.len(),
            texts@.len() == i,
            forall|i: int|
                0 <= i < data@.len() ==> call_requires(*to_json, (&#[trigger] data@[i],)),
            serialized(*to_json, data@, texts@),
        decreases data@.len() - i,
    {
        match to_json(&data[i]) {
            Ok(text) => texts.push(text),
            Err(message) => {
                proof {
                    assert(serialized(*to_json, data@, texts@));
                }
                return Err((i, message));
            },
        }
        i += 1;
    }
    Ok(texts)
}

impl<T> DataSet<T> {
    /// Creates a populated dataset.
    pub fn new(filename: &str, identifier: &str, data: Vec<T>) -> (r: DataSet<T>)
        ensures
            r.filename@ == filename@,
            r.identifier@ == identifier@,
            r.data == Some(data),
    {
        DataSet { filename: owned(filename), identifier: owned(identifier), data: Some(data) }
    }

    /// Consumes the dataset and serializes each record as JSON with `to_json`.
    ///
    /// Fails if the dataset has no data or a record can't be serialized.
    pub fn serialize_to_vec<J: Fn(&T) -> Result<String, String>>(self, to_json: J) -> (r: Result<
        Vec<String>,
        IntakeError,
    >)
        requires
            self.data matches Some(data) ==> forall|i: int|
                0 <= i < data@.len() ==> call_requires(to_json, (&#[trigger] data@[i],)),
        ensures
            match self.data {
                None => r == Err::<Vec<String>, _>(IntakeError::NoData),
                Some(data) => match r {
                    Ok(texts) => texts@.len() == data@.len() && serialized(
                        to_json,
                        data@,
                        texts@,
                    ),
                    Err(e) => e matches IntakeError::Serialize(message) && stops_with(
                        to_json,
                        data@,
                        message,
                    ),
                },
            },
    {
        match self.data {
            None => Err(IntakeError::NoData),
            Some(data) => match serialize_all(&data, &to_json) {
                Ok(texts) => Ok(texts),
                Err((index, message)) => {
                    proof {
                        let texts = choose|texts: Seq<String>| #[trigger]
                            serialized(to_json, data@, texts) && texts.len() == index;
                        assert(serialized(to_json, data@, texts));
                    }
                    Err(IntakeError::Serialize(message))
                },
            },
        }
    }
}

} // verus!
