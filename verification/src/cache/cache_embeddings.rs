//! A cache of embeddings, keyed by the model and the embedded inputs.

use super::{hash_key, key_of, le_bytes, lemma_framed_injective, slices_view, to_le};
use crate::store::TextMap;
use crate::text::lines::views;
use crate::text::number::{decimal, to_decimal};
use crate::text::owned;
use vstd::prelude::*;
use vstd::string::*;
use vstd::utf8::{encode_utf8, encode_utf8_decode_utf8};

verus! {

/// The cache format this release reads and writes.
///
/// Version 2 hashes keys with SHA-256, which is stable across Rust releases,
/// and marks vectors computed from raw text. Files from earlier releases hold
/// vectors computed from JSON-quoted text, so they load as an empty cache.
pub const CACHE_FORMAT_VERSION: u32 = 2;

/// Why reading or writing a cache file failed.
#[derive(Debug, Clone)]
pub enum CacheError {
    /// The file couldn't be read or written.
    Io {
        /// The file.
        path: String,
        /// The I/O error.
        message: String,
    },
    /// The file isn't a cache.
    Json {
        /// The file.
        path: String,
        /// The parse error.
        message: String,
    },
}

/// The text of a cache error.
pub open spec fn cache_error_text(e: CacheError) -> Seq<char> {
    match e {
        CacheError::Io { path, message } => "cache file "@ + path@ + ": "@ + message@,
        CacheError::Json { path, message } => "cache file "@ + path@ + " is not valid JSON: "@
            + message@,
    }
}

impl CacheError {
    /// The text of this error.
    pub fn display(&self) -> (r: String)
        ensures
            r@ == cache_error_text(*self),
    {
        let mut out = owned("cache file ");
        match self {
            CacheError::Io { path, message } => {
                out.append(path.as_str());
                out.append(": ");
                out.append(message.as_str());
            },
            CacheError::Json { path, message } => {
                out.append(path.as_str());
                out.append(" is not valid JSON: ");
                out.append(message.as_str());
            },
        }
        out
    }
}

/// A map from a model-and-input hash to previously generated embeddings `V`.
///
/// Cache keys include both the model name and the inputs, so the same input
/// can safely be embedded with several models.
pub struct Cache<V> {
    /// The format version; see [`CACHE_FORMAT_VERSION`]. A file written before
    /// versions existed has version 0.
    pub version: u32,
    /// Stored embeddings indexed by the input hash.
    pub cache: TextMap<V>,
}

/// The encoded inputs of a key.
pub open spec fn encoded(data: Seq<Seq<char>>) -> Seq<Seq<u8>> {
    data.map_values(|item: Seq<char>| encode_utf8(item))
}

/// What is hashed for a model and its inputs.
pub open spec fn embedding_key_parts(model: Seq<char>, data: Seq<Seq<char>>) -> Seq<Seq<u8>> {
    seq![
        encode_utf8("lvv-embedding-cache"@),
        le_bytes(CACHE_FORMAT_VERSION as nat, 4),
        encode_utf8(model),
        le_bytes(data.len(), 8),
    ] + encoded(data)
}

/// The key of a model and its inputs.
pub open spec fn embedding_key(model: Seq<char>, data: Seq<Seq<char>>) -> Seq<char> {
    key_of(embedding_key_parts(model, data))
}

/// Two requests with different models or inputs are hashed from different
/// bytes. Every text is shorter than 2^64 bytes.
pub proof fn lemma_embedding_key_parts_injective(
    model: Seq<char>,
    data: Seq<Seq<char>>,
    other_model: Seq<char>,
    other_data: Seq<Seq<char>>,
)
    requires
        super::framed(embedding_key_parts(model, data)) == super::framed(
            embedding_key_parts(other_model, other_data),
        ),
        forall|i: int|
            0 <= i < embedding_key_parts(model, data).len() ==> (#[trigger] embedding_key_parts(
                model,
                data,
            )[i]).len() <= u64::MAX,
        forall|i: int|
            0 <= i < embedding_key_parts(other_model, other_data).len() ==> (
            #[trigger] embedding_key_parts(other_model, other_data)[i]).len() <= u64::MAX,
    ensures
        model == other_model,
        data == other_data,
{
    let a = embedding_key_parts(model, data);
    let b = embedding_key_parts(other_model, other_data);
    lemma_framed_injective(a, b);
    assert(a[2] == encode_utf8(model));
    assert(b[2] == encode_utf8(other_model));
    encode_utf8_decode_utf8(model);
    encode_utf8_decode_utf8(other_model);
    assert(data.len() == other_data.len());
    assert forall|i: int| 0 <= i < data.len() implies data[i] == other_data[i] by {
        assert(a[4 + i] == encode_utf8(data[i]));
        assert(b[4 + i] == encode_utf8(other_data[i]));
        encode_utf8_decode_utf8(data[i]);
        encode_utf8_decode_utf8(other_data[i]);
    }
    assert(data =~= other_data);
}

impl<V> Cache<V> {
    /// Whether the cache is well formed.
    pub open spec fn wf(&self) -> bool {
        self.cache.wf()
    }

    /// Creates an empty cache.
    pub fn new() -> (r: Cache<V>)
        ensures
            r.wf(),
            r.version == CACHE_FORMAT_VERSION,
            r.cache@ == Map::<Seq<char>, V>::empty(),
    {
        Cache { version: CACHE_FORMAT_VERSION, cache: TextMap::new() }
    }

    /// Whether this cache has copies of the entries of another.
    pub open spec fn is_copy_of(self, other: Cache<V>) -> bool where V: Clone {
        &&& self.version == other.version
        &&& self.cache@.dom() == other.cache@.dom()
        &&& forall|key: Seq<char>| #[trigger]
            other.cache@.contains_key(key) ==> cloned(other.cache@[key], self.cache@[key])
    }

    /// A copy of this cache.
    pub fn copy(&self) -> (r: Cache<V>) where V: Clone
        requires
            self.wf(),
        ensures
            r.wf(),
            r.is_copy_of(*self),
    {
        Cache { version: self.version, cache: self.cache.copy() }
    }

    fn key(model: &str, data: &Vec<String>) -> (r: String)
        ensures
            r@ == embedding_key(model@, views(data@)),
    {
        let version = to_le(CACHE_FORMAT_VERSION as u64, 4);
        let count = to_le(data.len() as u64, 8);
        let mut parts: Vec<&[u8]> = Vec::new();
        parts.push("lvv-embedding-cache".as_bytes());
        parts.push(version.as_slice());
        parts.push(model.as_bytes());
        parts.push(count.as_slice());
        let ghost head = slices_view(parts@);
        let mut i: usize = 0;
        while i < data.len()
            invariant
                i <= data@.len(),
                head.len() == 4,
                parts@.len() == 4 + i,
                forall|j: int| 0 <= j < 4 ==> (#[trigger] parts@[j])@ == head[j],
                forall|j: int|
                    0 <= j < i ==> (#[trigger] parts@[4 + j])@ == encode_utf8(data@[j]@),
            decreases data@.len() - i,
        {
            parts.push(data[i].as_str().as_bytes());
            i += 1;
        }
        proof {
            let expected = embedding_key_parts(model@, views(data@));
            let got = slices_view(parts@);
            assert forall|j: int| 0 <= j < got.len() implies got[j] == expected[j] by {
                if j >= 4 {
                    assert(parts@[4 + (j - 4)]@ == encode_utf8(data@[j - 4]@));
                } else {
                    assert(parts@[j]@ == head[j]);
                }
            }
            assert(got =~= expected);
        }
        hash_key(parts.as_slice())
    }

    /// Returns cached embeddings for `model` and `data`, if present.
    pub fn get_embedding(&self, model: &str, data: &Vec<String>) -> (r: Option<&V>)
        requires
            self.wf(),
        ensures
            match r {
                Some(found) => self.cache@.contains_key(embedding_key(model@, views(data@)))
                    && *found == self.cache@[embedding_key(model@, views(data@))],
                None => !self.cache@.contains_key(embedding_key(model@, views(data@))),
            },
    {
        let key = Self::key(model, data);
        self.cache.get(key.as_str())
    }

    /// Stores embeddings unless the same model-and-data key already exists.
    pub fn add_embedding(&mut self, model: &str, data: &Vec<String>, embeddings: V)
        requires
            old(self).wf(),
        ensures
            final(self).wf(),
            final(self).version == old(self).version,
            final(self).cache@ == cache_after(
                old(self).cache@,
                model@,
                views(data@),
                embeddings,
            ),
    {
        let key = Self::key(model, data);
        let known = match self.cache.get(key.as_str()) {
            Some(_) => true,
            None => false,
        };
        if !known {
            self.cache.insert(key, embeddings);
        }
    }

    /// The cache to use for a file that holds `self`: a file written in an
    /// older format loads as an empty cache, since its vectors don't match
    /// what this release embeds.
    pub fn loaded(self) -> (r: Cache<V>)
        requires
            self.wf(),
        ensures
            r.wf(),
            r.version == CACHE_FORMAT_VERSION,
            r.cache@ == if self.version == CACHE_FORMAT_VERSION {
                self.cache@
            } else {
                Map::empty()
            },
    {
        if self.version != CACHE_FORMAT_VERSION {
            Cache::new()
        } else {
            self
        }
    }

    /// The text of this cache.
    pub fn display(&self) -> (r: String)
        requires
            self.wf(),
        ensures
            r@ == "Cache with "@ + decimal(self.cache@.dom().len()) + " entries\n"@,
    {
        let mut out = owned("Cache with ");
        let count = to_decimal(self.cache.len() as u128);
        out.append(count.as_str());
        out.append(" entries\n");
        out
    }
}

impl<V> Default for Cache<V> {
    fn default() -> (r: Cache<V>)
        ensures
            r.wf(),
            r.version == CACHE_FORMAT_VERSION,
            r.cache@ == Map::<Seq<char>, V>::empty(),
    {
        Cache::new()
    }
}

/// The entries after embeddings are added.
pub open spec fn cache_after<V>(
    entries: Map<Seq<char>, V>,
    model: Seq<char>,
    data: Seq<Seq<char>>,
    embeddings: V,
) -> Map<Seq<char>, V> {
    if entries.contains_key(embedding_key(model, data)) {
        entries
    } else {
        entries.insert(embedding_key(model, data), embeddings)
    }
}

/// What is added is found again, and adding a second time for the same model
/// and data changes nothing.
pub proof fn lemma_first_embedding_stays<V>(
    entries: Map<Seq<char>, V>,
    model: Seq<char>,
    data: Seq<Seq<char>>,
    first: V,
    second: V,
)
    ensures
        ({
            let key = embedding_key(model, data);
            let once = cache_after(entries, model, data, first);
            &&& once.contains_key(key)
            &&& once[key] == if entries.contains_key(key) {
                entries[key]
            } else {
                first
            }
            &&& cache_after(once, model, data, second) == once
        }),
{
}

/// Adding embeddings leaves every other entry as it was.
pub proof fn lemma_other_embeddings_stay<V>(
    entries: Map<Seq<char>, V>,
    model: Seq<char>,
    data: Seq<Seq<char>>,
    embeddings: V,
    other: Seq<char>,
)
    requires
        other != embedding_key(model, data),
    ensures
        ({
            let after = cache_after(entries, model, data, embeddings);
            &&& after.contains_key(other) == entries.contains_key(other)
            &&& entries.contains_key(other) ==> after[other] == entries[other]
        }),
{
}

} // verus!
