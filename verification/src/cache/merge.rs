//! Joining embedding caches.

use super::cache_embeddings::Cache;
use vstd::prelude::*;

verus! {

/// The cache files to join.
#[derive(Debug)]
pub struct LvvExtendCache {
    /// The file to begin with.
    pub base: String,
    /// The files that extend it.
    pub others: Vec<String>,
}

/// The entries of some caches joined, those of later caches before those of
/// earlier ones.
pub open spec fn joined_entries<V>(base: Map<Seq<char>, V>, others: Seq<Cache<V>>) -> Map<
    Seq<char>,
    V,
>
    decreases others.len(),
{
    if others.len() == 0 {
        base
    } else {
        joined_entries(base, others.drop_last()).union_prefer_right(others.last().cache@)
    }
}

/// Extends a cache with the entries of others, in order. Where several have
/// the same key, the last one counts.
pub fn join_caches<V>(base: Cache<V>, others: Vec<Cache<V>>) -> (r: Cache<V>)
    requires
        base.wf(),
        forall|i: int| 0 <= i < others@.len() ==> (#[trigger] others@[i]).wf(),
    ensures
        r.wf(),
        r.version == base.version,
        r.cache@ == joined_entries(base.cache@, others@),
{
    let ghost first = base.cache@;
    let mut joined = base;
    proof {
        assert(others@.take(0) =~= Seq::empty());
    }
    for other in it: others
        invariant
            it.seq() == others@,
            forall|i: int| 0 <= i < others@.len() ==> (#[trigger] others@[i]).wf(),
            joined.wf(),
            joined.version == base.version,
            joined.cache@ == joined_entries(first, others@.take(it.index())),
    {
        proof {
            let at = it.index();
            assert(other == others@[at]);
            assert(others@.take(at + 1).drop_last() =~= others@.take(at));
            assert(others@.take(at + 1).last() == other);
        }
        joined.cache.extend(other.cache);
    }
    proof {
        assert(others@.take(others@.len() as int) =~= others@);
    }
    joined
}

/// Nothing is lost by joining: a key is there exactly when some cache has it.
pub proof fn lemma_joined_keys<V>(base: Map<Seq<char>, V>, others: Seq<Cache<V>>, key: Seq<char>)
    ensures
        joined_entries(base, others).contains_key(key) <==> base.contains_key(key) || exists|i: int|
            0 <= i < others.len() && (#[trigger] others[i]).cache@.contains_key(key),
    decreases others.len(),
{
    if others.len() > 0 {
        let rest = others.drop_last();
        lemma_joined_keys(base, rest, key);
        if exists|i: int| 0 <= i < rest.len() && (#[trigger] rest[i]).cache@.contains_key(key) {
            let i = choose|i: int|
                0 <= i < rest.len() && (#[trigger] rest[i]).cache@.contains_key(key);
            assert(others[i].cache@.contains_key(key));
        }
        if others.last().cache@.contains_key(key) {
            assert(others[others.len() - 1].cache@.contains_key(key));
        }
        if exists|i: int| 0 <= i < others.len() && (#[trigger] others[i]).cache@.contains_key(key) {
            let i = choose|i: int|
                0 <= i < others.len() && (#[trigger] others[i]).cache@.contains_key(key);
            if i < rest.len() {
                assert(rest[i].cache@.contains_key(key));
            }
        }
    }
}

} // verus!
