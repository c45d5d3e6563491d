//! A map from strings to values that remembers the order of its entries.

use vstd::hash_map::StringHashMap;
use vstd::prelude::*;

verus! {

/// A map from strings to values. Entries stand in the order their keys were
/// first inserted.
pub struct TextMap<V> {
    entries: Vec<(String, V)>,
    index: StringHashMap<usize>,
}

impl<V> View for TextMap<V> {
    type V = Map<Seq<char>, V>;

    closed spec fn view(&self) -> Map<Seq<char>, V> {
        Map::new(
            |key: Seq<char>| self.index@.contains_key(key),
            |key: Seq<char>| self.entries@[self.index@[key] as int].1,
        )
    }
}

impl<V> TextMap<V> {
    /// Whether the index finds every entry and nothing else.
    pub closed spec fn wf(&self) -> bool {
        &&& forall|key: Seq<char>| #[trigger]
            self.index@.contains_key(key) ==> self.index@[key] < self.entries@.len()
                && self.entries@[self.index@[key] as int].0@ == key
        &&& forall|i: int|
            0 <= i < self.entries@.len() ==> self.index@.contains_key(
                (#[trigger] self.entries@[i]).0@,
            ) && self.index@[self.entries@[i].0@] == i
    }

    /// The keys in the order of the entries.
    pub closed spec fn keys(&self) -> Seq<Seq<char>> {
        self.entries@.map_values(|entry: (String, V)| entry.0@)
    }

    /// The keys list the map's domain, each once.
    pub proof fn lemma_keys(&self)
        requires
            self.wf(),
        ensures
            self.keys().no_duplicates(),
            forall|key: Seq<char>| #[trigger] self@.contains_key(key) <==> self.keys().contains(key),
    {
        assert forall|key: Seq<char>| #[trigger]
            self@.contains_key(key) implies self.keys().contains(key) by {
            assert(self.keys()[self.index@[key] as int] == key);
        }
        assert forall|key: Seq<char>| self.keys().contains(key) implies #[trigger]
            self@.contains_key(key) by {
            let i = choose|i: int| 0 <= i < self.keys().len() && self.keys()[i] == key;
            assert(self.entries@[i].0@ == key);
        }
        assert forall|i: int, j: int|
            0 <= i < self.keys().len() && 0 <= j < self.keys().len() && i
                != j implies self.keys()[i] != self.keys()[j] by {
            assert(self.index@[self.entries@[i].0@] == i);
            assert(self.index@[self.entries@[j].0@] == j);
        }
    }

    /// An empty map.
    pub fn new() -> (r: TextMap<V>)
        ensures
            r.wf(),
            r@ == Map::<Seq<char>, V>::empty(),
            r.keys().len() == 0,
    {
        let r = TextMap { entries: Vec::new(), index: StringHashMap::new() };
        proof {
            assert(r@ =~= Map::empty());
        }
        r
    }

    /// How many entries there are.
    pub fn len(&self) -> (r: usize)
        requires
            self.wf(),
        ensures
            r == self.keys().len(),
            self@.dom().finite(),
            r == self@.dom().len(),
    {
        proof {
            self.lemma_keys();
            let keys = self.keys();
            assert(self@.dom() =~= keys.to_set());
            keys.unique_seq_to_set();
        }
        self.entries.len()
    }

    /// The value of `key`, if it has one.
    pub fn get(&self, key: &str) -> (r: Option<&V>)
        requires
            self.wf(),
        ensures
            match r {
                Some(value) => self@.contains_key(key@) && *value == self@[key@],
                None => !self@.contains_key(key@),
            },
    {
        match self.index.get(key) {
            Some(i) => Some(&self.entries[*i].1),
            None => None,
        }
    }

    /// Gives `key` the value `value`.
    pub fn insert(&mut self, key: String, value: V)
        requires
            old(self).wf(),
        ensures
            final(self).wf(),
            final(self)@ == old(self)@.insert(key@, value),
            final(self).keys() == if old(self)@.contains_key(key@) {
                old(self).keys()
            } else {
                old(self).keys().push(key@)
            },
    {
        let ghost before = *self;
        let found: Option<usize> = match self.index.get(key.as_str()) {
            Some(i) => Some(*i),
            None => None,
        };
        match found {
            Some(i) => {
                self.entries.set(i, (key, value));
                proof {
                    assert(self@ =~= before@.insert(key@, value));
                    assert(self.keys() =~= before.keys());
                }
            },
            None => {
                let at: usize = self.entries.len();
                self.index.insert(key.clone(), at);
                self.entries.push((key, value));
                proof {
                    assert forall|i: int| 0 <= i < before.entries@.len() implies (
                    #[trigger] before.entries@[i]).0@ != key@ by {
                        assert(before.index@.contains_key(before.entries@[i].0@));
                    }
                    assert forall|i: int| 0 <= i < self.entries@.len() implies self.index@.contains_key(
                        (#[trigger] self.entries@[i]).0@,
                    ) && self.index@[self.entries@[i].0@] == i by {
                        if i < before.entries@.len() {
                            assert(self.entries@[i] == before.entries@[i]);
                        }
                    }
                    assert(self@ =~= before@.insert(key@, value));
                    assert(self.keys() =~= before.keys().push(key@));
                }
            },
        }
    }

    /// Takes over the entries of another map, which win over those of this
    /// one.
    pub fn extend(&mut self, other: TextMap<V>)
        requires
            old(self).wf(),
            other.wf(),
        ensures
            final(self).wf(),
            final(self)@ == old(self)@.union_prefer_right(other@),
    {
        let ghost before = self@;
        let ghost entries = other.entries@;
        proof {
            assert(self@ =~= before);
        }
        for entry in it: other.entries
            invariant
                self.wf(),
                other.wf(),
                before == old(self)@,
                entries == other.entries@,
                it.seq() == entries,
                forall|key: Seq<char>| #[trigger]
                    self@.contains_key(key) <==> before.contains_key(key) || (
                    other.index@.contains_key(key) && other.index@[key] < it.index()),
                forall|key: Seq<char>| #[trigger]
                    self@.contains_key(key) ==> self@[key] == if other.index@.contains_key(key)
                        && other.index@[key] < it.index() {
                        entries[other.index@[key] as int].1
                    } else {
                        before[key]
                    },
        {
            let ghost at = it.index();
            proof {
                assert(entry == entries[at]);
                assert(other.index@[entry.0@] == at);
            }
            self.insert(entry.0, entry.1);
        }
        proof {
            assert(self@ =~= before.union_prefer_right(other@));
        }
    }

    /// A copy of this map.
    pub fn copy(&self) -> (r: TextMap<V>) where V: Clone
        requires
            self.wf(),
        ensures
            r.wf(),
            r.keys() == self.keys(),
            r@.dom() == self@.dom(),
            forall|key: Seq<char>| #[trigger]
                self@.contains_key(key) ==> cloned(self@[key], r@[key]),
    {
        let mut copy: TextMap<V> = TextMap::new();
        let mut i: usize = 0;
        while i < self.entries.len()
            invariant
                i <= self.entries@.len(),
                self.wf(),
                copy.wf(),
                copy.keys() == self.keys().take(i as int),
                forall|key: Seq<char>| #[trigger]
                    copy@.contains_key(key) <==> self.index@.contains_key(key) && self.index@[key]
                        < i,
                forall|key: Seq<char>| #[trigger]
                    copy@.contains_key(key) ==> cloned(self@[key], copy@[key]),
            decreases self.entries@.len() - i,
        {
            let ghost at = self.entries@[i as int].0@;
            proof {
                assert(self.index@[at] == i);
                assert(self.keys().take(i + 1) =~= self.keys().take(i as int).push(at));
            }
            copy.insert(self.entries[i].0.clone(), self.entries[i].1.clone());
            i += 1;
        }
        proof {
            assert(self.keys().take(i as int) =~= self.keys());
            assert(copy@.dom() =~= self@.dom());
        }
        copy
    }

    /// The entry at position `i`.
    pub fn entry(&self, i: usize) -> (r: (&str, &V))
        requires
            self.wf(),
            i < self.keys().len(),
        ensures
            r.0@ == self.keys()[i as int],
            self@.contains_key(r.0@),
            *r.1 == self@[r.0@],
    {
        proof {
            assert(self.index@.contains_key(self.entries@[i as int].0@));
        }
        (self.entries[i].0.as_str(), &self.entries[i].1)
    }
}

} // verus!
