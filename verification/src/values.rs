//! The key-value mapping of one section.

use vstd::prelude::*;
use vstd::std_specs::cmp::PartialEqSpecImpl;
use crate::assoc::{
    ascending, has_key, keys_of, lemma_ascending_unique, lemma_insert_pair,
    lemma_map_of_ascending, lemma_map_of_len, lemma_update_pair, lemma_vacant_absent, map_of,
    names, search, Slot,
};

verus! {

/// Stored entries as pairs of character sequences.
spec fn as_pairs(entries: Seq<(String, String)>) -> Seq<(Seq<char>, Seq<char>)> {
    entries.map_values(|e: (String, String)| (e.0@, e.1@))
}

/// A mapping from keys to values, both strings, kept in ascending key order.
#[derive(Debug)]
pub struct ValueMap {
    entries: Vec<(String, String)>,
}

impl View for ValueMap {
    type V = Map<Seq<char>, Seq<char>>;

    open spec fn view(&self) -> Map<Seq<char>, Seq<char>> {
        map_of(self.pairs())
    }
}

impl ValueMap {
    /// The pairs of the mapping, in ascending key order.
    pub closed spec fn pairs(&self) -> Seq<(Seq<char>, Seq<char>)> {
        as_pairs(self.entries@)
    }

    /// The keys ascend, so that no key occurs twice.
    #[verifier::type_invariant]
    pub closed spec fn ordered(&self) -> bool {
        ascending(names(self.entries@))
    }

    /// What `ordered` says, in terms of `pairs`.
    pub proof fn lemma_ordered(&self)
        requires
            self.ordered(),
        ensures
            ascending(keys_of(self.pairs())),
    {
        assert(keys_of(self.pairs()) =~= names(self.entries@));
    }

    /// Walking the pairs shows the whole mapping: each pair is in it, and every
    /// key of the mapping is the key of a pair.
    pub proof fn lemma_enumeration(&self)
        requires
            self.ordered(),
        ensures
            forall|i: int|
                0 <= i < self.pairs().len() ==> self@.contains_key((#[trigger] self.pairs()[i]).0)
                    && self@[self.pairs()[i].0] == self.pairs()[i].1,
            forall|key: Seq<char>| #[trigger] self@.contains_key(key) ==> has_key(self.pairs(), key),
    {
        self.lemma_ordered();
        lemma_map_of_ascending(self.pairs());
    }

    /// An empty mapping.
    pub fn new() -> (r: Self)
        ensures
            r@ == Map::<Seq<char>, Seq<char>>::empty(),
            r.pairs() == Seq::<(Seq<char>, Seq<char>)>::empty(),
    {
        let r = ValueMap { entries: Vec::new() };
        assert(r.pairs() =~= Seq::<(Seq<char>, Seq<char>)>::empty());
        r
    }

    /// The number of keys.
    pub fn len(&self) -> (n: usize)
        ensures
            n == self.pairs().len(),
            n == self@.len(),
    {
        proof {
            use_type_invariant(self);
            self.lemma_len();
        }
        self.entries.len()
    }

    proof fn lemma_len(&self)
        requires
            self.ordered(),
        ensures
            self@.dom().finite(),
            self@.len() == self.pairs().len(),
    {
        self.lemma_ordered();
        lemma_map_of_len(self.pairs());
    }

    /// Whether the mapping has no key.
    pub fn is_empty(&self) -> (r: bool)
        ensures
            r == (self.pairs().len() == 0),
            r == (self@ == Map::<Seq<char>, Seq<char>>::empty()),
    {
        proof {
            use_type_invariant(self);
            self.lemma_len();
            if self@.len() == 0 {
                assert(self@ =~= Map::<Seq<char>, Seq<char>>::empty());
            }
        }
        self.entries.len() == 0
    }

    /// Whether a value is stored under `key`.
    pub fn contains_key(&self, key: &str) -> (r: bool)
        ensures
            r == self@.contains_key(key@),
    {
        self.get(key).is_some()
    }

    /// The pair at position `index` in ascending key order, if there are that many.
    pub fn nth(&self, index: usize) -> (r: Option<(&String, &String)>)
        ensures
            match r {
                Some(pair) => index < self.pairs().len() && (pair.0@, pair.1@)
                    == self.pairs()[index as int],
                None => index >= self.pairs().len(),
            },
    {
        if index < self.entries.len() {
            let pair = &self.entries[index];
            Some((&pair.0, &pair.1))
        } else {
            None
        }
    }

    /// The value stored under `key`, if there is one.
    pub fn get(&self, key: &str) -> (r: Option<&String>)
        ensures
            match r {
                Some(value) => self@.contains_key(key@) && self@[key@] == value@,
                None => !self@.contains_key(key@),
            },
    {
        proof {
            use_type_invariant(self);
            self.lemma_ordered();
            lemma_map_of_ascending(self.pairs());
        }
        match search(&self.entries, key) {
            Slot::Found(i) => {
                assert(self.pairs()[i as int].0 == key@);
                Some(&self.entries[i].1)
            },
            Slot::Vacant(i) => {
                proof {
                    lemma_vacant_absent(names(self.entries@), key@, i);
                    if has_key(self.pairs(), key@) {
                        let j = choose|j: int|
                            0 <= j < self.pairs().len() && (#[trigger] self.pairs()[j]).0 == key@;
                        assert(names(self.entries@)[j] == key@);
                    }
                }
                None
            },
        }
    }

    /// Stores `value` under `key` and returns the value that was there before.
    pub fn insert(&mut self, key: String, value: String) -> (r: Option<String>)
        ensures
            final(self)@ == old(self)@.insert(key@, value@),
            match r {
                Some(previous) => old(self)@.contains_key(key@) && old(self)@[key@] == previous@,
                None => !old(self)@.contains_key(key@),
            },
    {
        proof {
            use_type_invariant(&*self);
        }
        let ghost before = self.pairs();
        proof {
            self.lemma_ordered();
            lemma_map_of_ascending(before);
        }
        let mut entries: Vec<(String, String)> = Vec::new();
        std::mem::swap(&mut entries, &mut self.entries);
        let slot = search(&entries, key.as_str());
        assert(keys_of(before) =~= names(entries@));
        let r = match slot {
            Slot::Found(i) => {
                let mut pair = (key, value);
                std::mem::swap(&mut entries[i], &mut pair);
                proof {
                    assert(before[i as int].0 == key@);
                    lemma_update_pair(before, i as int, value@);
                    assert(as_pairs(entries@) =~= before.update(i as int, (key@, value@)));
                    assert(names(entries@) =~= keys_of(as_pairs(entries@)));
                }
                Some(pair.1)
            },
            Slot::Vacant(i) => {
                entries.insert(i, (key, value));
                proof {
                    lemma_insert_pair(before, i, key@, value@);
                    assert(as_pairs(entries@) =~= before.insert(i as int, (key@, value@)));
                    assert(names(entries@) =~= keys_of(as_pairs(entries@)));
                    lemma_vacant_absent(keys_of(before), key@, i);
                    if has_key(before, key@) {
                        let j = choose|j: int|
                            0 <= j < before.len() && (#[trigger] before[j]).0 == key@;
                        assert(keys_of(before)[j] == key@);
                    }
                }
                None
            },
        };
        self.entries = entries;
        r
    }
}

impl Default for ValueMap {
    fn default() -> (r: Self)
        ensures
            r@ == Map::<Seq<char>, Seq<char>>::empty(),
            r.pairs() == Seq::<(Seq<char>, Seq<char>)>::empty(),
    {
        ValueMap::new()
    }
}

impl Clone for ValueMap {
    fn clone(&self) -> (r: Self)
        ensures
            r@ == self@,
            r.pairs() == self.pairs(),
    {
        proof {
            use_type_invariant(self);
        }
        let mut entries: Vec<(String, String)> = Vec::new();
        let mut i: usize = 0;
        while i < self.entries.len()
            invariant
                0 <= i <= self.entries.len(),
                entries@.len() == i,
                forall|j: int| 0 <= j < i ==> entries@[j] == self.entries@[j],
            decreases self.entries.len() - i,
        {
            let pair = &self.entries[i];
            entries.push((pair.0.clone(), pair.1.clone()));
            i += 1;
        }
        assert(entries@ =~= self.entries@);
        ValueMap { entries }
    }
}

impl PartialEq for ValueMap {
    fn eq(&self, other: &Self) -> (r: bool) {
        proof {
            use_type_invariant(self);
            use_type_invariant(other);
            self.lemma_ordered();
            other.lemma_ordered();
            if self@ == other@ {
                lemma_ascending_unique(self.pairs(), other.pairs());
            }
        }
        if self.entries.len() != other.entries.len() {
            return false;
        }
        let mut i: usize = 0;
        while i < self.entries.len()
            invariant
                0 <= i <= self.entries.len(),
                self.entries.len() == other.entries.len(),
                self@ == other@ ==> self.pairs() == other.pairs(),
                forall|j: int| 0 <= j < i ==> self.pairs()[j] == other.pairs()[j],
            decreases self.entries.len() - i,
        {
            let mine = &self.entries[i];
            let theirs = &other.entries[i];
            if mine.0 != theirs.0 || mine.1 != theirs.1 {
                assert(self.pairs()[i as int] != other.pairs()[i as int]);
                return false;
            }
            i += 1;
        }
        assert(self.pairs() =~= other.pairs());
        true
    }
}

impl PartialEqSpecImpl for ValueMap {
    open spec fn obeys_eq_spec() -> bool {
        true
    }

    open spec fn eq_spec(&self, other: &Self) -> bool {
        self@ == other@
    }
}

impl Eq for ValueMap {

}

} // verus!
