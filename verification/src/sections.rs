//! The named sections of a configuration.

use vstd::prelude::*;
use vstd::std_specs::cmp::PartialEqSpecImpl;
use crate::assoc::{
    ascending, has_key, keys_of, lemma_ascending_unique, lemma_insert_pair,
    lemma_map_of_ascending, lemma_map_of_len, lemma_update_pair, lemma_vacant_absent, map_of,
    names, search, Slot,
};
use crate::values::ValueMap;

verus! {

/// Stored sections as pairs of a name and the mapping it stands for.
spec fn as_sections(entries: Seq<(String, ValueMap)>) -> Seq<
    (Seq<char>, Map<Seq<char>, Seq<char>>),
> {
    entries.map_values(|e: (String, ValueMap)| (e.0@, e.1@))
}

/// Stored sections as pairs of a name and the section's own pairs.
spec fn as_layout(entries: Seq<(String, ValueMap)>) -> Seq<
    (Seq<char>, Seq<(Seq<char>, Seq<char>)>),
> {
    entries.map_values(|e: (String, ValueMap)| (e.0@, e.1.pairs()))
}

/// A mapping from section names to sections, kept in ascending name order.
#[derive(Debug)]
pub struct SectionMap {
    entries: Vec<(String, ValueMap)>,
}

impl View for SectionMap {
    type V = Map<Seq<char>, Map<Seq<char>, Seq<char>>>;

    open spec fn view(&self) -> Map<Seq<char>, Map<Seq<char>, Seq<char>>> {
        map_of(self.pairs())
    }
}

impl SectionMap {
    /// The sections, in ascending name order.
    pub closed spec fn pairs(&self) -> Seq<(Seq<char>, Map<Seq<char>, Seq<char>>)> {
        as_sections(self.entries@)
    }

    /// The sections in ascending name order, each with its pairs in ascending key order.
    pub closed spec fn layout(&self) -> Seq<(Seq<char>, Seq<(Seq<char>, Seq<char>)>)> {
        as_layout(self.entries@)
    }

    /// The names ascend, so that no name occurs twice.
    #[verifier::type_invariant]
    pub closed spec fn ordered(&self) -> bool {
        ascending(names(self.entries@))
    }

    /// What `ordered` says, in terms of `pairs` and of `layout`.
    pub proof fn lemma_ordered(&self)
        requires
            self.ordered(),
        ensures
            ascending(keys_of(self.pairs())),
            ascending(keys_of(self.layout())),
            self.layout().len() == self.pairs().len(),
            forall|i: int|
                0 <= i < self.pairs().len() ==> (#[trigger] self.pairs()[i]) == (
                    self.layout()[i].0,
                    map_of(self.layout()[i].1),
                ),
    {
        assert(keys_of(self.pairs()) =~= names(self.entries@));
        assert(keys_of(self.layout()) =~= names(self.entries@));
    }

    /// Walking the sections shows all of them: each section of the walk is
    /// present with the values that its pairs stand for, and every section that
    /// is present is met on the walk.
    pub proof fn lemma_enumeration(&self)
        requires
            self.ordered(),
        ensures
            forall|i: int|
                0 <= i < self.layout().len() ==> self@.contains_key((#[trigger] self.layout()[i]).0)
                    && self@[self.layout()[i].0] == map_of(self.layout()[i].1),
            forall|name: Seq<char>| #[trigger]
                self@.contains_key(name) ==> has_key(self.layout(), name),
    {
        self.lemma_ordered();
        lemma_map_of_ascending(self.pairs());
        assert forall|i: int| 0 <= i < self.layout().len() implies self@.contains_key(
            (#[trigger] self.layout()[i]).0,
        ) && self@[self.layout()[i].0] == map_of(self.layout()[i].1) by {
            assert(self.pairs()[i] == (self.layout()[i].0, map_of(self.layout()[i].1)));
        }
        assert forall|name: Seq<char>| #[trigger] self@.contains_key(name) implies has_key(
            self.layout(),
            name,
        ) by {
            let i = choose|i: int|
                0 <= i < self.pairs().len() && (#[trigger] self.pairs()[i]).0 == name;
            assert(self.layout()[i].0 == name);
        }
    }

    proof fn lemma_len(&self)
        requires
            self.ordered(),
        ensures
            self@.dom().finite(),
            self@.len() == self.pairs().len(),
    {
        self.lemma_ordered();
        lemma_map_of_len(self.pairs());
    }

    /// No sections.
    pub fn new() -> (r: Self)
        ensures
            r@ == Map::<Seq<char>, Map<Seq<char>, Seq<char>>>::empty(),
            r.layout() == Seq::<(Seq<char>, Seq<(Seq<char>, Seq<char>)>)>::empty(),
    {
        let r = SectionMap { entries: Vec::new() };
        assert(r.pairs() =~= Seq::<(Seq<char>, Map<Seq<char>, Seq<char>>)>::empty());
        assert(r.layout() =~= Seq::<(Seq<char>, Seq<(Seq<char>, Seq<char>)>)>::empty());
        r
    }

    /// The number of sections.
    pub fn len(&self) -> (n: usize)
        ensures
            n == self.layout().len(),
            n == self@.len(),
    {
        proof {
            use_type_invariant(self);
            self.lemma_len();
        }
        self.entries.len()
    }

    /// Whether there is no section.
    pub fn is_empty(&self) -> (r: bool)
        ensures
            r == (self.layout().len() == 0),
            r == (self@ == Map::<Seq<char>, Map<Seq<char>, Seq<char>>>::empty()),
    {
        proof {
            use_type_invariant(self);
            self.lemma_len();
            if self@.len() == 0 {
                assert(self@ =~= Map::<Seq<char>, Map<Seq<char>, Seq<char>>>::empty());
            }
        }
        self.entries.len() == 0
    }

    /// The section at position `index` in ascending name order, if there are that many.
    pub fn nth(&self, index: usize) -> (r: Option<(&String, &ValueMap)>)
        ensures
            match r {
                Some(pair) => index < self.layout().len() && (pair.0@, pair.1.pairs())
                    == self.layout()[index as int],
                None => index >= self.layout().len(),
            },
    {
        if index < self.entries.len() {
            let pair = &self.entries[index];
            Some((&pair.0, &pair.1))
        } else {
            None
        }
    }

    /// The section called `name`, if there is one.
    pub fn get(&self, name: &str) -> (r: Option<&ValueMap>)
        ensures
            match r {
                Some(section) => self@.contains_key(name@) && self@[name@] == section@,
                None => !self@.contains_key(name@),
            },
    {
        proof {
            use_type_invariant(self);
            self.lemma_ordered();
            lemma_map_of_ascending(self.pairs());
        }
        match search(&self.entries, name) {
            Slot::Found(i) => {
                assert(self.pairs()[i as int].0 == name@);
                Some(&self.entries[i].1)
            },
            Slot::Vacant(i) => {
                proof {
                    lemma_vacant_absent(names(self.entries@), name@, i);
                    if has_key(self.pairs(), name@) {
                        let j = choose|j: int|
                            0 <= j < self.pairs().len() && (#[trigger] self.pairs()[j]).0
                                == name@;
                        assert(names(self.entries@)[j] == name@);
                    }
                }
                None
            },
        }
    }

    /// Whether there is a section called `name`.
    pub fn contains_key(&self, name: &str) -> (r: bool)
        ensures
            r == self@.contains_key(name@),
    {
        self.get(name).is_some()
    }

    /// Makes sure that there is a section called `name`: an absent one is created
    /// empty, a present one is left as it is.
    pub fn open(&mut self, name: &str)
        ensures
            final(self)@ == old(self)@.insert(
                name@,
                if old(self)@.contains_key(name@) {
                    old(self)@[name@]
                } else {
                    Map::empty()
                },
            ),
    {
        proof {
            use_type_invariant(&*self);
            self.lemma_ordered();
            lemma_map_of_ascending(self.pairs());
        }
        let ghost before = self.pairs();
        let mut entries: Vec<(String, ValueMap)> = Vec::new();
        std::mem::swap(&mut entries, &mut self.entries);
        assert(keys_of(before) =~= names(entries@));
        match search(&entries, name) {
            Slot::Found(i) => {
                assert(before[i as int].0 == name@);
                assert(map_of(before).insert(name@, map_of(before)[name@]) =~= map_of(before));
            },
            Slot::Vacant(i) => {
                entries.insert(i, (name.to_string(), ValueMap::new()));
                proof {
                    let empty = Map::<Seq<char>, Seq<char>>::empty();
                    lemma_insert_pair(before, i, name@, empty);
                    assert(as_sections(entries@) =~= before.insert(i as int, (name@, empty)));
                    assert(names(entries@) =~= keys_of(as_sections(entries@)));
                    lemma_vacant_absent(keys_of(before), name@, i);
                    if has_key(before, name@) {
                        let j = choose|j: int|
                            0 <= j < before.len() && (#[trigger] before[j]).0 == name@;
                        assert(keys_of(before)[j] == name@);
                    }
                }
            },
        }
        self.entries = entries;
    }

    /// Stores `value` under `key` in the section called `name`, which is created
    /// if it is absent.
    pub fn set(&mut self, name: &str, key: String, value: String)
        ensures
            final(self)@ == old(self)@.insert(
                name@,
                (if old(self)@.contains_key(name@) {
                    old(self)@[name@]
                } else {
                    Map::empty()
                }).insert(key@, value@),
            ),
    {
        proof {
            use_type_invariant(&*self);
            self.lemma_ordered();
            lemma_map_of_ascending(self.pairs());
        }
        let ghost before = self.pairs();
        let mut entries: Vec<(String, ValueMap)> = Vec::new();
        std::mem::swap(&mut entries, &mut self.entries);
        assert(keys_of(before) =~= names(entries@));
        let at = match search(&entries, name) {
            Slot::Found(i) => {
                assert(before[i as int].0 == name@);
                i
            },
            Slot::Vacant(i) => {
                entries.insert(i, (name.to_string(), ValueMap::new()));
                proof {
                    let empty = Map::<Seq<char>, Seq<char>>::empty();
                    lemma_insert_pair(before, i, name@, empty);
                    assert(as_sections(entries@) =~= before.insert(i as int, (name@, empty)));
                    lemma_vacant_absent(keys_of(before), name@, i);
                    if has_key(before, name@) {
                        let j = choose|j: int|
                            0 <= j < before.len() && (#[trigger] before[j]).0 == name@;
                        assert(keys_of(before)[j] == name@);
                    }
                }
                i
            },
        };
        let ghost opened = as_sections(entries@);
        entries[at].1.insert(key, value);
        proof {
            let changed = opened[at as int].1.insert(key@, value@);
            lemma_update_pair(opened, at as int, changed);
            assert(as_sections(entries@) =~= opened.update(at as int, (name@, changed)));
            assert(names(entries@) =~= keys_of(as_sections(entries@)));
            assert(map_of(opened).insert(name@, changed) =~= map_of(before).insert(
                name@,
                changed,
            ));
        }
        self.entries = entries;
    }
}

impl Default for SectionMap {
    fn default() -> (r: Self)
        ensures
            r@ == Map::<Seq<char>, Map<Seq<char>, Seq<char>>>::empty(),
            r.layout() == Seq::<(Seq<char>, Seq<(Seq<char>, Seq<char>)>)>::empty(),
    {
        SectionMap::new()
    }
}

impl Clone for SectionMap {
    fn clone(&self) -> (r: Self)
        ensures
            r@ == self@,
            r.layout() == self.layout(),
    {
        proof {
            use_type_invariant(self);
        }
        let mut entries: Vec<(String, ValueMap)> = Vec::new();
        let mut i: usize = 0;
        while i < self.entries.len()
            invariant
                0 <= i <= self.entries.len(),
                entries@.len() == i,
                forall|j: int|
                    0 <= j < i ==> (#[trigger] entries@[j]).0@ == self.entries@[j].0@
                        && entries@[j].1.pairs() == self.entries@[j].1.pairs(),
            decreases self.entries.len() - i,
        {
            let pair = &self.entries[i];
            entries.push((pair.0.clone(), pair.1.clone()));
            i += 1;
        }
        assert(names(entries@) =~= names(self.entries@));
        assert(as_sections(entries@) =~= as_sections(self.entries@));
        assert(as_layout(entries@) =~= as_layout(self.entries@));
        SectionMap { entries }
    }
}

impl PartialEq for SectionMap {
    fn eq(&self, other: &Self) -> (r: bool) {
        proof {
            use_type_invariant(self);
            use_type_invariant(other);
            self.lemma_ordered();
            other.lemma_ordered();
            if self@ == other@ {
                lemma_ascending_unique(self.pairs(), other.pairs());
            }
        }
        if self.entries.len() != other.entries.len() {
            return false;
        }
        let mut i: usize = 0;
        while i < self.entries.len()
            invariant
                0 <= i <= self.entries.len(),
                self.entries.len() == other.entries.len(),
                self@ == other@ ==> self.pairs() == other.pairs(),
                forall|j: int| 0 <= j < i ==> self.pairs()[j] == other.pairs()[j],
            decreases self.entries.len() - i,
        {
            let mine = &self.entries[i];
            let theirs = &other.entries[i];
            if mine.0 != theirs.0 || mine.1 != theirs.1 {
                assert(self.pairs()[i as int] != other.pairs()[i as int]);
                return false;
            }
            i += 1;
        }
        assert(self.pairs() =~= other.pairs());
        true
    }
}

impl PartialEqSpecImpl for SectionMap {
    open spec fn obeys_eq_spec() -> bool {
        true
    }

    open spec fn eq_spec(&self, other: &Self) -> bool {
        self@ == other@
    }
}

impl Eq for SectionMap {

}

} // verus!
