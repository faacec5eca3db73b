//! The mathematical model of a configuration: general values and named sections.

use vstd::prelude::*;

verus! {

/// What a configuration holds: the values outside any section, and for each
/// section that is present its own values. A section that is present without
/// any value is different from a section that is absent.
pub struct Store {
    pub sections: Map<Seq<char>, Map<Seq<char>, Seq<char>>>,
    pub general: Map<Seq<char>, Seq<char>>,
}

impl Store {
    /// The store without sections and without values.
    pub open spec fn empty() -> Store {
        Store { sections: Map::empty(), general: Map::empty() }
    }

    /// The values of the section called `name`; none where the section is absent.
    pub open spec fn values_of(self, name: Seq<char>) -> Map<Seq<char>, Seq<char>> {
        if self.sections.contains_key(name) {
            self.sections[name]
        } else {
            Map::empty()
        }
    }

    /// The value under `key`, in the section that is named or, for `None`, among
    /// the general values.
    pub open spec fn get(self, section: Option<Seq<char>>, key: Seq<char>) -> Option<Seq<char>> {
        match section {
            Some(name) => if self.sections.contains_key(name) && self.sections[name].contains_key(
                key,
            ) {
                Some(self.sections[name][key])
            } else {
                None
            },
            None => if self.general.contains_key(key) {
                Some(self.general[key])
            } else {
                None
            },
        }
    }

    /// The store in which the section called `name` is present: created empty
    /// where it was absent, unchanged where it was there.
    pub open spec fn open(self, name: Seq<char>) -> Store {
        Store { sections: self.sections.insert(name, self.values_of(name)), ..self }
    }

    /// The store after `value` has been put under `key`, in the section that is
    /// named, which is created if need be, or among the general values.
    pub open spec fn update(self, section: Option<Seq<char>>, key: Seq<char>, value: Seq<char>) -> Store {
        match section {
            Some(name) => Store {
                sections: self.sections.insert(name, self.values_of(name).insert(key, value)),
                ..self
            },
            None => Store { general: self.general.insert(key, value), ..self },
        }
    }
}

/// A value that has been put under a key is the value found there afterwards.
pub proof fn lemma_get_after_update(
    store: Store,
    section: Option<Seq<char>>,
    key: Seq<char>,
    value: Seq<char>,
)
    ensures
        store.update(section, key, value).get(section, key) == Some(value),
{
}

/// Putting a value under one key leaves what is found under every other key, and
/// in every other section, as it was.
pub proof fn lemma_update_elsewhere(
    store: Store,
    section: Option<Seq<char>>,
    key: Seq<char>,
    value: Seq<char>,
    other_section: Option<Seq<char>>,
    other_key: Seq<char>,
)
    requires
        other_section != section || other_key != key,
    ensures
        store.update(section, key, value).get(other_section, other_key) == store.get(
            other_section,
            other_key,
        ),
{
}

/// Putting a value into a section that was absent creates that section, which
/// then holds this one value, and no other section appears or disappears.
pub proof fn lemma_update_creates_section(
    store: Store,
    name: Seq<char>,
    key: Seq<char>,
    value: Seq<char>,
)
    requires
        !store.sections.contains_key(name),
    ensures
        store.update(Some(name), key, value).sections.dom() == store.sections.dom().insert(name),
        store.update(Some(name), key, value).sections[name] == Map::<
            Seq<char>,
            Seq<char>,
        >::empty().insert(key, value),
        store.update(Some(name), key, value).general == store.general,
{
}

} // verus!
