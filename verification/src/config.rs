//! The configuration store.

use vstd::prelude::*;
use vstd::std_specs::cmp::PartialEqSpecImpl;
use crate::parse::{reads, FromValue};
use crate::sections::SectionMap;
use crate::store::Store;
use crate::values::ValueMap;

verus! {

/// An INI-style configuration: values that belong to no section, and named
/// sections of values.
#[derive(Debug)]
pub struct Config {
    pub sections: SectionMap,
    pub general_values: ValueMap,
}

impl View for Config {
    type V = Store;

    open spec fn view(&self) -> Store {
        Store { sections: self.sections@, general: self.general_values@ }
    }
}

impl Config {
    /// The values that belong to no section.
    pub fn general(&self) -> (r: &ValueMap)
        ensures
            r@ == self@.general,
            r == &self.general_values,
    {
        &self.general_values
    }

    /// Where the value under `key` is stored, if there is one.
    fn find(&self, section: Option<&str>, key: &str) -> (r: Option<&String>)
        ensures
            r.deep_view() == self@.get(section.deep_view(), key@),
    {
        match section {
            Some(name) => match self.sections.get(name) {
                Some(values) => values.get(key),
                None => None,
            },
            None => self.general_values.get(key),
        }
    }

    /// The value under `key`, in the section that is named or, for `None`, among
    /// the general values.
    pub fn get(&self, section: Option<&str>, key: &str) -> (r: Option<String>)
        ensures
            r.deep_view() == self@.get(section.deep_view(), key@),
    {
        match self.find(section, key) {
            Some(value) => Some(value.clone()),
            None => None,
        }
    }

    /// The value under `key`, read as a `T`: `None` where there is no value and
    /// where the value does not stand for a `T`.
    pub fn get_as<T: FromValue>(&self, section: Option<&str>, key: &str) -> (r: Option<T>)
        ensures
            match self@.get(section.deep_view(), key@) {
                Some(text) => reads(T::parsed(text), r),
                None => r is None,
            },
    {
        match self.find(section, key) {
            Some(value) => T::from_value(value.as_str()),
            None => None,
        }
    }

    /// The section called `title`, if it is present.
    pub fn section(&self, title: &str) -> (r: Option<&ValueMap>)
        ensures
            match r {
                Some(values) => self@.sections.contains_key(title@) && values@
                    == self@.sections[title@],
                None => !self@.sections.contains_key(title@),
            },
    {
        self.sections.get(title)
    }

    /// All sections.
    pub fn sections(&self) -> (r: &SectionMap)
        ensures
            r@ == self@.sections,
            r == &self.sections,
    {
        &self.sections
    }

    /// Puts `value` under `key`, in the section that is named, which is created
    /// if it is absent, or for `None` among the general values.
    pub fn update(&mut self, section: Option<&str>, key: &str, value: &str) -> (r: &mut Self)
        ensures
            r@ == old(self)@.update(section.deep_view(), key@, value@),
            *final(self) == *final(r),
    {
        match section {
            Some(name) => {
                self.sections.set(name, key.to_string(), value.to_string());
            },
            None => {
                self.general_values.insert(key.to_string(), value.to_string());
            },
        }
        self
    }
}

impl Default for Config {
    /// The configuration without sections and without values.
    fn default() -> (r: Self)
        ensures
            r@ == Store::empty(),
    {
        Config { sections: SectionMap::new(), general_values: ValueMap::new() }
    }
}

impl Clone for Config {
    fn clone(&self) -> (r: Self)
        ensures
            r@ == self@,
    {
        Config { sections: self.sections.clone(), general_values: self.general_values.clone() }
    }
}

impl PartialEq for Config {
    /// Two configurations are equal when they hold the same sections with the same
    /// values and the same general values.
    fn eq(&self, other: &Self) -> (r: bool) {
        self.sections == other.sections && self.general_values == other.general_values
    }
}

impl PartialEqSpecImpl for Config {
    open spec fn obeys_eq_spec() -> bool {
        true
    }

    open spec fn eq_spec(&self, other: &Self) -> bool {
        self@ == other@
    }
}

impl Eq for Config {

}

} // verus!
