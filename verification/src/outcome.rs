//! Whether a configuration came from its source or from the fallback.

use vstd::prelude::*;
use vstd::std_specs::cmp::PartialEqSpecImpl;
use crate::config::Config;

verus! {

/// The result of loading with a fallback: the configuration, and whether it was
/// read from the source or is the default that was handed in.
#[derive(Debug)]
pub enum LoadOutcome {
    FromDefault(Config),
    FromFile(Config),
}

impl LoadOutcome {
    /// The configuration inside, whichever way it came.
    pub open spec fn config(self) -> Config {
        match self {
            LoadOutcome::FromDefault(config) => config,
            LoadOutcome::FromFile(config) => config,
        }
    }

    /// The same kind of outcome around another configuration.
    pub open spec fn with_config(self, config: Config) -> LoadOutcome {
        match self {
            LoadOutcome::FromDefault(_) => LoadOutcome::FromDefault(config),
            LoadOutcome::FromFile(_) => LoadOutcome::FromFile(config),
        }
    }

    /// Hands out the configuration.
    #[must_use]
    pub fn into_inner(self) -> (r: Config)
        ensures
            r == self.config(),
    {
        match self {
            LoadOutcome::FromDefault(config) => config,
            LoadOutcome::FromFile(config) => config,
        }
    }

    /// The configuration, to be changed in place; the kind of outcome stays.
    pub fn as_mut(&mut self) -> (r: &mut Config)
        ensures
            *r == old(self).config(),
            *final(self) == old(self).with_config(*final(r)),
    {
        match self {
            LoadOutcome::FromDefault(config) => config,
            LoadOutcome::FromFile(config) => config,
        }
    }

    /// The configuration.
    pub fn as_ref(&self) -> (r: &Config)
        ensures
            *r == self.config(),
    {
        match self {
            LoadOutcome::FromDefault(config) => config,
            LoadOutcome::FromFile(config) => config,
        }
    }

    /// Whether the default was used.
    pub fn used_default(&self) -> (r: bool)
        ensures
            r == (self is FromDefault),
    {
        match self {
            LoadOutcome::FromDefault(_) => true,
            LoadOutcome::FromFile(_) => false,
        }
    }
}

impl Clone for LoadOutcome {
    fn clone(&self) -> (r: Self)
        ensures
            r is FromDefault == self is FromDefault,
            r.config()@ == self.config()@,
    {
        match self {
            LoadOutcome::FromDefault(config) => LoadOutcome::FromDefault(config.clone()),
            LoadOutcome::FromFile(config) => LoadOutcome::FromFile(config.clone()),
        }
    }
}

impl PartialEq for LoadOutcome {
    fn eq(&self, other: &Self) -> (r: bool) {
        match (self, other) {
            (LoadOutcome::FromDefault(mine), LoadOutcome::FromDefault(theirs)) => mine == theirs,
            (LoadOutcome::FromFile(mine), LoadOutcome::FromFile(theirs)) => mine == theirs,
            _ => false,
        }
    }
}

impl PartialEqSpecImpl for LoadOutcome {
    open spec fn obeys_eq_spec() -> bool {
        true
    }

    open spec fn eq_spec(&self, other: &Self) -> bool {
        self is FromDefault == other is FromDefault && self.config()@ == other.config()@
    }
}

} // verus!
