//! Building a configuration step by step.

use vstd::prelude::*;
use crate::config::Config;
use crate::store::Store;

verus! {

/// Builds a [`Config`] in fluent style: values are set in the section that was
/// entered last, or among the general values. [`ConfigBuilder::build`] hands the
/// configuration out.
pub struct ConfigBuilder {
    pub(crate) config: Config,
    pub(crate) section: Option<String>,
}

impl Config {
    /// A builder that starts from the empty configuration, among the general values.
    pub fn builder() -> (r: ConfigBuilder)
        ensures
            r.store() == Store::empty(),
            r.current() is None,
    {
        ConfigBuilder { config: Config::default(), section: None }
    }
}

impl ConfigBuilder {
    /// What has been built so far.
    pub closed spec fn store(&self) -> Store {
        self.config@
    }

    /// The section that values are set in; `None` stands for the general values.
    pub closed spec fn current(&self) -> Option<Seq<char>> {
        self.section.deep_view()
    }

    /// The configuration that has been built.
    pub fn build(self) -> (r: Config)
        ensures
            r@ == self.store(),
    {
        self.config
    }

    /// Goes back to the general values.
    pub fn general(self) -> (r: Self)
        ensures
            r.store() == self.store(),
            r.current() is None,
    {
        ConfigBuilder { config: self.config, section: None }
    }

    /// Enters the section called `title`, which is created if it is absent.
    pub fn section(self, title: &str) -> (r: Self)
        ensures
            r.store() == self.store().open(title@),
            r.current() == Some(title@),
    {
        let mut config = self.config;
        config.sections.open(title);
        ConfigBuilder { config, section: Some(title.to_string()) }
    }

    /// Sets `value` under `key` where the builder stands.
    pub fn set(self, key: &str, value: &str) -> (r: Self)
        ensures
            r.store() == self.store().update(self.current(), key@, value@),
            r.current() == self.current(),
    {
        let mut config = self.config;
        match &self.section {
            Some(name) => {
                config.sections.set(name.as_str(), key.to_string(), value.to_string());
            },
            None => {
                config.general_values.insert(key.to_string(), value.to_string());
            },
        }
        ConfigBuilder { config, section: self.section }
    }
}

} // verus!
