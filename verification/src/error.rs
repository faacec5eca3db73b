//! The errors of this crate.

use vstd::prelude::*;
use vstd::string::StringExecFns;
use crate::adapter::{describe_io_failure, describe_load_failure, parse_error_debug};

verus! {

/// Where and why a text was rejected as INI: everything that an `ini::ParseError`
/// holds.
#[derive(Clone, Debug, PartialEq, Eq)]
pub struct ParseFailure {
    pub line: usize,
    pub col: usize,
    pub message: String,
}

/// What can go wrong while a configuration is loaded, saved or read into a record.
#[derive(Debug)]
pub enum Error {
    AlreadyExists,
    ConfigParse(String),
    NotFound,
    ConfigLoad(ParseFailure),
    ConfigCreation(std::io::Error),
}

impl Error {
    /// The text that every message of this error starts with.
    pub open spec fn headline(self) -> Seq<char> {
        match self {
            Error::AlreadyExists => "The key already exists"@,
            Error::ConfigParse(_) => "Failed to parse config: "@,
            Error::NotFound => "The key was not found"@,
            Error::ConfigLoad(_) => "Failed to load config file: "@,
            Error::ConfigCreation(_) => "Failed to create config file: "@,
        }
    }

    /// The message for a reader: the headline, followed for a parse failure by
    /// its own text, for a failure of loading by the `Debug` text of the
    /// `ini::ParseError` and for a failure of saving by a rendering of the cause.
    pub fn message(&self) -> (r: String)
        ensures
            match self {
                Error::AlreadyExists => r@ == self.headline(),
                Error::ConfigParse(detail) => r@ == self.headline() + detail@,
                Error::NotFound => r@ == self.headline(),
                Error::ConfigLoad(failure) => r@ == self.headline() + parse_error_debug(
                    failure.line as int,
                    failure.col as int,
                    failure.message@,
                ),
                Error::ConfigCreation(_) => r@.len() >= self.headline().len() && r@.subrange(
                    0,
                    self.headline().len() as int,
                ) == self.headline(),
            },
    {
        match self {
            Error::AlreadyExists => "The key already exists".to_string(),
            Error::ConfigParse(detail) => {
                "Failed to parse config: ".to_string().concat(detail.as_str())
            },
            Error::NotFound => "The key was not found".to_string(),
            Error::ConfigLoad(failure) => {
                let detail = describe_load_failure(failure);
                "Failed to load config file: ".to_string().concat(detail.as_str())
            },
            Error::ConfigCreation(cause) => {
                let detail = describe_io_failure(cause);
                let r = "Failed to create config file: ".to_string().concat(detail.as_str());
                assert(r@.subrange(0, self.headline().len() as int) =~= self.headline());
                r
            },
        }
    }
}

} // verus!
