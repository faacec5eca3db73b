//! INI-style configuration stores.
//!
//! A [`Config`] holds general values and named sections of values, all of them
//! strings. It is built with a [`ConfigBuilder`], changed with
//! [`Config::update`], read with [`Config::get`] and, for typed values, with
//! [`Config::get_as`]. [`Config::load`] reads INI text and [`Config::save`] writes
//! it; the text is parsed and written by the `ini` crate. [`materialize`] reads a
//! section into a record, all fields or none.
//!
//! What the functions do is stated over [`Store`], the mathematical model of a
//! configuration, and proved; the contracts of the `ini` crate in [`adapter`]
//! are taken on trust.

pub mod adapter;
pub mod assoc;
pub mod builder;
pub mod config;
pub mod error;
pub mod materialize;
pub mod order;
pub mod outcome;
pub mod parse;
pub mod persist;
pub mod sections;
pub mod store;
pub mod values;

pub use crate::builder::ConfigBuilder;
pub use crate::config::Config;
pub use crate::error::{Error, ParseFailure};
pub use crate::materialize::{
    field_outcome, materialize, read_field, Cause, Field, FieldKind, FieldValue, Section,
};
pub use crate::outcome::LoadOutcome;
pub use crate::parse::FromValue;
pub use crate::sections::SectionMap;
pub use crate::store::Store;
pub use crate::values::ValueMap;
