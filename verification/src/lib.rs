//! Parses the `//!` comment directives of a transaction test script into a
//! validated per-transaction configuration table.
//!
//! A directive line is first classified (`is_new_transaction`,
//! `Entry::try_parse`), then parsed into a typed [`entry::Entry`]; the
//! ordered entries of one transaction block, together with the global
//! account registry, are folded by [`config::Config::build`] into an
//! immutable [`config::Config`].

pub mod config;
pub mod entry;
pub mod errors;
pub mod laws;
pub mod stage;
pub mod text;
pub mod value;
