//! Replaces `{{#fluent catalog.message}}` tags in the chapters of a book by
//! the texts that Fluent catalogs hold for them.
//!
//! - `scan` finds the tags of a text, `address` reads what a tag points at.
//! - `catalog` holds the compiled catalogs by name and resolves addresses;
//!   `bundle` is the boundary to the `fluent` crate behind it, and `resource`
//!   says which resource texts are handed to it.
//! - `rewrite` puts the three together: it rewrites one text.
//! - `preprocessor` builds the store from the files of the catalog directory
//!   and rewrites the chapters of a book; `files`, `config` and `version` hold
//!   what it needs to know of the directory, the configuration and the host.
//! - `text` holds the character utilities, `error` the kinds of failure.

pub mod address;
pub mod bundle;
pub mod catalog;
pub mod config;
pub mod error;
pub mod files;
pub mod preprocessor;
pub mod resource;
pub mod rewrite;
pub mod scan;
pub mod text;
pub mod version;
