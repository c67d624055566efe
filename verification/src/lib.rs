//! The Parquet file format of a query engine: where the metadata of a file
//! lies, what its statistics say about a table, how its writer is configured
//! and which files a write produces.
//!
//! The library decides and computes. Reading and writing bytes is left to the
//! caller, who hands in what was read and carries out what was decided.

pub mod accumulator;
pub mod compact;
pub mod config;
pub mod described;
pub mod embedded;
pub mod encoding;
pub mod error;
pub mod footer;
pub mod format;
pub mod metadata;
pub mod path;
pub mod properties;
pub mod schema;
pub mod settings;
pub mod sink;
pub mod statistics;
pub mod text;
pub mod tree;
pub mod write;
pub mod written;

pub use error::{Error, ErrorView};
