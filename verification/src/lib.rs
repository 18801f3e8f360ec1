//! A small library for storing named, timestamped text snippets.
//!
//! The collection of snippets is a mapping from names to snippets; it is
//! persisted as a whole, either as a JSON file or as rows of a relational
//! table.  The encoding and decoding of both persisted forms, the collection
//! operations, the storage selector and the command dispatcher are verified;
//! file, database and network access live outside the library.

pub mod chars;
pub mod error;
pub mod timestamp;
pub mod store;
pub mod rows;
pub mod json;
pub mod config;
pub mod dispatch;
pub mod clock;
