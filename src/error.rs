//! The library's error type.

use vstd::prelude::*;

verus! {

/// What can go wrong while capturing or looking up prompts.
#[derive(Debug)]
pub enum Error {
    /// The store refused an operation (a taken id, a count out of range),
    /// or the database behind it failed; the message says which.
    Database(String),
    /// A file could not be read or written.
    Io(String),
    /// A JSON document could not be parsed.
    Json(String),
    /// The platform reports no home directory.
    HomeDirNotFound,
    /// The data directory could not be created.
    DataDir(String),
    /// The prompt text is already stored.
    Duplicate,
}

} // verus!
