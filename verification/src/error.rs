//! The failures a storage operation can report.

use vstd::prelude::*;

verus! {

/// Every failure the library reports.  "Not found" on read or delete is not
/// among them: it is a normal outcome, not an error.
#[derive(Clone, Copy, PartialEq, Eq, Structural, Debug)]
pub enum StoreError {
    /// The configuration string names no known storage.
    ConfigurationError,
    /// A backend could not be constructed.
    StorageInitError,
    /// The persisted data is corrupt or cannot be decoded.
    StorageReadError,
    /// The persisted data could not be written.
    StorageWriteError,
    /// Downloading snippet content failed.
    FetchError,
    /// Reading snippet content from standard input failed.
    StdinReadError,
}

impl StoreError {
    /// A diagnostic line for this failure.
    pub fn message(&self) -> (r: String)
        ensures
            *self is ConfigurationError ==> r@ == "storage must be JSON:path or SQLITE:path"@,
            *self is StorageInitError ==> r@ == "cannot open the storage backend"@,
            *self is StorageReadError ==> r@ == "cannot read the stored snippets"@,
            *self is StorageWriteError ==> r@ == "cannot write the stored snippets"@,
            *self is FetchError ==> r@ == "cannot download the snippet content"@,
            *self is StdinReadError ==> r@ == "cannot read the snippet content"@,
    {
        match self {
            StoreError::ConfigurationError => String::from_str("storage must be JSON:path or SQLITE:path"),
            StoreError::StorageInitError => String::from_str("cannot open the storage backend"),
            StoreError::StorageReadError => String::from_str("cannot read the stored snippets"),
            StoreError::StorageWriteError => String::from_str("cannot write the stored snippets"),
            StoreError::FetchError => String::from_str("cannot download the snippet content"),
            StoreError::StdinReadError => String::from_str("cannot read the snippet content"),
        }
    }
}

} // verus!
