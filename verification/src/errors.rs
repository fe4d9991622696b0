//! The error taxonomy shared by every storage and export operation.

use vstd::prelude::*;

verus! {

/// Everything that can go wrong in the persistence and export layer.
///
/// The absence of a collection file is deliberately *not* represented here:
/// loading from a missing file yields an empty collection.
#[derive(Clone, Copy, PartialEq, Eq, Structural, Debug)]
pub enum StoreError {
    /// The platform could not resolve a required system directory
    /// (application data directory, downloads directory).
    DirectoryUnavailable,
    /// A filesystem read, write or directory creation failed.
    IoError,
    /// A collection file exists but its contents are not valid JSON of the
    /// expected shape.
    DecodeError,
}

impl StoreError {
    /// A short human-readable description, for surfacing to the UI layer.
    pub fn describe(&self) -> (m: &'static str)
        ensures
            self is DirectoryUnavailable ==> m@ == "system directory unavailable"@,
            self is IoError ==> m@ == "filesystem operation failed"@,
            self is DecodeError ==> m@ == "stored collection is not valid JSON"@,
    {
        match self {
            StoreError::DirectoryUnavailable => "system directory unavailable",
            StoreError::IoError => "filesystem operation failed",
            StoreError::DecodeError => "stored collection is not valid JSON",
        }
    }
}

} // verus!
