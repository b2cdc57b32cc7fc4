use vstd::prelude::*;

verus! {

/// A failure reported by a storage backend.
#[derive(Debug, PartialEq, Eq)]
pub enum StorageError {
    /// No object is stored under the key: a normal negative lookup.
    NotFound,
    /// The connection to the store failed.
    Transport(String),
    /// The store answered with a fault.
    Backend(String),
}

/// Why an upload did not complete.
#[derive(Debug, PartialEq, Eq)]
pub enum UploadError {
    /// The inbound body ended abnormally (a disconnect or a transport error).
    Inbound,
    /// The backend write failed.
    Storage(StorageError),
}

/// The transport error that carries the message of a failed I/O operation.
pub fn err(message: String) -> (r: StorageError)
    ensures
        r == StorageError::Transport(message),
{
    StorageError::Transport(message)
}

} // verus!
