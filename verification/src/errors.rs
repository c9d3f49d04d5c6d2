//! Error taxonomy of the storage engine, and the error shape handed to the
//! HTTP layer.

use vstd::prelude::*;

verus! {

/// What a repository operation can report.
///
/// `NotFound`: the entity is absent (not exceptional).
/// `BadRequest`: a caller-supplied precondition was violated.
/// `CorruptData`: stored bytes fail the codec's format contract, or a
/// referential link points to a missing record.
/// `StoreError`: the underlying key-value engine reported a failure.
#[derive(Clone, Copy, Debug, PartialEq, Eq, Structural)]
pub enum StorageError {
    NotFound,
    BadRequest,
    CorruptData,
    StoreError,
}

impl StorageError {
    /// A short human-readable label, in place of a `Display` impl.
    pub fn describe(&self) -> (r: &'static str)
        ensures
            r@ == match *self {
                StorageError::NotFound => "not found"@,
                StorageError::BadRequest => "bad request"@,
                StorageError::CorruptData => "corrupt data"@,
                StorageError::StoreError => "store error"@,
            },
    {
        match self {
            StorageError::NotFound => "not found",
            StorageError::BadRequest => "bad request",
            StorageError::CorruptData => "corrupt data",
            StorageError::StoreError => "store error",
        }
    }
}

/// An error as surfaced at the HTTP boundary: a message and a status code.
#[derive(Debug)]
pub struct BackendError {
    msg: String,
    status: u16,
}

impl BackendError {
    /// The message carried by this error.
    pub closed spec fn spec_msg(&self) -> Seq<char> {
        self.msg@
    }

    /// The HTTP status code carried by this error.
    pub closed spec fn spec_status(&self) -> u16 {
        self.status
    }

    pub fn new(msg: &str, status: u16) -> (r: Self)
        ensures
            r.spec_msg() == msg@,
            r.spec_status() == status,
    {
        let owned: String = msg.to_owned();
        BackendError { msg: owned, status }
    }

    pub fn get_status(&self) -> (r: &u16)
        ensures
            *r == self.spec_status(),
    {
        &self.status
    }

    pub fn get_msg(&self) -> (r: &str)
        ensures
            r@ == self.spec_msg(),
    {
        self.msg.as_str()
    }
}

} // verus!
