//! Error values surfaced by digests and blob stores.

use vstd::prelude::*;

verus! {

/// Why a byte or text input is not a blob digest.
#[derive(Debug)]
pub enum BlobHashError {
    /// The input held nothing at all.
    Empty,
    /// The input held this many bytes where 32 are needed.
    InvalidLength(usize),
    /// The input, as text, is not a digest in any accepted encoding.
    InvalidInput(String),
}

/// The class of an input/output failure, as the operating system reports it.
#[derive(Clone, Copy, Debug, PartialEq, Eq, Structural)]
pub enum IoErrorKind {
    AddrInUse,
    AddrNotAvailable,
    AlreadyExists,
    BrokenPipe,
    ConnectionAborted,
    ConnectionRefused,
    ConnectionReset,
    Interrupted,
    InvalidData,
    InvalidInput,
    NotConnected,
    NotFound,
    Other,
    OutOfMemory,
    PermissionDenied,
    TimedOut,
    UnexpectedEof,
    Unsupported,
    WouldBlock,
    WriteZero,
    /// Any class that has no variant of its own here.
    Uncategorized,
}

/// An input/output failure: its class and the message that came with it.
#[derive(Debug)]
pub struct IoError {
    pub kind: IoErrorKind,
    pub message: String,
}

/// Why a blob store operation did not complete.
#[derive(Debug)]
pub enum BlobStoreError {
    /// The backend has no such operation.
    Unsupported,
    /// The backend does not provide the named operation yet.
    Unimplemented(String),
    /// A backend answered outside of its protocol.
    Unexpected,
    /// A mutation was attempted on a read-only store.
    NotWritable,
    /// The index slot exists but its content is gone.
    Removed,
    /// Content does not hash to the digest it was claimed under.
    DataError,
    /// A digest string or a number could not be understood.
    InvalidInput(String),
    /// The underlying storage failed.
    IO(IoError),
    /// Any other failure, by its message.
    Other(String),
}

impl IoError {
    /// An input/output failure of class `kind` with the text `message`.
    pub fn new(kind: IoErrorKind, message: &str) -> (e: IoError)
        ensures
            e.kind == kind,
            e.message@ == message@,
    {
        IoError { kind, message: message.to_owned() }
    }
}

impl BlobStoreError {
    /// The error for an operation that the backend does not provide yet.
    pub fn unimplemented(operation: &str) -> (e: BlobStoreError)
        ensures
            e matches BlobStoreError::Unimplemented(name) && name@ == operation@,
    {
        BlobStoreError::Unimplemented(operation.to_owned())
    }

    /// The error that carries an input/output failure.
    pub fn from_io(error: IoError) -> (e: BlobStoreError)
        ensures
            e == BlobStoreError::IO(error),
    {
        BlobStoreError::IO(error)
    }
}

} // verus!
