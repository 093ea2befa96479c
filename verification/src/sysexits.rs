//! Exit codes of the command-line tool, after `sysexits.h`.

use crate::error::{BlobStoreError, IoErrorKind};
use vstd::prelude::*;
use vstd::std_specs::convert::FromSpecImpl;

verus! {

/// What a run of the tool ended with.
#[allow(non_camel_case_types)]
#[derive(Clone, Copy, Debug, PartialEq, Eq, Structural)]
pub enum Sysexits {
    EX_OK,
    EX_USAGE,
    EX_DATAERR,
    EX_NOINPUT,
    EX_NOUSER,
    EX_NOHOST,
    EX_UNAVAILABLE,
    EX_SOFTWARE,
    EX_OSERR,
    EX_OSFILE,
    EX_CANTCREAT,
    EX_IOERR,
    EX_TEMPFAIL,
    EX_PROTOCOL,
    EX_NOPERM,
    EX_CONFIG,
}

/// The number that the process exits with: 0 for success, 64 to 78 for the
/// failures, in the order of their declaration.
pub open spec fn exit_code(exit: Sysexits) -> int {
    match exit {
        Sysexits::EX_OK => 0,
        Sysexits::EX_USAGE => 64,
        Sysexits::EX_DATAERR => 65,
        Sysexits::EX_NOINPUT => 66,
        Sysexits::EX_NOUSER => 67,
        Sysexits::EX_NOHOST => 68,
        Sysexits::EX_UNAVAILABLE => 69,
        Sysexits::EX_SOFTWARE => 70,
        Sysexits::EX_OSERR => 71,
        Sysexits::EX_OSFILE => 72,
        Sysexits::EX_CANTCREAT => 73,
        Sysexits::EX_IOERR => 74,
        Sysexits::EX_TEMPFAIL => 75,
        Sysexits::EX_PROTOCOL => 76,
        Sysexits::EX_NOPERM => 77,
        Sysexits::EX_CONFIG => 78,
    }
}

/// The exit for an input/output failure of each class. A class that is not
/// listed ends as `EX_UNAVAILABLE`.
pub open spec fn exit_for_io(kind: IoErrorKind) -> Sysexits {
    match kind {
        IoErrorKind::AddrInUse => Sysexits::EX_TEMPFAIL,
        IoErrorKind::AddrNotAvailable => Sysexits::EX_USAGE,
        IoErrorKind::AlreadyExists => Sysexits::EX_CANTCREAT,
        IoErrorKind::BrokenPipe => Sysexits::EX_IOERR,
        IoErrorKind::ConnectionAborted => Sysexits::EX_PROTOCOL,
        IoErrorKind::ConnectionRefused => Sysexits::EX_UNAVAILABLE,
        IoErrorKind::ConnectionReset => Sysexits::EX_PROTOCOL,
        IoErrorKind::Interrupted => Sysexits::EX_TEMPFAIL,
        IoErrorKind::InvalidData => Sysexits::EX_DATAERR,
        IoErrorKind::InvalidInput => Sysexits::EX_DATAERR,
        IoErrorKind::NotConnected => Sysexits::EX_PROTOCOL,
        IoErrorKind::NotFound => Sysexits::EX_NOINPUT,
        IoErrorKind::Other => Sysexits::EX_UNAVAILABLE,
        IoErrorKind::OutOfMemory => Sysexits::EX_TEMPFAIL,
        IoErrorKind::PermissionDenied => Sysexits::EX_NOPERM,
        IoErrorKind::TimedOut => Sysexits::EX_IOERR,
        IoErrorKind::UnexpectedEof => Sysexits::EX_IOERR,
        IoErrorKind::Unsupported => Sysexits::EX_SOFTWARE,
        IoErrorKind::WouldBlock => Sysexits::EX_IOERR,
        IoErrorKind::WriteZero => Sysexits::EX_IOERR,
        IoErrorKind::Uncategorized => Sysexits::EX_UNAVAILABLE,
    }
}

/// The exit for each failure of a store: an input/output failure by its
/// class, bad data or input as `EX_DATAERR`, a blob that is gone as
/// `EX_NOINPUT`, a refused mutation as `EX_NOPERM`, a backend off its
/// protocol as `EX_PROTOCOL`, and anything else as `EX_SOFTWARE`.
pub open spec fn exit_for(error: BlobStoreError) -> Sysexits {
    match error {
        BlobStoreError::IO(failure) => exit_for_io(failure.kind),
        BlobStoreError::DataError => Sysexits::EX_DATAERR,
        BlobStoreError::InvalidInput(_) => Sysexits::EX_DATAERR,
        BlobStoreError::Removed => Sysexits::EX_NOINPUT,
        BlobStoreError::NotWritable => Sysexits::EX_NOPERM,
        BlobStoreError::Unexpected => Sysexits::EX_PROTOCOL,
        BlobStoreError::Unsupported => Sysexits::EX_SOFTWARE,
        BlobStoreError::Unimplemented(_) => Sysexits::EX_SOFTWARE,
        BlobStoreError::Other(_) => Sysexits::EX_SOFTWARE,
    }
}

impl Sysexits {
    /// The number that the process exits with.
    pub fn code(&self) -> (code: i32)
        ensures
            code == exit_code(*self),
    {
        match self {
            Sysexits::EX_OK => 0,
            Sysexits::EX_USAGE => 64,
            Sysexits::EX_DATAERR => 65,
            Sysexits::EX_NOINPUT => 66,
            Sysexits::EX_NOUSER => 67,
            Sysexits::EX_NOHOST => 68,
            Sysexits::EX_UNAVAILABLE => 69,
            Sysexits::EX_SOFTWARE => 70,
            Sysexits::EX_OSERR => 71,
            Sysexits::EX_OSFILE => 72,
            Sysexits::EX_CANTCREAT => 73,
            Sysexits::EX_IOERR => 74,
            Sysexits::EX_TEMPFAIL => 75,
            Sysexits::EX_PROTOCOL => 76,
            Sysexits::EX_NOPERM => 77,
            Sysexits::EX_CONFIG => 78,
        }
    }
}

impl Default for Sysexits {
    fn default() -> (exit: Sysexits)
        ensures
            exit == Sysexits::EX_OK,
    {
        Sysexits::EX_OK
    }
}

impl From<IoErrorKind> for Sysexits {
    fn from(kind: IoErrorKind) -> (exit: Sysexits) {
        match kind {
            IoErrorKind::AddrInUse => Sysexits::EX_TEMPFAIL,
            IoErrorKind::AddrNotAvailable => Sysexits::EX_USAGE,
            IoErrorKind::AlreadyExists => Sysexits::EX_CANTCREAT,
            IoErrorKind::BrokenPipe => Sysexits::EX_IOERR,
            IoErrorKind::ConnectionAborted => Sysexits::EX_PROTOCOL,
            IoErrorKind::ConnectionRefused => Sysexits::EX_UNAVAILABLE,
            IoErrorKind::ConnectionReset => Sysexits::EX_PROTOCOL,
            IoErrorKind::Interrupted => Sysexits::EX_TEMPFAIL,
            IoErrorKind::InvalidData => Sysexits::EX_DATAERR,
            IoErrorKind::InvalidInput => Sysexits::EX_DATAERR,
            IoErrorKind::NotConnected => Sysexits::EX_PROTOCOL,
            IoErrorKind::NotFound => Sysexits::EX_NOINPUT,
            IoErrorKind::Other => Sysexits::EX_UNAVAILABLE,
            IoErrorKind::OutOfMemory => Sysexits::EX_TEMPFAIL,
            IoErrorKind::PermissionDenied => Sysexits::EX_NOPERM,
            IoErrorKind::TimedOut => Sysexits::EX_IOERR,
            IoErrorKind::UnexpectedEof => Sysexits::EX_IOERR,
            IoErrorKind::Unsupported => Sysexits::EX_SOFTWARE,
            IoErrorKind::WouldBlock => Sysexits::EX_IOERR,
            IoErrorKind::WriteZero => Sysexits::EX_IOERR,
            IoErrorKind::Uncategorized => Sysexits::EX_UNAVAILABLE,
        }
    }
}

impl FromSpecImpl<IoErrorKind> for Sysexits {
    open spec fn obeys_from_spec() -> bool {
        true
    }

    open spec fn from_spec(kind: IoErrorKind) -> Sysexits {
        exit_for_io(kind)
    }
}

impl From<BlobStoreError> for Sysexits {
    fn from(error: BlobStoreError) -> (exit: Sysexits) {
        match error {
            BlobStoreError::IO(failure) => Sysexits::from(failure.kind),
            BlobStoreError::DataError => Sysexits::EX_DATAERR,
            BlobStoreError::InvalidInput(_) => Sysexits::EX_DATAERR,
            BlobStoreError::Removed => Sysexits::EX_NOINPUT,
            BlobStoreError::NotWritable => Sysexits::EX_NOPERM,
            BlobStoreError::Unexpected => Sysexits::EX_PROTOCOL,
            BlobStoreError::Unsupported => Sysexits::EX_SOFTWARE,
            BlobStoreError::Unimplemented(_) => Sysexits::EX_SOFTWARE,
            BlobStoreError::Other(_) => Sysexits::EX_SOFTWARE,
        }
    }
}

impl FromSpecImpl<BlobStoreError> for Sysexits {
    open spec fn obeys_from_spec() -> bool {
        true
    }

    open spec fn from_spec(error: BlobStoreError) -> Sysexits {
        exit_for(error)
    }
}

} // verus!
