//! Error values returned by readers, sinks, the database reader and the builder.

use vstd::prelude::*;

verus! {

/// The category of an I/O failure.
#[derive(Clone, Copy, Debug, PartialEq, Eq, Structural)]
pub enum ErrorKind {
    /// Fewer bytes than requested remain in the source.
    UnexpectedEof,
    /// Decoded lengths or offsets point past a region boundary.
    InvalidData,
    /// An argument cannot be represented by the medium.
    InvalidInput,
    /// A transient interruption; the operation may be retried.
    Interrupted,
    /// Any other failure of the underlying medium.
    Other,
}

/// A failed read, write, seek or flush.
#[derive(Clone, Copy, Debug, PartialEq, Eq, Structural)]
pub struct IoError {
    kind: ErrorKind,
}

impl IoError {
    /// The category of this failure, as a specification value.
    pub closed spec fn spec_kind(&self) -> ErrorKind {
        self.kind
    }

    /// The error of the given category, as a specification value.
    pub closed spec fn of_kind(kind: ErrorKind) -> IoError {
        IoError { kind }
    }

    /// An error is its category and nothing else.
    pub proof fn lemma_of_kind(e: IoError, kind: ErrorKind)
        ensures
            IoError::of_kind(e.spec_kind()) == e,
            IoError::of_kind(kind).spec_kind() == kind,
    {
    }

    /// Creates an error of the given category.
    pub fn new(kind: ErrorKind) -> (e: IoError)
        ensures
            e == IoError::of_kind(kind),
            e.spec_kind() == kind,
    {
        IoError { kind }
    }

    /// The category of this failure.
    #[verifier::when_used_as_spec(spec_kind)]
    pub fn kind(&self) -> (k: ErrorKind)
        ensures
            k == self.spec_kind(),
    {
        self.kind
    }

    /// A short description of the failure.
    pub fn message(&self) -> (s: &'static str)
        ensures
            s@ == kind_message(self.kind()),
    {
        match self.kind {
            ErrorKind::UnexpectedEof => "failed to fill whole buffer",
            ErrorKind::InvalidData => "record or table extends beyond its region",
            ErrorKind::InvalidInput => "length or offset exceeds what the format can hold",
            ErrorKind::Interrupted => "operation interrupted",
            ErrorKind::Other => "other I/O error",
        }
    }
}

/// The description of each category of I/O failure.
pub open spec fn kind_message(kind: ErrorKind) -> Seq<char> {
    match kind {
        ErrorKind::UnexpectedEof => "failed to fill whole buffer"@,
        ErrorKind::InvalidData => "record or table extends beyond its region"@,
        ErrorKind::InvalidInput => "length or offset exceeds what the format can hold"@,
        ErrorKind::Interrupted => "operation interrupted"@,
        ErrorKind::Other => "other I/O error"@,
    }
}

/// Errors that can occur when building or reading a database.
#[derive(Clone, Copy, Debug, PartialEq, Eq, Structural)]
pub enum Error {
    /// An I/O error occurred on the underlying medium.
    Io(IoError),
    /// A record was added to a builder that has already been finalized.
    WriterFinalized,
    /// The sink was requested from a builder that has not been finalized.
    WriterNotFinalized,
}

impl Error {
    /// Whether this is an I/O error of the given category.
    pub open spec fn is_io_of(&self, kind: ErrorKind) -> bool {
        match *self {
            Error::Io(e) => e.kind() == kind,
            _ => false,
        }
    }

    /// A short description of the error: for an I/O error that of its category.
    pub fn message(&self) -> (s: &'static str)
        ensures
            s@ == match *self {
                Error::Io(e) => kind_message(e.kind()),
                Error::WriterFinalized => "Attempted to operate on a finalized writer"@,
                Error::WriterNotFinalized => "Writer has not been finalized yet"@,
            },
    {
        match self {
            Error::Io(e) => e.message(),
            Error::WriterFinalized => "Attempted to operate on a finalized writer",
            Error::WriterNotFinalized => "Writer has not been finalized yet",
        }
    }
}

impl From<IoError> for Error {
    /// Wraps an I/O failure.
    fn from(e: IoError) -> (r: Error) {
        Error::Io(e)
    }
}

impl vstd::std_specs::convert::FromSpecImpl<IoError> for Error {
    open spec fn obeys_from_spec() -> bool {
        true
    }

    open spec fn from_spec(e: IoError) -> Error {
        Error::Io(e)
    }
}

} // verus!
