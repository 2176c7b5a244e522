use vstd::prelude::*;
use crate::cursor::IoError;

verus! {

/// Errors raised while reading or writing an archive.
#[derive(Debug)]
pub enum Error {
    /// Reading the underlying bytes failed.
    IO(IoError),
    /// The archive's contents break the format.
    CorruptArchive(String),
    /// No file of that name is in the archive.
    FileNotFound(String),
}

/// How reading a record can fail, at the level of the format.
#[derive(PartialEq, Eq, Structural)]
pub enum Failure {
    /// The bytes ran out.
    Eof,
    /// The bytes break the format.
    Corrupt,
    /// A compressed block could not be decompressed; the decoder reported
    /// an error of this kind.
    Undecodable(IoError),
}

/// Whether the outcome of a read is the error that stands for `f`.
pub open spec fn read_matches<T>(r: Result<T, Error>, f: Failure) -> bool {
    match f {
        Failure::Eof => r == Err::<T, Error>(Error::IO(IoError::UnexpectedEof)),
        Failure::Corrupt => r matches Err(Error::CorruptArchive(_)),
        Failure::Undecodable(k) => r == Err::<T, Error>(Error::IO(k)),
    }
}

impl Error {
    pub open spec fn is_io(self, e: IoError) -> bool {
        self == Error::IO(e)
    }

    pub open spec fn is_corrupt(self) -> bool {
        self is CorruptArchive
    }
}

/// Wraps a failed read of the underlying bytes.
pub fn io_error(e: IoError) -> (r: Error)
    ensures
        r == Error::IO(e),
{
    Error::IO(e)
}

/// A `CorruptArchive` error with the given message.
pub fn corrupt(message: &str) -> (r: Error)
    ensures
        r is CorruptArchive,
        r->CorruptArchive_0@ == message@,
{
    Error::CorruptArchive(message.to_owned())
}

} // verus!
