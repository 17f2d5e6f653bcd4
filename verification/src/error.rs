//! The kinds of failure.

use vstd::prelude::*;

verus! {

/// What went wrong.
#[derive(Copy, Clone, Debug, PartialEq, Eq, Structural)]
pub enum DkError {
    /// A file could not be opened, read or written.
    Io,
    /// The bytes are no container: the magic number is wrong, the bytes end
    /// too early, a name is not UTF-8, or a type tag names no type.
    InvalidFormat,
    /// The container was written in a version of the format other than
    /// the one that is read here.
    UnsupportedVersion,
    /// No item of the name that was asked for.
    LookupNotFound,
    /// An item is not of the type that was asked for.
    TypeMismatch,
    /// An axis without bins, or counts that are not one for each bin.
    ConstraintViolation,
}

impl DkError {
    /// Returns a short description of the kind of failure.
    pub fn message(&self) -> (s: &'static str)
        ensures
            s@ == match *self {
                DkError::Io => "input or output failed"@,
                DkError::InvalidFormat => "not a container of this format"@,
                DkError::UnsupportedVersion => "version of the format not supported"@,
                DkError::LookupNotFound => "no item of that name"@,
                DkError::TypeMismatch => "item of another type"@,
                DkError::ConstraintViolation => "axes and counts do not fit"@,
            },
    {
        match self {
            DkError::Io => "input or output failed",
            DkError::InvalidFormat => "not a container of this format",
            DkError::UnsupportedVersion => "version of the format not supported",
            DkError::LookupNotFound => "no item of that name",
            DkError::TypeMismatch => "item of another type",
            DkError::ConstraintViolation => "axes and counts do not fit",
        }
    }
}

} // verus!
