//! Error taxonomies of the codec and of the mutation API.

use vstd::prelude::*;

verus! {

/// Reason a file header was rejected, carrying the expected and the
/// actual value where the two can differ.
#[derive(Clone, Copy, Debug, PartialEq, Eq, Structural)]
pub enum HeaderReason {
    /// The magic field does not hold the expected constant.
    WrongMagic { expected: u16, actual: u16 },
    /// The two step table counts disagree.
    StepCountMismatch { steps1: u16, steps2: u16 },
    /// The sentinel field does not hold the expected constant.
    WrongSentinel { expected: u16, actual: u16 },
}

/// Reason a file body was rejected after the header passed.
#[derive(Clone, Copy, Debug, PartialEq, Eq, Structural)]
pub enum FileReason {
    /// The length computed from the header counts differs from the
    /// buffer length.
    WrongLength { expected: usize, actual: usize },
    /// A read would run past the end of the buffer.
    OutOfBoundsRead,
    /// A fixed-width name field holds a byte outside the ASCII range.
    NameNotAscii,
    /// A string data value does not end in a zero byte.
    StringNotTerminated,
    /// A string data value holds a byte outside the ASCII range.
    StringNotAscii,
    /// A data definition record carries an unrecognized type tag.
    UnknownDataType { tag: u16 },
    /// A dependency pointer resolves to an actor or step position that
    /// lies before the start of its own event's range.
    WaitNotResolvable,
}

/// A decode failure.  Decoding is atomic: on any failure no partial
/// event list is returned.
#[derive(Clone, Copy, Debug, PartialEq, Eq, Structural)]
pub enum ZevParseError {
    /// The header was rejected before any table was read.
    InvalidHeader(HeaderReason),
    /// A table or blob was rejected.
    InvalidFile(FileReason),
}

/// An encode failure.  The verified encoder never produces one; the
/// variant exists as a defensive backstop in the public signature.
#[derive(Clone, Copy, Debug, PartialEq, Eq, Structural)]
pub enum ZevWriteError {
    LogicError,
}

/// A rejected mutation.  Mutations validate fully before changing
/// anything, so a failure leaves the graph untouched.
#[derive(Clone, Copy, Debug, PartialEq, Eq, Structural)]
pub enum MutationError {
    /// A name holds a byte outside the ASCII range.
    StringNotAscii,
    /// A name exceeds its field's byte budget.
    StringTooLong,
    /// A name must fill its field exactly and does not.
    StringSizeWrong,
    /// An actor or step index does not exist.
    OutOfRange,
    /// Reserved for edges that would duplicate an existing one; no
    /// current operation produces it.
    AlreadyExists,
}

} // verus!
