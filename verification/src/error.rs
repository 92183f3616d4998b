use vstd::prelude::*;

verus! {

/// The ways in which decoding RLP can fail.
#[derive(Clone, Copy, Debug, PartialEq, Eq)]
pub enum Error {
    /// A numeric value does not fit in the type it is decoded into.
    Overflow,
    /// A big-endian integer starts with a zero byte.
    LeadingZero,
    /// The input ended before the item it announced.
    InputTooShort,
    /// A single byte below `0x80` was wrapped in a string header.
    NonCanonicalSingleByte,
    /// A length below 56 was written in the long form.
    NonCanonicalSize,
    /// A payload did not have the length that the target type needs.
    UnexpectedLength,
    /// A string was found where a list was expected.
    UnexpectedString,
    /// A list was found where a string was expected.
    UnexpectedList,
    /// A list held another number of items than expected.
    ListLengthMismatch { expected: usize, got: usize },
    /// Any other failure, with a fixed message.
    Custom(&'static str),
}

/// The result type of every decoding operation.
pub type Result<T> = core::result::Result<T, Error>;

} // verus!
