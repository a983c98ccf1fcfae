//! Error values returned by the codec.

use vstd::prelude::*;

verus! {

/// Failure to write a record into a caller-supplied buffer.
#[derive(Debug, Clone, Copy, PartialEq, Eq, Structural)]
pub enum Error {
    /// The destination buffer cannot hold the serialized form.
    BufferFull,
    /// The packet's length in words does not fit the header's size field.
    SizeOverflow,
    /// The packet's length in words fits the size field, but is no whole
    /// number of 32-bit words, so that no packet size can stand for it.
    Misaligned,
}

/// Failure to read a record from a byte stream.
#[derive(Debug, Clone, Copy, PartialEq, Eq, Structural)]
pub enum ParseError {
    /// The input is a prefix of a longer record. The number says how many
    /// bytes are called for, or is zero where that is not known.
    Incomplete(usize),
    /// The input cannot be the start of any valid record.
    Malformed,
}

} // verus!
