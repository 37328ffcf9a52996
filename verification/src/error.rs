//! The ways in which decoding fails.

use vstd::prelude::*;

verus! {

/// A failure of the bit-level frame decoder.
#[derive(Debug, Clone, PartialEq, Eq)]
pub enum BitGetError {
    /// A bit was wanted from the byte at `index`, past the `len` bytes there are.
    IndexOutOfBounds { index: usize, len: usize },
    /// Attributes arrived for a channel on which no actor was ever created.
    UnknownActor(u32),
    /// No decoder is known for the attribute of this name.
    UnknownAttribute(String),
    /// An attribute resolved to an index past the end of the object table.
    UnknownAttributeIndex(u32),
    /// The class of an actor has no attribute table.
    UnknownClass(u32),
    /// A name index past the end of the name table.
    UnknownName(u32),
    /// An object index past the end of the object table.
    UnknownObject(u32),
    /// No class has an id below the index of the named object.
    UnknownObjectClass(String),
    /// A stream id that the class of the actor does not carry.
    UnknownStreamId(u32),
}

/// The mathematical content of a [`BitGetError`].
pub enum BitGetFault {
    IndexOutOfBounds { index: usize, len: usize },
    UnknownActor(u32),
    UnknownAttribute(Seq<char>),
    UnknownAttributeIndex(u32),
    UnknownClass(u32),
    UnknownName(u32),
    UnknownObject(u32),
    UnknownObjectClass(Seq<char>),
    UnknownStreamId(u32),
}

impl View for BitGetError {
    type V = BitGetFault;

    open spec fn view(&self) -> BitGetFault {
        match *self {
            BitGetError::IndexOutOfBounds { index, len } => BitGetFault::IndexOutOfBounds {
                index,
                len,
            },
            BitGetError::UnknownActor(x) => BitGetFault::UnknownActor(x),
            BitGetError::UnknownAttribute(s) => BitGetFault::UnknownAttribute(s@),
            BitGetError::UnknownAttributeIndex(x) => BitGetFault::UnknownAttributeIndex(x),
            BitGetError::UnknownClass(x) => BitGetFault::UnknownClass(x),
            BitGetError::UnknownName(x) => BitGetFault::UnknownName(x),
            BitGetError::UnknownObject(x) => BitGetFault::UnknownObject(x),
            BitGetError::UnknownObjectClass(s) => BitGetFault::UnknownObjectClass(s@),
            BitGetError::UnknownStreamId(x) => BitGetFault::UnknownStreamId(x),
        }
    }
}

/// A failure of the byte-level container decoder.
#[derive(Debug, Clone, PartialEq, Eq)]
pub enum GetError {
    /// The frame stream inside the content section failed to decode.
    BitGet(BitGetError),
    /// A section's body does not hash to the checksum stored before it.
    ChecksumMismatch { expected: u32, actual: u32 },
    /// A read wanted bytes up to `index`, past the `len` bytes there are.
    IndexOutOfBounds { index: usize, len: usize },
    /// These bytes of a text are not well-formed UTF-16.
    InvalidUtf16(Vec<u8>),
    /// These bytes of a text hold a byte that Windows-1252 leaves undefined.
    InvalidWindows1252(Vec<u8>),
    /// A property is labelled with a kind that the format does not have.
    UnknownProperty(String),
}

/// The mathematical content of a [`GetError`].
pub enum GetFault {
    BitGet(BitGetFault),
    ChecksumMismatch { expected: u32, actual: u32 },
    IndexOutOfBounds { index: usize, len: usize },
    InvalidUtf16(Seq<u8>),
    InvalidWindows1252(Seq<u8>),
    UnknownProperty(Seq<char>),
}

impl View for GetError {
    type V = GetFault;

    open spec fn view(&self) -> GetFault {
        match *self {
            GetError::BitGet(e) => GetFault::BitGet(e@),
            GetError::ChecksumMismatch { expected, actual } => GetFault::ChecksumMismatch {
                expected,
                actual,
            },
            GetError::IndexOutOfBounds { index, len } => GetFault::IndexOutOfBounds { index, len },
            GetError::InvalidUtf16(raw) => GetFault::InvalidUtf16(raw@),
            GetError::InvalidWindows1252(raw) => GetFault::InvalidWindows1252(raw@),
            GetError::UnknownProperty(s) => GetFault::UnknownProperty(s@),
        }
    }
}

} // verus!
