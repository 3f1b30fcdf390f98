//! The decoder's error taxonomy. The first error aborts the decode; no
//! partial term is returned.
use vstd::prelude::*;

verus! {

/// The inner kind an integer sub-read demanded.
#[derive(Clone, Copy, Debug, PartialEq, Eq, Structural)]
pub enum ExpectedKind {
    Atom,
    Integer,
    Pid,
    SmallInteger,
}

/// What can go wrong while decoding a term.
#[derive(Clone, Copy, Debug, PartialEq, Eq, Structural)]
pub enum DecodeError {
    /// The byte source ended early or held data the format does not admit.
    Io,
    /// The leading byte was not the version magic.
    UnsupportedVersion { version: u8 },
    /// The tag byte names no term kind.
    UnknownTag { tag: u8 },
    /// An inner read demanded a specific sub-kind and met another tag.
    UnexpectedType { expected: ExpectedKind },
    /// A numeric field escaped its declared domain.
    OutOfRange { value: u32, limit: u32 },
    /// A float parse or conversion would have produced NaN or an infinity.
    NonFiniteFloat,
}

} // verus!
