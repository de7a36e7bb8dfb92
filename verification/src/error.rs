//! The ways in which decoding and encoding fail.

use vstd::prelude::*;
use crate::wire::WireType;

verus! {

/// Why a message could not be decoded or encoded. The first error ends the
/// whole call; a message that a failed merge has touched is to be discarded.
#[derive(Clone, Debug, PartialEq, Eq)]
pub enum Error {
    /// A field arrived with a wire type other than the one its declared kind
    /// is framed with.
    WireTypeMismatch { expected: WireType, actual: WireType },
    /// A field refers to an enum type that the descriptor set does not hold.
    UnresolvedEnum { name: String },
    /// A field refers to a message type that the descriptor set does not hold.
    UnresolvedMessage { name: String },
    /// The input is truncated or malformed: it ends inside a value, or holds
    /// a varint without an end, a tag that is none, or a string that is not
    /// UTF-8.
    Malformed,
    /// A field number that no tag can carry, zero or one above 536870911,
    /// where a value is to be written under it; or a negative field number.
    InvalidFieldNumber,
    /// A field is declared as a group, which is not supported.
    UnsupportedConstruct,
}

/// The mathematical value of an [`Error`], variant by variant: a name is a
/// sequence of characters.
pub enum ErrorView {
    WireTypeMismatch { expected: WireType, actual: WireType },
    UnresolvedEnum { name: Seq<char> },
    UnresolvedMessage { name: Seq<char> },
    Malformed,
    InvalidFieldNumber,
    UnsupportedConstruct,
}

impl View for Error {
    type V = ErrorView;

    open spec fn view(&self) -> ErrorView {
        match *self {
            Error::WireTypeMismatch { expected, actual } => ErrorView::WireTypeMismatch {
                expected,
                actual,
            },
            Error::UnresolvedEnum { name } => ErrorView::UnresolvedEnum { name: name@ },
            Error::UnresolvedMessage { name } => ErrorView::UnresolvedMessage { name: name@ },
            Error::Malformed => ErrorView::Malformed,
            Error::InvalidFieldNumber => ErrorView::InvalidFieldNumber,
            Error::UnsupportedConstruct => ErrorView::UnsupportedConstruct,
        }
    }
}

} // verus!
