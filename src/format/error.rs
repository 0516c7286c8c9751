//! Failures of the value codec.
use vstd::prelude::*;

verus! {

/// `std::string::FromUtf8Error`, carried through as the cause of a rejected
/// string payload.
#[verifier::external_type_specification]
#[verifier::external_body]
pub struct ExFromUtf8Error(std::string::FromUtf8Error);

/// Why a value or a map could not be encoded or decoded.
#[derive(Debug)]
pub enum Error {
    /// The input ended inside an entry, or an entry ran past the length
    /// declared for its map.
    UnexpectedEof,
    /// A string payload is not valid UTF-8.
    InvalidUtf8(std::string::FromUtf8Error),
    /// A length does not fit the width the wire format gives it.
    IntegerOverflow,
    /// A type tag outside the known ones.
    InvalidDataType(u8),
    /// A boolean byte other than `0` or `1`.
    InvalidBoolean(u8),
}

/// The kind of an [`Error`], with the offending byte where it has one.
pub enum ErrorView {
    UnexpectedEof,
    InvalidUtf8,
    IntegerOverflow,
    InvalidDataType(u8),
    InvalidBoolean(u8),
}

impl View for Error {
    type V = ErrorView;

    open spec fn view(&self) -> ErrorView {
        match self {
            Error::UnexpectedEof => ErrorView::UnexpectedEof,
            Error::InvalidUtf8(_) => ErrorView::InvalidUtf8,
            Error::IntegerOverflow => ErrorView::IntegerOverflow,
            Error::InvalidDataType(t) => ErrorView::InvalidDataType(*t),
            Error::InvalidBoolean(b) => ErrorView::InvalidBoolean(*b),
        }
    }
}

} // verus!
