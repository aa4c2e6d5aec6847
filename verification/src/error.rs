//! The errors a decode pass can end with, and their mathematical model.

use vstd::prelude::*;

verus! {

/// A terminal decoding error. Every error aborts the whole decode pass; no
/// partial result is returned.
#[derive(Debug)]
pub enum ConverterError {
    /// The underlying document could not be read or written. The decoder
    /// itself never produces this; it exists for callers that parse or
    /// serialize the surrounding document.
    PlistError(String),
    /// A header value has the wrong shape: the key, and the expected type.
    WrongValueType(&'static str, &'static str),
    /// One of the four required header keys is absent.
    MissingHeaderKey(&'static str),
    /// The `$archiver` header names an archiver this decoder does not read.
    UnsupportedArchiver,
    /// The `$version` header is not the supported version.
    UnsupportedArchiverVersion,
    /// A reference addresses a slot outside the object table.
    InvalidObjectReference(u64),
    /// A container misses a structural key, or holds the wrong type at one;
    /// carries the table index of the offending object.
    InvalidObjectEncoding(u64),
    /// A `$class` field holds something other than a reference.
    InvalidClassReference(String),
    /// A value that had to be a reference (a root entry, a dictionary slot)
    /// is some other type; carries the key it sat under.
    ExpectedUIDValue(String),
    /// An object reaches itself again through its own fields; carries the
    /// table index at which the cycle closed.
    CyclicReference(u64),
}

/// The mathematical model of a [`ConverterError`].
#[verifier::ext_equal]
pub enum ErrV {
    PlistError(Seq<char>),
    WrongValueType(Seq<char>, Seq<char>),
    MissingHeaderKey(Seq<char>),
    UnsupportedArchiver,
    UnsupportedArchiverVersion,
    InvalidObjectReference(u64),
    InvalidObjectEncoding(u64),
    InvalidClassReference(Seq<char>),
    ExpectedUIDValue(Seq<char>),
    CyclicReference(u64),
}

impl View for ConverterError {
    type V = ErrV;

    open spec fn view(&self) -> ErrV {
        match self {
            ConverterError::PlistError(s) => ErrV::PlistError(s@),
            ConverterError::WrongValueType(k, t) => ErrV::WrongValueType(k@, t@),
            ConverterError::MissingHeaderKey(k) => ErrV::MissingHeaderKey(k@),
            ConverterError::UnsupportedArchiver => ErrV::UnsupportedArchiver,
            ConverterError::UnsupportedArchiverVersion => ErrV::UnsupportedArchiverVersion,
            ConverterError::InvalidObjectReference(u) => ErrV::InvalidObjectReference(*u),
            ConverterError::InvalidObjectEncoding(u) => ErrV::InvalidObjectEncoding(*u),
            ConverterError::InvalidClassReference(s) => ErrV::InvalidClassReference(s@),
            ConverterError::ExpectedUIDValue(k) => ErrV::ExpectedUIDValue(k@),
            ConverterError::CyclicReference(u) => ErrV::CyclicReference(*u),
        }
    }
}

} // verus!
