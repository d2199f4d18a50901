//! The error taxonomy of the parser.

use vstd::prelude::*;

verus! {

/// An error reported by the upstream byte stream, or by a size limit
/// imposed on it.
#[derive(Debug, Clone, PartialEq, Eq)]
pub enum PayloadError {
    /// The stream ended before a complete value could be read.
    Incomplete,
    /// A size limit was exceeded.
    Overflow,
}

/// A set of errors that can occur during parsing multipart streams.
#[derive(Debug, Clone, PartialEq, Eq)]
pub enum MultipartError {
    /// Content-Type header is not found.
    NoContentType,
    /// Can not parse Content-Type header.
    ParseContentType,
    /// Parsed Content-Type did not have "multipart" top-level media type.
    IncompatibleContentType,
    /// Multipart boundary is not found, or a boundary line is malformed.
    Boundary,
    /// Content-Disposition header was not found, or not of disposition
    /// type "form-data", when parsing a "form-data" field.
    ContentDispositionMissing,
    /// Content-Disposition name parameter was not found when parsing a
    /// "form-data" field.
    ContentDispositionNameMissing,
    /// Nested multipart is not supported.
    Nested,
    /// Multipart stream is incomplete.
    Incomplete,
    /// Malformed part headers.
    Decode,
    /// Payload error.
    Payload(PayloadError),
    /// The stream was polled through a handle that is not current.
    NotConsumed,
    /// A form field handler raised an error.
    Field(String),
    /// Duplicate field found (for collectors that deny duplicate fields).
    DuplicateField(String),
    /// Required field is missing.
    MissingField(String),
    /// Unknown field (for collectors that deny unknown fields).
    UnknownField(String),
}

} // verus!
