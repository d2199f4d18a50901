//! A streaming parser for `multipart/*` HTTP request bodies.
//!
//! The request body is exposed as a two-level lazy sequence: an outer
//! sequence of fields, each itself a lazy sequence of byte chunks.  A
//! byte-buffered payload accumulates bytes from the upstream stream and
//! offers line-, delimiter- and size-bounded reads; a state machine
//! locates boundaries, parses per-part headers and hands out per-part
//! readers; a guard enforces that the outer sequence is not advanced
//! while a part is still being consumed.

pub mod buffer;
pub mod bytes;
pub mod chars;
pub mod disposition;
pub mod error;
pub mod field;
pub mod form;
pub mod headers;
pub mod media;
pub mod multipart;
pub mod safety;
