//! Error taxonomy of the reader.
//!
//! Failures are either I/O failures (`IoKind`, here only truncation of
//! the byte source) or format failures (`FormatKind`), one variant per
//! decoding stage that can reject its input.

use vstd::prelude::*;

verus! {

/// Cause of an I/O failure while reading the byte source.
#[derive(Clone, Copy, Debug, PartialEq, Eq, Structural)]
pub enum IoKind {
    /// Fewer bytes were available than the format requires.
    Truncated,
}

/// Cause of a format failure while decoding the preamble or header.
#[derive(Clone, Copy, Debug, PartialEq, Eq, Structural)]
pub enum FormatKind {
    /// The first six bytes are not the fixed magic sequence.
    BadMagic,
    /// The major version is outside the supported set.
    UnsupportedVersion,
    /// The header text is not a well-formed header literal.
    HeaderSyntax,
    /// The dtype string names an unsupported byte order, kind or item size.
    UnsupportedDType,
    /// A flat buffer does not have exactly `product(shape)` elements.
    ShapeMismatch,
}

/// An error of the reader: an I/O failure or a format failure.
#[derive(Clone, Copy, Debug, PartialEq, Eq, Structural)]
pub enum NpyError {
    IOError(IoKind),
    FormatError(FormatKind),
}

} // verus!
