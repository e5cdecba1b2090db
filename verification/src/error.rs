//! Failure taxonomy shared by the codec, the typed conversions and the
//! invocation pipeline.

use vstd::prelude::*;

verus! {

/// A failure of the value-tree codec.
///
/// `InvalidTag` carries the unrecognized discriminant byte, at whatever
/// level it was met (value tag, number subtype, boolean byte).
/// `InvalidNumber` marks a float with a non-finite bit pattern.
/// `InvalidString` marks string bytes that are not valid UTF-8.
/// `Truncated` marks input that ends in the middle of an element.
/// `TooDeep` marks nesting beyond the decoder's hardening limit.
/// `TrailingData` marks bytes left over after a complete value.
#[derive(Debug, Clone, Copy, PartialEq, Eq)]
pub enum CodecError {
    InvalidTag(u8),
    InvalidNumber,
    InvalidString,
    Truncated,
    TooDeep,
    TrailingData,
}

/// A failure to convert a decoded value tree into a typed domain structure:
/// the tree does not match the expected shape.
#[derive(Debug, Clone, Copy, PartialEq, Eq)]
pub enum ConversionError {
    ShapeMismatch,
}

} // verus!
