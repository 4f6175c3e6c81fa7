//! Errors reported by the codec.

use vstd::prelude::*;

verus! {

/// Everything that can go wrong while reading or writing a TIFF stream.
///
/// Reading from a truncated stream reports `UnexpectedEof`; a header whose
/// byte-order mark is neither `II` nor `MM` reports `InvalidEndianMagic`; a
/// header whose magic word is not 42 reports `InvalidMagicNumber`; a stream
/// without a single directory reports `NoDirectory`.  An ASCII payload with a
/// byte outside the 7-bit range reports `AsciiFormat`.  A value that a field
/// refuses to encode reports `EncodingError`, and a layout that would not fit
/// in 32-bit offsets reports `OutOfBounds`.  A baseline image without strip
/// placement fields reports `StripesInformationMissing`.
#[derive(Debug, Copy, Clone, PartialEq, Eq, Structural)]
pub enum TiffError {
    UnexpectedEof,
    InvalidEndianMagic,
    InvalidMagicNumber,
    NoDirectory,
    AsciiFormat,
    EncodingError,
    OutOfBounds,
    StripesInformationMissing,
}

} // verus!
