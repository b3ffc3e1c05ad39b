//! The ways the pipeline fails.
use vstd::prelude::*;

verus! {

#[derive(Clone, Copy, Debug, PartialEq, Eq, Structural)]
pub enum WatermarkError {
    /// The document is unreadable, or its structure is not as expected.
    MalformedDocument,
    /// A page has no DeviceRGB image.
    MissingImage,
    /// An image stream uses a filter other than FlateDecode or DCTDecode.
    UnsupportedFilter,
    /// A decoded image does not hold `width * height * 3` bytes.
    DecodedSizeMismatch { expected: u128, actual: u128 },
    /// The logo could not be decoded, or cannot be resized to the asked size.
    InvalidWatermark,
    /// The quality is neither `lossless` nor a number from 1 to 100.
    InvalidQuality,
    /// The page selection holds no page of the document.
    EmptySelection,
    /// An encoder or the document writer failed.
    IOFailure,
}

/// A failure on one page: its page number, and what went wrong.
#[derive(Clone, Copy, Debug, PartialEq, Eq, Structural)]
pub struct PageFailure {
    pub page: u32,
    pub error: WatermarkError,
}

} // verus!
