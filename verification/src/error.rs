//! The errors of decoding, and the color types of images.

use vstd::prelude::*;

use crate::decoder::ChunkType;
use crate::ifd::Value;
use crate::stream::IoError;
use crate::tags::{CompressionMethod, PhotometricInterpretation, PlanarConfiguration, SampleFormat, Tag};

verus! {

/// The color type of an image: its components, each with a number of bits.
#[derive(Debug, Clone, Copy, PartialEq, Eq, Structural)]
pub enum ColorType {
    /// Pixel is grayscale
    Gray(u8),
    /// Pixel contains R, G and B channels
    RGB(u8),
    /// Pixel is an index into a color palette
    Palette(u8),
    /// Pixel is grayscale with an alpha channel
    GrayA(u8),
    /// Pixel is RGB with an alpha channel
    RGBA(u8),
    /// Pixel is CMYK
    CMYK(u8),
    /// Pixel is YCbCr
    YCbCr(u8),
}

/// Tiff error kinds.
#[derive(Debug, PartialEq)]
pub enum TiffError {
    /// The Image is not formatted properly.
    FormatError(TiffFormatError),
    /// The Decoder does not support features required by the image.
    UnsupportedError(TiffUnsupportedError),
    /// A read ran past the end of the data.
    IoError(IoError),
    /// The Limits of the Decoder is exceeded.
    LimitsExceeded,
    /// An integer conversion to or from a platform size failed, either due to
    /// limits of the platform size or limits of the format.
    IntSizeError,
    /// The image does not support the requested operation
    UsageError(UsageError),
}

/// The image is not formatted properly.
#[derive(Debug, PartialEq)]
pub enum TiffFormatError {
    TiffSignatureNotFound,
    TiffSignatureInvalid,
    ImageFileDirectoryNotFound,
    InconsistentSizesEncountered,
    InvalidDimensions(u32, u32),
    InvalidTag,
    InvalidTagValueType(Tag),
    RequiredTagNotFound(Tag),
    UnknownPredictor(u16),
    ByteExpected(Value),
    UnsignedIntegerExpected(Value),
    SignedIntegerExpected(Value),
    StripTileTagConflict,
    CycleInOffsets,
    SamplesPerPixelIsZero,
}

/// The Decoder does not support features required by the image.
#[derive(Debug, PartialEq)]
pub enum TiffUnsupportedError {
    HorizontalPredictor(ColorType),
    FloatingPointPredictor(ColorType),
    InconsistentBitsPerSample(Vec<u8>),
    InterpretationWithBits(PhotometricInterpretation, Vec<u8>),
    UnknownInterpretation,
    UnknownCompressionMethod,
    UnsupportedCompressionMethod(CompressionMethod),
    UnsupportedSampleDepth(u16),
    UnsupportedSampleFormat(Vec<SampleFormat>),
    UnsupportedColorType(ColorType),
    UnsupportedBitsPerChannel(u8),
    UnsupportedPlanarConfig(Option<PlanarConfiguration>),
    UnsupportedDataType,
}

/// User attempted to use the Decoder in a way that is incompatible with a
/// specific image.
#[derive(Debug, Clone, Copy, PartialEq, Eq, Structural)]
pub enum UsageError {
    InvalidChunkType(ChunkType, ChunkType),
    InvalidChunkIndex(u32),
}

/// The result of a decoding step.
pub type TiffResult<T> = Result<T, TiffError>;

} // verus!
