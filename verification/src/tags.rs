//! The numbers a TIFF file uses for its tags, field types and codes.

use vstd::prelude::*;

verus! {

/// A TIFF tag: the key of an entry of an image file directory.
#[derive(Debug, Clone, Copy, PartialEq, Eq, Structural)]
pub enum Tag {
    Artist,
    BitsPerSample,
    CellLength,
    CellWidth,
    ColorMap,
    Compression,
    Copyright,
    DateTime,
    ExtraSamples,
    FillOrder,
    FreeByteCounts,
    FreeOffsets,
    GrayResponseCurve,
    GrayResponseUnit,
    HostComputer,
    ImageDescription,
    ImageLength,
    ImageWidth,
    Make,
    MaxSampleValue,
    MinSampleValue,
    Model,
    NewSubfileType,
    Orientation,
    PhotometricInterpretation,
    PlanarConfiguration,
    ResolutionUnit,
    RowsPerStrip,
    SamplesPerPixel,
    Software,
    StripByteCounts,
    StripOffsets,
    SubfileType,
    Threshholding,
    XResolution,
    YResolution,
    Predictor,
    TileWidth,
    TileLength,
    TileOffsets,
    TileByteCounts,
    SubIfd,
    SampleFormat,
    SMinSampleValue,
    SMaxSampleValue,
    JPEGTables,
    ModelPixelScaleTag,
    ModelTransformationTag,
    ModelTiepointTag,
    GeoKeyDirectoryTag,
    GeoDoubleParamsTag,
    GeoAsciiParamsTag,
    GdalNodata,
    Unknown(u16),
}

impl Tag {
    /// The number that stands for this value in a file.
    pub open spec fn code(self) -> u16 {
        match self {
            Tag::Artist => 315,
            Tag::BitsPerSample => 258,
            Tag::CellLength => 265,
            Tag::CellWidth => 264,
            Tag::ColorMap => 320,
            Tag::Compression => 259,
            Tag::Copyright => 33432,
            Tag::DateTime => 306,
            Tag::ExtraSamples => 338,
            Tag::FillOrder => 266,
            Tag::FreeByteCounts => 289,
            Tag::FreeOffsets => 288,
            Tag::GrayResponseCurve => 291,
            Tag::GrayResponseUnit => 290,
            Tag::HostComputer => 316,
            Tag::ImageDescription => 270,
            Tag::ImageLength => 257,
            Tag::ImageWidth => 256,
            Tag::Make => 271,
            Tag::MaxSampleValue => 281,
            Tag::MinSampleValue => 280,
            Tag::Model => 272,
            Tag::NewSubfileType => 254,
            Tag::Orientation => 274,
            Tag::PhotometricInterpretation => 262,
            Tag::PlanarConfiguration => 284,
            Tag::ResolutionUnit => 296,
            Tag::RowsPerStrip => 278,
            Tag::SamplesPerPixel => 277,
            Tag::Software => 305,
            Tag::StripByteCounts => 279,
            Tag::StripOffsets => 273,
            Tag::SubfileType => 255,
            Tag::Threshholding => 263,
            Tag::XResolution => 282,
            Tag::YResolution => 283,
            Tag::Predictor => 317,
            Tag::TileWidth => 322,
            Tag::TileLength => 323,
            Tag::TileOffsets => 324,
            Tag::TileByteCounts => 325,
            Tag::SubIfd => 330,
            Tag::SampleFormat => 339,
            Tag::SMinSampleValue => 340,
            Tag::SMaxSampleValue => 341,
            Tag::JPEGTables => 347,
            Tag::ModelPixelScaleTag => 33550,
            Tag::ModelTransformationTag => 34264,
            Tag::ModelTiepointTag => 33922,
            Tag::GeoKeyDirectoryTag => 34735,
            Tag::GeoDoubleParamsTag => 34736,
            Tag::GeoAsciiParamsTag => 34737,
            Tag::GdalNodata => 42113,
            Tag::Unknown(n) => n,
        }
    }

    /// The value a known number stands for.
    pub open spec fn spec_from_u16(n: u16) -> Option<Tag> {
        match n {
            315 => Some(Tag::Artist),
            258 => Some(Tag::BitsPerSample),
            265 => Some(Tag::CellLength),
            264 => Some(Tag::CellWidth),
            320 => Some(Tag::ColorMap),
            259 => Some(Tag::Compression),
            33432 => Some(Tag::Copyright),
            306 => Some(Tag::DateTime),
            338 => Some(Tag::ExtraSamples),
            266 => Some(Tag::FillOrder),
            289 => Some(Tag::FreeByteCounts),
            288 => Some(Tag::FreeOffsets),
            291 => Some(Tag::GrayResponseCurve),
            290 => Some(Tag::GrayResponseUnit),
            316 => Some(Tag::HostComputer),
            270 => Some(Tag::ImageDescription),
            257 => Some(Tag::ImageLength),
            256 => Some(Tag::ImageWidth),
            271 => Some(Tag::Make),
            281 => Some(Tag::MaxSampleValue),
            280 => Some(Tag::MinSampleValue),
            272 => Some(Tag::Model),
            254 => Some(Tag::NewSubfileType),
            274 => Some(Tag::Orientation),
            262 => Some(Tag::PhotometricInterpretation),
            284 => Some(Tag::PlanarConfiguration),
            296 => Some(Tag::ResolutionUnit),
            278 => Some(Tag::RowsPerStrip),
            277 => Some(Tag::SamplesPerPixel),
            305 => Some(Tag::Software),
            279 => Some(Tag::StripByteCounts),
            273 => Some(Tag::StripOffsets),
            255 => Some(Tag::SubfileType),
            263 => Some(Tag::Threshholding),
            282 => Some(Tag::XResolution),
            283 => Some(Tag::YResolution),
            317 => Some(Tag::Predictor),
            322 => Some(Tag::TileWidth),
            323 => Some(Tag::TileLength),
            324 => Some(Tag::TileOffsets),
            325 => Some(Tag::TileByteCounts),
            330 => Some(Tag::SubIfd),
            339 => Some(Tag::SampleFormat),
            340 => Some(Tag::SMinSampleValue),
            341 => Some(Tag::SMaxSampleValue),
            347 => Some(Tag::JPEGTables),
            33550 => Some(Tag::ModelPixelScaleTag),
            34264 => Some(Tag::ModelTransformationTag),
            33922 => Some(Tag::ModelTiepointTag),
            34735 => Some(Tag::GeoKeyDirectoryTag),
            34736 => Some(Tag::GeoDoubleParamsTag),
            34737 => Some(Tag::GeoAsciiParamsTag),
            42113 => Some(Tag::GdalNodata),
            _ => None,
        }
    }

    /// The value the number `n` stands for, where it is a known one.
    pub fn from_u16(n: u16) -> (r: Option<Tag>)
        ensures
            r == Tag::spec_from_u16(n),
    {
        match n {
            315 => Some(Tag::Artist),
            258 => Some(Tag::BitsPerSample),
            265 => Some(Tag::CellLength),
            264 => Some(Tag::CellWidth),
            320 => Some(Tag::ColorMap),
            259 => Some(Tag::Compression),
            33432 => Some(Tag::Copyright),
            306 => Some(Tag::DateTime),
            338 => Some(Tag::ExtraSamples),
            266 => Some(Tag::FillOrder),
            289 => Some(Tag::FreeByteCounts),
            288 => Some(Tag::FreeOffsets),
            291 => Some(Tag::GrayResponseCurve),
            290 => Some(Tag::GrayResponseUnit),
            316 => Some(Tag::HostComputer),
            270 => Some(Tag::ImageDescription),
            257 => Some(Tag::ImageLength),
            256 => Some(Tag::ImageWidth),
            271 => Some(Tag::Make),
            281 => Some(Tag::MaxSampleValue),
            280 => Some(Tag::MinSampleValue),
            272 => Some(Tag::Model),
            254 => Some(Tag::NewSubfileType),
            274 => Some(Tag::Orientation),
            262 => Some(Tag::PhotometricInterpretation),
            284 => Some(Tag::PlanarConfiguration),
            296 => Some(Tag::ResolutionUnit),
            278 => Some(Tag::RowsPerStrip),
            277 => Some(Tag::SamplesPerPixel),
            305 => Some(Tag::Software),
            279 => Some(Tag::StripByteCounts),
            273 => Some(Tag::StripOffsets),
            255 => Some(Tag::SubfileType),
            263 => Some(Tag::Threshholding),
            282 => Some(Tag::XResolution),
            283 => Some(Tag::YResolution),
            317 => Some(Tag::Predictor),
            322 => Some(Tag::TileWidth),
            323 => Some(Tag::TileLength),
            324 => Some(Tag::TileOffsets),
            325 => Some(Tag::TileByteCounts),
            330 => Some(Tag::SubIfd),
            339 => Some(Tag::SampleFormat),
            340 => Some(Tag::SMinSampleValue),
            341 => Some(Tag::SMaxSampleValue),
            347 => Some(Tag::JPEGTables),
            33550 => Some(Tag::ModelPixelScaleTag),
            34264 => Some(Tag::ModelTransformationTag),
            33922 => Some(Tag::ModelTiepointTag),
            34735 => Some(Tag::GeoKeyDirectoryTag),
            34736 => Some(Tag::GeoDoubleParamsTag),
            34737 => Some(Tag::GeoAsciiParamsTag),
            42113 => Some(Tag::GdalNodata),
            _ => None,
        }
    }

    /// The value the number `n` stands for, `Unknown(n)` where it is not a known one.
    pub open spec fn spec_from_u16_exhaustive(n: u16) -> Tag {
        match Tag::spec_from_u16(n) {
            Some(t) => t,
            None => Tag::Unknown(n),
        }
    }

    /// The value the number `n` stands for, `Unknown(n)` where it is not a known one.
    pub fn from_u16_exhaustive(n: u16) -> (r: Tag)
        ensures
            r == Tag::spec_from_u16_exhaustive(n),
    {
        match Tag::from_u16(n) {
            Some(t) => t,
            None => Tag::Unknown(n),
        }
    }

    /// The number that stands for this value in a file.
    pub fn to_u16(&self) -> (r: u16)
        ensures
            r == self.code(),
    {
        match *self {
            Tag::Artist => 315,
            Tag::BitsPerSample => 258,
            Tag::CellLength => 265,
            Tag::CellWidth => 264,
            Tag::ColorMap => 320,
            Tag::Compression => 259,
            Tag::Copyright => 33432,
            Tag::DateTime => 306,
            Tag::ExtraSamples => 338,
            Tag::FillOrder => 266,
            Tag::FreeByteCounts => 289,
            Tag::FreeOffsets => 288,
            Tag::GrayResponseCurve => 291,
            Tag::GrayResponseUnit => 290,
            Tag::HostComputer => 316,
            Tag::ImageDescription => 270,
            Tag::ImageLength => 257,
            Tag::ImageWidth => 256,
            Tag::Make => 271,
            Tag::MaxSampleValue => 281,
            Tag::MinSampleValue => 280,
            Tag::Model => 272,
            Tag::NewSubfileType => 254,
            Tag::Orientation => 274,
            Tag::PhotometricInterpretation => 262,
            Tag::PlanarConfiguration => 284,
            Tag::ResolutionUnit => 296,
            Tag::RowsPerStrip => 278,
            Tag::SamplesPerPixel => 277,
            Tag::Software => 305,
            Tag::StripByteCounts => 279,
            Tag::StripOffsets => 273,
            Tag::SubfileType => 255,
            Tag::Threshholding => 263,
            Tag::XResolution => 282,
            Tag::YResolution => 283,
            Tag::Predictor => 317,
            Tag::TileWidth => 322,
            Tag::TileLength => 323,
            Tag::TileOffsets => 324,
            Tag::TileByteCounts => 325,
            Tag::SubIfd => 330,
            Tag::SampleFormat => 339,
            Tag::SMinSampleValue => 340,
            Tag::SMaxSampleValue => 341,
            Tag::JPEGTables => 347,
            Tag::ModelPixelScaleTag => 33550,
            Tag::ModelTransformationTag => 34264,
            Tag::ModelTiepointTag => 33922,
            Tag::GeoKeyDirectoryTag => 34735,
            Tag::GeoDoubleParamsTag => 34736,
            Tag::GeoAsciiParamsTag => 34737,
            Tag::GdalNodata => 42113,
            Tag::Unknown(n) => n,
        }
    }
}

/// The type of the values of a directory entry.
#[derive(Debug, Clone, Copy, PartialEq, Eq, Structural)]
#[allow(non_camel_case_types)]
pub enum Type {
    /// 8-bit unsigned integer
    BYTE,
    /// 8-bit byte that contains a 7-bit ASCII code; the last byte must be zero
    ASCII,
    /// 16-bit unsigned integer
    SHORT,
    /// 32-bit unsigned integer
    LONG,
    /// Fraction stored as two 32-bit unsigned integers
    RATIONAL,
    /// 8-bit signed integer
    SBYTE,
    /// 8-bit byte that may contain anything, depending on the field
    UNDEFINED,
    /// 16-bit signed integer
    SSHORT,
    /// 32-bit signed integer
    SLONG,
    /// Fraction stored as two 32-bit signed integers
    SRATIONAL,
    /// 32-bit IEEE floating point
    FLOAT,
    /// 64-bit IEEE floating point
    DOUBLE,
    /// 32-bit unsigned integer (offset)
    IFD,
    /// BigTIFF 64-bit unsigned integer
    LONG8,
    /// BigTIFF 64-bit signed integer
    SLONG8,
    /// BigTIFF 64-bit unsigned integer (offset)
    IFD8,
}

impl Type {
    /// The number that stands for this value in a file.
    pub open spec fn code(self) -> u16 {
        match self {
            Type::BYTE => 1,
            Type::ASCII => 2,
            Type::SHORT => 3,
            Type::LONG => 4,
            Type::RATIONAL => 5,
            Type::SBYTE => 6,
            Type::UNDEFINED => 7,
            Type::SSHORT => 8,
            Type::SLONG => 9,
            Type::SRATIONAL => 10,
            Type::FLOAT => 11,
            Type::DOUBLE => 12,
            Type::IFD => 13,
            Type::LONG8 => 16,
            Type::SLONG8 => 17,
            Type::IFD8 => 18,
        }
    }

    /// The value a known number stands for.
    pub open spec fn spec_from_u16(n: u16) -> Option<Type> {
        match n {
            1 => Some(Type::BYTE),
            2 => Some(Type::ASCII),
            3 => Some(Type::SHORT),
            4 => Some(Type::LONG),
            5 => Some(Type::RATIONAL),
            6 => Some(Type::SBYTE),
            7 => Some(Type::UNDEFINED),
            8 => Some(Type::SSHORT),
            9 => Some(Type::SLONG),
            10 => Some(Type::SRATIONAL),
            11 => Some(Type::FLOAT),
            12 => Some(Type::DOUBLE),
            13 => Some(Type::IFD),
            16 => Some(Type::LONG8),
            17 => Some(Type::SLONG8),
            18 => Some(Type::IFD8),
            _ => None,
        }
    }

    /// The value the number `n` stands for, where it is a known one.
    pub fn from_u16(n: u16) -> (r: Option<Type>)
        ensures
            r == Type::spec_from_u16(n),
    {
        match n {
            1 => Some(Type::BYTE),
            2 => Some(Type::ASCII),
            3 => Some(Type::SHORT),
            4 => Some(Type::LONG),
            5 => Some(Type::RATIONAL),
            6 => Some(Type::SBYTE),
            7 => Some(Type::UNDEFINED),
            8 => Some(Type::SSHORT),
            9 => Some(Type::SLONG),
            10 => Some(Type::SRATIONAL),
            11 => Some(Type::FLOAT),
            12 => Some(Type::DOUBLE),
            13 => Some(Type::IFD),
            16 => Some(Type::LONG8),
            17 => Some(Type::SLONG8),
            18 => Some(Type::IFD8),
            _ => None,
        }
    }

    /// The number that stands for this value in a file.
    pub fn to_u16(&self) -> (r: u16)
        ensures
            r == self.code(),
    {
        match *self {
            Type::BYTE => 1,
            Type::ASCII => 2,
            Type::SHORT => 3,
            Type::LONG => 4,
            Type::RATIONAL => 5,
            Type::SBYTE => 6,
            Type::UNDEFINED => 7,
            Type::SSHORT => 8,
            Type::SLONG => 9,
            Type::SRATIONAL => 10,
            Type::FLOAT => 11,
            Type::DOUBLE => 12,
            Type::IFD => 13,
            Type::LONG8 => 16,
            Type::SLONG8 => 17,
            Type::IFD8 => 18,
        }
    }
}

/// The compression of the data of a strip or tile.
#[derive(Debug, Clone, Copy, PartialEq, Eq, Structural)]
pub enum CompressionMethod {
    NoCompression,
    Huffman,
    Fax3,
    Fax4,
    LZW,
    JPEG,
    ModernJPEG,
    Deflate,
    OldDeflate,
    PackBits,
    Unknown(u16),
}

impl CompressionMethod {
    /// The number that stands for this value in a file.
    pub open spec fn code(self) -> u16 {
        match self {
            CompressionMethod::NoCompression => 1,
            CompressionMethod::Huffman => 2,
            CompressionMethod::Fax3 => 3,
            CompressionMethod::Fax4 => 4,
            CompressionMethod::LZW => 5,
            CompressionMethod::JPEG => 6,
            CompressionMethod::ModernJPEG => 7,
            CompressionMethod::Deflate => 8,
            CompressionMethod::OldDeflate => 32946,
            CompressionMethod::PackBits => 32773,
            CompressionMethod::Unknown(n) => n,
        }
    }

    /// The value a known number stands for.
    pub open spec fn spec_from_u16(n: u16) -> Option<CompressionMethod> {
        match n {
            1 => Some(CompressionMethod::NoCompression),
            2 => Some(CompressionMethod::Huffman),
            3 => Some(CompressionMethod::Fax3),
            4 => Some(CompressionMethod::Fax4),
            5 => Some(CompressionMethod::LZW),
            6 => Some(CompressionMethod::JPEG),
            7 => Some(CompressionMethod::ModernJPEG),
            8 => Some(CompressionMethod::Deflate),
            32946 => Some(CompressionMethod::OldDeflate),
            32773 => Some(CompressionMethod::PackBits),
            _ => None,
        }
    }

    /// The value the number `n` stands for, where it is a known one.
    pub fn from_u16(n: u16) -> (r: Option<CompressionMethod>)
        ensures
            r == CompressionMethod::spec_from_u16(n),
    {
        match n {
            1 => Some(CompressionMethod::NoCompression),
            2 => Some(CompressionMethod::Huffman),
            3 => Some(CompressionMethod::Fax3),
            4 => Some(CompressionMethod::Fax4),
            5 => Some(CompressionMethod::LZW),
            6 => Some(CompressionMethod::JPEG),
            7 => Some(CompressionMethod::ModernJPEG),
            8 => Some(CompressionMethod::Deflate),
            32946 => Some(CompressionMethod::OldDeflate),
            32773 => Some(CompressionMethod::PackBits),
            _ => None,
        }
    }

    /// The value the number `n` stands for, `Unknown(n)` where it is not a known one.
    pub open spec fn spec_from_u16_exhaustive(n: u16) -> CompressionMethod {
        match CompressionMethod::spec_from_u16(n) {
            Some(t) => t,
            None => CompressionMethod::Unknown(n),
        }
    }

    /// The value the number `n` stands for, `Unknown(n)` where it is not a known one.
    pub fn from_u16_exhaustive(n: u16) -> (r: CompressionMethod)
        ensures
            r == CompressionMethod::spec_from_u16_exhaustive(n),
    {
        match CompressionMethod::from_u16(n) {
            Some(t) => t,
            None => CompressionMethod::Unknown(n),
        }
    }

    /// The number that stands for this value in a file.
    pub fn to_u16(&self) -> (r: u16)
        ensures
            r == self.code(),
    {
        match *self {
            CompressionMethod::NoCompression => 1,
            CompressionMethod::Huffman => 2,
            CompressionMethod::Fax3 => 3,
            CompressionMethod::Fax4 => 4,
            CompressionMethod::LZW => 5,
            CompressionMethod::JPEG => 6,
            CompressionMethod::ModernJPEG => 7,
            CompressionMethod::Deflate => 8,
            CompressionMethod::OldDeflate => 32946,
            CompressionMethod::PackBits => 32773,
            CompressionMethod::Unknown(n) => n,
        }
    }
}

/// The color space of the image data.
#[derive(Debug, Clone, Copy, PartialEq, Eq, Structural)]
pub enum PhotometricInterpretation {
    WhiteIsZero,
    BlackIsZero,
    RGB,
    RGBPalette,
    TransparencyMask,
    CMYK,
    YCbCr,
    CIELab,
}

impl PhotometricInterpretation {
    /// The number that stands for this value in a file.
    pub open spec fn code(self) -> u16 {
        match self {
            PhotometricInterpretation::WhiteIsZero => 0,
            PhotometricInterpretation::BlackIsZero => 1,
            PhotometricInterpretation::RGB => 2,
            PhotometricInterpretation::RGBPalette => 3,
            PhotometricInterpretation::TransparencyMask => 4,
            PhotometricInterpretation::CMYK => 5,
            PhotometricInterpretation::YCbCr => 6,
            PhotometricInterpretation::CIELab => 8,
        }
    }

    /// The value a known number stands for.
    pub open spec fn spec_from_u16(n: u16) -> Option<PhotometricInterpretation> {
        match n {
            0 => Some(PhotometricInterpretation::WhiteIsZero),
            1 => Some(PhotometricInterpretation::BlackIsZero),
            2 => Some(PhotometricInterpretation::RGB),
            3 => Some(PhotometricInterpretation::RGBPalette),
            4 => Some(PhotometricInterpretation::TransparencyMask),
            5 => Some(PhotometricInterpretation::CMYK),
            6 => Some(PhotometricInterpretation::YCbCr),
            8 => Some(PhotometricInterpretation::CIELab),
            _ => None,
        }
    }

    /// The value the number `n` stands for, where it is a known one.
    pub fn from_u16(n: u16) -> (r: Option<PhotometricInterpretation>)
        ensures
            r == PhotometricInterpretation::spec_from_u16(n),
    {
        match n {
            0 => Some(PhotometricInterpretation::WhiteIsZero),
            1 => Some(PhotometricInterpretation::BlackIsZero),
            2 => Some(PhotometricInterpretation::RGB),
            3 => Some(PhotometricInterpretation::RGBPalette),
            4 => Some(PhotometricInterpretation::TransparencyMask),
            5 => Some(PhotometricInterpretation::CMYK),
            6 => Some(PhotometricInterpretation::YCbCr),
            8 => Some(PhotometricInterpretation::CIELab),
            _ => None,
        }
    }

    /// The number that stands for this value in a file.
    pub fn to_u16(&self) -> (r: u16)
        ensures
            r == self.code(),
    {
        match *self {
            PhotometricInterpretation::WhiteIsZero => 0,
            PhotometricInterpretation::BlackIsZero => 1,
            PhotometricInterpretation::RGB => 2,
            PhotometricInterpretation::RGBPalette => 3,
            PhotometricInterpretation::TransparencyMask => 4,
            PhotometricInterpretation::CMYK => 5,
            PhotometricInterpretation::YCbCr => 6,
            PhotometricInterpretation::CIELab => 8,
        }
    }
}

/// How the components of a pixel are stored.
#[derive(Debug, Clone, Copy, PartialEq, Eq, Structural)]
pub enum PlanarConfiguration {
    Chunky,
    Planar,
}

impl PlanarConfiguration {
    /// The number that stands for this value in a file.
    pub open spec fn code(self) -> u16 {
        match self {
            PlanarConfiguration::Chunky => 1,
            PlanarConfiguration::Planar => 2,
        }
    }

    /// The value a known number stands for.
    pub open spec fn spec_from_u16(n: u16) -> Option<PlanarConfiguration> {
        match n {
            1 => Some(PlanarConfiguration::Chunky),
            2 => Some(PlanarConfiguration::Planar),
            _ => None,
        }
    }

    /// The value the number `n` stands for, where it is a known one.
    pub fn from_u16(n: u16) -> (r: Option<PlanarConfiguration>)
        ensures
            r == PlanarConfiguration::spec_from_u16(n),
    {
        match n {
            1 => Some(PlanarConfiguration::Chunky),
            2 => Some(PlanarConfiguration::Planar),
            _ => None,
        }
    }

    /// The number that stands for this value in a file.
    pub fn to_u16(&self) -> (r: u16)
        ensures
            r == self.code(),
    {
        match *self {
            PlanarConfiguration::Chunky => 1,
            PlanarConfiguration::Planar => 2,
        }
    }
}

/// The prediction scheme applied to the image data before compression.
#[derive(Debug, Clone, Copy, PartialEq, Eq, Structural)]
pub enum Predictor {
    NoPrediction,
    Horizontal,
    FloatingPoint,
}

impl Predictor {
    /// The number that stands for this value in a file.
    pub open spec fn code(self) -> u16 {
        match self {
            Predictor::NoPrediction => 1,
            Predictor::Horizontal => 2,
            Predictor::FloatingPoint => 3,
        }
    }

    /// The value a known number stands for.
    pub open spec fn spec_from_u16(n: u16) -> Option<Predictor> {
        match n {
            1 => Some(Predictor::NoPrediction),
            2 => Some(Predictor::Horizontal),
            3 => Some(Predictor::FloatingPoint),
            _ => None,
        }
    }

    /// The value the number `n` stands for, where it is a known one.
    pub fn from_u16(n: u16) -> (r: Option<Predictor>)
        ensures
            r == Predictor::spec_from_u16(n),
    {
        match n {
            1 => Some(Predictor::NoPrediction),
            2 => Some(Predictor::Horizontal),
            3 => Some(Predictor::FloatingPoint),
            _ => None,
        }
    }

    /// The number that stands for this value in a file.
    pub fn to_u16(&self) -> (r: u16)
        ensures
            r == self.code(),
    {
        match *self {
            Predictor::NoPrediction => 1,
            Predictor::Horizontal => 2,
            Predictor::FloatingPoint => 3,
        }
    }
}

/// How the samples of a pixel are to be read.
#[derive(Debug, Clone, Copy, PartialEq, Eq, Structural)]
pub enum SampleFormat {
    Uint,
    Int,
    IEEEFP,
    Void,
    Unknown(u16),
}

impl SampleFormat {
    /// The number that stands for this value in a file.
    pub open spec fn code(self) -> u16 {
        match self {
            SampleFormat::Uint => 1,
            SampleFormat::Int => 2,
            SampleFormat::IEEEFP => 3,
            SampleFormat::Void => 4,
            SampleFormat::Unknown(n) => n,
        }
    }

    /// The value a known number stands for.
    pub open spec fn spec_from_u16(n: u16) -> Option<SampleFormat> {
        match n {
            1 => Some(SampleFormat::Uint),
            2 => Some(SampleFormat::Int),
            3 => Some(SampleFormat::IEEEFP),
            4 => Some(SampleFormat::Void),
            _ => None,
        }
    }

    /// The value the number `n` stands for, where it is a known one.
    pub fn from_u16(n: u16) -> (r: Option<SampleFormat>)
        ensures
            r == SampleFormat::spec_from_u16(n),
    {
        match n {
            1 => Some(SampleFormat::Uint),
            2 => Some(SampleFormat::Int),
            3 => Some(SampleFormat::IEEEFP),
            4 => Some(SampleFormat::Void),
            _ => None,
        }
    }

    /// The value the number `n` stands for, `Unknown(n)` where it is not a known one.
    pub open spec fn spec_from_u16_exhaustive(n: u16) -> SampleFormat {
        match SampleFormat::spec_from_u16(n) {
            Some(t) => t,
            None => SampleFormat::Unknown(n),
        }
    }

    /// The value the number `n` stands for, `Unknown(n)` where it is not a known one.
    pub fn from_u16_exhaustive(n: u16) -> (r: SampleFormat)
        ensures
            r == SampleFormat::spec_from_u16_exhaustive(n),
    {
        match SampleFormat::from_u16(n) {
            Some(t) => t,
            None => SampleFormat::Unknown(n),
        }
    }

    /// The number that stands for this value in a file.
    pub fn to_u16(&self) -> (r: u16)
        ensures
            r == self.code(),
    {
        match *self {
            SampleFormat::Uint => 1,
            SampleFormat::Int => 2,
            SampleFormat::IEEEFP => 3,
            SampleFormat::Void => 4,
            SampleFormat::Unknown(n) => n,
        }
    }
}

/// Every number reads as a tag that is written back as the same number.
pub proof fn lemma_tag_code_of_number(n: u16)
    ensures
        Tag::spec_from_u16_exhaustive(n).code() == n,
{
}

/// A tag that is known, or unknown under a number no known tag uses, is read
/// back as itself from the number it is written as.
pub proof fn lemma_tag_number_of_code(t: Tag)
    requires
        t matches Tag::Unknown(n) ==> Tag::spec_from_u16(n) is None,
    ensures
        Tag::spec_from_u16_exhaustive(t.code()) == t,
{
}

/// Every number of a field type reads as a type written back as that number.
pub proof fn lemma_type_code_of_number(n: u16)
    ensures
        Type::spec_from_u16(n) matches Some(t) ==> t.code() == n,
{
}

} // verus!
