//! The tag registry: a closed enumeration of well-known TIFF tags plus an
//! `Unknown` variant, with the bidirectional mapping between tags and their
//! numeric 16-bit identifiers.

use vstd::prelude::*;

use crate::value::TIFFValue;
use crate::value::ValueView;

pub mod fields;

pub use fields::ImageWidth;
pub use fields::ImageLength;
pub use fields::RowsPerStrip;
pub use fields::TileWidth;
pub use fields::TileLength;
pub use fields::TileByteCounts;
pub use fields::SamplesPerPixel;
pub use fields::CellLength;
pub use fields::CellWidth;
pub use fields::Threshholding;
pub use fields::PageNumber;
pub use fields::NumberOfInks;
pub use fields::NewSubfileType;
pub use fields::FreeOffsets;
pub use fields::FreeByteCounts;
pub use fields::T4Options;
pub use fields::T6Options;
pub use fields::TileOffsets;
pub use fields::BitsPerSample;
pub use fields::GrayResponseCurve;
pub use fields::MaxSampleValue;
pub use fields::MinSampleValue;
pub use fields::ColorMap;
pub use fields::StripOffsets;
pub use fields::StripByteCounts;
pub use fields::XResolution;
pub use fields::YResolution;
pub use fields::XPosition;
pub use fields::YPosition;
pub use fields::PhotometricInterpretation;
pub use fields::ResolutionUnit;
pub use fields::PlanarConfiguration;
pub use fields::Predictor;
pub use fields::SubfileType;
pub use fields::Compression;
pub use fields::FillOrder;
pub use fields::GrayResponseUnit;
pub use fields::Orientation;
pub use fields::InkSet;
pub use fields::ExtraSampleDataValue;
pub use fields::ExtraSamples;
pub use fields::Software;
pub use fields::Copyright;
pub use fields::HostComputer;
pub use fields::ImageDescription;
pub use fields::Make;
pub use fields::Model;
pub use fields::DocumentName;
pub use fields::PageName;
pub use fields::InkNames;
pub use fields::TargetPrinter;
pub use fields::DateTime;

verus! {

/// A TIFF tag: one of the well-known tags of the 6.0 specification, or an
/// opaque unknown identifier.  Equality and ordering are defined by the
/// numeric value.
#[derive(Debug, Copy, Clone, PartialEq, Eq, Hash, Structural)]
pub enum Tag {
    NewSubfileType,
    SubfileType,
    ImageWidth,
    ImageLength,
    BitsPerSample,
    Compression,
    PhotometricInterpretation,
    Threshholding,
    CellWidth,
    CellLength,
    FillOrder,
    ImageDescription,
    Make,
    Model,
    StripOffsets,
    Orientation,
    SamplesPerPixel,
    RowsPerStrip,
    StripByteCounts,
    MinSampleValue,
    MaxSampleValue,
    XResolution,
    YResolution,
    PlanarConfiguration,
    FreeOffsets,
    FreeByteCounts,
    GrayResponseUnit,
    GrayResponseCurve,
    ResolutionUnit,
    Software,
    DateTime,
    Artist,
    HostComputer,
    ColorMap,
    ExtraSamples,
    Copyright,
    Predictor,
    T4Options,
    T6Options,
    DocumentName,
    PageName,
    PageNumber,
    XPosition,
    YPosition,
    TileWidth,
    TileLength,
    TileOffsets,
    TileByteCounts,
    InkSet,
    NumberOfInks,
    InkNames,
    DotRange,
    TargetPrinter,
    HalftoneHints,
    SampleFormat,
    SMinSampleValue,
    SMaxSampleValue,
    WhitePoint,
    PrimaryChromaticities,
    TransferFunction,
    TransferRange,
    ReferenceBlackWhite,
    YCbCrCoefficients,
    YCbCrSubSampling,
    YCbCrPositioning,
    JPEGProc,
    JPEGInterchangeFormat,
    JPEGInterchangeFormatLength,
    JPEGRestartInterval,
    JPEGLosslessPredictors,
    JPEGPointTransforms,
    JPEGQTables,
    JPEGDCTables,
    JPEGACTables,
    Unknown(u16),
}

/// The numeric 16-bit identifier of a tag.
pub open spec fn spec_tag_value(t: Tag) -> u16 {
    match t {
        Tag::NewSubfileType => 0xfe,
        Tag::SubfileType => 0xff,
        Tag::ImageWidth => 0x0100,
        Tag::ImageLength => 0x0101,
        Tag::BitsPerSample => 0x0102,
        Tag::Compression => 0x0103,
        Tag::PhotometricInterpretation => 0x0106,
        Tag::Threshholding => 0x0107,
        Tag::CellWidth => 0x0108,
        Tag::CellLength => 0x0109,
        Tag::FillOrder => 0x010a,
        Tag::ImageDescription => 0x010e,
        Tag::Make => 0x010f,
        Tag::Model => 0x0110,
        Tag::StripOffsets => 0x0111,
        Tag::Orientation => 0x0112,
        Tag::SamplesPerPixel => 0x0115,
        Tag::RowsPerStrip => 0x0116,
        Tag::StripByteCounts => 0x0117,
        Tag::MinSampleValue => 0x0118,
        Tag::MaxSampleValue => 0x0119,
        Tag::XResolution => 0x011a,
        Tag::YResolution => 0x011b,
        Tag::PlanarConfiguration => 0x011c,
        Tag::FreeOffsets => 0x0120,
        Tag::FreeByteCounts => 0x0121,
        Tag::GrayResponseUnit => 0x0122,
        Tag::GrayResponseCurve => 0x0123,
        Tag::ResolutionUnit => 0x0128,
        Tag::Software => 0x0131,
        Tag::DateTime => 0x0132,
        Tag::Artist => 0x013b,
        Tag::HostComputer => 0x013c,
        Tag::ColorMap => 0x0140,
        Tag::ExtraSamples => 0x0152,
        Tag::Copyright => 0x8298,
        Tag::Predictor => 0x13d,
        Tag::T4Options => 0x124,
        Tag::T6Options => 0x125,
        Tag::DocumentName => 0x10d,
        Tag::PageName => 0x11d,
        Tag::PageNumber => 0x129,
        Tag::XPosition => 0x11e,
        Tag::YPosition => 0x11f,
        Tag::TileWidth => 0x142,
        Tag::TileLength => 0x143,
        Tag::TileOffsets => 0x144,
        Tag::TileByteCounts => 0x145,
        Tag::InkSet => 0x14c,
        Tag::NumberOfInks => 0x14e,
        Tag::InkNames => 0x14d,
        Tag::DotRange => 0x150,
        Tag::TargetPrinter => 0x151,
        Tag::HalftoneHints => 0x141,
        Tag::SampleFormat => 0x153,
        Tag::SMinSampleValue => 0x154,
        Tag::SMaxSampleValue => 0x155,
        Tag::WhitePoint => 0x318,
        Tag::PrimaryChromaticities => 0x319,
        Tag::TransferFunction => 0x301,
        Tag::TransferRange => 0x156,
        Tag::ReferenceBlackWhite => 0x532,
        Tag::YCbCrCoefficients => 0x211,
        Tag::YCbCrSubSampling => 0x212,
        Tag::YCbCrPositioning => 0x213,
        Tag::JPEGProc => 0x200,
        Tag::JPEGInterchangeFormat => 0x201,
        Tag::JPEGInterchangeFormatLength => 0x202,
        Tag::JPEGRestartInterval => 0x203,
        Tag::JPEGLosslessPredictors => 0x205,
        Tag::JPEGPointTransforms => 0x206,
        Tag::JPEGQTables => 0x207,
        Tag::JPEGDCTables => 0x208,
        Tag::JPEGACTables => 0x209,
        Tag::Unknown(value) => value,
    }
}

/// The tag a numeric identifier resolves to: the well-known tag registered
/// under that number, otherwise `Unknown`.
pub open spec fn spec_tag_from(value: u16) -> Tag {
    if value == 0xfe {
        Tag::NewSubfileType
    } else if value == 0xff {
        Tag::SubfileType
    } else if value == 0x0100 {
        Tag::ImageWidth
    } else if value == 0x0101 {
        Tag::ImageLength
    } else if value == 0x0102 {
        Tag::BitsPerSample
    } else if value == 0x0103 {
        Tag::Compression
    } else if value == 0x0106 {
        Tag::PhotometricInterpretation
    } else if value == 0x0107 {
        Tag::Threshholding
    } else if value == 0x0108 {
        Tag::CellWidth
    } else if value == 0x0109 {
        Tag::CellLength
    } else if value == 0x010a {
        Tag::FillOrder
    } else if value == 0x010e {
        Tag::ImageDescription
    } else if value == 0x010f {
        Tag::Make
    } else if value == 0x0110 {
        Tag::Model
    } else if value == 0x0111 {
        Tag::StripOffsets
    } else if value == 0x0112 {
        Tag::Orientation
    } else if value == 0x0115 {
        Tag::SamplesPerPixel
    } else if value == 0x0116 {
        Tag::RowsPerStrip
    } else if value == 0x0117 {
        Tag::StripByteCounts
    } else if value == 0x0118 {
        Tag::MinSampleValue
    } else if value == 0x0119 {
        Tag::MaxSampleValue
    } else if value == 0x011a {
        Tag::XResolution
    } else if value == 0x011b {
        Tag::YResolution
    } else if value == 0x011c {
        Tag::PlanarConfiguration
    } else if value == 0x0120 {
        Tag::FreeOffsets
    } else if value == 0x0121 {
        Tag::FreeByteCounts
    } else if value == 0x0122 {
        Tag::GrayResponseUnit
    } else if value == 0x0123 {
        Tag::GrayResponseCurve
    } else if value == 0x0128 {
        Tag::ResolutionUnit
    } else if value == 0x0131 {
        Tag::Software
    } else if value == 0x0132 {
        Tag::DateTime
    } else if value == 0x013b {
        Tag::Artist
    } else if value == 0x013c {
        Tag::HostComputer
    } else if value == 0x0140 {
        Tag::ColorMap
    } else if value == 0x0152 {
        Tag::ExtraSamples
    } else if value == 0x8298 {
        Tag::Copyright
    } else if value == 0x13d {
        Tag::Predictor
    } else if value == 0x124 {
        Tag::T4Options
    } else if value == 0x125 {
        Tag::T6Options
    } else if value == 0x10d {
        Tag::DocumentName
    } else if value == 0x11d {
        Tag::PageName
    } else if value == 0x129 {
        Tag::PageNumber
    } else if value == 0x11e {
        Tag::XPosition
    } else if value == 0x11f {
        Tag::YPosition
    } else if value == 0x142 {
        Tag::TileWidth
    } else if value == 0x143 {
        Tag::TileLength
    } else if value == 0x144 {
        Tag::TileOffsets
    } else if value == 0x145 {
        Tag::TileByteCounts
    } else if value == 0x14c {
        Tag::InkSet
    } else if value == 0x14e {
        Tag::NumberOfInks
    } else if value == 0x14d {
        Tag::InkNames
    } else if value == 0x150 {
        Tag::DotRange
    } else if value == 0x151 {
        Tag::TargetPrinter
    } else if value == 0x141 {
        Tag::HalftoneHints
    } else if value == 0x153 {
        Tag::SampleFormat
    } else if value == 0x154 {
        Tag::SMinSampleValue
    } else if value == 0x155 {
        Tag::SMaxSampleValue
    } else if value == 0x318 {
        Tag::WhitePoint
    } else if value == 0x319 {
        Tag::PrimaryChromaticities
    } else if value == 0x301 {
        Tag::TransferFunction
    } else if value == 0x156 {
        Tag::TransferRange
    } else if value == 0x532 {
        Tag::ReferenceBlackWhite
    } else if value == 0x211 {
        Tag::YCbCrCoefficients
    } else if value == 0x212 {
        Tag::YCbCrSubSampling
    } else if value == 0x213 {
        Tag::YCbCrPositioning
    } else if value == 0x200 {
        Tag::JPEGProc
    } else if value == 0x201 {
        Tag::JPEGInterchangeFormat
    } else if value == 0x202 {
        Tag::JPEGInterchangeFormatLength
    } else if value == 0x203 {
        Tag::JPEGRestartInterval
    } else if value == 0x205 {
        Tag::JPEGLosslessPredictors
    } else if value == 0x206 {
        Tag::JPEGPointTransforms
    } else if value == 0x207 {
        Tag::JPEGQTables
    } else if value == 0x208 {
        Tag::JPEGDCTables
    } else if value == 0x209 {
        Tag::JPEGACTables
    } else {
        Tag::Unknown(value)
    }
}

/// A tag is canonical when resolving its numeric identifier yields the tag
/// itself; every tag produced by `Tag::from_u16` is canonical.
pub open spec fn spec_tag_canonical(t: Tag) -> bool {
    spec_tag_from(spec_tag_value(t)) == t
}

/// Resolving a numeric identifier always yields a tag with that identifier,
/// and the resolved tag is canonical.
pub proof fn lemma_tag_from_value(value: u16)
    ensures
        spec_tag_value(spec_tag_from(value)) == value,
        spec_tag_canonical(spec_tag_from(value)),
{
}

impl Tag {
    /// The numeric identifier of this tag, used for comparison, ordering and
    /// the wire encoding.
    pub fn tag_value(self) -> (r: u16)
        ensures
            r == spec_tag_value(self),
    {
        match self {
            Tag::NewSubfileType => 0xfe,
            Tag::SubfileType => 0xff,
            Tag::ImageWidth => 0x0100,
            Tag::ImageLength => 0x0101,
            Tag::BitsPerSample => 0x0102,
            Tag::Compression => 0x0103,
            Tag::PhotometricInterpretation => 0x0106,
            Tag::Threshholding => 0x0107,
            Tag::CellWidth => 0x0108,
            Tag::CellLength => 0x0109,
            Tag::FillOrder => 0x010a,
            Tag::ImageDescription => 0x010e,
            Tag::Make => 0x010f,
            Tag::Model => 0x0110,
            Tag::StripOffsets => 0x0111,
            Tag::Orientation => 0x0112,
            Tag::SamplesPerPixel => 0x0115,
            Tag::RowsPerStrip => 0x0116,
            Tag::StripByteCounts => 0x0117,
            Tag::MinSampleValue => 0x0118,
            Tag::MaxSampleValue => 0x0119,
            Tag::XResolution => 0x011a,
            Tag::YResolution => 0x011b,
            Tag::PlanarConfiguration => 0x011c,
            Tag::FreeOffsets => 0x0120,
            Tag::FreeByteCounts => 0x0121,
            Tag::GrayResponseUnit => 0x0122,
            Tag::GrayResponseCurve => 0x0123,
            Tag::ResolutionUnit => 0x0128,
            Tag::Software => 0x0131,
            Tag::DateTime => 0x0132,
            Tag::Artist => 0x013b,
            Tag::HostComputer => 0x013c,
            Tag::ColorMap => 0x0140,
            Tag::ExtraSamples => 0x0152,
            Tag::Copyright => 0x8298,
            Tag::Predictor => 0x13d,
            Tag::T4Options => 0x124,
            Tag::T6Options => 0x125,
            Tag::DocumentName => 0x10d,
            Tag::PageName => 0x11d,
            Tag::PageNumber => 0x129,
            Tag::XPosition => 0x11e,
            Tag::YPosition => 0x11f,
            Tag::TileWidth => 0x142,
            Tag::TileLength => 0x143,
            Tag::TileOffsets => 0x144,
            Tag::TileByteCounts => 0x145,
            Tag::InkSet => 0x14c,
            Tag::NumberOfInks => 0x14e,
            Tag::InkNames => 0x14d,
            Tag::DotRange => 0x150,
            Tag::TargetPrinter => 0x151,
            Tag::HalftoneHints => 0x141,
            Tag::SampleFormat => 0x153,
            Tag::SMinSampleValue => 0x154,
            Tag::SMaxSampleValue => 0x155,
            Tag::WhitePoint => 0x318,
            Tag::PrimaryChromaticities => 0x319,
            Tag::TransferFunction => 0x301,
            Tag::TransferRange => 0x156,
            Tag::ReferenceBlackWhite => 0x532,
            Tag::YCbCrCoefficients => 0x211,
            Tag::YCbCrSubSampling => 0x212,
            Tag::YCbCrPositioning => 0x213,
            Tag::JPEGProc => 0x200,
            Tag::JPEGInterchangeFormat => 0x201,
            Tag::JPEGInterchangeFormatLength => 0x202,
            Tag::JPEGRestartInterval => 0x203,
            Tag::JPEGLosslessPredictors => 0x205,
            Tag::JPEGPointTransforms => 0x206,
            Tag::JPEGQTables => 0x207,
            Tag::JPEGDCTables => 0x208,
            Tag::JPEGACTables => 0x209,
            Tag::Unknown(value) => value,
        }
    }


    /// A human-readable name for diagnostics.
    pub fn name(&self) -> &'static str {
        match self {
            Tag::NewSubfileType => "NewSubfileType",
            Tag::SubfileType => "SubfileType",
            Tag::ImageWidth => "ImageWidth",
            Tag::ImageLength => "ImageLength",
            Tag::BitsPerSample => "BitsPerSample",
            Tag::Compression => "Compression",
            Tag::PhotometricInterpretation => "PhotometricInterpretation",
            Tag::Threshholding => "Threshholding",
            Tag::CellWidth => "CellWidth",
            Tag::CellLength => "CellLength",
            Tag::FillOrder => "FillOrder",
            Tag::ImageDescription => "ImageDescription",
            Tag::Make => "Make",
            Tag::Model => "Model",
            Tag::StripOffsets => "StripOffsets",
            Tag::Orientation => "Orientation",
            Tag::SamplesPerPixel => "SamplesPerPixel",
            Tag::RowsPerStrip => "RowsPerStrip",
            Tag::StripByteCounts => "StripByteCounts",
            Tag::MinSampleValue => "MinSampleValue",
            Tag::MaxSampleValue => "MaxSampleValue",
            Tag::XResolution => "XResolution",
            Tag::YResolution => "YResolution",
            Tag::PlanarConfiguration => "PlanarConfiguration",
            Tag::FreeOffsets => "FreeOffsets",
            Tag::FreeByteCounts => "FreeByteCounts",
            Tag::GrayResponseUnit => "GrayResponseUnit",
            Tag::GrayResponseCurve => "GrayResponseCurve",
            Tag::ResolutionUnit => "ResolutionUnit",
            Tag::Software => "Software",
            Tag::DateTime => "DateTime",
            Tag::Artist => "Artist",
            Tag::HostComputer => "HostComputer",
            Tag::ColorMap => "ColorMap",
            Tag::ExtraSamples => "ExtraSamples",
            Tag::Copyright => "Copyright",
            Tag::Predictor => "Predictor",
            Tag::T4Options => "T4Options",
            Tag::T6Options => "T6Options",
            Tag::DocumentName => "DocumentName",
            Tag::PageName => "PageName",
            Tag::PageNumber => "PageNumber",
            Tag::XPosition => "XPosition",
            Tag::YPosition => "YPosition",
            Tag::TileWidth => "TileWidth",
            Tag::TileLength => "TileLength",
            Tag::TileOffsets => "TileOffsets",
            Tag::TileByteCounts => "TileByteCounts",
            Tag::InkSet => "InkSet",
            Tag::NumberOfInks => "NumberOfInks",
            Tag::InkNames => "InkNames",
            Tag::DotRange => "DotRange",
            Tag::TargetPrinter => "TargetPrinter",
            Tag::HalftoneHints => "HalftoneHints",
            Tag::SampleFormat => "SampleFormat",
            Tag::SMinSampleValue => "SMinSampleValue",
            Tag::SMaxSampleValue => "SMaxSampleValue",
            Tag::WhitePoint => "WhitePoint",
            Tag::PrimaryChromaticities => "PrimaryChromaticities",
            Tag::TransferFunction => "TransferFunction",
            Tag::TransferRange => "TransferRange",
            Tag::ReferenceBlackWhite => "ReferenceBlackWhite",
            Tag::YCbCrCoefficients => "YCbCrCoefficients",
            Tag::YCbCrSubSampling => "YCbCrSubSampling",
            Tag::YCbCrPositioning => "YCbCrPositioning",
            Tag::JPEGProc => "JPEGProc",
            Tag::JPEGInterchangeFormat => "JPEGInterchangeFormat",
            Tag::JPEGInterchangeFormatLength => "JPEGInterchangeFormatLength",
            Tag::JPEGRestartInterval => "JPEGRestartInterval",
            Tag::JPEGLosslessPredictors => "JPEGLosslessPredictors",
            Tag::JPEGPointTransforms => "JPEGPointTransforms",
            Tag::JPEGQTables => "JPEGQTables",
            Tag::JPEGDCTables => "JPEGDCTables",
            Tag::JPEGACTables => "JPEGACTables",
            Tag::Unknown(_) => "Unknown",
        }
    }

    /// Resolves a numeric identifier against the known table, yielding
    /// `Unknown` for an unregistered number.
    pub fn from_u16(value: u16) -> (r: Tag)
        ensures
            r == spec_tag_from(value),
    {
        if value == 0xfe {
            Tag::NewSubfileType
        } else if value == 0xff {
            Tag::SubfileType
        } else if value == 0x0100 {
            Tag::ImageWidth
        } else if value == 0x0101 {
            Tag::ImageLength
        } else if value == 0x0102 {
            Tag::BitsPerSample
        } else if value == 0x0103 {
            Tag::Compression
        } else if value == 0x0106 {
            Tag::PhotometricInterpretation
        } else if value == 0x0107 {
            Tag::Threshholding
        } else if value == 0x0108 {
            Tag::CellWidth
        } else if value == 0x0109 {
            Tag::CellLength
        } else if value == 0x010a {
            Tag::FillOrder
        } else if value == 0x010e {
            Tag::ImageDescription
        } else if value == 0x010f {
            Tag::Make
        } else if value == 0x0110 {
            Tag::Model
        } else if value == 0x0111 {
            Tag::StripOffsets
        } else if value == 0x0112 {
            Tag::Orientation
        } else if value == 0x0115 {
            Tag::SamplesPerPixel
        } else if value == 0x0116 {
            Tag::RowsPerStrip
        } else if value == 0x0117 {
            Tag::StripByteCounts
        } else if value == 0x0118 {
            Tag::MinSampleValue
        } else if value == 0x0119 {
            Tag::MaxSampleValue
        } else if value == 0x011a {
            Tag::XResolution
        } else if value == 0x011b {
            Tag::YResolution
        } else if value == 0x011c {
            Tag::PlanarConfiguration
        } else if value == 0x0120 {
            Tag::FreeOffsets
        } else if value == 0x0121 {
            Tag::FreeByteCounts
        } else if value == 0x0122 {
            Tag::GrayResponseUnit
        } else if value == 0x0123 {
            Tag::GrayResponseCurve
        } else if value == 0x0128 {
            Tag::ResolutionUnit
        } else if value == 0x0131 {
            Tag::Software
        } else if value == 0x0132 {
            Tag::DateTime
        } else if value == 0x013b {
            Tag::Artist
        } else if value == 0x013c {
            Tag::HostComputer
        } else if value == 0x0140 {
            Tag::ColorMap
        } else if value == 0x0152 {
            Tag::ExtraSamples
        } else if value == 0x8298 {
            Tag::Copyright
        } else if value == 0x13d {
            Tag::Predictor
        } else if value == 0x124 {
            Tag::T4Options
        } else if value == 0x125 {
            Tag::T6Options
        } else if value == 0x10d {
            Tag::DocumentName
        } else if value == 0x11d {
            Tag::PageName
        } else if value == 0x129 {
            Tag::PageNumber
        } else if value == 0x11e {
            Tag::XPosition
        } else if value == 0x11f {
            Tag::YPosition
        } else if value == 0x142 {
            Tag::TileWidth
        } else if value == 0x143 {
            Tag::TileLength
        } else if value == 0x144 {
            Tag::TileOffsets
        } else if value == 0x145 {
            Tag::TileByteCounts
        } else if value == 0x14c {
            Tag::InkSet
        } else if value == 0x14e {
            Tag::NumberOfInks
        } else if value == 0x14d {
            Tag::InkNames
        } else if value == 0x150 {
            Tag::DotRange
        } else if value == 0x151 {
            Tag::TargetPrinter
        } else if value == 0x141 {
            Tag::HalftoneHints
        } else if value == 0x153 {
            Tag::SampleFormat
        } else if value == 0x154 {
            Tag::SMinSampleValue
        } else if value == 0x155 {
            Tag::SMaxSampleValue
        } else if value == 0x318 {
            Tag::WhitePoint
        } else if value == 0x319 {
            Tag::PrimaryChromaticities
        } else if value == 0x301 {
            Tag::TransferFunction
        } else if value == 0x156 {
            Tag::TransferRange
        } else if value == 0x532 {
            Tag::ReferenceBlackWhite
        } else if value == 0x211 {
            Tag::YCbCrCoefficients
        } else if value == 0x212 {
            Tag::YCbCrSubSampling
        } else if value == 0x213 {
            Tag::YCbCrPositioning
        } else if value == 0x200 {
            Tag::JPEGProc
        } else if value == 0x201 {
            Tag::JPEGInterchangeFormat
        } else if value == 0x202 {
            Tag::JPEGInterchangeFormatLength
        } else if value == 0x203 {
            Tag::JPEGRestartInterval
        } else if value == 0x205 {
            Tag::JPEGLosslessPredictors
        } else if value == 0x206 {
            Tag::JPEGPointTransforms
        } else if value == 0x207 {
            Tag::JPEGQTables
        } else if value == 0x208 {
            Tag::JPEGDCTables
        } else if value == 0x209 {
            Tag::JPEGACTables
        } else {
            Tag::Unknown(value)
        }
    }
}


/// A *field* is a strongly-typed view over a tag's value.  Each well-known
/// field declares its tag, which value variants it accepts when decoding,
/// and the canonical value variant it encodes to.  Every implementation
/// proves that decoding an encoded field yields the field back.
pub trait Field: Sized + View {
    /// The tag this field lives under.
    spec fn spec_tag() -> Tag;

    /// The decoding relation: which values are legal for this field, and
    /// the field each one denotes.
    spec fn spec_decode(v: ValueView) -> Option<Self::V>;

    /// The encoding relation: the canonical value of a field, or `None`
    /// when the field rejects its value.
    spec fn spec_encode(w: Self::V) -> Option<ValueView>;

    /// The `Tag` corresponding to this field.
    fn tag() -> (t: Tag)
        ensures
            t == Self::spec_tag(),
    ;

    /// A function creating `Self` from one `TIFFValue`.
    fn decode_from_value(value: &TIFFValue) -> (r: Option<Self>)
        ensures
            match r {
                Some(f) => Self::spec_decode(value@) == Some(f@),
                None => Self::spec_decode(value@) is None,
            },
    ;

    /// Encodes this field to its canonical `TIFFValue`.
    fn encode_to_value(&self) -> (r: Option<TIFFValue>)
        ensures
            match r {
                Some(v) => Self::spec_encode(self@) == Some(v@),
                None => Self::spec_encode(self@) is None,
            },
    ;

    /// Decoding an encoded field yields the field back.
    proof fn lemma_field_roundtrip(w: Self::V)
        ensures
            match Self::spec_encode(w) {
                Some(v) => Self::spec_decode(v) == Some(w),
                None => true,
            },
    ;
}

} // verus!
