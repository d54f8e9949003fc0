//! The attributes of an image, read from its image file directory.

use vstd::arithmetic::div_mod::{lemma_fundamental_div_mod, lemma_fundamental_div_mod_converse};
use vstd::prelude::*;
use vstd::std_specs::hash::group_hash_axioms;

use crate::decoder::{ChunkType, Limits};
use crate::error::{ColorType, TiffError, TiffFormatError, TiffResult, TiffUnsupportedError, UsageError};
use crate::ifd::{dir_view, Directory, EntryModel};
use crate::packbits::unpack;
use crate::result::{
    decode_into, invert_colors, inverts, is_float, kind_size, lemma_result_expand, predictor_samples,
    result_rows_written, rev_hpredict, DecodingResult, RowOp, SampleKind,
};
use crate::samples::{data_fits, rows_fit};
use crate::stream::{take_at, ByteOrder, IoError, SmartReader};
use crate::tag_reader::{
    error_realizes, find_tag, find_tag_uint_vec, find_u16, find_u32, model_into_u8_vec,
    outcome, outcome_list, require_u32, require_u64_vec, spec_find_tag, spec_find_tag_pos, spec_find_tag_uint_vec,
    spec_find_u16, spec_find_u32, spec_require_u32, spec_require_u64_vec, value_into_u8_vec,
    ErrorModel, ReadContext, read_context,
};
use crate::tags::{CompressionMethod, PhotometricInterpretation, PlanarConfiguration, Predictor, SampleFormat, Tag};

verus! {

broadcast use group_hash_axioms;

/// The strip layout of an image: the number of rows in each strip.
#[derive(Debug, Clone, Copy, PartialEq, Eq, Structural)]
pub struct StripDecodeState {
    pub rows_per_strip: u32,
}

/// The tile layout of an image.
#[derive(Debug, Clone, Copy, PartialEq, Eq, Structural)]
pub struct TileAttributes {
    pub image_width: usize,
    pub image_height: usize,
    pub tile_width: usize,
    pub tile_length: usize,
}

/// The attributes of an image.
#[derive(Debug)]
pub struct Image {
    pub ifd: Directory,
    pub width: u32,
    pub height: u32,
    pub bits_per_sample: Vec<u8>,
    pub samples: u16,
    pub sample_format: Vec<SampleFormat>,
    pub photometric_interpretation: PhotometricInterpretation,
    pub compression_method: CompressionMethod,
    pub jpeg_tables: Option<Vec<u8>>,
    pub predictor: Predictor,
    pub chunk_type: ChunkType,
    pub strip_decoder: Option<StripDecodeState>,
    pub tile_attributes: Option<TileAttributes>,
    pub chunk_offsets: Vec<u64>,
    pub chunk_bytes: Vec<u64>,
}

/// The attributes of an image, as mathematical values.
pub struct ImageModel {
    pub ifd: Map<u16, EntryModel>,
    pub width: u32,
    pub height: u32,
    pub bits_per_sample: Seq<u8>,
    pub samples: u16,
    pub sample_format: Seq<SampleFormat>,
    pub photometric_interpretation: PhotometricInterpretation,
    pub compression_method: CompressionMethod,
    pub jpeg_tables: Option<Seq<u8>>,
    pub predictor: Predictor,
    pub chunk_type: ChunkType,
    pub strip_decoder: Option<StripDecodeState>,
    pub tile_attributes: Option<TileAttributes>,
    pub chunk_offsets: Seq<u64>,
    pub chunk_bytes: Seq<u64>,
}

/// The view of optional bytes.
pub open spec fn opt_view(v: Option<Vec<u8>>) -> Option<Seq<u8>> {
    match v {
        Some(x) => Some(x@),
        None => None,
    }
}

impl View for Image {
    type V = ImageModel;

    open spec fn view(&self) -> ImageModel {
        ImageModel {
            ifd: dir_view(self.ifd@),
            width: self.width,
            height: self.height,
            bits_per_sample: self.bits_per_sample@,
            samples: self.samples,
            sample_format: self.sample_format@,
            photometric_interpretation: self.photometric_interpretation,
            compression_method: self.compression_method,
            jpeg_tables: opt_view(self.jpeg_tables),
            predictor: self.predictor,
            chunk_type: self.chunk_type,
            strip_decoder: self.strip_decoder,
            tile_attributes: self.tile_attributes,
            chunk_offsets: self.chunk_offsets@,
            chunk_bytes: self.chunk_bytes@,
        }
    }
}

/// The chunk layout of an image: strips or tiles, and where their data lies.
pub struct ChunkModel {
    pub chunk_type: ChunkType,
    pub strip_decoder: Option<StripDecodeState>,
    pub tile_attributes: Option<TileAttributes>,
    pub chunk_offsets: Seq<u64>,
    pub chunk_bytes: Seq<u64>,
}

impl TileAttributes {
    /// Whether the attributes are those of an image and tiles of positive
    /// sizes that a TIFF file can describe.
    pub open spec fn wf(self) -> bool {
        &&& 1 <= self.image_width <= u32::MAX
        &&& 1 <= self.image_height <= u32::MAX
        &&& 1 <= self.tile_width <= u32::MAX
        &&& 1 <= self.tile_length <= u32::MAX
    }

    /// The number of tiles across the image.
    pub open spec fn spec_tiles_across(self) -> nat {
        ((self.image_width + self.tile_width - 1) / (self.tile_width as int)) as nat
    }

    /// The number of tiles down the image.
    pub open spec fn spec_tiles_down(self) -> nat {
        ((self.image_height + self.tile_length - 1) / (self.tile_length as int)) as nat
    }

    /// The number of columns of the rightmost tiles that lie outside the image.
    pub open spec fn spec_padding_right(self) -> nat {
        ((self.tile_width - self.image_width % self.tile_width) % (self.tile_width as int)) as nat
    }

    /// The number of rows of the bottom tiles that lie outside the image.
    pub open spec fn spec_padding_down(self) -> nat {
        ((self.tile_length - self.image_height % self.tile_length) % (self.tile_length as int)) as nat
    }

    /// The padding to the right and below the tile `tile`: only the rightmost
    /// and bottom tiles have any.
    pub open spec fn spec_get_padding(self, tile: nat) -> (nat, nat) {
        let row = tile / self.spec_tiles_across();
        let column = tile % self.spec_tiles_across();
        (
            if column == self.spec_tiles_across() - 1 { self.spec_padding_right() } else { 0 },
            if row == self.spec_tiles_down() - 1 { self.spec_padding_down() } else { 0 },
        )
    }

    /// The number of tiles across the image.
    pub fn tiles_across(&self) -> (r: usize)
        requires
            self.wf(),
        ensures
            r == self.spec_tiles_across(),
            1 <= r <= self.image_width,
    {
        let w = self.image_width as u64;
        let t = self.tile_width as u64;
        proof {
            let a = w as int;
            let b = t as int;
            assert((a + b - 1) / b <= a) by (nonlinear_arith)
                requires
                    a >= 1,
                    b >= 1,
            ;
            assert((a + b - 1) / b >= 1) by (nonlinear_arith)
                requires
                    a >= 1,
                    b >= 1,
            ;
        }
        ((w + t - 1) / t) as usize
    }

    /// The number of tiles down the image.
    pub fn tiles_down(&self) -> (r: usize)
        requires
            self.wf(),
        ensures
            r == self.spec_tiles_down(),
            1 <= r <= self.image_height,
    {
        let h = self.image_height as u64;
        let t = self.tile_length as u64;
        proof {
            let a = h as int;
            let b = t as int;
            assert((a + b - 1) / b <= a) by (nonlinear_arith)
                requires
                    a >= 1,
                    b >= 1,
            ;
            assert((a + b - 1) / b >= 1) by (nonlinear_arith)
                requires
                    a >= 1,
                    b >= 1,
            ;
        }
        ((h + t - 1) / t) as usize
    }

    /// The number of columns of the rightmost tiles that lie outside the image.
    fn padding_right(&self) -> (r: usize)
        requires
            self.wf(),
        ensures
            r == self.spec_padding_right(),
            r < self.tile_width,
    {
        (self.tile_width - self.image_width % self.tile_width) % self.tile_width
    }

    /// The number of rows of the bottom tiles that lie outside the image.
    fn padding_down(&self) -> (r: usize)
        requires
            self.wf(),
        ensures
            r == self.spec_padding_down(),
            r < self.tile_length,
    {
        (self.tile_length - self.image_height % self.tile_length) % self.tile_length
    }

    /// The padding to the right and below the tile `tile`.
    pub fn get_padding(&self, tile: usize) -> (r: (usize, usize))
        requires
            self.wf(),
        ensures
            r.0 == self.spec_get_padding(tile as nat).0,
            r.1 == self.spec_get_padding(tile as nat).1,
            r.0 < self.tile_width,
            r.1 < self.tile_length,
    {
        let row = tile / self.tiles_across();
        let column = tile % self.tiles_across();
        let padding_right = if column == self.tiles_across() - 1 {
            self.padding_right()
        } else {
            0
        };
        let padding_down = if row == self.tiles_down() - 1 {
            self.padding_down()
        } else {
            0
        };
        (padding_right, padding_down)
    }
}

/// What the photometric interpretation of the image is.
pub open spec fn spec_photometric(dir: Map<u16, EntryModel>, ctx: ReadContext) -> Result<PhotometricInterpretation, ErrorModel> {
    match spec_find_u16(dir, Tag::PhotometricInterpretation, ctx) {
        Err(e) => Err(e),
        Ok(None) => Err(ErrorModel::Exact(TiffError::UnsupportedError(TiffUnsupportedError::UnknownInterpretation))),
        Ok(Some(x)) => match PhotometricInterpretation::spec_from_u16(x) {
            Some(p) => Ok(p),
            None => Err(ErrorModel::Exact(TiffError::UnsupportedError(TiffUnsupportedError::UnknownInterpretation))),
        },
    }
}

/// What the compression method of the image is: none where the tag is absent.
pub open spec fn spec_compression(dir: Map<u16, EntryModel>, ctx: ReadContext) -> Result<CompressionMethod, ErrorModel> {
    match spec_find_u16(dir, Tag::Compression, ctx) {
        Err(e) => Err(e),
        Ok(None) => Ok(CompressionMethod::NoCompression),
        Ok(Some(x)) => Ok(CompressionMethod::spec_from_u16_exhaustive(x)),
    }
}

/// What the JPEG tables of the image are: read only for modern JPEG
/// compression, and at least two bytes long.
pub open spec fn spec_jpeg_tables(dir: Map<u16, EntryModel>, ctx: ReadContext, cm: CompressionMethod) -> Result<Option<Seq<u8>>, ErrorModel> {
    if cm == CompressionMethod::ModernJPEG && dir.contains_key(Tag::JPEGTables.code()) {
        match spec_find_tag(dir, Tag::JPEGTables, ctx) {
            Err(e) => Err(ErrorModel::Exact(e)),
            Ok(None) => Err(ErrorModel::Exact(TiffError::FormatError(TiffFormatError::RequiredTagNotFound(Tag::JPEGTables)))),
            Ok(Some(m)) => match model_into_u8_vec(m) {
                Err(e) => Err(e),
                Ok(v) => if v.len() < 2 {
                    Err(ErrorModel::Exact(TiffError::FormatError(TiffFormatError::InvalidTagValueType(Tag::JPEGTables))))
                } else {
                    Ok(Some(v))
                },
            },
        }
    } else {
        Ok(None)
    }
}

/// The number of samples per pixel: one where the tag is absent, never zero.
pub open spec fn spec_samples(dir: Map<u16, EntryModel>, ctx: ReadContext) -> Result<u16, ErrorModel> {
    match spec_find_u16(dir, Tag::SamplesPerPixel, ctx) {
        Err(e) => Err(e),
        Ok(None) => Ok(1),
        Ok(Some(x)) => if x == 0 {
            Err(ErrorModel::Exact(TiffError::FormatError(TiffFormatError::SamplesPerPixelIsZero)))
        } else {
            Ok(x)
        },
    }
}

/// Whether all the elements of `f` are the same.
pub open spec fn all_same(f: Seq<SampleFormat>) -> bool {
    forall|i: int| 0 <= i < f.len() - 1 ==> #[trigger] f[i] == f[i + 1]
}

/// The sample formats: unsigned where the tag is absent, and all the same.
pub open spec fn spec_sample_format(dir: Map<u16, EntryModel>, ctx: ReadContext) -> Result<Seq<SampleFormat>, ErrorModel> {
    match spec_find_tag_uint_vec::<u16>(dir, Tag::SampleFormat, ctx) {
        Err(e) => Err(e),
        Ok(None) => Ok(seq![SampleFormat::Uint]),
        Ok(Some(v)) => {
            let f = v.map_values(|x: u16| SampleFormat::spec_from_u16_exhaustive(x));
            if all_same(f) {
                Ok(f)
            } else {
                Err(ErrorModel::UnsupportedSampleFormat(f))
            }
        },
    }
}

/// The bits of each sample: one where the tag is absent; only one, three or
/// four samples per pixel are supported.
pub open spec fn spec_bits_per_sample(dir: Map<u16, EntryModel>, ctx: ReadContext, samples: u16) -> Result<Seq<u8>, ErrorModel> {
    if samples == 1 || samples == 3 || samples == 4 {
        match spec_find_tag_uint_vec::<u8>(dir, Tag::BitsPerSample, ctx) {
            Err(e) => Err(e),
            Ok(None) => Ok(seq![1u8]),
            Ok(Some(v)) => Ok(v),
        }
    } else {
        Err(ErrorModel::Exact(TiffError::UnsupportedError(TiffUnsupportedError::UnsupportedSampleDepth(samples))))
    }
}

/// The predictor: none where the tag is absent.
pub open spec fn spec_predictor(dir: Map<u16, EntryModel>, ctx: ReadContext) -> Result<Predictor, ErrorModel> {
    match spec_find_u16(dir, Tag::Predictor, ctx) {
        Err(e) => Err(e),
        Ok(None) => Ok(Predictor::NoPrediction),
        Ok(Some(p)) => match Predictor::spec_from_u16(p) {
            Some(x) => Ok(x),
            None => Err(ErrorModel::Exact(TiffError::FormatError(TiffFormatError::UnknownPredictor(p)))),
        },
    }
}

/// Whether the samples are stored chunky, the only configuration supported:
/// it is where the tag is absent.
pub open spec fn spec_planar(dir: Map<u16, EntryModel>, ctx: ReadContext) -> Result<(), ErrorModel> {
    match spec_find_u16(dir, Tag::PlanarConfiguration, ctx) {
        Err(e) => Err(e),
        Ok(None) => Ok(()),
        Ok(Some(p)) => match PlanarConfiguration::spec_from_u16(p) {
            Some(PlanarConfiguration::Chunky) => Ok(()),
            c => Err(ErrorModel::Exact(TiffError::UnsupportedError(TiffUnsupportedError::UnsupportedPlanarConfig(c)))),
        },
    }
}

/// The strip layout of an image of height `height`.
pub open spec fn spec_strips(dir: Map<u16, EntryModel>, ctx: ReadContext, height: u32) -> Result<ChunkModel, ErrorModel> {
    match spec_require_u64_vec(dir, Tag::StripOffsets, ctx) {
        Err(e) => Err(e),
        Ok(offsets) => match spec_require_u64_vec(dir, Tag::StripByteCounts, ctx) {
            Err(e) => Err(e),
            Ok(bytes) => match spec_find_u32(dir, Tag::RowsPerStrip, ctx) {
                Err(e) => Err(e),
                Ok(rps) => {
                    let rows_per_strip = match rps {
                        Some(r) => r,
                        None => height,
                    };
                    let inconsistent = ErrorModel::Exact(TiffError::FormatError(TiffFormatError::InconsistentSizesEncountered));
                    if offsets.len() != bytes.len() || rows_per_strip == 0 {
                        Err(inconsistent)
                    } else if offsets.len() > u32::MAX {
                        Err(ErrorModel::Exact(TiffError::IntSizeError))
                    } else if offsets.len() != (height - 1) / (rows_per_strip as int) + 1 {
                        Err(inconsistent)
                    } else {
                        Ok(ChunkModel {
                            chunk_type: ChunkType::Strip,
                            strip_decoder: Some(StripDecodeState { rows_per_strip }),
                            tile_attributes: None,
                            chunk_offsets: offsets,
                            chunk_bytes: bytes,
                        })
                    }
                },
            },
        },
    }
}

/// The tile layout of an image of `width` by `height` pixels.
pub open spec fn spec_tiles(dir: Map<u16, EntryModel>, ctx: ReadContext, width: u32, height: u32) -> Result<ChunkModel, ErrorModel> {
    match spec_require_u32(dir, Tag::TileWidth, ctx) {
        Err(e) => Err(e),
        Ok(tile_width) => match spec_require_u32(dir, Tag::TileLength, ctx) {
            Err(e) => Err(e),
            Ok(tile_length) => if tile_width == 0 {
                Err(ErrorModel::Exact(TiffError::FormatError(TiffFormatError::InvalidTagValueType(Tag::TileWidth))))
            } else if tile_length == 0 {
                Err(ErrorModel::Exact(TiffError::FormatError(TiffFormatError::InvalidTagValueType(Tag::TileLength))))
            } else {
                let tiles = TileAttributes {
                    image_width: width as usize,
                    image_height: height as usize,
                    tile_width: tile_width as usize,
                    tile_length: tile_length as usize,
                };
                match spec_require_u64_vec(dir, Tag::TileOffsets, ctx) {
                    Err(e) => Err(e),
                    Ok(offsets) => match spec_require_u64_vec(dir, Tag::TileByteCounts, ctx) {
                        Err(e) => Err(e),
                        Ok(bytes) => if offsets.len() != bytes.len()
                            || offsets.len() != tiles.spec_tiles_down() * tiles.spec_tiles_across() {
                            Err(ErrorModel::Exact(TiffError::FormatError(TiffFormatError::InconsistentSizesEncountered)))
                        } else {
                            Ok(ChunkModel {
                                chunk_type: ChunkType::Tile,
                                strip_decoder: None,
                                tile_attributes: Some(tiles),
                                chunk_offsets: offsets,
                                chunk_bytes: bytes,
                            })
                        },
                    },
                }
            },
        },
    }
}

/// The chunk layout of an image: strips where the directory has the strip
/// tags and not the tile tags, tiles where it is the other way round.
pub open spec fn spec_chunks(dir: Map<u16, EntryModel>, ctx: ReadContext, width: u32, height: u32) -> Result<ChunkModel, ErrorModel> {
    let sbc = dir.contains_key(Tag::StripByteCounts.code());
    let so = dir.contains_key(Tag::StripOffsets.code());
    let tbc = dir.contains_key(Tag::TileByteCounts.code());
    let to = dir.contains_key(Tag::TileOffsets.code());
    if sbc && so && !tbc && !to {
        spec_strips(dir, ctx, height)
    } else if !sbc && !so && tbc && to {
        spec_tiles(dir, ctx, width, height)
    } else {
        Err(ErrorModel::Exact(TiffError::FormatError(TiffFormatError::StripTileTagConflict)))
    }
}

/// Where reading the strip layout leaves a reader that was at `pos`: after
/// the last tag looked up, the lookups stopping at the first that fails.
pub open spec fn spec_strips_pos(dir: Map<u16, EntryModel>, ctx: ReadContext, pos: nat) -> nat {
    let p1 = spec_find_tag_pos(dir, Tag::StripOffsets, ctx, pos);
    let p2 = spec_find_tag_pos(dir, Tag::StripByteCounts, ctx, p1);
    if spec_require_u64_vec(dir, Tag::StripOffsets, ctx) is Err {
        p1
    } else if spec_require_u64_vec(dir, Tag::StripByteCounts, ctx) is Err {
        p2
    } else {
        spec_find_tag_pos(dir, Tag::RowsPerStrip, ctx, p2)
    }
}

/// Where reading the tile layout leaves a reader that was at `pos`: after
/// the last tag looked up, the lookups stopping at the first that fails or
/// at a tile size of zero.
pub open spec fn spec_tiles_pos(dir: Map<u16, EntryModel>, ctx: ReadContext, pos: nat) -> nat {
    let p1 = spec_find_tag_pos(dir, Tag::TileWidth, ctx, pos);
    let p2 = spec_find_tag_pos(dir, Tag::TileLength, ctx, p1);
    let p3 = spec_find_tag_pos(dir, Tag::TileOffsets, ctx, p2);
    match spec_require_u32(dir, Tag::TileWidth, ctx) {
        Err(_) => p1,
        Ok(tile_width) => match spec_require_u32(dir, Tag::TileLength, ctx) {
            Err(_) => p2,
            Ok(tile_length) => if tile_width == 0 || tile_length == 0 {
                p2
            } else if spec_require_u64_vec(dir, Tag::TileOffsets, ctx) is Err {
                p3
            } else {
                spec_find_tag_pos(dir, Tag::TileByteCounts, ctx, p3)
            },
        },
    }
}

/// Where reading the chunk layout leaves a reader that was at `pos`: where
/// the strip or tile tags conflict, it stays.
pub open spec fn spec_chunks_pos(dir: Map<u16, EntryModel>, ctx: ReadContext, pos: nat) -> nat {
    let sbc = dir.contains_key(Tag::StripByteCounts.code());
    let so = dir.contains_key(Tag::StripOffsets.code());
    let tbc = dir.contains_key(Tag::TileByteCounts.code());
    let to = dir.contains_key(Tag::TileOffsets.code());
    if sbc && so && !tbc && !to {
        spec_strips_pos(dir, ctx, pos)
    } else if !sbc && !so && tbc && to {
        spec_tiles_pos(dir, ctx, pos)
    } else {
        pos
    }
}

/// Where reading the attributes of the image that `dir` describes leaves a
/// reader that was at `pos`: after the last tag looked up, the attributes
/// being read in turn and the reading stopping at the first that fails.
#[verifier::opaque]
pub open spec fn spec_image_pos(dir: Map<u16, EntryModel>, ctx: ReadContext, pos: nat) -> nat {
    let p1 = spec_find_tag_pos(dir, Tag::ImageWidth, ctx, pos);
    let p2 = spec_find_tag_pos(dir, Tag::ImageLength, ctx, p1);
    let p3 = spec_find_tag_pos(dir, Tag::PhotometricInterpretation, ctx, p2);
    let p4 = spec_find_tag_pos(dir, Tag::Compression, ctx, p3);
    match spec_require_u32(dir, Tag::ImageWidth, ctx) {
        Err(_) => p1,
        Ok(width) => match spec_require_u32(dir, Tag::ImageLength, ctx) {
            Err(_) => p2,
            Ok(height) => if width == 0 || height == 0 {
                p2
            } else if spec_photometric(dir, ctx) is Err {
                p3
            } else {
                match spec_compression(dir, ctx) {
                    Err(_) => p4,
                    Ok(cm) => {
                        let p5 = if cm == CompressionMethod::ModernJPEG && dir.contains_key(Tag::JPEGTables.code()) {
                            spec_find_tag_pos(dir, Tag::JPEGTables, ctx, p4)
                        } else {
                            p4
                        };
                        let p6 = spec_find_tag_pos(dir, Tag::SamplesPerPixel, ctx, p5);
                        let p7 = spec_find_tag_pos(dir, Tag::SampleFormat, ctx, p6);
                        if spec_jpeg_tables(dir, ctx, cm) is Err {
                            p5
                        } else {
                            match spec_samples(dir, ctx) {
                                Err(_) => p6,
                                Ok(samples) => {
                                    let p8 = if samples == 1 || samples == 3 || samples == 4 {
                                        spec_find_tag_pos(dir, Tag::BitsPerSample, ctx, p7)
                                    } else {
                                        p7
                                    };
                                    let p9 = spec_find_tag_pos(dir, Tag::Predictor, ctx, p8);
                                    let p10 = spec_find_tag_pos(dir, Tag::PlanarConfiguration, ctx, p9);
                                    if spec_sample_format(dir, ctx) is Err {
                                        p7
                                    } else if spec_bits_per_sample(dir, ctx, samples) is Err {
                                        p8
                                    } else if spec_predictor(dir, ctx) is Err {
                                        p9
                                    } else if spec_planar(dir, ctx) is Err {
                                        p10
                                    } else {
                                        spec_chunks_pos(dir, ctx, p10)
                                    }
                                },
                            }
                        }
                    },
                }
            },
        },
    }
}

/// The attributes of the image that the directory `dir` describes.
#[verifier::opaque]
pub open spec fn spec_image(dir: Map<u16, EntryModel>, ctx: ReadContext) -> Result<ImageModel, ErrorModel> {
    match spec_require_u32(dir, Tag::ImageWidth, ctx) {
        Err(e) => Err(e),
        Ok(width) => match spec_require_u32(dir, Tag::ImageLength, ctx) {
            Err(e) => Err(e),
            Ok(height) => if width == 0 || height == 0 {
                Err(ErrorModel::Exact(TiffError::FormatError(TiffFormatError::InvalidDimensions(width, height))))
            } else {
                match spec_photometric(dir, ctx) {
                    Err(e) => Err(e),
                    Ok(photometric_interpretation) => match spec_compression(dir, ctx) {
                        Err(e) => Err(e),
                        Ok(compression_method) => match spec_jpeg_tables(dir, ctx, compression_method) {
                            Err(e) => Err(e),
                            Ok(jpeg_tables) => match spec_samples(dir, ctx) {
                                Err(e) => Err(e),
                                Ok(samples) => match spec_sample_format(dir, ctx) {
                                    Err(e) => Err(e),
                                    Ok(sample_format) => match spec_bits_per_sample(dir, ctx, samples) {
                                        Err(e) => Err(e),
                                        Ok(bits_per_sample) => match spec_predictor(dir, ctx) {
                                            Err(e) => Err(e),
                                            Ok(predictor) => match spec_planar(dir, ctx) {
                                                Err(e) => Err(e),
                                                Ok(_) => match spec_chunks(dir, ctx, width, height) {
                                                    Err(e) => Err(e),
                                                    Ok(c) => Ok(ImageModel {
                                                        ifd: dir,
                                                        width,
                                                        height,
                                                        bits_per_sample,
                                                        samples,
                                                        sample_format,
                                                        photometric_interpretation,
                                                        compression_method,
                                                        jpeg_tables,
                                                        predictor,
                                                        chunk_type: c.chunk_type,
                                                        strip_decoder: c.strip_decoder,
                                                        tile_attributes: c.tile_attributes,
                                                        chunk_offsets: c.chunk_offsets,
                                                        chunk_bytes: c.chunk_bytes,
                                                    }),
                                                },
                                            },
                                        },
                                    },
                                },
                            },
                        },
                    },
                }
            },
        },
    }
}

/// Reads the photometric interpretation.
fn read_photometric(ifd: &Directory, limits: &Limits, bigtiff: bool, reader: &mut SmartReader) -> (r: TiffResult<PhotometricInterpretation>)
    ensures
        final(reader).bytes() == old(reader).bytes(),
        final(reader).order() == old(reader).order(),
        final(reader).position() == spec_find_tag_pos(dir_view(ifd@), Tag::PhotometricInterpretation, read_context(*old(reader), limits.decoding_buffer_size, bigtiff), old(reader).position()),
        outcome(r, spec_photometric(dir_view(ifd@), read_context(*old(reader), limits.decoding_buffer_size, bigtiff))),
{
    let ghost ctx = read_context(*reader, limits.decoding_buffer_size, bigtiff);
    match find_u16(ifd, Tag::PhotometricInterpretation, limits, bigtiff, reader) {
        Err(e) => Err(e),
        Ok(None) => Err(TiffError::UnsupportedError(TiffUnsupportedError::UnknownInterpretation)),
        Ok(Some(x)) => match PhotometricInterpretation::from_u16(x) {
            Some(p) => Ok(p),
            None => Err(TiffError::UnsupportedError(TiffUnsupportedError::UnknownInterpretation)),
        },
    }
}

/// Reads the compression method.
fn read_compression(ifd: &Directory, limits: &Limits, bigtiff: bool, reader: &mut SmartReader) -> (r: TiffResult<CompressionMethod>)
    ensures
        final(reader).bytes() == old(reader).bytes(),
        final(reader).order() == old(reader).order(),
        final(reader).position() == spec_find_tag_pos(dir_view(ifd@), Tag::Compression, read_context(*old(reader), limits.decoding_buffer_size, bigtiff), old(reader).position()),
        outcome(r, spec_compression(dir_view(ifd@), read_context(*old(reader), limits.decoding_buffer_size, bigtiff))),
{
    let ghost ctx = read_context(*reader, limits.decoding_buffer_size, bigtiff);
    match find_u16(ifd, Tag::Compression, limits, bigtiff, reader) {
        Err(e) => Err(e),
        Ok(None) => Ok(CompressionMethod::NoCompression),
        Ok(Some(x)) => Ok(CompressionMethod::from_u16_exhaustive(x)),
    }
}

/// Whether the exec result `r` is the spec result `s`, for optional bytes.
pub open spec fn outcome_opt_bytes(r: TiffResult<Option<Vec<u8>>>, s: Result<Option<Seq<u8>>, ErrorModel>) -> bool {
    match s {
        Ok(None) => r matches Ok(None),
        Ok(Some(x)) => r matches Ok(Some(v)) && v@ == x,
        Err(m) => r matches Err(e) && error_realizes(e, m),
    }
}

/// Reads the JPEG tables, for modern JPEG compression.
fn read_jpeg_tables(ifd: &Directory, limits: &Limits, bigtiff: bool, reader: &mut SmartReader, cm: CompressionMethod) -> (r: TiffResult<Option<Vec<u8>>>)
    ensures
        final(reader).bytes() == old(reader).bytes(),
        final(reader).order() == old(reader).order(),
        final(reader).position() == (if cm == CompressionMethod::ModernJPEG && dir_view(ifd@).contains_key(Tag::JPEGTables.code()) {
            spec_find_tag_pos(dir_view(ifd@), Tag::JPEGTables, read_context(*old(reader), limits.decoding_buffer_size, bigtiff), old(reader).position())
        } else {
            old(reader).position()
        }),
        outcome_opt_bytes(r, spec_jpeg_tables(dir_view(ifd@), read_context(*old(reader), limits.decoding_buffer_size, bigtiff), cm)),
{
    let ghost ctx = read_context(*reader, limits.decoding_buffer_size, bigtiff);
    if cm == CompressionMethod::ModernJPEG && ifd.contains_key(&Tag::JPEGTables.to_u16()) {
        match find_tag(ifd, Tag::JPEGTables, limits, bigtiff, reader) {
            Err(e) => Err(e),
            Ok(None) => Err(TiffError::FormatError(TiffFormatError::RequiredTagNotFound(Tag::JPEGTables))),
            Ok(Some(v)) => {
                let ghost m = spec_find_tag(dir_view(ifd@), Tag::JPEGTables, ctx).unwrap().unwrap();
                match value_into_u8_vec(v, Ghost(m)) {
                    Err(e) => Err(e),
                    Ok(t) => if t.len() < 2 {
                        Err(TiffError::FormatError(TiffFormatError::InvalidTagValueType(Tag::JPEGTables)))
                    } else {
                        Ok(Some(t))
                    },
                }
            },
        }
    } else {
        Ok(None)
    }
}

/// Reads the number of samples per pixel.
fn read_samples(ifd: &Directory, limits: &Limits, bigtiff: bool, reader: &mut SmartReader) -> (r: TiffResult<u16>)
    ensures
        final(reader).bytes() == old(reader).bytes(),
        final(reader).order() == old(reader).order(),
        final(reader).position() == spec_find_tag_pos(dir_view(ifd@), Tag::SamplesPerPixel, read_context(*old(reader), limits.decoding_buffer_size, bigtiff), old(reader).position()),
        outcome(r, spec_samples(dir_view(ifd@), read_context(*old(reader), limits.decoding_buffer_size, bigtiff))),
{
    let ghost ctx = read_context(*reader, limits.decoding_buffer_size, bigtiff);
    match find_u16(ifd, Tag::SamplesPerPixel, limits, bigtiff, reader) {
        Err(e) => Err(e),
        Ok(None) => Ok(1),
        Ok(Some(x)) => if x == 0 {
            Err(TiffError::FormatError(TiffFormatError::SamplesPerPixelIsZero))
        } else {
            Ok(x)
        },
    }
}

/// Reads the sample formats.
fn read_sample_format(ifd: &Directory, limits: &Limits, bigtiff: bool, reader: &mut SmartReader) -> (r: TiffResult<Vec<SampleFormat>>)
    ensures
        final(reader).bytes() == old(reader).bytes(),
        final(reader).order() == old(reader).order(),
        final(reader).position() == spec_find_tag_pos(dir_view(ifd@), Tag::SampleFormat, read_context(*old(reader), limits.decoding_buffer_size, bigtiff), old(reader).position()),
        outcome_list(r, spec_sample_format(dir_view(ifd@), read_context(*old(reader), limits.decoding_buffer_size, bigtiff))),
{
    let ghost ctx = read_context(*reader, limits.decoding_buffer_size, bigtiff);
    match find_tag_uint_vec::<u16>(ifd, Tag::SampleFormat, limits, bigtiff, reader) {
        Err(e) => Err(e),
        Ok(None) => {
            let mut f: Vec<SampleFormat> = Vec::new();
            f.push(SampleFormat::Uint);
            assert(f@ =~= seq![SampleFormat::Uint]);
            Ok(f)
        },
        Ok(Some(v)) => {
            let ghost want = v@.map_values(|x: u16| SampleFormat::spec_from_u16_exhaustive(x));
            let mut f: Vec<SampleFormat> = Vec::with_capacity(v.len());
            let mut i: usize = 0;
            while i < v.len()
                invariant
                    i <= v@.len(),
                    want == v@.map_values(|x: u16| SampleFormat::spec_from_u16_exhaustive(x)),
                    f@ =~= want.take(i as int),
                decreases v.len() - i,
            {
                f.push(SampleFormat::from_u16_exhaustive(v[i]));
                i = i + 1;
                assert(f@ =~= want.take(i as int));
            }
            assert(want.take(v@.len() as int) =~= want);
            let mut same = true;
            let mut j: usize = 1;
            while j < f.len()
                invariant
                    f@ == want,
                    1 <= j <= f@.len() || f@.len() == 0,
                    same ==> forall|k: int| 0 <= k < j - 1 ==> #[trigger] want[k] == want[k + 1],
                    !same ==> !all_same(want),
                decreases f.len() - j,
            {
                if f[j - 1] != f[j] {
                    same = false;
                    assert(!all_same(want)) by {
                        let k = (j - 1) as int;
                        assert(want[k] != want[k + 1]);
                    }
                }
                j = j + 1;
            }
            if same {
                Ok(f)
            } else {
                Err(TiffError::UnsupportedError(TiffUnsupportedError::UnsupportedSampleFormat(f)))
            }
        },
    }
}

/// Reads the bits of each sample.
fn read_bits_per_sample(ifd: &Directory, limits: &Limits, bigtiff: bool, reader: &mut SmartReader, samples: u16) -> (r: TiffResult<Vec<u8>>)
    ensures
        final(reader).bytes() == old(reader).bytes(),
        final(reader).order() == old(reader).order(),
        final(reader).position() == (if samples == 1 || samples == 3 || samples == 4 {
            spec_find_tag_pos(dir_view(ifd@), Tag::BitsPerSample, read_context(*old(reader), limits.decoding_buffer_size, bigtiff), old(reader).position())
        } else {
            old(reader).position()
        }),
        outcome_list(r, spec_bits_per_sample(dir_view(ifd@), read_context(*old(reader), limits.decoding_buffer_size, bigtiff), samples)),
{
    let ghost ctx = read_context(*reader, limits.decoding_buffer_size, bigtiff);
    if samples == 1 || samples == 3 || samples == 4 {
        match find_tag_uint_vec::<u8>(ifd, Tag::BitsPerSample, limits, bigtiff, reader) {
            Err(e) => Err(e),
            Ok(None) => {
                let mut b: Vec<u8> = Vec::new();
                b.push(1);
                assert(b@ =~= seq![1u8]);
                Ok(b)
            },
            Ok(Some(v)) => Ok(v),
        }
    } else {
        Err(TiffError::UnsupportedError(TiffUnsupportedError::UnsupportedSampleDepth(samples)))
    }
}

/// Reads the predictor.
fn read_predictor(ifd: &Directory, limits: &Limits, bigtiff: bool, reader: &mut SmartReader) -> (r: TiffResult<Predictor>)
    ensures
        final(reader).bytes() == old(reader).bytes(),
        final(reader).order() == old(reader).order(),
        final(reader).position() == spec_find_tag_pos(dir_view(ifd@), Tag::Predictor, read_context(*old(reader), limits.decoding_buffer_size, bigtiff), old(reader).position()),
        outcome(r, spec_predictor(dir_view(ifd@), read_context(*old(reader), limits.decoding_buffer_size, bigtiff))),
{
    let ghost ctx = read_context(*reader, limits.decoding_buffer_size, bigtiff);
    match find_u16(ifd, Tag::Predictor, limits, bigtiff, reader) {
        Err(e) => Err(e),
        Ok(None) => Ok(Predictor::NoPrediction),
        Ok(Some(p)) => match Predictor::from_u16(p) {
            Some(x) => Ok(x),
            None => Err(TiffError::FormatError(TiffFormatError::UnknownPredictor(p))),
        },
    }
}

/// Checks that the samples are stored chunky.
fn check_planar(ifd: &Directory, limits: &Limits, bigtiff: bool, reader: &mut SmartReader) -> (r: TiffResult<()>)
    ensures
        final(reader).bytes() == old(reader).bytes(),
        final(reader).order() == old(reader).order(),
        final(reader).position() == spec_find_tag_pos(dir_view(ifd@), Tag::PlanarConfiguration, read_context(*old(reader), limits.decoding_buffer_size, bigtiff), old(reader).position()),
        outcome(r, spec_planar(dir_view(ifd@), read_context(*old(reader), limits.decoding_buffer_size, bigtiff))),
{
    let ghost ctx = read_context(*reader, limits.decoding_buffer_size, bigtiff);
    match find_u16(ifd, Tag::PlanarConfiguration, limits, bigtiff, reader) {
        Err(e) => Err(e),
        Ok(None) => Ok(()),
        Ok(Some(p)) => match PlanarConfiguration::from_u16(p) {
            Some(PlanarConfiguration::Chunky) => Ok(()),
            c => Err(TiffError::UnsupportedError(TiffUnsupportedError::UnsupportedPlanarConfig(c))),
        },
    }
}

/// Whether the exec result `r` is the spec result `s`, for a chunk layout.
pub open spec fn outcome_chunks(r: TiffResult<(ChunkType, Option<StripDecodeState>, Option<TileAttributes>, Vec<u64>, Vec<u64>)>, s: Result<ChunkModel, ErrorModel>) -> bool {
    match s {
        Ok(c) => r matches Ok(x) && x.0 == c.chunk_type && x.1 == c.strip_decoder && x.2 == c.tile_attributes
            && x.3@ == c.chunk_offsets && x.4@ == c.chunk_bytes,
        Err(m) => r matches Err(e) && error_realizes(e, m),
    }
}

/// Reads the strip layout of an image of height `height`.
fn read_strips(ifd: &Directory, limits: &Limits, bigtiff: bool, reader: &mut SmartReader, height: u32) -> (r: TiffResult<(ChunkType, Option<StripDecodeState>, Option<TileAttributes>, Vec<u64>, Vec<u64>)>)
    requires
        height > 0,
    ensures
        final(reader).bytes() == old(reader).bytes(),
        final(reader).order() == old(reader).order(),
        final(reader).position() == spec_strips_pos(dir_view(ifd@), read_context(*old(reader), limits.decoding_buffer_size, bigtiff), old(reader).position()),
        outcome_chunks(r, spec_strips(dir_view(ifd@), read_context(*old(reader), limits.decoding_buffer_size, bigtiff), height)),
{
    let offsets = match require_u64_vec(ifd, Tag::StripOffsets, limits, bigtiff, reader) {
        Ok(x) => x,
        Err(e) => return Err(e),
    };
    let bytes = match require_u64_vec(ifd, Tag::StripByteCounts, limits, bigtiff, reader) {
        Ok(x) => x,
        Err(e) => return Err(e),
    };
    let rows_per_strip = match find_u32(ifd, Tag::RowsPerStrip, limits, bigtiff, reader) {
        Ok(Some(x)) => x,
        Ok(None) => height,
        Err(e) => return Err(e),
    };
    if offsets.len() != bytes.len() || rows_per_strip == 0 {
        return Err(TiffError::FormatError(TiffFormatError::InconsistentSizesEncountered));
    }
    if offsets.len() > u32::MAX as usize {
        return Err(TiffError::IntSizeError);
    }
    if offsets.len() as u32 != (height - 1) / rows_per_strip + 1 {
        return Err(TiffError::FormatError(TiffFormatError::InconsistentSizesEncountered));
    }
    Ok((ChunkType::Strip, Some(StripDecodeState { rows_per_strip }), None, offsets, bytes))
}

/// Reads the tile layout of an image of `width` by `height` pixels.
fn read_tiles(ifd: &Directory, limits: &Limits, bigtiff: bool, reader: &mut SmartReader, width: u32, height: u32) -> (r: TiffResult<(ChunkType, Option<StripDecodeState>, Option<TileAttributes>, Vec<u64>, Vec<u64>)>)
    requires
        width > 0,
        height > 0,
    ensures
        final(reader).bytes() == old(reader).bytes(),
        final(reader).order() == old(reader).order(),
        final(reader).position() == spec_tiles_pos(dir_view(ifd@), read_context(*old(reader), limits.decoding_buffer_size, bigtiff), old(reader).position()),
        outcome_chunks(r, spec_tiles(dir_view(ifd@), read_context(*old(reader), limits.decoding_buffer_size, bigtiff), width, height)),
        r matches Ok(x) ==> (x.2 matches Some(t) ==> t.wf()),
{
    let tile_width = match require_u32(ifd, Tag::TileWidth, limits, bigtiff, reader) {
        Ok(x) => x,
        Err(e) => return Err(e),
    };
    let tile_length = match require_u32(ifd, Tag::TileLength, limits, bigtiff, reader) {
        Ok(x) => x,
        Err(e) => return Err(e),
    };
    if tile_width == 0 {
        return Err(TiffError::FormatError(TiffFormatError::InvalidTagValueType(Tag::TileWidth)));
    } else if tile_length == 0 {
        return Err(TiffError::FormatError(TiffFormatError::InvalidTagValueType(Tag::TileLength)));
    }
    let tiles = TileAttributes {
        image_width: width as usize,
        image_height: height as usize,
        tile_width: tile_width as usize,
        tile_length: tile_length as usize,
    };
    let offsets = match require_u64_vec(ifd, Tag::TileOffsets, limits, bigtiff, reader) {
        Ok(x) => x,
        Err(e) => return Err(e),
    };
    let bytes = match require_u64_vec(ifd, Tag::TileByteCounts, limits, bigtiff, reader) {
        Ok(x) => x,
        Err(e) => return Err(e),
    };
    let down = tiles.tiles_down() as u64;
    let across = tiles.tiles_across() as u64;
    proof {
        assert(down * across <= u32::MAX * u32::MAX) by (nonlinear_arith)
            requires
                down <= u32::MAX,
                across <= u32::MAX,
        ;
    }
    if offsets.len() != bytes.len() || offsets.len() as u64 != down * across {
        return Err(TiffError::FormatError(TiffFormatError::InconsistentSizesEncountered));
    }
    Ok((ChunkType::Tile, None, Some(tiles), offsets, bytes))
}

/// Whether the exec result `r` is the spec result `s`, for an image.
pub open spec fn outcome_image(r: TiffResult<Image>, s: Result<ImageModel, ErrorModel>) -> bool {
    match s {
        Ok(m) => r matches Ok(img) && img@ == m,
        Err(m) => r matches Err(e) && error_realizes(e, m),
    }
}

impl ImageModel {
    /// Whether the image's layout is consistent: the image is not empty,
    /// each chunk has an offset and a byte count, strips come with their
    /// rows per strip and tiles with well-formed tile attributes, and there
    /// are as many chunks as the layout has.
    pub open spec fn wf(self) -> bool {
        &&& self.width >= 1
        &&& self.height >= 1
        &&& self.chunk_offsets.len() == self.chunk_bytes.len()
        &&& self.chunk_type == ChunkType::Strip ==> (self.strip_decoder matches Some(s) && s.rows_per_strip > 0
            && self.chunk_offsets.len() == (self.height - 1) / (s.rows_per_strip as int) + 1)
        &&& self.chunk_type == ChunkType::Tile ==> (self.tile_attributes matches Some(t) && t.wf()
            && t.image_width == self.width && t.image_height == self.height
            && self.chunk_offsets.len() == t.spec_tiles_down() * t.spec_tiles_across())
    }
}

impl Image {
    /// Whether the image's layout is consistent.
    pub open spec fn wf(self) -> bool {
        self@.wf()
    }

    /// Reads the attributes of the image the directory `ifd` describes.
    pub fn from_reader(reader: &mut SmartReader, ifd: Directory, limits: &Limits, bigtiff: bool) -> (r: TiffResult<Image>)
        ensures
            final(reader).bytes() == old(reader).bytes(),
            final(reader).order() == old(reader).order(),
            final(reader).position() == spec_image_pos(dir_view(ifd@), read_context(*old(reader), limits.decoding_buffer_size, bigtiff), old(reader).position()),
            outcome_image(r, spec_image(dir_view(ifd@), read_context(*old(reader), limits.decoding_buffer_size, bigtiff))),
            r matches Ok(img) ==> img.wf(),
    {
        let ghost ctx = read_context(*reader, limits.decoding_buffer_size, bigtiff);
        reveal(spec_image);
        reveal(spec_image_pos);
        let width = match require_u32(&ifd, Tag::ImageWidth, limits, bigtiff, reader) {
            Ok(x) => x,
            Err(e) => return Err(e),
        };
        let height = match require_u32(&ifd, Tag::ImageLength, limits, bigtiff, reader) {
            Ok(x) => x,
            Err(e) => return Err(e),
        };
        if width == 0 || height == 0 {
            return Err(TiffError::FormatError(TiffFormatError::InvalidDimensions(width, height)));
        }
        let photometric_interpretation = match read_photometric(&ifd, limits, bigtiff, reader) {
            Ok(x) => x,
            Err(e) => return Err(e),
        };
        let compression_method = match read_compression(&ifd, limits, bigtiff, reader) {
            Ok(x) => x,
            Err(e) => return Err(e),
        };
        let jpeg_tables = match read_jpeg_tables(&ifd, limits, bigtiff, reader, compression_method) {
            Ok(x) => x,
            Err(e) => return Err(e),
        };
        let samples = match read_samples(&ifd, limits, bigtiff, reader) {
            Ok(x) => x,
            Err(e) => return Err(e),
        };
        let sample_format = match read_sample_format(&ifd, limits, bigtiff, reader) {
            Ok(x) => x,
            Err(e) => return Err(e),
        };
        let bits_per_sample = match read_bits_per_sample(&ifd, limits, bigtiff, reader, samples) {
            Ok(x) => x,
            Err(e) => return Err(e),
        };
        let predictor = match read_predictor(&ifd, limits, bigtiff, reader) {
            Ok(x) => x,
            Err(e) => return Err(e),
        };
        match check_planar(&ifd, limits, bigtiff, reader) {
            Ok(_) => {},
            Err(e) => return Err(e),
        }
        let sbc = ifd.contains_key(&Tag::StripByteCounts.to_u16());
        let so = ifd.contains_key(&Tag::StripOffsets.to_u16());
        let tbc = ifd.contains_key(&Tag::TileByteCounts.to_u16());
        let to = ifd.contains_key(&Tag::TileOffsets.to_u16());
        let chunks = if sbc && so && !tbc && !to {
            read_strips(&ifd, limits, bigtiff, reader, height)
        } else if !sbc && !so && tbc && to {
            read_tiles(&ifd, limits, bigtiff, reader, width, height)
        } else {
            return Err(TiffError::FormatError(TiffFormatError::StripTileTagConflict));
        };
        let (chunk_type, strip_decoder, tile_attributes, chunk_offsets, chunk_bytes) = match chunks {
            Ok(x) => x,
            Err(e) => return Err(e),
        };
        Ok(Image {
            ifd,
            width,
            height,
            bits_per_sample,
            samples,
            sample_format,
            photometric_interpretation,
            compression_method,
            jpeg_tables,
            predictor,
            chunk_type,
            strip_decoder,
            tile_attributes,
            chunk_offsets,
            chunk_bytes,
        })
    }
}

/// The color type of an image with the photometric interpretation `p` and
/// the bits per sample `b`.
pub open spec fn spec_colortype(p: PhotometricInterpretation, b: Seq<u8>) -> Result<ColorType, ErrorModel> {
    let unsupported = Err(ErrorModel::InterpretationWithBits(p, b));
    match p {
        PhotometricInterpretation::RGB => if b.len() == 3 && b[1] == b[0] && b[2] == b[0] {
            Ok(ColorType::RGB(b[0]))
        } else if b.len() == 4 && b[1] == b[0] && b[2] == b[0] && b[3] == b[0] {
            Ok(ColorType::RGBA(b[0]))
        } else {
            unsupported
        },
        PhotometricInterpretation::CMYK => if b.len() == 4 && b[1] == b[0] && b[2] == b[0] && b[3] == b[0] {
            Ok(ColorType::CMYK(b[0]))
        } else {
            unsupported
        },
        PhotometricInterpretation::YCbCr => if b.len() == 3 && b[1] == b[0] && b[2] == b[0] {
            Ok(ColorType::YCbCr(b[0]))
        } else {
            unsupported
        },
        PhotometricInterpretation::BlackIsZero | PhotometricInterpretation::WhiteIsZero => if b.len() == 1 {
            Ok(ColorType::Gray(b[0]))
        } else {
            unsupported
        },
        _ => unsupported,
    }
}

/// A copy of the bytes of `v`.
fn copy_bytes(v: &Vec<u8>) -> (r: Vec<u8>)
    ensures
        r@ == v@,
{
    let mut out: Vec<u8> = Vec::with_capacity(v.len());
    let mut i: usize = 0;
    while i < v.len()
        invariant
            i <= v@.len(),
            out@ =~= v@.take(i as int),
        decreases v.len() - i,
    {
        out.push(v[i]);
        i = i + 1;
        assert(out@ =~= v@.take(i as int));
    }
    assert(v@.take(v@.len() as int) =~= v@);
    out
}

impl Image {
    /// The color type of the image.
    pub fn colortype(&self) -> (r: TiffResult<ColorType>)
        ensures
            outcome(r, spec_colortype(self.photometric_interpretation, self.bits_per_sample@)),
    {
        let b = &self.bits_per_sample;
        let p = self.photometric_interpretation;
        match p {
            PhotometricInterpretation::RGB => {
                if b.len() == 3 && b[1] == b[0] && b[2] == b[0] {
                    return Ok(ColorType::RGB(b[0]));
                } else if b.len() == 4 && b[1] == b[0] && b[2] == b[0] && b[3] == b[0] {
                    return Ok(ColorType::RGBA(b[0]));
                }
            },
            PhotometricInterpretation::CMYK => {
                if b.len() == 4 && b[1] == b[0] && b[2] == b[0] && b[3] == b[0] {
                    return Ok(ColorType::CMYK(b[0]));
                }
            },
            PhotometricInterpretation::YCbCr => {
                if b.len() == 3 && b[1] == b[0] && b[2] == b[0] {
                    return Ok(ColorType::YCbCr(b[0]));
                }
            },
            PhotometricInterpretation::BlackIsZero | PhotometricInterpretation::WhiteIsZero => {
                if b.len() == 1 {
                    return Ok(ColorType::Gray(b[0]));
                }
            },
            _ => {},
        }
        Err(TiffError::UnsupportedError(TiffUnsupportedError::InterpretationWithBits(p, copy_bytes(b))))
    }
}


/// The bits of each sample of the color type `ct`.
pub open spec fn color_bits(ct: ColorType) -> u8 {
    match ct {
        ColorType::Gray(n) => n,
        ColorType::RGB(n) => n,
        ColorType::Palette(n) => n,
        ColorType::GrayA(n) => n,
        ColorType::RGBA(n) => n,
        ColorType::CMYK(n) => n,
        ColorType::YCbCr(n) => n,
    }
}

/// Whether samples of the kind `k` can take the samples of an image of the
/// color type `ct` with the predictor `p`: samples as wide as the color
/// type's bits, or bytes for grayscale of fewer than eight bits without a
/// predictor. The error where they cannot.
pub open spec fn spec_check_color(ct: ColorType, k: SampleKind, p: Predictor) -> Result<(), TiffError> {
    if !(ct is Palette) && !(ct is GrayA) && color_bits(ct) as nat == kind_size(k) * 8 {
        Ok(())
    } else if ct is Gray && color_bits(ct) < 8 && k == SampleKind::U8 {
        match p {
            Predictor::NoPrediction => Ok(()),
            Predictor::Horizontal => Err(TiffError::UnsupportedError(TiffUnsupportedError::HorizontalPredictor(ct))),
            Predictor::FloatingPoint => Err(TiffError::UnsupportedError(TiffUnsupportedError::FloatingPointPredictor(ct))),
        }
    } else {
        Err(TiffError::UnsupportedError(TiffUnsupportedError::UnsupportedColorType(ct)))
    }
}

/// Checks that samples of the kind `kind` can take the samples of an image
/// of the color type `ct` with the predictor `p`.
fn check_color(ct: ColorType, kind: SampleKind, p: Predictor) -> (r: TiffResult<()>)
    ensures
        r == spec_check_color(ct, kind, p),
{
    let bits: u16 = match kind {
        SampleKind::U8 | SampleKind::I8 => 8,
        SampleKind::U16 | SampleKind::I16 => 16,
        SampleKind::U32 | SampleKind::I32 | SampleKind::F32 => 32,
        SampleKind::U64 | SampleKind::I64 | SampleKind::F64 => 64,
    };
    match ct {
        ColorType::RGB(n) | ColorType::RGBA(n) | ColorType::CMYK(n) | ColorType::YCbCr(n) | ColorType::Gray(n) => {
            if n as u16 == bits {
                return Ok(());
            }
        },
        _ => {},
    }
    match (ct, kind) {
        (ColorType::Gray(n), SampleKind::U8) => {
            if n < 8 {
                return match p {
                    Predictor::NoPrediction => Ok(()),
                    Predictor::Horizontal => Err(TiffError::UnsupportedError(TiffUnsupportedError::HorizontalPredictor(ct))),
                    Predictor::FloatingPoint => Err(TiffError::UnsupportedError(TiffUnsupportedError::FloatingPointPredictor(ct))),
                };
            }
        },
        _ => {},
    }
    Err(TiffError::UnsupportedError(TiffUnsupportedError::UnsupportedColorType(ct)))
}

/// The width and height of a chunk: the image's width and the rows per strip
/// for strips, the tile's size for tiles.
pub open spec fn spec_chunk_dimensions(img: ImageModel) -> (nat, nat) {
    match img.chunk_type {
        ChunkType::Strip => (img.width as nat, img.strip_decoder.unwrap().rows_per_strip as nat),
        ChunkType::Tile => (img.tile_attributes.unwrap().tile_width as nat, img.tile_attributes.unwrap().tile_length as nat),
    }
}

/// The width and height of the part of the chunk `chunk` that lies within
/// the image: the bottom strip may have fewer rows, and tiles at the right
/// and bottom lose their padding. Fails with `InvalidChunkIndex` for a strip
/// that starts below the image.
pub open spec fn spec_chunk_data_dimensions(img: ImageModel, chunk: nat) -> Result<(nat, nat), TiffError> {
    let dims = spec_chunk_dimensions(img);
    match img.chunk_type {
        ChunkType::Strip => if chunk * dims.1 > img.height {
            Err(TiffError::UsageError(UsageError::InvalidChunkIndex(chunk as u32)))
        } else {
            let left = (img.height - chunk * dims.1) as nat;
            Ok((dims.0, if dims.1 <= left { dims.1 } else { left }))
        },
        ChunkType::Tile => {
            let t = img.tile_attributes.unwrap();
            let pad = t.spec_get_padding(chunk);
            Ok(((t.tile_width - pad.0) as nat, (t.tile_length - pad.1) as nat))
        },
    }
}

impl Image {
    /// The width and height of a chunk.
    pub fn chunk_dimensions(&self) -> (r: TiffResult<(u32, u32)>)
        requires
            self.wf(),
        ensures
            r matches Ok(d) && d.0 as nat == spec_chunk_dimensions(self@).0 && d.1 as nat == spec_chunk_dimensions(self@).1,
    {
        match self.chunk_type {
            ChunkType::Strip => {
                let rows_per_strip = self.strip_decoder.unwrap().rows_per_strip;
                Ok((self.width, rows_per_strip))
            },
            ChunkType::Tile => {
                let tile_attrs = self.tile_attributes.unwrap();
                Ok((tile_attrs.tile_width as u32, tile_attrs.tile_length as u32))
            },
        }
    }

    /// The width and height of the part of the chunk `chunk` that lies
    /// within the image.
    pub fn chunk_data_dimensions(&self, chunk: usize) -> (r: TiffResult<(u32, u32)>)
        requires
            self.wf(),
        ensures
            match spec_chunk_data_dimensions(self@, chunk as nat) {
                Ok(d) => r matches Ok(x) && x.0 as nat == d.0 && x.1 as nat == d.1,
                Err(e) => r == Err::<(u32, u32), TiffError>(e),
            },
    {
        let dims = match self.chunk_dimensions() {
            Ok(d) => d,
            Err(e) => return Err(e),
        };
        match self.chunk_type {
            ChunkType::Strip => {
                let above = match (chunk as u64).checked_mul(dims.1 as u64) {
                    Some(x) => x,
                    None => return Err(TiffError::UsageError(UsageError::InvalidChunkIndex(chunk as u32))),
                };
                if above > self.height as u64 {
                    return Err(TiffError::UsageError(UsageError::InvalidChunkIndex(chunk as u32)));
                }
                let left = self.height as u64 - above;
                Ok((dims.0, if dims.1 as u64 <= left { dims.1 } else { left as u32 }))
            },
            ChunkType::Tile => {
                let tile_attrs = self.tile_attributes.unwrap();
                let (padding_right, padding_down) = tile_attrs.get_padding(chunk);
                Ok(((tile_attrs.tile_width - padding_right) as u32, (tile_attrs.tile_length - padding_down) as u32))
            },
        }
    }

    /// The offset in the file and the byte count of the chunk `chunk`; fails
    /// with `InconsistentSizesEncountered` where the image has no such chunk.
    pub fn chunk_file_range(&self, chunk: usize) -> (r: TiffResult<(u64, u64)>)
        ensures
            chunk < self@.chunk_offsets.len() && chunk < self@.chunk_bytes.len() ==> r == Ok::<(u64, u64), TiffError>(
                (self@.chunk_offsets[chunk as int], self@.chunk_bytes[chunk as int]),
            ),
            !(chunk < self@.chunk_offsets.len() && chunk < self@.chunk_bytes.len()) ==> r == Err::<(u64, u64), TiffError>(
                TiffError::FormatError(TiffFormatError::InconsistentSizesEncountered),
            ),
    {
        if chunk >= self.chunk_offsets.len() || chunk >= self.chunk_bytes.len() {
            return Err(TiffError::FormatError(TiffFormatError::InconsistentSizesEncountered));
        }
        Ok((self.chunk_offsets[chunk], self.chunk_bytes[chunk]))
    }
}


/// How the samples of one chunk are expanded into a buffer.
pub struct ChunkPlan {
    /// The color type of the image.
    pub color_type: ColorType,
    /// The width, in pixels, of the part of the chunk within the image.
    pub cols: nat,
    /// The height of the part of the chunk within the image.
    pub rows: nat,
    /// The width of the chunk, in pixels, padding included.
    pub chunk_width: nat,
    /// The number of samples of each pixel.
    pub samples: nat,
    /// The number of bytes of the chunk in the file.
    pub bytes: nat,
    /// Whether horizontal prediction is undone.
    pub predict: bool,
    /// Whether the colors are inverted.
    pub invert: bool,
}

impl ChunkPlan {
    /// The distance in bytes between the rows of the chunk in the file, of
    /// no account where there is at most one row.
    pub open spec fn row_step(self, k: SampleKind) -> nat {
        if self.rows <= 1 {
            0
        } else {
            self.chunk_width * self.samples * kind_size(k)
        }
    }

    /// The number of bytes of a row within the image.
    pub open spec fn need(self, k: SampleKind) -> nat {
        self.cols * self.samples * kind_size(k)
    }

    /// What is done to each row: decoding from the chunk's bytes `data`,
    /// then undoing prediction and inverting as the plan says.
    pub open spec fn op(self, k: SampleKind, data: Seq<u8>, bo: ByteOrder) -> RowOp {
        RowOp::Expand(data, self.row_step(k) as int, bo, if self.predict { self.samples } else { 0 }, self.invert)
    }

    /// Whether the chunk's rows, `output_width` pixels apart from `start` on,
    /// fit in a buffer of `buf_len` samples.
    pub open spec fn fits(self, k: SampleKind, buf_len: nat, start: nat, output_width: nat) -> bool {
        &&& self.cols <= output_width
        &&& output_width * self.samples * kind_size(k) <= usize::MAX
        &&& rows_fit(buf_len as int, start as int, self.rows as int, (self.cols * self.samples) as int, (output_width * self.samples) as int)
    }
}

/// How the chunk `chunk` of the image `img` is expanded into samples of the
/// kind `k`, or the error that stops it before any data is read: that of the
/// color type, of the sample kind, of a floating-point predictor, of a
/// missing byte count, of the chunk's dimensions, or of a compression other
/// than none or PackBits.
pub open spec fn spec_chunk_plan(img: ImageModel, k: SampleKind, chunk: nat) -> Result<ChunkPlan, ErrorModel> {
    match spec_colortype(img.photometric_interpretation, img.bits_per_sample) {
        Err(m) => Err(m),
        Ok(ct) => match spec_check_color(ct, k, img.predictor) {
            Err(e) => Err(ErrorModel::Exact(e)),
            Ok(_) => if img.predictor == Predictor::FloatingPoint {
                Err(ErrorModel::Exact(TiffError::UnsupportedError(TiffUnsupportedError::FloatingPointPredictor(ct))))
            } else if chunk >= img.chunk_bytes.len() {
                Err(ErrorModel::Exact(TiffError::FormatError(TiffFormatError::InconsistentSizesEncountered)))
            } else {
                match spec_chunk_data_dimensions(img, chunk) {
                    Err(e) => Err(ErrorModel::Exact(e)),
                    Ok(d) => if img.compression_method != CompressionMethod::NoCompression
                        && img.compression_method != CompressionMethod::PackBits {
                        Err(ErrorModel::Exact(TiffError::UnsupportedError(
                            TiffUnsupportedError::UnsupportedCompressionMethod(img.compression_method),
                        )))
                    } else {
                        Ok(ChunkPlan {
                            color_type: ct,
                            cols: d.0,
                            rows: d.1,
                            chunk_width: spec_chunk_dimensions(img).0,
                            samples: img.bits_per_sample.len(),
                            bytes: img.chunk_bytes[chunk as int] as nat,
                            predict: img.predictor == Predictor::Horizontal,
                            invert: img.photometric_interpretation == PhotometricInterpretation::WhiteIsZero && inverts(ct, k),
                        })
                    },
                }
            },
        },
    }
}

/// The bytes the samples of a chunk are read from: the `bytes` bytes of
/// `file` from `pos` on, unpacked where the compression is PackBits. The
/// error where a PackBits run reaches past the end of the file, or the byte
/// count does not fit in a `usize`.
pub open spec fn spec_chunk_source(cm: CompressionMethod, file: Seq<u8>, pos: nat, bytes: nat) -> Result<Seq<u8>, ErrorModel> {
    match cm {
        CompressionMethod::PackBits => if bytes > usize::MAX {
            Err(ErrorModel::Exact(TiffError::IntSizeError))
        } else {
            match unpack(file, pos, bytes as int, Seq::empty()) {
                None => Err(ErrorModel::Exact(TiffError::IoError(IoError::UnexpectedEof))),
                Some(d) => Ok(d),
            }
        },
        _ => Ok(take_at(file, pos, bytes)),
    }
}

/// What expanding the chunk `chunk` of the image `img` into samples of the
/// kind `k` comes to, read from the bytes of `file` from `pos` on: the plan,
/// or the error, which after those of the plan is that of unpacking the
/// chunk's bytes, then that they are too few, then that the predictor does
/// not support the samples.
pub open spec fn spec_expand_chunk(img: ImageModel, k: SampleKind, chunk: nat, file: Seq<u8>, pos: nat) -> Result<ChunkPlan, ErrorModel> {
    match spec_chunk_plan(img, k, chunk) {
        Err(m) => Err(m),
        Ok(p) => match spec_chunk_source(img.compression_method, file, pos, p.bytes) {
            Err(m) => Err(m),
            Ok(data) => if !data_fits(data.len() as int, p.rows as int, p.row_step(k) as int, p.need(k) as int) {
                Err(ErrorModel::Exact(TiffError::IoError(IoError::UnexpectedEof)))
            } else if p.predict && (predictor_samples(p.color_type) is None || is_float(k)) {
                Err(ErrorModel::Exact(TiffError::UnsupportedError(TiffUnsupportedError::HorizontalPredictor(p.color_type))))
            } else {
                Ok(p)
            },
        },
    }
}

/// The predictor works with as many samples per pixel as the color type
/// has bits per sample.
proof fn lemma_predictor_samples(p: PhotometricInterpretation, b: Seq<u8>, ct: ColorType)
    requires
        spec_colortype(p, b) == Ok::<ColorType, ErrorModel>(ct),
    ensures
        predictor_samples(ct) matches Some(s) ==> s == b.len(),
        b.len() <= 4,
{
}

impl Image {
    /// Expands the chunk `chunk`, whose bytes the reader is positioned at,
    /// into `buffer`: its rows, `output_width` pixels apart from `start` on,
    /// are decoded in the byte order `byte_order`, then prediction is undone
    /// and colors are inverted as the image says.
    pub fn expand_chunk(
        &self,
        reader: &SmartReader,
        buffer: &mut DecodingResult,
        start: usize,
        output_width: usize,
        byte_order: ByteOrder,
        chunk: usize,
    ) -> (r: TiffResult<()>)
        requires
            self.wf(),
            old(buffer)@.len() * kind_size(old(buffer)@.kind()) <= usize::MAX,
            spec_chunk_plan(self@, old(buffer)@.kind(), chunk as nat) matches Ok(p) ==> p.fits(
                old(buffer)@.kind(),
                old(buffer)@.len(),
                start as nat,
                output_width as nat,
            ),
        ensures
            final(buffer)@.kind() == old(buffer)@.kind(),
            final(buffer)@.len() == old(buffer)@.len(),
            match spec_expand_chunk(self@, old(buffer)@.kind(), chunk as nat, reader.bytes(), reader.position()) {
                Err(m) => r matches Err(e) && error_realizes(e, m),
                Ok(p) => r is Ok && result_rows_written(
                    old(buffer)@,
                    final(buffer)@,
                    start as int,
                    p.rows as int,
                    (p.cols * p.samples) as int,
                    (output_width * p.samples) as int,
                    p.op(
                        old(buffer)@.kind(),
                        spec_chunk_source(self@.compression_method, reader.bytes(), reader.position(), p.bytes)->Ok_0,
                        byte_order,
                    ),
                ),
            },
    {
        let ghost k = buffer@.kind();
        let ghost b0 = buffer@;
        let color_type = match self.colortype() {
            Ok(c) => c,
            Err(e) => return Err(e),
        };
        let kind = buffer.kind();
        match check_color(color_type, kind, self.predictor) {
            Ok(()) => {},
            Err(e) => return Err(e),
        }
        if self.predictor == Predictor::FloatingPoint {
            return Err(TiffError::UnsupportedError(TiffUnsupportedError::FloatingPointPredictor(color_type)));
        }
        if chunk >= self.chunk_bytes.len() {
            return Err(TiffError::FormatError(TiffFormatError::InconsistentSizesEncountered));
        }
        let bytes = self.chunk_bytes[chunk];
        let chunk_dims = match self.chunk_dimensions() {
            Ok(d) => d,
            Err(e) => return Err(e),
        };
        let data_dims = match self.chunk_data_dimensions(chunk) {
            Ok(d) => d,
            Err(e) => return Err(e),
        };
        if self.compression_method != CompressionMethod::NoCompression
            && self.compression_method != CompressionMethod::PackBits {
            return Err(TiffError::UnsupportedError(TiffUnsupportedError::UnsupportedCompressionMethod(self.compression_method)));
        }
        let ghost p = spec_chunk_plan(self@, k, chunk as nat)->Ok_0;
        proof {
            lemma_predictor_samples(self.photometric_interpretation, self.bits_per_sample@, color_type);
        }
        let samples = self.bits_per_sample.len();
        let cols = data_dims.0 as usize;
        let rows = data_dims.1 as usize;
        let byte_len = buffer.byte_len();
        proof {
            assert(cols * samples <= output_width * samples) by (nonlinear_arith)
                requires
                    cols <= output_width,
            ;
            assert(output_width * samples <= output_width * samples * byte_len) by (nonlinear_arith)
                requires
                    byte_len >= 1,
            ;
        }
        let len = cols * samples;
        let stride = output_width * samples;
        let data = if self.compression_method == CompressionMethod::PackBits {
            if bytes > usize::MAX as u64 {
                return Err(TiffError::IntSizeError);
            }
            match reader.unpack_bits(bytes as usize) {
                Some(d) => d,
                None => return Err(TiffError::IoError(IoError::UnexpectedEof)),
            }
        } else {
            reader.take_bytes(bytes)
        };
        proof {
            assert(chunk_dims.0 as u64 * samples as u64 * byte_len as u64 <= 0xffff_ffff * 4 * 8) by (nonlinear_arith)
                requires
                    chunk_dims.0 <= 0xffff_ffff,
                    samples <= 4,
                    byte_len <= 8,
            ;
        }
        let step: u64 = chunk_dims.0 as u64 * samples as u64 * byte_len as u64;
        let row_step: usize = if rows <= 1 {
            0
        } else if step > usize::MAX as u64 {
            proof {
                assert(data@.len() == data.len());
                assert((rows - 1) * (step as int) >= step) by (nonlinear_arith)
                    requires
                        rows >= 2,
                        step >= 0,
                ;
            }
            return Err(TiffError::IoError(IoError::UnexpectedEof));
        } else {
            step as usize
        };
        match decode_into(buffer, &data, start, rows, len, stride, row_step, byte_order) {
            Ok(()) => {},
            Err(e) => return Err(TiffError::IoError(e)),
        }
        let ghost b1 = buffer@;
        if self.predictor == Predictor::Horizontal {
            match rev_hpredict(buffer, start, data_dims, output_width, color_type) {
                Ok(()) => {},
                Err(e) => return Err(e),
            }
        }
        let ghost b2 = buffer@;
        if self.photometric_interpretation == PhotometricInterpretation::WhiteIsZero {
            invert_colors(buffer, start, rows, len, stride, color_type);
        }
        proof {
            lemma_result_expand(
                b0,
                b1,
                b2,
                buffer@,
                start as int,
                rows as int,
                len as int,
                stride as int,
                data@,
                row_step as int,
                byte_order,
                if p.predict { p.samples } else { 0 },
                p.invert,
            );
        }
        Ok(())
    }
}


/// The smaller of `a` and `b`.
pub open spec fn min_nat(a: nat, b: nat) -> nat {
    if a <= b { a } else { b }
}

/// The number of chunks across a decoding of the whole image: the image's
/// width divided by the chunk's width, rounded up.
pub open spec fn chunks_across(img: ImageModel) -> nat {
    let cw = min_nat(spec_chunk_dimensions(img).0, img.width as nat);
    (((img.width - 1) as nat) / cw + 1) as nat
}

/// The column of the image where the chunk `chunk` starts.
pub open spec fn chunk_x(img: ImageModel, chunk: nat) -> nat {
    (chunk % chunks_across(img)) * min_nat(spec_chunk_dimensions(img).0, img.width as nat)
}

/// The row of the image where the chunk `chunk` starts.
pub open spec fn chunk_y(img: ImageModel, chunk: nat) -> nat {
    (chunk / chunks_across(img)) * min_nat(spec_chunk_dimensions(img).1, img.height as nat)
}

/// Along an axis of `size` pixels cut into pieces of `piece` pixels, the
/// piece at `i`, less the padding that the last piece has beyond the end,
/// lies within the axis; and the number of pieces is one more than the
/// axis's last pixel divided by the smaller of the piece and the axis.
proof fn lemma_axis(size: int, piece: int, i: int)
    requires
        1 <= size,
        1 <= piece,
        0 <= i < (size + piece - 1) / piece,
    ensures
        (size + piece - 1) / piece == (size - 1) / (if piece <= size { piece } else { size }) + 1,
        0 <= (piece - size % piece) % piece < piece,
        i * (if piece <= size { piece } else { size }) + piece - (if i == (size + piece - 1) / piece - 1 {
            (piece - size % piece) % piece
        } else {
            0
        }) <= size,
        i == (size + piece - 1) / piece - 1 ==> i * (if piece <= size { piece } else { size }) + piece - (piece
            - size % piece) % piece == size,
{
    let q = size / piece;
    let m = size % piece;
    lemma_fundamental_div_mod(size, piece);
    assert(size == q * piece + m) by (nonlinear_arith)
        requires
            size == piece * q + m,
    ;
    if piece <= size {
        assert(q >= 1) by (nonlinear_arith)
            requires
                size == q * piece + m,
                0 <= m < piece,
                piece <= size,
        ;
        if m == 0 {
            assert(size - 1 == (q - 1) * piece + (piece - 1) && size + piece - 1 == q * piece + (piece - 1)) by (nonlinear_arith)
                requires
                    size == q * piece,
            ;
            lemma_fundamental_div_mod_converse(size - 1, piece, q - 1, piece - 1);
            lemma_fundamental_div_mod_converse(size + piece - 1, piece, q, piece - 1);
            lemma_fundamental_div_mod_converse(piece, piece, 1, 0);
            assert(i * piece + piece <= size) by (nonlinear_arith)
                requires
                    i < q,
                    size == q * piece,
                    piece >= 1,
            ;
        } else {
            assert(size + piece - 1 == (q + 1) * piece + (m - 1)) by (nonlinear_arith)
                requires
                    size == q * piece + m,
            ;
            lemma_fundamental_div_mod_converse(size - 1, piece, q, m - 1);
            lemma_fundamental_div_mod_converse(size + piece - 1, piece, q + 1, m - 1);
            lemma_fundamental_div_mod_converse(piece - m, piece, 0, piece - m);
            if i < q {
                assert(i * piece + piece <= size) by (nonlinear_arith)
                    requires
                        i < q,
                        size == q * piece + m,
                        piece >= 1,
                        m >= 0,
                ;
            }
        }
    } else {
        lemma_fundamental_div_mod_converse(size, piece, 0, size);
        lemma_fundamental_div_mod_converse(size - 1, size, 0, size - 1);
        lemma_fundamental_div_mod_converse(size + piece - 1, piece, 1, size - 1);
        lemma_fundamental_div_mod_converse(piece - size, piece, 0, piece - size);
    }
}

/// A strip that starts within the image starts at most at its last row.
proof fn lemma_strip_index(chunk: int, rows_per_strip: int, height: int)
    requires
        0 <= chunk < (height - 1) / rows_per_strip + 1,
        rows_per_strip >= 1,
        height >= 1,
    ensures
        chunk * rows_per_strip <= height - 1,
{
    let q = (height - 1) / rows_per_strip;
    lemma_fundamental_div_mod(height - 1, rows_per_strip);
    assert(chunk * rows_per_strip <= height - 1) by (nonlinear_arith)
        requires
            chunk <= q,
            height - 1 == rows_per_strip * q + (height - 1) % rows_per_strip,
            (height - 1) % rows_per_strip >= 0,
            rows_per_strip >= 1,
    ;
}

/// The part within the image of each chunk of a consistent image lies
/// within the image, where a decoding of the whole image places the chunk.
pub(crate) proof fn lemma_chunk_within(img: ImageModel, chunk: nat)
    requires
        img.wf(),
        chunk < img.chunk_offsets.len(),
    ensures
        spec_chunk_data_dimensions(img, chunk) matches Ok(d) && {
            &&& 1 <= d.0
            &&& 1 <= d.1
            &&& chunk_x(img, chunk) + d.0 <= img.width
            &&& chunk_y(img, chunk) + d.1 <= img.height
            &&& d.0 <= min_nat(spec_chunk_dimensions(img).0, img.width as nat)
            &&& d.1 <= min_nat(spec_chunk_dimensions(img).1, img.height as nat)
        },
        chunks_across(img) >= 1,
{
    let w = img.width as int;
    let h = img.height as int;
    match img.chunk_type {
        ChunkType::Strip => {
            let rps = img.strip_decoder.unwrap().rows_per_strip as int;
            lemma_fundamental_div_mod_converse(w - 1, w, 0, w - 1);
            assert(spec_chunk_dimensions(img).0 == w);
            assert(min_nat(spec_chunk_dimensions(img).0, img.width as nat) == w);
            assert(chunks_across(img) == 1);
            lemma_strip_index(chunk as int, rps, h);
            if rps > h {
                assert(chunk >= 1 ==> chunk * rps >= rps) by (nonlinear_arith)
                    requires
                        rps >= 0,
                ;
            }
            assert(chunk % 1 == 0 && chunk / 1 == chunk);
            assert(chunk_x(img, chunk) == 0);
            assert(spec_chunk_dimensions(img).1 == rps);
            assert(chunk_y(img, chunk) == chunk * min_nat(rps as nat, h as nat));
            if rps > h {
                assert(chunk == 0);
                assert(chunk_y(img, chunk) == 0);
            }
        },
        ChunkType::Tile => {
            let t = img.tile_attributes.unwrap();
            let tw = t.tile_width as int;
            let tl = t.tile_length as int;
            let across = t.spec_tiles_across() as int;
            let down = t.spec_tiles_down() as int;
            assert(across >= 1) by {
                lemma_fundamental_div_mod(w + tw - 1, tw);
                assert((w + tw - 1) / tw >= 1) by (nonlinear_arith)
                    requires
                        w + tw - 1 == tw * ((w + tw - 1) / tw) + (w + tw - 1) % tw,
                        (w + tw - 1) % tw < tw,
                        w >= 1,
                        tw >= 1,
                ;
            }
            let x = chunk as int % across;
            let y = chunk as int / across;
            lemma_fundamental_div_mod(chunk as int, across);
            assert(y < down) by (nonlinear_arith)
                requires
                    chunk == across * y + x,
                    0 <= x,
                    chunk < down * across,
                    across >= 1,
            ;
            assert(0 <= y) by (nonlinear_arith)
                requires
                    chunk == across * y + x,
                    x < across,
                    chunk >= 0,
                    across >= 1,
            ;
            lemma_axis(w, tw, x);
            lemma_axis(h, tl, y);
        },
    }
}

/// A block of `rows` rows of `cols` pixels at column `x` and row `y` of an
/// image of `width` pixels and `height` rows, of `samples` samples each,
/// fits in the image's samples.
pub(crate) proof fn lemma_block_fits(width: int, height: int, samples: int, x: int, y: int, cols: int, rows: int)
    requires
        0 <= x,
        0 <= y,
        0 <= cols,
        0 <= rows,
        0 <= samples,
        x + cols <= width,
        y + rows <= height,
    ensures
        rows_fit(width * height * samples, y * width * samples + x * samples, rows, cols * samples, width * samples),
        cols * samples <= width * samples,
        0 <= y * width * samples + x * samples,
{
    assert(cols * samples <= width * samples) by (nonlinear_arith)
        requires
            cols <= width,
            samples >= 0,
    ;
    assert(0 <= y * width * samples + x * samples) by (nonlinear_arith)
        requires
            0 <= x,
            0 <= y,
            0 <= width,
            0 <= samples,
    ;
    if rows > 0 {
        let ws = width * samples;
        assert(y * width * samples + x * samples + (rows - 1) * ws + cols * samples == (y + rows - 1) * ws + (x + cols) * samples) by (nonlinear_arith)
            requires
                ws == width * samples,
        ;
        assert((x + cols) * samples <= ws) by (nonlinear_arith)
            requires
                ws == width * samples,
                x + cols <= width,
                samples >= 0,
        ;
        assert((y + rows - 1) * ws + ws <= height * ws) by (nonlinear_arith)
            requires
                y + rows <= height,
                ws >= 0,
        ;
        assert(height * ws == width * height * samples) by (nonlinear_arith)
            requires
                ws == width * samples,
        ;
        assert(ws >= 0) by (nonlinear_arith)
            requires
                ws == width * samples,
                width >= 0,
                samples >= 0,
        ;
    }
}


/// Each pixel of an axis of `size` pixels cut into pieces of `piece` pixels
/// lies in the part within the axis of the piece its position, divided by
/// the smaller of the piece and the axis, names.
proof fn lemma_axis_cover(size: int, piece: int, v: int)
    requires
        1 <= size,
        1 <= piece,
        0 <= v < size,
    ensures
        ({
            let c = if piece <= size { piece } else { size };
            let count = (size + piece - 1) / piece;
            let g = v / c;
            let pad = if g == count - 1 { (piece - size % piece) % piece } else { 0 };
            &&& 0 <= g < count
            &&& g * c <= v < g * c + piece - pad
        }),
{
    let c = if piece <= size { piece } else { size };
    lemma_fundamental_div_mod(size + piece - 1, piece);
    assert((size + piece - 1) / piece >= 1) by (nonlinear_arith)
        requires
            size + piece - 1 == piece * ((size + piece - 1) / piece) + (size + piece - 1) % piece,
            (size + piece - 1) % piece < piece,
            size >= 1,
            piece >= 1,
    ;
    lemma_axis(size, piece, 0);
    let count = (size + piece - 1) / piece;
    let g = v / c;
    vstd::arithmetic::div_mod::lemma_div_is_ordered(v, size - 1, c);
    vstd::arithmetic::div_mod::lemma_div_is_ordered(0, v, c);
    lemma_fundamental_div_mod(v, c);
    assert(g * c <= v < g * c + c) by (nonlinear_arith)
        requires
            v == c * g + v % c,
            0 <= v % c < c,
    ;
    lemma_axis(size, piece, g);
}

/// Each pixel of a consistent image lies in the part within the image of
/// some chunk, where a decoding of the whole image places the chunk.
pub(crate) proof fn lemma_chunk_of_pixel(img: ImageModel, px: int, py: int) -> (j: nat)
    requires
        img.wf(),
        0 <= px < img.width,
        0 <= py < img.height,
    ensures
        j < img.chunk_offsets.len(),
        spec_chunk_data_dimensions(img, j) matches Ok(d) && {
            &&& chunk_x(img, j) <= px < chunk_x(img, j) + d.0
            &&& chunk_y(img, j) <= py < chunk_y(img, j) + d.1
        },
{
    let w = img.width as int;
    let h = img.height as int;
    match img.chunk_type {
        ChunkType::Strip => {
            let rps = img.strip_decoder.unwrap().rows_per_strip as int;
            lemma_fundamental_div_mod_converse(w - 1, w, 0, w - 1);
            assert(spec_chunk_dimensions(img).0 == w);
            assert(min_nat(spec_chunk_dimensions(img).0, img.width as nat) == w);
            assert(chunks_across(img) == 1);
            let ch = if rps <= h { rps } else { h };
            let j = py / ch;
            lemma_fundamental_div_mod(py, ch);
            assert(j * ch <= py < j * ch + ch) by (nonlinear_arith)
                requires
                    py == ch * j + py % ch,
                    0 <= py % ch < ch,
            ;
            vstd::arithmetic::div_mod::lemma_div_is_ordered(0, py, ch);
            if rps <= h {
                vstd::arithmetic::div_mod::lemma_div_is_ordered(py, h - 1, rps);
            } else {
                lemma_fundamental_div_mod_converse(py, h, 0, py);
            }
            assert(j % 1 == 0 && j / 1 == j);
            assert(chunk_x(img, j as nat) == 0);
            assert(chunk_y(img, j as nat) == j * ch);
            j as nat
        },
        ChunkType::Tile => {
            let t = img.tile_attributes.unwrap();
            let tw = t.tile_width as int;
            let tl = t.tile_length as int;
            lemma_axis_cover(w, tw, px);
            lemma_axis_cover(h, tl, py);
            let cw = if tw <= w { tw } else { w };
            let ch = if tl <= h { tl } else { h };
            let across = t.spec_tiles_across() as int;
            let down = t.spec_tiles_down() as int;
            let xg = px / cw;
            let yg = py / ch;
            assert(across == (w + tw - 1) / tw);
            assert(down == (h + tl - 1) / tl);
            assert(0 <= xg < across);
            assert(0 <= yg < down);
            lemma_axis(w, tw, 0);
            assert(spec_chunk_dimensions(img).0 == tw);
            assert(min_nat(spec_chunk_dimensions(img).0, img.width as nat) == cw);
            assert(((w - 1) as nat) / (cw as nat) == (w - 1) / cw);
            assert(chunks_across(img) == across);
            let j = yg * across + xg;
            assert(j < down * across) by (nonlinear_arith)
                requires
                    j == yg * across + xg,
                    0 <= xg < across,
                    0 <= yg < down,
            ;
            assert(j >= 0) by (nonlinear_arith)
                requires
                    j == yg * across + xg,
                    xg >= 0,
                    yg >= 0,
                    across >= 0,
            ;
            lemma_fundamental_div_mod_converse(j, across, yg, xg);
            assert(chunk_x(img, j as nat) == xg * cw);
            assert(chunk_y(img, j as nat) == yg * ch);
            j as nat
        },
    }
}

/// Where the image stores white as zero, a chunk of unsigned grayscale
/// samples of 16, 32 or 64 bits, or of at most 8 bits held in bytes, has its
/// samples inverted; no other chunk has.
pub proof fn lemma_white_is_zero_inverted(img: ImageModel, k: SampleKind, chunk: nat)
    ensures
        spec_chunk_plan(img, k, chunk) matches Ok(p) ==> (p.invert <==> {
            &&& img.photometric_interpretation == PhotometricInterpretation::WhiteIsZero
            &&& p.color_type matches ColorType::Gray(n) && {
                ||| n <= 8 && k == SampleKind::U8
                ||| n == 16 && k == SampleKind::U16
                ||| n == 32 && k == SampleKind::U32
                ||| n == 64 && k == SampleKind::U64
            }
        }),
{
}

/// The color type of an image has one channel per sample, each as wide as
/// every sample: gray for black-is-zero and white-is-zero images of one
/// sample, RGB or RGBA for RGB images of three or four, CMYK for four and
/// YCbCr for three.
pub proof fn lemma_colortype_matches_samples(p: PhotometricInterpretation, b: Seq<u8>)
    ensures
        spec_colortype(p, b) matches Ok(ct) ==> {
            &&& b.len() >= 1
            &&& forall|i: int| 0 <= i < b.len() ==> #[trigger] b[i] == b[0]
            &&& match ct {
                ColorType::Gray(n) => n == b[0] && b.len() == 1
                    && (p == PhotometricInterpretation::BlackIsZero || p == PhotometricInterpretation::WhiteIsZero),
                ColorType::RGB(n) => n == b[0] && b.len() == 3 && p == PhotometricInterpretation::RGB,
                ColorType::RGBA(n) => n == b[0] && b.len() == 4 && p == PhotometricInterpretation::RGB,
                ColorType::CMYK(n) => n == b[0] && b.len() == 4 && p == PhotometricInterpretation::CMYK,
                ColorType::YCbCr(n) => n == b[0] && b.len() == 3 && p == PhotometricInterpretation::YCbCr,
                _ => false,
            }
        },
{
}

} // verus!
