//! The decoder: reading the header, the image file directories, their tags
//! and the image data of a TIFF file held in memory.

use std::collections::{HashMap, HashSet};
use vstd::arithmetic::div_mod::{lemma_fundamental_div_mod, lemma_fundamental_div_mod_converse};
use vstd::prelude::*;
use vstd::std_specs::convert::TryFromSpec;
use vstd::std_specs::hash::group_hash_axioms;

use crate::error::{ColorType, TiffError, TiffFormatError, TiffResult, TiffUnsupportedError, UsageError};
use crate::ifd::{
    dir_view, into_u64_fn, into_u8_fn, io_result, nul_terminated_string, realizes, spec_convert_all,
    spec_nul_terminated_string, vec_of_1, Directory,
    Entry, EntryModel, Value, ValueModel,
};
use crate::image::{
    chunk_x, chunk_y, chunks_across, lemma_block_fits, lemma_chunk_of_pixel, lemma_chunk_within, min_nat,
    spec_bits_per_sample, spec_chunk_data_dimensions, spec_chunk_dimensions, spec_chunk_plan, spec_chunk_source,
    spec_chunks, spec_colortype, spec_compression, spec_expand_chunk, spec_image, spec_image_pos, spec_jpeg_tables,
    spec_photometric, spec_planar, spec_predictor, spec_sample_format, spec_samples, spec_strips, spec_tiles,
    ChunkPlan, Image, ImageModel,
};
use crate::result::{
    kind_size, lemma_result_write_holds, lemma_result_write_keeps, lemma_result_write_shape,
    lemma_result_written_is_write, lemma_rows_hold_agree, lemma_zeros_shape, res_rows_hold, res_slice,
    result_write, zeros, DecodingResult, ResultModel, SampleKind,
};
use crate::samples::{in_rows, row_base, rows_fit};
use crate::stream::{can_read, lemma_value_2, lemma_value_4, lemma_value_8, uint_at, uint_value, ByteOrder, IoError, SmartReader};
use crate::tag_reader::{
    error_realizes, find_tag, model_into_string, model_into_u16_vec, model_into_u32, model_into_u32_vec,
    model_into_u64, model_into_u64_vec, model_into_u8_vec, outcome, outcome_list, outcome_string, spec_find_tag,
    spec_find_tag_pos, spec_require_u32, spec_try_all, try_all, value_into_string, value_into_u16_vec,
    value_into_u32, value_into_u32_vec, value_into_u64, value_into_u64_vec, value_into_u8_vec, ErrorModel,
    ReadContext,
};
use crate::tags::{CompressionMethod, PhotometricInterpretation, Predictor, SampleFormat, Tag, Type};

verus! {

broadcast use group_hash_axioms;

/// Chunk type of the internal representation
#[derive(Debug, Copy, Clone, PartialEq, Eq, Structural)]
pub enum ChunkType {
    Strip,
    Tile,
}

/// Decoding limits
#[derive(Debug)]
#[non_exhaustive]
pub struct Limits {
    /// The maximum size of any `DecodingResult` in bytes, the default is
    /// 256MiB. If the entire image is decoded at once, then this will
    /// be the maximum size of the image. If it is decoded one strip at a
    /// time, this will be the maximum size of a strip.
    pub decoding_buffer_size: usize,
    /// The maximum size of any ifd value in bytes, the default is
    /// 1MiB.
    pub ifd_value_size: usize,
    /// Maximum size for intermediate buffer which may be used to limit the amount of data read per
    /// segment even if the entire image is decoded at once.
    pub intermediate_buffer_size: usize,
}

impl Limits {


    /// A configuration that does not impose any limits.
    ///
    /// This is a good start if the caller only wants to impose selective limits, contrary to the
    /// default limits which allows selectively disabling limits.
    ///
    /// Note that this configuration is likely to crash on excessively large images since,
    /// naturally, the machine running the program does not have infinite memory.
    pub fn unlimited() -> (r: Limits)
        ensures
            r.decoding_buffer_size == usize::MAX,
            r.ifd_value_size == usize::MAX,
            r.intermediate_buffer_size == usize::MAX,
    {
        Limits {
            decoding_buffer_size: usize::MAX,
            ifd_value_size: usize::MAX,
            intermediate_buffer_size: usize::MAX,
        }
    }
}

impl Clone for Limits {
    fn clone(&self) -> (r: Limits)
        ensures
            r == *self,
    {
        Limits {
            decoding_buffer_size: self.decoding_buffer_size,
            ifd_value_size: self.ifd_value_size,
            intermediate_buffer_size: self.intermediate_buffer_size,
        }
    }
}

impl Default for Limits {
    fn default() -> (r: Limits)
        ensures
            r.decoding_buffer_size == 256 * 1024 * 1024,
            r.intermediate_buffer_size == 128 * 1024 * 1024,
            r.ifd_value_size == 1024 * 1024,
    {
        Limits {
            decoding_buffer_size: 256 * 1024 * 1024,
            intermediate_buffer_size: 128 * 1024 * 1024,
            ifd_value_size: 1024 * 1024,
        }
    }
}

/// What reading a directory entry at `pos` gives: the entry with the number
/// of its tag, or nothing for an entry of an unknown type, which is skipped
/// whole (12 bytes, or 20 in a BigTIFF file); and the position after it.
pub open spec fn spec_read_entry(file: Seq<u8>, bo: ByteOrder, bigtiff: bool, pos: nat) -> Result<(Option<(u16, EntryModel)>, nat), TiffError> {
    let eof = Err(TiffError::IoError(IoError::UnexpectedEof));
    let len = file.len() as int;
    let p = pos as int;
    match uint_at(file, p, 2, bo) {
        None => eof,
        Some(tag) => match uint_at(file, p + 2, 2, bo) {
            None => eof,
            Some(ty) => match Type::spec_from_u16(ty as u16) {
                None => if bigtiff {
                    if can_read(p + 4, 16, len) {
                        Ok((None, (p + 20) as nat))
                    } else {
                        eof
                    }
                } else {
                    if can_read(p + 4, 8, len) {
                        Ok((None, (p + 12) as nat))
                    } else {
                        eof
                    }
                },
                Some(t) => if bigtiff {
                    if can_read(p + 4, 16, len) {
                        let count = uint_value(file.subrange(p + 4, p + 12), bo) as u64;
                        let field = file.subrange(p + 12, p + 20);
                        Ok((Some((tag as u16, EntryModel { field_type: t, count, field })), (p + 20) as nat))
                    } else {
                        eof
                    }
                } else {
                    if can_read(p + 4, 8, len) {
                        let count = uint_value(file.subrange(p + 4, p + 8), bo) as u64;
                        let field = file.subrange(p + 8, p + 12) + seq![0u8, 0u8, 0u8, 0u8];
                        Ok((Some((tag as u16, EntryModel { field_type: t, count, field })), (p + 12) as nat))
                    } else {
                        eof
                    }
                },
            },
        },
    }
}

/// What reading `n` entries from `pos` on into the directory `dir` gives:
/// the directory, a later entry replacing an earlier one of the same tag,
/// and the position after them.
pub open spec fn spec_read_entries(file: Seq<u8>, bo: ByteOrder, bigtiff: bool, pos: nat, n: nat, dir: Map<u16, EntryModel>) -> Result<(Map<u16, EntryModel>, nat), TiffError>
    decreases n,
{
    if n == 0 {
        Ok((dir, pos))
    } else {
        match spec_read_entry(file, bo, bigtiff, pos) {
            Err(e) => Err(e),
            Ok((None, p)) => spec_read_entries(file, bo, bigtiff, p, (n - 1) as nat, dir),
            Ok((Some((k, e)), p)) => spec_read_entries(file, bo, bigtiff, p, (n - 1) as nat, dir.insert(k, e)),
        }
    }
}

/// What reading the image file directory at `loc` gives: its entries, and
/// the offset of the next directory, none where it is zero.
pub open spec fn spec_read_ifd(file: Seq<u8>, bo: ByteOrder, bigtiff: bool, loc: u64) -> Result<(Map<u16, EntryModel>, Option<u64>), TiffError> {
    let eof = Err(TiffError::IoError(IoError::UnexpectedEof));
    let count_size: int = if bigtiff { 8 } else { 2 };
    let next_size: int = if bigtiff { 8 } else { 4 };
    match uint_at(file, loc as int, count_size, bo) {
        None => eof,
        Some(num) => match spec_read_entries(file, bo, bigtiff, (loc + count_size) as nat, num, Map::empty()) {
            Err(e) => Err(e),
            Ok((dir, p)) => match uint_at(file, p as int, next_size, bo) {
                None => eof,
                Some(next) => Ok((dir, if next == 0 { None } else { Some(next as u64) })),
            },
        },
    }
}

/// The position after the image file directory at `loc`: past the offset
/// of the next directory, where the directory reads whole.
pub open spec fn spec_ifd_end(file: Seq<u8>, bo: ByteOrder, bigtiff: bool, loc: u64) -> nat {
    let count_size: int = if bigtiff { 8 } else { 2 };
    let next_size: nat = if bigtiff { 8 } else { 4 };
    match uint_at(file, loc as int, count_size, bo) {
        None => 0,
        Some(num) => match spec_read_entries(file, bo, bigtiff, (loc + count_size) as nat, num, Map::empty()) {
            Err(_) => 0,
            Ok((_, p)) => p + next_size,
        },
    }
}

/// Reads a directory entry.
fn read_entry(reader: &mut SmartReader, bigtiff: bool) -> (r: TiffResult<Option<(u16, Entry)>>)
    ensures
        final(reader).bytes() == old(reader).bytes(),
        final(reader).order() == old(reader).order(),
        match spec_read_entry(old(reader).bytes(), old(reader).order(), bigtiff, old(reader).position()) {
            Err(e) => r == Err::<Option<(u16, Entry)>, TiffError>(e) && final(reader).position() == old(reader).bytes().len(),
            Ok((None, p)) => r matches Ok(None) && final(reader).position() == p,
            Ok((Some((k, m)), p)) => r matches Ok(Some((k2, e))) && k2 == k && e@ == m && final(reader).position() == p,
        },
{
    let ghost file = reader.bytes();
    let ghost pos = reader.position();
    let bo = reader.byte_order();
    let tag = match io_result(reader.read_u16()) {
        Ok(x) => x,
        Err(e) => return Err(e),
    };
    let ty = match io_result(reader.read_u16()) {
        Ok(x) => x,
        Err(e) => return Err(e),
    };
    let type_ = match Type::from_u16(ty) {
        Some(t) => t,
        None => {
            if bigtiff {
                match io_result(reader.read_u64()) {
                    Ok(_) => {},
                    Err(e) => return Err(e),
                }
                match io_result(reader.read_u64()) {
                    Ok(_) => {},
                    Err(e) => return Err(e),
                }
            } else {
                match io_result(reader.read_u32()) {
                    Ok(_) => {},
                    Err(e) => return Err(e),
                }
                match io_result(reader.read_u32()) {
                    Ok(_) => {},
                    Err(e) => return Err(e),
                }
            }
            return Ok(None);
        },
    };
    let entry = if bigtiff {
        let count = match io_result(reader.read_u64()) {
            Ok(x) => x,
            Err(e) => return Err(e),
        };
        let b = match io_result(reader.read_exact(8)) {
            Ok(x) => x,
            Err(e) => return Err(e),
        };
        let offset: [u8; 8] = [b[0], b[1], b[2], b[3], b[4], b[5], b[6], b[7]];
        assert(offset@ =~= b@);
        Entry::new_u64(type_, count, offset)
    } else {
        let count = match io_result(reader.read_u32()) {
            Ok(x) => x,
            Err(e) => return Err(e),
        };
        let b = match io_result(reader.read_exact(4)) {
            Ok(x) => x,
            Err(e) => return Err(e),
        };
        let offset: [u8; 4] = [b[0], b[1], b[2], b[3]];
        assert(offset@ =~= b@);
        Entry::new(type_, count, offset)
    };
    Ok(Some((tag, entry)))
}

/// Inserting into a directory inserts the entry's model into its view.
proof fn lemma_dir_view_insert(d: Map<u16, Entry>, k: u16, e: Entry)
    ensures
        dir_view(d.insert(k, e)) == dir_view(d).insert(k, e@),
{
    assert(dir_view(d.insert(k, e)) =~= dir_view(d).insert(k, e@));
}

/// Reads the image file directory at `ifd_location`.
fn read_ifd(reader: &mut SmartReader, bigtiff: bool, ifd_location: u64) -> (r: TiffResult<(Directory, Option<u64>)>)
    ensures
        final(reader).bytes() == old(reader).bytes(),
        final(reader).order() == old(reader).order(),
        match spec_read_ifd(old(reader).bytes(), old(reader).order(), bigtiff, ifd_location) {
            Err(e) => r == Err::<(Directory, Option<u64>), TiffError>(e) && final(reader).position() == old(reader).bytes().len(),
            Ok((dir, next)) => r matches Ok((d, n)) && dir_view(d@) == dir && n == next
                && final(reader).position() == spec_ifd_end(old(reader).bytes(), old(reader).order(), bigtiff, ifd_location),
        },
{
    let ghost file = reader.bytes();
    let bo = reader.byte_order();
    reader.goto_offset(ifd_location);
    let mut dir: Directory = HashMap::new();
    let num_tags: u64 = if bigtiff {
        match io_result(reader.read_u64()) {
            Ok(x) => x,
            Err(e) => return Err(e),
        }
    } else {
        match io_result(reader.read_u16()) {
            Ok(x) => x as u64,
            Err(e) => return Err(e),
        }
    };
    let ghost start = reader.position();
    let ghost count_size: int = if bigtiff { 8 } else { 2 };
    assert(uint_at(file, ifd_location as int, count_size, bo) == Some(num_tags as nat));
    assert(start == ifd_location + count_size);
    assert(dir_view(dir@) =~= Map::<u16, EntryModel>::empty());
    let mut i: u64 = 0;
    while i < num_tags
        invariant
            reader.bytes() == file,
            reader.order() == bo,
            file == old(reader).bytes(),
            bo == old(reader).order(),
            count_size == (if bigtiff { 8int } else { 2int }),
            uint_at(file, ifd_location as int, count_size, bo) == Some(num_tags as nat),
            start == ifd_location + count_size,
            i <= num_tags,
            spec_read_entries(file, bo, bigtiff, start, num_tags as nat, Map::empty())
                == spec_read_entries(file, bo, bigtiff, reader.position(), (num_tags - i) as nat, dir_view(dir@)),
        decreases num_tags - i,
    {
        let ghost d0 = dir@;
        match read_entry(reader, bigtiff) {
            Err(e) => return Err(e),
            Ok(None) => {},
            Ok(Some((tag, entry))) => {
                dir.insert(tag, entry);
                proof {
                    lemma_dir_view_insert(d0, tag, entry);
                }
            },
        }
        i = i + 1;
    }
    let next_ifd: u64 = if bigtiff {
        match io_result(reader.read_u64()) {
            Ok(x) => x,
            Err(e) => return Err(e),
        }
    } else {
        match io_result(reader.read_u32()) {
            Ok(x) => x as u64,
            Err(e) => return Err(e),
        }
    };
    let next = if next_ifd == 0 {
        None
    } else {
        Some(next_ifd)
    };
    Ok((dir, next))
}

/// The representation of a TIFF decoder
///
/// Currently does not support decoding of interlaced images
#[derive(Debug)]
pub struct Decoder {
    reader: SmartReader,
    bigtiff: bool,
    limits: Limits,
    next_ifd: Option<u64>,
    current_chunk: usize,
    seen_ifds: HashSet<u64>,
    image: Image,
}

/// The state of a decoder, as mathematical values.
pub struct DecoderModel {
    /// The bytes of the file.
    pub file: Seq<u8>,
    /// The byte order of the file.
    pub order: ByteOrder,
    /// Whether the file is a BigTIFF file.
    pub bigtiff: bool,
    /// The limits decoding keeps to.
    pub limits: Limits,
    /// The offset of the next image file directory, where there is one.
    pub next_ifd: Option<u64>,
    /// The index of the next strip or tile to read.
    pub current_chunk: usize,
    /// The offsets of the image file directories met so far.
    pub seen_ifds: Set<u64>,
    /// The attributes of the current image.
    pub image: ImageModel,
}

impl DecoderModel {
    /// What the values of the current directory's entries are read from.
    pub open spec fn context(self) -> ReadContext {
        ReadContext { file: self.file, order: self.order, dbs: self.limits.decoding_buffer_size, bigtiff: self.bigtiff }
    }
}

/// What the header of the file `file` gives: its byte order, whether it is a
/// BigTIFF file, and the offset of its first image file directory.
pub open spec fn spec_header(file: Seq<u8>) -> Result<(ByteOrder, bool, u64), TiffError> {
    let eof = Err(TiffError::IoError(IoError::UnexpectedEof));
    let not_found = Err(TiffError::FormatError(TiffFormatError::TiffSignatureNotFound));
    if file.len() < 2 || !((file[0] == 0x49 && file[1] == 0x49) || (file[0] == 0x4d && file[1] == 0x4d)) {
        not_found
    } else {
        let bo = if file[0] == 0x49 { ByteOrder::LittleEndian } else { ByteOrder::BigEndian };
        match uint_at(file, 2, 2, bo) {
            None => eof,
            Some(v) => if v == 42 {
                match uint_at(file, 4, 4, bo) {
                    None => eof,
                    Some(x) => Ok((bo, false, x as u64)),
                }
            } else if v == 43 {
                match uint_at(file, 4, 2, bo) {
                    None => eof,
                    Some(a) => if a != 8 {
                        not_found
                    } else {
                        match uint_at(file, 6, 2, bo) {
                            None => eof,
                            Some(b) => if b != 0 {
                                not_found
                            } else {
                                match uint_at(file, 8, 8, bo) {
                                    None => eof,
                                    Some(x) => Ok((bo, true, x as u64)),
                                }
                            },
                        }
                    },
                }
            } else {
                Err(TiffError::FormatError(TiffFormatError::TiffSignatureInvalid))
            },
        }
    }
}

/// The attributes a decoder holds before it has read an image.
pub open spec fn initial_image() -> ImageModel {
    ImageModel {
        ifd: Map::empty(),
        width: 0,
        height: 0,
        bits_per_sample: seq![1u8],
        samples: 1,
        sample_format: seq![SampleFormat::Uint],
        photometric_interpretation: PhotometricInterpretation::BlackIsZero,
        compression_method: CompressionMethod::NoCompression,
        jpeg_tables: None,
        predictor: Predictor::NoPrediction,
        chunk_type: ChunkType::Strip,
        strip_decoder: None,
        tile_attributes: None,
        chunk_offsets: Seq::empty(),
        chunk_bytes: Seq::empty(),
    }
}

/// What reading the next image does to the state `s`: the new state, and
/// whether it succeeded.
pub open spec fn spec_next_image(s: DecoderModel) -> (DecoderModel, Result<(), ErrorModel>) {
    match s.next_ifd {
        None => (s, Err(ErrorModel::Exact(TiffError::FormatError(TiffFormatError::ImageFileDirectoryNotFound)))),
        Some(loc) => {
            let taken = DecoderModel { next_ifd: None, ..s };
            match spec_read_ifd(s.file, s.order, s.bigtiff, loc) {
                Err(e) => (taken, Err(ErrorModel::Exact(e))),
                Ok((dir, next)) => if next matches Some(n) && s.seen_ifds.contains(n) {
                    (taken, Err(ErrorModel::Exact(TiffError::FormatError(TiffFormatError::CycleInOffsets))))
                } else {
                    let moved = DecoderModel {
                        next_ifd: next,
                        seen_ifds: match next {
                            Some(n) => s.seen_ifds.insert(n),
                            None => s.seen_ifds,
                        },
                        current_chunk: 0,
                        ..taken
                    };
                    match spec_image(dir, s.context()) {
                        Err(m) => (moved, Err(m)),
                        Ok(img) => (DecoderModel { image: img, ..moved }, Ok(())),
                    }
                },
            }
        },
    }
}

/// Where reading in the next image leaves a reader that was at `pos`: where
/// it was when there is no next directory, at the end of the file where the
/// directory cannot be read, after the directory where its next offset was
/// seen before, and else where reading the image's attributes leaves it.
pub open spec fn spec_next_image_pos(s: DecoderModel, pos: nat) -> nat {
    match s.next_ifd {
        None => pos,
        Some(loc) => match spec_read_ifd(s.file, s.order, s.bigtiff, loc) {
            Err(_) => s.file.len(),
            Ok((dir, next)) => {
                let end = spec_ifd_end(s.file, s.order, s.bigtiff, loc);
                if next matches Some(n) && s.seen_ifds.contains(n) {
                    end
                } else {
                    spec_image_pos(dir, s.context(), end)
                }
            },
        },
    }
}

/// The state decoding starts from, before the first image is read in: the
/// file `file` read in the byte order `order`, its first directory at `first`.
pub open spec fn spec_start(file: Seq<u8>, order: ByteOrder, bigtiff: bool, first: u64) -> DecoderModel {
    DecoderModel {
        file,
        order,
        bigtiff,
        limits: Limits {
            decoding_buffer_size: 0x1000_0000usize,
            intermediate_buffer_size: 0x800_0000usize,
            ifd_value_size: 0x10_0000usize,
        },
        next_ifd: Some(first),
        current_chunk: 0,
        seen_ifds: Set::empty().insert(first),
        image: initial_image(),
    }
}

/// What decoding the file `file` starts with: the state after its first
/// image was read.
pub open spec fn spec_new(file: Seq<u8>) -> Result<DecoderModel, ErrorModel> {
    match spec_header(file) {
        Err(e) => Err(ErrorModel::Exact(e)),
        Ok((order, bigtiff, first)) => match spec_next_image(spec_start(file, order, bigtiff, first)) {
            (s1, Ok(_)) => Ok(s1),
            (_, Err(m)) => Err(m),
        },
    }
}

/// Where the reader of a decoder made from the file `file` stands: where
/// reading in the first image leaves it, from the end of the header on.
pub open spec fn spec_new_pos(file: Seq<u8>) -> nat {
    match spec_header(file) {
        Err(_) => 0,
        Ok((order, bigtiff, first)) => spec_next_image_pos(
            spec_start(file, order, bigtiff, first),
            if bigtiff { 16 } else { 8 },
        ),
    }
}

/// Whether the exec result `r` is the spec result `s`, for a decoder.
pub open spec fn outcome_decoder(r: TiffResult<Decoder>, s: Result<DecoderModel, ErrorModel>) -> bool {
    match s {
        Ok(m) => r matches Ok(d) && d@ == m && d.wf(),
        Err(m) => r matches Err(e) && error_realizes(e, m),
    }
}

impl View for Decoder {
    type V = DecoderModel;

    closed spec fn view(&self) -> DecoderModel {
        DecoderModel {
            file: self.reader.bytes(),
            order: self.reader.order(),
            bigtiff: self.bigtiff,
            limits: self.limits,
            next_ifd: self.next_ifd,
            current_chunk: self.current_chunk,
            seen_ifds: self.seen_ifds@,
            image: self.image@,
        }
    }
}

impl Decoder {
    /// Whether the decoder's current image has a consistent layout.
    pub open spec fn wf(&self) -> bool {
        self@.image.wf()
    }

    /// The position in the file of the next read.
    pub closed spec fn position(&self) -> nat {
        self.reader.position()
    }

    /// Create a new decoder that decodes from the bytes of a file.
    pub fn new(data: Vec<u8>) -> (r: TiffResult<Decoder>)
        ensures
            outcome_decoder(r, spec_new(data@)),
            r matches Ok(d) ==> d.position() == spec_new_pos(data@),
    {
        let ghost file = data@;
        if data.len() < 2 {
            return Err(TiffError::FormatError(TiffFormatError::TiffSignatureNotFound));
        }
        let byte_order = if data[0] == 0x49 && data[1] == 0x49 {
            ByteOrder::LittleEndian
        } else if data[0] == 0x4d && data[1] == 0x4d {
            ByteOrder::BigEndian
        } else {
            return Err(TiffError::FormatError(TiffFormatError::TiffSignatureNotFound));
        };
        let mut reader = SmartReader::wrap(data, byte_order);
        reader.goto_offset(2);
        let bigtiff = match io_result(reader.read_u16()) {
            Err(e) => return Err(e),
            Ok(42) => false,
            Ok(43) => {
                match io_result(reader.read_u16()) {
                    Err(e) => return Err(e),
                    Ok(8) => {},
                    Ok(_) => return Err(TiffError::FormatError(TiffFormatError::TiffSignatureNotFound)),
                }
                match io_result(reader.read_u16()) {
                    Err(e) => return Err(e),
                    Ok(0) => {},
                    Ok(_) => return Err(TiffError::FormatError(TiffFormatError::TiffSignatureNotFound)),
                }
                true
            },
            Ok(_) => return Err(TiffError::FormatError(TiffFormatError::TiffSignatureInvalid)),
        };
        let next_ifd = if bigtiff {
            match io_result(reader.read_u64()) {
                Err(e) => return Err(e),
                Ok(x) => x,
            }
        } else {
            match io_result(reader.read_u32()) {
                Err(e) => return Err(e),
                Ok(x) => x as u64,
            }
        };
        let mut seen_ifds: HashSet<u64> = HashSet::new();
        seen_ifds.insert(next_ifd);
        let mut bits_per_sample: Vec<u8> = Vec::new();
        bits_per_sample.push(1);
        let mut sample_format: Vec<SampleFormat> = Vec::new();
        sample_format.push(SampleFormat::Uint);
        let image = Image {
            ifd: HashMap::new(),
            width: 0,
            height: 0,
            bits_per_sample,
            samples: 1,
            sample_format,
            photometric_interpretation: PhotometricInterpretation::BlackIsZero,
            compression_method: CompressionMethod::NoCompression,
            jpeg_tables: None,
            predictor: Predictor::NoPrediction,
            chunk_type: ChunkType::Strip,
            strip_decoder: None,
            tile_attributes: None,
            chunk_offsets: Vec::new(),
            chunk_bytes: Vec::new(),
        };
        let mut decoder = Decoder {
            reader,
            bigtiff,
            limits: Limits::default(),
            next_ifd: Some(next_ifd),
            current_chunk: 0,
            seen_ifds,
            image,
        };
        proof {
            assert(decoder.image@.ifd =~= Map::<u16, EntryModel>::empty());
            assert(decoder.image@.bits_per_sample =~= seq![1u8]);
            assert(decoder.image@.sample_format =~= seq![SampleFormat::Uint]);
            assert(decoder.image@.chunk_offsets =~= Seq::<u64>::empty());
            assert(decoder.image@.chunk_bytes =~= Seq::<u64>::empty());
            assert(decoder.image@ == initial_image());
            assert(decoder@.seen_ifds =~= Set::<u64>::empty().insert(next_ifd));
        }
        match decoder.next_image() {
            Ok(()) => Ok(decoder),
            Err(e) => Err(e),
        }
    }

    /// Reads in the next image.
    /// If there is no further image in the TIFF file a format error is returned.
    /// To determine whether there are more images call `TIFFDecoder::more_images` instead.
    pub fn next_image(&mut self) -> (r: TiffResult<()>)
        ensures
            final(self)@ == spec_next_image(old(self)@).0,
            final(self).position() == spec_next_image_pos(old(self)@, old(self).position()),
            match spec_next_image(old(self)@).1 {
                Ok(_) => r is Ok && final(self).wf(),
                Err(m) => r matches Err(e) && error_realizes(e, m) && (old(self).wf() ==> final(self).wf()),
            },
    {
        if self.next_ifd.is_none() {
            return Err(TiffError::FormatError(TiffFormatError::ImageFileDirectoryNotFound));
        }
        let loc = match self.next_ifd.take() {
            Some(x) => x,
            None => return Err(TiffError::FormatError(TiffFormatError::ImageFileDirectoryNotFound)),
        };
        let (ifd, next_ifd) = match read_ifd(&mut self.reader, self.bigtiff, loc) {
            Ok(x) => x,
            Err(e) => return Err(e),
        };
        if let Some(next) = next_ifd {
            let ghost seen0 = self.seen_ifds@;
            if !self.seen_ifds.insert(next) {
                assert(self.seen_ifds@ =~= seen0);
                return Err(TiffError::FormatError(TiffFormatError::CycleInOffsets));
            }
            self.next_ifd = Some(next);
        }
        self.current_chunk = 0;
        match Image::from_reader(&mut self.reader, ifd, &self.limits, self.bigtiff) {
            Ok(img) => {
                self.image = img;
                Ok(())
            },
            Err(e) => Err(e),
        }
    }
}

/// Whether `new` is `old` after a read of `n` bytes: the same state, the
/// position moved past the bytes, or to the end of the file where there are
/// fewer.
pub open spec fn read_step(old: Decoder, new: Decoder, n: int) -> bool {
    &&& new@ == old@
    &&& can_read(old.position() as int, n, old@.file.len() as int) ==> new.position() == old.position() + n
    &&& !can_read(old.position() as int, n, old@.file.len() as int) ==> new.position() == old@.file.len()
}

/// The `n` bytes at the position of the decoder.
pub open spec fn next_bytes(d: Decoder, n: int) -> Seq<u8> {
    d@.file.subrange(d.position() as int, d.position() + n)
}

/// The unsigned value of the `n` bytes at the position of the decoder.
pub open spec fn next_uint(d: Decoder, n: int) -> nat {
    uint_value(next_bytes(d, n), d@.order)
}

/// Whether a read of `n` bytes at the position of the decoder succeeds.
pub open spec fn can_read_next(d: Decoder, n: int) -> bool {
    can_read(d.position() as int, n, d@.file.len() as int)
}

/// What the tag `tag` holds in the current image: `None` where the
/// directory has no entry for it.
pub open spec fn spec_decoder_find_tag(s: DecoderModel, tag: Tag) -> Result<Option<ValueModel>, TiffError> {
    if Tag::spec_from_u16_exhaustive(tag.code()) != tag {
        Ok(None)
    } else {
        spec_find_tag(s.image.ifd, tag, s.context())
    }
}

/// Where looking up the tag `tag` leaves the reader that was at `pos`: at
/// `pos` where the tag cannot be in the directory, else where reading its
/// entry's value leaves it.
pub open spec fn tag_read_pos(s: DecoderModel, tag: Tag, pos: nat) -> nat {
    if Tag::spec_from_u16_exhaustive(tag.code()) != tag {
        pos
    } else {
        spec_find_tag_pos(s.image.ifd, tag, s.context(), pos)
    }
}

/// What `get_tag` reads for the tag `tag`: its value, which must be there.
pub open spec fn spec_get_tag(s: DecoderModel, tag: Tag) -> Result<ValueModel, TiffError> {
    match spec_decoder_find_tag(s, tag) {
        Err(e) => Err(e),
        Ok(None) => Err(TiffError::FormatError(TiffFormatError::RequiredTagNotFound(tag))),
        Ok(Some(m)) => Ok(m),
    }
}

/// What `get_tag` followed by the conversion `f` gives for the tag `tag`.
pub open spec fn spec_get_tag_as<T>(s: DecoderModel, tag: Tag, f: spec_fn(ValueModel) -> Result<T, ErrorModel>) -> Result<T, ErrorModel> {
    match spec_get_tag(s, tag) {
        Err(e) => Err(ErrorModel::Exact(e)),
        Ok(m) => f(m),
    }
}

/// The value of the tag `tag` in the current image as a `u64`: `None`
/// where the tag cannot be found, or the error of looking it up or
/// converting it.
pub open spec fn spec_find_tag_u64(s: DecoderModel, tag: Tag) -> Result<Option<u64>, ErrorModel> {
    match spec_decoder_find_tag(s, tag) {
        Err(e) => Err(ErrorModel::Exact(e)),
        Ok(None) => Ok(None),
        Ok(Some(m)) => match model_into_u64(m) {
            Err(e) => Err(e),
            Ok(x) => Ok(Some(x)),
        },
    }
}

/// The values of the tag `tag` in the current image as a list of `u64`:
/// `None` where the tag cannot be found, or the error of looking it up or
/// converting it.
pub open spec fn spec_find_tag_u64_vec(s: DecoderModel, tag: Tag) -> Result<Option<Seq<u64>>, ErrorModel> {
    match spec_decoder_find_tag(s, tag) {
        Err(e) => Err(ErrorModel::Exact(e)),
        Ok(None) => Ok(None),
        Ok(Some(m)) => match model_into_u64_vec(m) {
            Err(e) => Err(e),
            Ok(v) => Ok(Some(v)),
        },
    }
}

/// The error of a value that does not fit the type asked for.
pub open spec fn invalid_value(tag: Tag) -> TiffError {
    TiffError::FormatError(TiffFormatError::InvalidTagValueType(tag))
}

/// What `find_tag_unsigned::<T>` reads for the tag `tag`.
pub open spec fn spec_find_tag_unsigned<T: TryFrom<u64>>(s: DecoderModel, tag: Tag) -> Result<Option<T>, ErrorModel> {
    match spec_decoder_find_tag(s, tag) {
        Err(e) => Err(ErrorModel::Exact(e)),
        Ok(None) => Ok(None),
        Ok(Some(m)) => match model_into_u64(m) {
            Err(e) => Err(e),
            Ok(x) => match <T as TryFromSpec<u64>>::try_from_spec(x) {
                Ok(y) => Ok(Some(y)),
                Err(_) => Err(ErrorModel::Exact(TiffError::FormatError(TiffFormatError::InvalidTagValueType(tag)))),
            },
        },
    }
}

/// What `find_tag_unsigned_vec::<T>` reads for the tag `tag`.
pub open spec fn spec_find_tag_unsigned_vec<T: TryFrom<u64>>(s: DecoderModel, tag: Tag) -> Result<Option<Seq<T>>, ErrorModel> {
    match spec_decoder_find_tag(s, tag) {
        Err(e) => Err(ErrorModel::Exact(e)),
        Ok(None) => Ok(None),
        Ok(Some(m)) => match model_into_u64_vec(m) {
            Err(e) => Err(e),
            Ok(v) => match spec_try_all::<T>(v) {
                Some(w) => Ok(Some(w)),
                None => Err(ErrorModel::Exact(TiffError::FormatError(TiffFormatError::InvalidTagValueType(tag)))),
            },
        },
    }
}

/// What `get_tag_unsigned::<T>` reads for the tag `tag`.
pub open spec fn spec_get_tag_unsigned<T: TryFrom<u64>>(s: DecoderModel, tag: Tag) -> Result<T, ErrorModel> {
    match spec_find_tag_unsigned::<T>(s, tag) {
        Err(e) => Err(e),
        Ok(None) => Err(ErrorModel::Exact(TiffError::FormatError(TiffFormatError::RequiredTagNotFound(tag)))),
        Ok(Some(x)) => Ok(x),
    }
}

/// The number of strips of an image of height `height` with
/// `rows_per_strip` rows in each strip.
pub open spec fn spec_strip_count(height: u32, rows_per_strip: u32) -> Result<u32, TiffError> {
    if rows_per_strip == 0 {
        Ok(0)
    } else if height + rows_per_strip - 1 > u32::MAX {
        Err(TiffError::IntSizeError)
    } else {
        Ok(((height + rows_per_strip - 1) / rows_per_strip as int) as u32)
    }
}

/// The error of using a decoder on a chunk type its image does not have.
pub open spec fn chunk_type_error(expected: ChunkType, actual: ChunkType) -> TiffError {
    TiffError::UsageError(UsageError::InvalidChunkType(expected, actual))
}

impl Decoder {
    /// Sets the limits decoding keeps to.
    pub fn with_limits(self, limits: Limits) -> (r: Decoder)
        ensures
            r@ == (DecoderModel { limits, ..self@ }),
            r.position() == self.position(),
    {
        let mut d = self;
        d.limits = limits;
        d
    }

    /// The width and height of the current image.
    pub fn dimensions(&mut self) -> (r: TiffResult<(u32, u32)>)
        ensures
            final(self)@ == old(self)@,
            final(self).position() == old(self).position(),
            r == Ok::<(u32, u32), TiffError>((old(self)@.image.width, old(self)@.image.height)),
    {
        Ok((self.image().width, self.image().height))
    }

    /// The color type of the current image.
    pub fn colortype(&mut self) -> (r: TiffResult<ColorType>)
        ensures
            final(self)@ == old(self)@,
            final(self).position() == old(self).position(),
            outcome(r, spec_colortype(old(self)@.image.photometric_interpretation, old(self)@.image.bits_per_sample)),
    {
        self.image().colortype()
    }

    /// The attributes of the current image.
    pub fn image(&self) -> (r: &Image)
        ensures
            r@ == self@.image,
    {
        &self.image
    }

    /// The index of the next strip or tile to read.
    pub fn current_chunk(&self) -> (r: usize)
        ensures
            r == self@.current_chunk,
    {
        self.current_chunk
    }

    /// Reset the decoder.
    ///
    /// Deprecated: never should have been public. Only use `Decoder::new()`.
    pub fn init(self) -> (r: TiffResult<Decoder>)
        ensures
            outcome_decoder(r, spec_new(self@.file)),
            r matches Ok(d) ==> d.position() == spec_new_pos(self@.file),
    {
        let Self { reader, .. } = self;
        Self::new(reader.into_inner())
    }

    /// Returns `true` if there is at least one more image available.
    pub fn more_images(&self) -> (r: bool)
        ensures
            r == self@.next_ifd is Some,
    {
        self.next_ifd.is_some()
    }

    /// Returns the byte_order
    pub fn byte_order(&self) -> (r: ByteOrder)
        ensures
            r == self@.order,
    {
        self.reader.byte_order()
    }

    /// Reads the offset of an image file directory: eight bytes in a BigTIFF
    /// file, four otherwise.
    pub fn read_ifd_offset(&mut self) -> (r: Result<u64, IoError>)
        ensures
            ({
                let n: int = if old(self)@.bigtiff { 8 } else { 4 };
                &&& read_step(*old(self), *final(self), n)
                &&& can_read_next(*old(self), n) <==> r is Ok
                &&& r matches Ok(v) ==> v == next_uint(*old(self), n)
                &&& r matches Err(e) ==> e == IoError::UnexpectedEof
            }),
    {
        if self.bigtiff {
            self.read_long8()
        } else {
            match self.read_long() {
                Ok(v) => Ok(v as u64),
                Err(e) => Err(e),
            }
        }
    }

    /// Reads a TIFF byte value
    pub fn read_byte(&mut self) -> (r: Result<u8, IoError>)
        ensures
            read_step(*old(self), *final(self), 1),
            can_read_next(*old(self), 1) <==> r is Ok,
            r matches Ok(v) ==> v == next_bytes(*old(self), 1)[0],
            r matches Err(e) ==> e == IoError::UnexpectedEof,
    {
        self.reader.read_u8()
    }

    /// Reads a TIFF short value
    pub fn read_short(&mut self) -> (r: Result<u16, IoError>)
        ensures
            read_step(*old(self), *final(self), 2),
            can_read_next(*old(self), 2) <==> r is Ok,
            r matches Ok(v) ==> v == next_uint(*old(self), 2),
            r matches Err(e) ==> e == IoError::UnexpectedEof,
    {
        self.reader.read_u16()
    }

    /// Reads a TIFF sshort value
    pub fn read_sshort(&mut self) -> (r: Result<i16, IoError>)
        ensures
            read_step(*old(self), *final(self), 2),
            can_read_next(*old(self), 2) <==> r is Ok,
            r matches Ok(v) ==> v == crate::stream::signed_value(next_uint(*old(self), 2), 0x10000),
            r matches Err(e) ==> e == IoError::UnexpectedEof,
    {
        self.reader.read_i16()
    }

    /// Reads a TIFF long value
    pub fn read_long(&mut self) -> (r: Result<u32, IoError>)
        ensures
            read_step(*old(self), *final(self), 4),
            can_read_next(*old(self), 4) <==> r is Ok,
            r matches Ok(v) ==> v == next_uint(*old(self), 4),
            r matches Err(e) ==> e == IoError::UnexpectedEof,
    {
        self.reader.read_u32()
    }

    /// Reads a TIFF slong value
    pub fn read_slong(&mut self) -> (r: Result<i32, IoError>)
        ensures
            read_step(*old(self), *final(self), 4),
            can_read_next(*old(self), 4) <==> r is Ok,
            r matches Ok(v) ==> v == crate::stream::signed_value(next_uint(*old(self), 4), 0x1_0000_0000),
            r matches Err(e) ==> e == IoError::UnexpectedEof,
    {
        self.reader.read_i32()
    }

    /// Reads a TIFF long8 value
    pub fn read_long8(&mut self) -> (r: Result<u64, IoError>)
        ensures
            read_step(*old(self), *final(self), 8),
            can_read_next(*old(self), 8) <==> r is Ok,
            r matches Ok(v) ==> v == next_uint(*old(self), 8),
            r matches Err(e) ==> e == IoError::UnexpectedEof,
    {
        self.reader.read_u64()
    }

    /// Reads a TIFF slong8 value
    pub fn read_slong8(&mut self) -> (r: Result<i64, IoError>)
        ensures
            read_step(*old(self), *final(self), 8),
            can_read_next(*old(self), 8) <==> r is Ok,
            r matches Ok(v) ==> v == crate::stream::signed_value(next_uint(*old(self), 8), 0x1_0000_0000_0000_0000),
            r matches Err(e) ==> e == IoError::UnexpectedEof,
    {
        self.reader.read_i64()
    }

    /// Reads a string
    pub fn read_string(&mut self, length: usize) -> (r: TiffResult<String>)
        ensures
            read_step(*old(self), *final(self), length as int),
            !can_read_next(*old(self), length as int) ==> r == Err::<String, TiffError>(TiffError::IoError(IoError::UnexpectedEof)),
            can_read_next(*old(self), length as int) ==> match spec_nul_terminated_string(
                if length == 0 { Seq::empty() } else { next_bytes(*old(self), length as int) },
            ) {
                Ok(c) => r matches Ok(s) && s@ == c,
                Err(e) => r == Err::<String, TiffError>(e),
            },
    {
        let out = match io_result(self.reader.read_exact(length)) {
            Ok(x) => x,
            Err(e) => return Err(e),
        };
        nul_terminated_string(out)
    }

    /// Reads a TIFF IFA offset/value field
    pub fn read_offset(&mut self) -> (r: TiffResult<[u8; 4]>)
        ensures
            old(self)@.bigtiff ==> r == Err::<[u8; 4], TiffError>(TiffError::FormatError(TiffFormatError::InconsistentSizesEncountered))
                && *final(self) == *old(self),
            !old(self)@.bigtiff ==> {
                &&& read_step(*old(self), *final(self), 4)
                &&& can_read_next(*old(self), 4) <==> r is Ok
                &&& r matches Ok(v) ==> v@ == next_bytes(*old(self), 4)
                &&& r matches Err(e) ==> e == TiffError::IoError(IoError::UnexpectedEof)
            },
    {
        if self.bigtiff {
            return Err(TiffError::FormatError(TiffFormatError::InconsistentSizesEncountered));
        }
        let b = match io_result(self.reader.read_exact(4)) {
            Ok(x) => x,
            Err(e) => return Err(e),
        };
        let val: [u8; 4] = [b[0], b[1], b[2], b[3]];
        assert(val@ =~= b@);
        Ok(val)
    }

    /// Reads a TIFF IFA offset/value field
    pub fn read_offset_u64(&mut self) -> (r: Result<[u8; 8], IoError>)
        ensures
            read_step(*old(self), *final(self), 8),
            can_read_next(*old(self), 8) <==> r is Ok,
            r matches Ok(v) ==> v@ == next_bytes(*old(self), 8),
            r matches Err(e) ==> e == IoError::UnexpectedEof,
    {
        let b = self.reader.read_exact(8)?;
        let val: [u8; 8] = [b[0], b[1], b[2], b[3], b[4], b[5], b[6], b[7]];
        assert(val@ =~= b@);
        Ok(val)
    }

    /// Moves the cursor to the specified offset
    pub fn goto_offset(&mut self, offset: u32) -> (r: Result<(), IoError>)
        ensures
            r is Ok,
            final(self)@ == old(self)@,
            final(self).position() == offset,
    {
        self.goto_offset_u64(offset as u64)
    }

    /// Moves the cursor to the specified offset
    pub fn goto_offset_u64(&mut self, offset: u64) -> (r: Result<(), IoError>)
        ensures
            r is Ok,
            final(self)@ == old(self)@,
            final(self).position() == offset,
    {
        self.reader.goto_offset(offset);
        Ok(())
    }

    /// Tries to retrieve a tag.
    /// Return `Ok(None)` if the tag is not present.
    pub fn find_tag(&mut self, tag: Tag) -> (r: TiffResult<Option<Value>>)
        ensures
            final(self)@ == old(self)@,
            final(self).position() == tag_read_pos(old(self)@, tag, old(self).position()),
            match spec_decoder_find_tag(old(self)@, tag) {
                Ok(None) => r matches Ok(None),
                Ok(Some(m)) => r matches Ok(Some(v)) && realizes(v, m),
                Err(e) => r == Err::<Option<Value>, TiffError>(e),
            },
    {
        if Tag::from_u16_exhaustive(tag.to_u16()) != tag {
            return Ok(None);
        }
        find_tag(&self.image.ifd, tag, &self.limits, self.bigtiff, &mut self.reader)
    }

    /// Tries to retrieve a tag and convert it to the desired unsigned type.
    pub fn find_tag_unsigned<T: TryFrom<u64>>(&mut self, tag: Tag) -> (r: TiffResult<Option<T>>)
        ensures
            final(self)@ == old(self)@,
            final(self).position() == tag_read_pos(old(self)@, tag, old(self).position()),
            match spec_find_tag_u64(old(self)@, tag) {
                Err(m) => r matches Err(e) && error_realizes(e, m),
                Ok(None) => r matches Ok(None),
                Ok(Some(_)) => r matches Ok(Some(_)) || r == Err::<Option<T>, TiffError>(invalid_value(tag)),
            },
            <T as TryFromSpec<u64>>::obeys_try_from_spec() ==> match spec_find_tag_unsigned::<T>(old(self)@, tag) {
                Ok(x) => r == Ok::<Option<T>, TiffError>(x),
                Err(m) => r matches Err(e) && error_realizes(e, m),
            },
    {
        let ghost s = self@;
        match self.find_tag(tag) {
            Err(e) => Err(e),
            Ok(None) => Ok(None),
            Ok(Some(v)) => {
                let ghost m = spec_decoder_find_tag(s, tag).unwrap().unwrap();
                match value_into_u64(v, Ghost(m)) {
                    Err(e) => Err(e),
                    Ok(x) => match T::try_from(x) {
                        Ok(y) => Ok(Some(y)),
                        Err(_) => Err(TiffError::FormatError(TiffFormatError::InvalidTagValueType(tag))),
                    },
                }
            },
        }
    }

    /// Tries to retrieve a vector of all a tag's values and convert them to
    /// the desired unsigned type.
    pub fn find_tag_unsigned_vec<T: TryFrom<u64>>(&mut self, tag: Tag) -> (r: TiffResult<Option<Vec<T>>>)
        ensures
            final(self)@ == old(self)@,
            final(self).position() == tag_read_pos(old(self)@, tag, old(self).position()),
            match spec_find_tag_u64_vec(old(self)@, tag) {
                Err(m) => r matches Err(e) && error_realizes(e, m),
                Ok(None) => r matches Ok(None),
                Ok(Some(x)) => (r matches Ok(Some(v)) && v@.len() == x.len())
                    || r == Err::<Option<Vec<T>>, TiffError>(invalid_value(tag)),
            },
            <T as TryFromSpec<u64>>::obeys_try_from_spec() ==> match spec_find_tag_unsigned_vec::<T>(old(self)@, tag) {
                Ok(None) => r matches Ok(None),
                Ok(Some(x)) => r matches Ok(Some(v)) && v@ == x,
                Err(m) => r matches Err(e) && error_realizes(e, m),
            },
    {
        let ghost s = self@;
        match self.find_tag(tag) {
            Err(e) => Err(e),
            Ok(None) => Ok(None),
            Ok(Some(v)) => {
                let ghost m = spec_decoder_find_tag(s, tag).unwrap().unwrap();
                match value_into_u64_vec(v, Ghost(m)) {
                    Err(e) => Err(e),
                    Ok(w) => match try_all::<T>(w, tag) {
                        Ok(x) => Ok(Some(x)),
                        Err(e) => Err(e),
                    },
                }
            },
        }
    }

    /// Tries to retrieve a tag and convert it to the desired unsigned type.
    /// Returns an error if the tag is not present.
    pub fn get_tag_unsigned<T: TryFrom<u64>>(&mut self, tag: Tag) -> (r: TiffResult<T>)
        ensures
            final(self)@ == old(self)@,
            final(self).position() == tag_read_pos(old(self)@, tag, old(self).position()),
            match spec_find_tag_u64(old(self)@, tag) {
                Err(m) => r matches Err(e) && error_realizes(e, m),
                Ok(None) => r == Err::<T, TiffError>(TiffError::FormatError(TiffFormatError::RequiredTagNotFound(tag))),
                Ok(Some(_)) => r is Ok || r == Err::<T, TiffError>(invalid_value(tag)),
            },
            <T as TryFromSpec<u64>>::obeys_try_from_spec() ==> outcome(r, spec_get_tag_unsigned::<T>(old(self)@, tag)),
    {
        match self.find_tag_unsigned::<T>(tag) {
            Err(e) => Err(e),
            Ok(Some(x)) => Ok(x),
            Ok(None) => Err(TiffError::FormatError(TiffFormatError::RequiredTagNotFound(tag))),
        }
    }

    /// Tries to retrieve a tag.
    /// Returns an error if the tag is not present
    pub fn get_tag(&mut self, tag: Tag) -> (r: TiffResult<Value>)
        ensures
            final(self)@ == old(self)@,
            final(self).position() == tag_read_pos(old(self)@, tag, old(self).position()),
            match spec_get_tag(old(self)@, tag) {
                Ok(m) => r matches Ok(v) && realizes(v, m),
                Err(e) => r == Err::<Value, TiffError>(e),
            },
    {
        match self.find_tag(tag) {
            Err(e) => Err(e),
            Ok(Some(val)) => Ok(val),
            Ok(None) => Err(TiffError::FormatError(TiffFormatError::RequiredTagNotFound(tag))),
        }
    }

    /// Tries to retrieve a tag and convert it to the desired type.
    pub fn get_tag_u32(&mut self, tag: Tag) -> (r: TiffResult<u32>)
        ensures
            final(self)@ == old(self)@,
            final(self).position() == tag_read_pos(old(self)@, tag, old(self).position()),
            outcome(r, spec_get_tag_as(old(self)@, tag, |m: ValueModel| model_into_u32(m))),
    {
        let ghost s = self@;
        match self.get_tag(tag) {
            Err(e) => Err(e),
            Ok(v) => {
                let ghost m = spec_get_tag(s, tag).unwrap();
                value_into_u32(v, Ghost(m))
            },
        }
    }

    /// Tries to retrieve a tag and convert it to the desired type.
    pub fn get_tag_u64(&mut self, tag: Tag) -> (r: TiffResult<u64>)
        ensures
            final(self)@ == old(self)@,
            final(self).position() == tag_read_pos(old(self)@, tag, old(self).position()),
            outcome(r, spec_get_tag_as(old(self)@, tag, |m: ValueModel| model_into_u64(m))),
    {
        let ghost s = self@;
        match self.get_tag(tag) {
            Err(e) => Err(e),
            Ok(v) => {
                let ghost m = spec_get_tag(s, tag).unwrap();
                value_into_u64(v, Ghost(m))
            },
        }
    }

    /// Tries to retrieve a tag and convert it to the desired type.
    pub fn get_tag_u32_vec(&mut self, tag: Tag) -> (r: TiffResult<Vec<u32>>)
        ensures
            final(self)@ == old(self)@,
            final(self).position() == tag_read_pos(old(self)@, tag, old(self).position()),
            outcome_list(r, spec_get_tag_as(old(self)@, tag, |m: ValueModel| model_into_u32_vec(m))),
    {
        let ghost s = self@;
        match self.get_tag(tag) {
            Err(e) => Err(e),
            Ok(v) => {
                let ghost m = spec_get_tag(s, tag).unwrap();
                value_into_u32_vec(v, Ghost(m))
            },
        }
    }

    /// Tries to retrieve a tag and convert it to the desired type.
    pub fn get_tag_u16_vec(&mut self, tag: Tag) -> (r: TiffResult<Vec<u16>>)
        ensures
            final(self)@ == old(self)@,
            final(self).position() == tag_read_pos(old(self)@, tag, old(self).position()),
            outcome_list(r, spec_get_tag_as(old(self)@, tag, |m: ValueModel| model_into_u16_vec(m))),
    {
        let ghost s = self@;
        match self.get_tag(tag) {
            Err(e) => Err(e),
            Ok(v) => {
                let ghost m = spec_get_tag(s, tag).unwrap();
                value_into_u16_vec(v, Ghost(m))
            },
        }
    }

    /// Tries to retrieve a tag and convert it to the desired type.
    pub fn get_tag_u64_vec(&mut self, tag: Tag) -> (r: TiffResult<Vec<u64>>)
        ensures
            final(self)@ == old(self)@,
            final(self).position() == tag_read_pos(old(self)@, tag, old(self).position()),
            outcome_list(r, spec_get_tag_as(old(self)@, tag, |m: ValueModel| model_into_u64_vec(m))),
    {
        let ghost s = self@;
        match self.get_tag(tag) {
            Err(e) => Err(e),
            Ok(v) => {
                let ghost m = spec_get_tag(s, tag).unwrap();
                value_into_u64_vec(v, Ghost(m))
            },
        }
    }

    /// Tries to retrieve a tag and convert it to a 8bit vector.
    pub fn get_tag_u8_vec(&mut self, tag: Tag) -> (r: TiffResult<Vec<u8>>)
        ensures
            final(self)@ == old(self)@,
            final(self).position() == tag_read_pos(old(self)@, tag, old(self).position()),
            outcome_list(r, spec_get_tag_as(old(self)@, tag, |m: ValueModel| model_into_u8_vec(m))),
    {
        let ghost s = self@;
        match self.get_tag(tag) {
            Err(e) => Err(e),
            Ok(v) => {
                let ghost m = spec_get_tag(s, tag).unwrap();
                value_into_u8_vec(v, Ghost(m))
            },
        }
    }

    /// Tries to retrieve a tag and convert it to a ascii vector.
    pub fn get_tag_ascii_string(&mut self, tag: Tag) -> (r: TiffResult<String>)
        ensures
            final(self)@ == old(self)@,
            final(self).position() == tag_read_pos(old(self)@, tag, old(self).position()),
            outcome_string(r, spec_get_tag_as(old(self)@, tag, |m: ValueModel| model_into_string(m))),
    {
        let ghost s = self@;
        match self.get_tag(tag) {
            Err(e) => Err(e),
            Ok(v) => {
                let ghost m = spec_get_tag(s, tag).unwrap();
                value_into_string(v, Ghost(m))
            },
        }
    }

    /// Fails with `InvalidChunkType` where the image's chunk type is not `expected`.
    fn check_chunk_type(&self, expected: ChunkType) -> (r: TiffResult<()>)
        ensures
            expected == self@.image.chunk_type ==> r is Ok,
            expected != self@.image.chunk_type ==> r == Err::<(), TiffError>(chunk_type_error(expected, self@.image.chunk_type)),
    {
        if expected != self.image().chunk_type {
            return Err(TiffError::UsageError(UsageError::InvalidChunkType(expected, self.image().chunk_type)));
        }
        Ok(())
    }

    /// The chunk type (Strips / Tiles) of the image
    pub fn get_chunk_type(&self) -> (r: ChunkType)
        ensures
            r == self@.image.chunk_type,
    {
        self.image().chunk_type
    }

    /// Number of strips in image
    pub fn strip_count(&mut self) -> (r: TiffResult<u32>)
        requires
            old(self).wf(),
        ensures
            final(self)@ == old(self)@,
            final(self).position() == old(self).position(),
            old(self)@.image.chunk_type != ChunkType::Strip ==> r == Err::<u32, TiffError>(chunk_type_error(ChunkType::Strip, old(self)@.image.chunk_type)),
            old(self)@.image.chunk_type == ChunkType::Strip ==> r == spec_strip_count(
                old(self)@.image.height,
                old(self)@.image.strip_decoder.unwrap().rows_per_strip,
            ),
    {
        match self.check_chunk_type(ChunkType::Strip) {
            Ok(()) => {},
            Err(e) => return Err(e),
        }
        let rows_per_strip = self.image().strip_decoder.unwrap().rows_per_strip;
        if rows_per_strip == 0 {
            return Ok(0);
        }
        let height = match self.image().height.checked_add(rows_per_strip - 1) {
            Some(h) => h,
            None => return Err(TiffError::IntSizeError),
        };
        Ok(height / rows_per_strip)
    }

    /// Number of tiles in image
    pub fn tile_count(&mut self) -> (r: TiffResult<u32>)
        ensures
            final(self)@ == old(self)@,
            final(self).position() == old(self).position(),
            old(self)@.image.chunk_type != ChunkType::Tile ==> r == Err::<u32, TiffError>(chunk_type_error(ChunkType::Tile, old(self)@.image.chunk_type)),
            old(self)@.image.chunk_type == ChunkType::Tile ==> {
                let n = old(self)@.image.chunk_offsets.len();
                &&& n <= u32::MAX ==> r == Ok::<u32, TiffError>(n as u32)
                &&& n > u32::MAX ==> r == Err::<u32, TiffError>(TiffError::IntSizeError)
            },
    {
        match self.check_chunk_type(ChunkType::Tile) {
            Ok(()) => {},
            Err(e) => return Err(e),
        }
        let n = self.image().chunk_offsets.len();
        if n > u32::MAX as usize {
            return Err(TiffError::IntSizeError);
        }
        Ok(n as u32)
    }
}


/// The largest of the bits per sample `b`, which is not empty.
pub open spec fn seq_max(b: Seq<u8>) -> u8
    decreases b.len(),
{
    if b.len() <= 1 {
        b[0]
    } else {
        let m = seq_max(b.drop_last());
        if b.last() > m { b.last() } else { m }
    }
}

/// The largest of the bits per sample `b`; 8 where there are none.
pub open spec fn max_bits(b: Seq<u8>) -> u8 {
    if b.len() == 0 { 8 } else { seq_max(b) }
}

/// The sample kind that holds samples of the format `format` with at most
/// `bits` bits, or the error where there is none.
pub open spec fn spec_result_kind(format: SampleFormat, bits: u8) -> Result<SampleKind, ErrorModel> {
    let unsupported = Err(ErrorModel::Exact(TiffError::UnsupportedError(TiffUnsupportedError::UnsupportedBitsPerChannel(bits))));
    match format {
        SampleFormat::Uint => if bits <= 8 {
            Ok(SampleKind::U8)
        } else if bits <= 16 {
            Ok(SampleKind::U16)
        } else if bits <= 32 {
            Ok(SampleKind::U32)
        } else if bits <= 64 {
            Ok(SampleKind::U64)
        } else {
            unsupported
        },
        SampleFormat::IEEEFP => if bits == 32 {
            Ok(SampleKind::F32)
        } else if bits == 64 {
            Ok(SampleKind::F64)
        } else {
            unsupported
        },
        SampleFormat::Int => if bits <= 8 {
            Ok(SampleKind::I8)
        } else if bits <= 16 {
            Ok(SampleKind::I16)
        } else if bits <= 32 {
            Ok(SampleKind::I32)
        } else if bits <= 64 {
            Ok(SampleKind::I64)
        } else {
            unsupported
        },
        f => Err(ErrorModel::UnsupportedSampleFormat(seq![f])),
    }
}

/// What a decoding result for `width` by `height` pixels of the image `img`
/// is: its sample kind and number of samples, all zero, or the error:
/// `LimitsExceeded` where the number of samples does not fit in a `usize`
/// or their bytes exceed `limit`.
pub open spec fn spec_result_buffer(img: ImageModel, limit: usize, width: usize, height: usize) -> Result<(SampleKind, nat), ErrorModel> {
    let n = img.bits_per_sample.len();
    if width * height > usize::MAX || width * height * n > usize::MAX {
        Err(ErrorModel::Exact(TiffError::LimitsExceeded))
    } else {
        let format = if img.sample_format.len() == 0 { SampleFormat::Uint } else { img.sample_format[0] };
        match spec_result_kind(format, max_bits(img.bits_per_sample)) {
            Err(m) => Err(m),
            Ok(k) => if width * height * n > limit as nat / kind_size(k) {
                Err(ErrorModel::Exact(TiffError::LimitsExceeded))
            } else {
                Ok((k, (width * height * n) as nat))
            },
        }
    }
}

/// Whether the exec result `r` is the decoding result `s` describes.
pub open spec fn outcome_result(r: TiffResult<DecodingResult>, s: Result<(SampleKind, nat), ErrorModel>) -> bool {
    match s {
        Ok((k, n)) => r matches Ok(b) && b@ == zeros(k, n),
        Err(m) => r matches Err(e) && error_realizes(e, m),
    }
}

/// The largest of the bits per sample `b`; 8 where there are none.
fn max_sample_bits(b: &Vec<u8>) -> (r: u8)
    ensures
        r == max_bits(b@),
{
    if b.len() == 0 {
        return 8;
    }
    let mut m = b[0];
    let mut i: usize = 1;
    assert(b@.take(1) =~= seq![b@[0]]);
    while i < b.len()
        invariant
            1 <= i <= b@.len(),
            m == seq_max(b@.take(i as int)),
        decreases b.len() - i,
    {
        assert(b@.take(i + 1).drop_last() =~= b@.take(i as int));
        if b[i] > m {
            m = b[i];
        }
        i = i + 1;
    }
    assert(b@.take(b@.len() as int) =~= b@);
    m
}

impl Decoder {
    /// A decoding result of zeros for `width` by `height` pixels of the
    /// current image, of the sample kind its sample format and bits call for.
    fn result_buffer(&self, width: usize, height: usize) -> (r: TiffResult<DecodingResult>)
        ensures
            outcome_result(r, spec_result_buffer(self@.image, self@.limits.decoding_buffer_size, width, height)),
    {
        let samples = self.image().bits_per_sample.len();
        let buffer_size = match width.checked_mul(height) {
            Some(x) => match x.checked_mul(samples) {
                Some(s) => s,
                None => return Err(TiffError::LimitsExceeded),
            },
            None => return Err(TiffError::LimitsExceeded),
        };
        let max_bits = max_sample_bits(&self.image().bits_per_sample);
        let format = if self.image().sample_format.len() == 0 {
            SampleFormat::Uint
        } else {
            self.image().sample_format[0]
        };
        let limits = &self.limits;
        let r = match format {
            SampleFormat::Uint => if max_bits <= 8 {
                DecodingResult::new_u8(buffer_size, limits)
            } else if max_bits <= 16 {
                DecodingResult::new_u16(buffer_size, limits)
            } else if max_bits <= 32 {
                DecodingResult::new_u32(buffer_size, limits)
            } else if max_bits <= 64 {
                DecodingResult::new_u64(buffer_size, limits)
            } else {
                Err(TiffError::UnsupportedError(TiffUnsupportedError::UnsupportedBitsPerChannel(max_bits)))
            },
            SampleFormat::IEEEFP => if max_bits == 32 {
                DecodingResult::new_f32(buffer_size, limits)
            } else if max_bits == 64 {
                DecodingResult::new_f64(buffer_size, limits)
            } else {
                Err(TiffError::UnsupportedError(TiffUnsupportedError::UnsupportedBitsPerChannel(max_bits)))
            },
            SampleFormat::Int => if max_bits <= 8 {
                DecodingResult::new_i8(buffer_size, limits)
            } else if max_bits <= 16 {
                DecodingResult::new_i16(buffer_size, limits)
            } else if max_bits <= 32 {
                DecodingResult::new_i32(buffer_size, limits)
            } else if max_bits <= 64 {
                DecodingResult::new_i64(buffer_size, limits)
            } else {
                Err(TiffError::UnsupportedError(TiffUnsupportedError::UnsupportedBitsPerChannel(max_bits)))
            },
            f => Err(TiffError::UnsupportedError(TiffUnsupportedError::UnsupportedSampleFormat(vec_of_1(f)))),
        };
        r
    }
}


/// What reading the chunk `chunk` of the current image as samples of the
/// kind `k` from the file comes to: the plan of its expansion, or the error,
/// `InconsistentSizesEncountered` first where the image has no such chunk.
pub open spec fn spec_read_chunk(s: DecoderModel, k: SampleKind, chunk: nat) -> Result<ChunkPlan, ErrorModel> {
    if chunk >= s.image.chunk_offsets.len() || chunk >= s.image.chunk_bytes.len() {
        Err(ErrorModel::Exact(TiffError::FormatError(TiffFormatError::InconsistentSizesEncountered)))
    } else {
        spec_expand_chunk(s.image, k, chunk, s.file, s.image.chunk_offsets[chunk as int] as nat)
    }
}

/// The bytes the samples of the chunk `chunk` are read from, as many as the
/// plan `p` says are in the file, unpacked where the image is compressed.
pub open spec fn chunk_data(s: DecoderModel, chunk: nat, p: ChunkPlan) -> Seq<u8> {
    spec_chunk_source(s.image.compression_method, s.file, s.image.chunk_offsets[chunk as int] as nat, p.bytes)->Ok_0
}

/// The samples `buf` with the chunk `chunk` expanded into them as the plan
/// `p` says, its rows `output_width` pixels apart from `start` on.
pub open spec fn chunk_written(s: DecoderModel, buf: ResultModel, chunk: nat, p: ChunkPlan, start: nat, output_width: nat) -> ResultModel {
    result_write(
        buf,
        start as int,
        p.rows as int,
        (p.cols * p.samples) as int,
        (output_width * p.samples) as int,
        p.op(buf.kind(), chunk_data(s, chunk, p), s.order),
    )
}

/// The state `s` with the next chunk to read moved on by one.
pub open spec fn next_chunk(s: DecoderModel) -> DecoderModel {
    DecoderModel { current_chunk: (s.current_chunk + 1) as usize, ..s }
}

/// The height of the strip `index` of an image of `height` rows with
/// `rows_per_strip` rows per strip: fewer for the bottom strip.
pub open spec fn strip_height(height: u32, rows_per_strip: u32, index: usize) -> usize {
    let left = height - index * rows_per_strip;
    (if rows_per_strip <= left { rows_per_strip as int } else { left }) as usize
}

/// What reading the next strip comes to: its samples, or the error.
pub open spec fn spec_read_strip(s: DecoderModel) -> Result<ResultModel, ErrorModel> {
    if s.image.chunk_type != ChunkType::Strip {
        Err(ErrorModel::Exact(chunk_type_error(ChunkType::Strip, s.image.chunk_type)))
    } else {
        let sh = strip_height(s.image.height, s.image.strip_decoder.unwrap().rows_per_strip, s.current_chunk);
        match spec_result_buffer(s.image, s.limits.decoding_buffer_size, s.image.width as usize, sh) {
            Err(m) => Err(m),
            Ok((k, n)) => match spec_read_chunk(s, k, s.current_chunk as nat) {
                Err(m) => Err(m),
                Ok(p) => Ok(chunk_written(s, zeros(k, n), s.current_chunk as nat, p, 0, s.image.width as nat)),
            },
        }
    }
}

/// What reading the next tile comes to: its samples, or the error.
pub open spec fn spec_read_tile(s: DecoderModel) -> Result<ResultModel, ErrorModel> {
    if s.image.chunk_type != ChunkType::Tile {
        Err(ErrorModel::Exact(chunk_type_error(ChunkType::Tile, s.image.chunk_type)))
    } else {
        let t = s.image.tile_attributes.unwrap();
        let pad = t.spec_get_padding(s.current_chunk as nat);
        let tile_width = (t.tile_width - pad.0) as usize;
        let tile_length = (t.tile_length - pad.1) as usize;
        match spec_result_buffer(s.image, s.limits.decoding_buffer_size, tile_width, tile_length) {
            Err(m) => Err(m),
            Ok((k, n)) => match spec_read_chunk(s, k, s.current_chunk as nat) {
                Err(m) => Err(m),
                Ok(p) => Ok(chunk_written(s, zeros(k, n), s.current_chunk as nat, p, 0, tile_width as nat)),
            },
        }
    }
}

/// Where the samples of the chunk `chunk` start in a decoding of the whole
/// image: below the rows of the chunks above it and right of the chunks
/// to its left.
pub open spec fn chunk_start(img: ImageModel, chunk: nat) -> nat {
    let cd = spec_chunk_dimensions(img);
    let cw = min_nat(cd.0, img.width as nat);
    let ch = min_nat(cd.1, img.height as nat);
    let samples = img.bits_per_sample.len();
    let across = chunks_across(img);
    (chunk / across) * ((img.width as nat) * ch * samples) + (chunk % across) * cw * samples
}

/// The samples `buf` with the chunks from `chunk` on expanded into them in
/// turn, or the error of the first that fails.
pub open spec fn spec_decode_chunks(s: DecoderModel, k: SampleKind, buf: ResultModel, chunk: nat) -> Result<ResultModel, ErrorModel>
    decreases s.image.chunk_offsets.len() - chunk,
{
    if chunk >= s.image.chunk_offsets.len() {
        Ok(buf)
    } else {
        match spec_expand_chunk(s.image, k, chunk, s.file, s.image.chunk_offsets[chunk as int] as nat) {
            Err(m) => Err(m),
            Ok(p) => spec_decode_chunks(
                s,
                k,
                chunk_written(s, buf, chunk, p, chunk_start(s.image, chunk), s.image.width as nat),
                chunk + 1,
            ),
        }
    }
}

/// What decoding the whole current image comes to: its samples, or the error.
pub open spec fn spec_read_image(s: DecoderModel) -> Result<ResultModel, ErrorModel> {
    let img = s.image;
    let width = img.width as usize;
    let height = img.height as usize;
    match spec_result_buffer(img, s.limits.decoding_buffer_size, width, height) {
        Err(m) => Err(m),
        Ok((k, n)) => if width == 0 || height == 0 {
            Ok(zeros(k, n))
        } else if min_nat(spec_chunk_dimensions(img).0, width as nat) == 0 || min_nat(spec_chunk_dimensions(img).1, height as nat) == 0
            || img.bits_per_sample.len() == 0 {
            Err(ErrorModel::Exact(TiffError::FormatError(TiffFormatError::InconsistentSizesEncountered)))
        } else {
            spec_decode_chunks(s, k, zeros(k, n), 0)
        },
    }
}

/// Where a reader that was at `pos` stands once the chunk `chunk` was
/// looked for: at the chunk's offset in the file where the image has such a
/// chunk, else at `pos`.
pub open spec fn chunk_pos(s: DecoderModel, chunk: nat, pos: nat) -> nat {
    if chunk < s.image.chunk_offsets.len() && chunk < s.image.chunk_bytes.len() {
        s.image.chunk_offsets[chunk as int] as nat
    } else {
        pos
    }
}

/// Where reading the next strip leaves a reader that was at `pos`: at the
/// strip's offset once its buffer was made, else at `pos`.
pub open spec fn spec_read_strip_pos(s: DecoderModel, pos: nat) -> nat {
    if s.image.chunk_type != ChunkType::Strip {
        pos
    } else {
        let sh = strip_height(s.image.height, s.image.strip_decoder.unwrap().rows_per_strip, s.current_chunk);
        if spec_result_buffer(s.image, s.limits.decoding_buffer_size, s.image.width as usize, sh) is Err {
            pos
        } else {
            chunk_pos(s, s.current_chunk as nat, pos)
        }
    }
}

/// Where reading the next tile leaves a reader that was at `pos`: at the
/// tile's offset once its buffer was made, else at `pos`.
pub open spec fn spec_read_tile_pos(s: DecoderModel, pos: nat) -> nat {
    if s.image.chunk_type != ChunkType::Tile {
        pos
    } else {
        let t = s.image.tile_attributes.unwrap();
        let pad = t.spec_get_padding(s.current_chunk as nat);
        let tile_width = (t.tile_width - pad.0) as usize;
        let tile_length = (t.tile_length - pad.1) as usize;
        if spec_result_buffer(s.image, s.limits.decoding_buffer_size, tile_width, tile_length) is Err {
            pos
        } else {
            chunk_pos(s, s.current_chunk as nat, pos)
        }
    }
}

/// Where expanding the chunks from `chunk` on in turn leaves a reader that
/// was at `pos`: at the offset of the last chunk reached, the first that
/// fails or the last of all.
pub open spec fn decode_chunks_pos(s: DecoderModel, k: SampleKind, chunk: nat, pos: nat) -> nat
    decreases s.image.chunk_offsets.len() - chunk,
{
    if chunk >= s.image.chunk_offsets.len() {
        pos
    } else {
        let offset = s.image.chunk_offsets[chunk as int] as nat;
        match spec_expand_chunk(s.image, k, chunk, s.file, offset) {
            Err(_) => offset,
            Ok(_) => decode_chunks_pos(s, k, chunk + 1, offset),
        }
    }
}

/// Where decoding the whole current image leaves a reader that was at `pos`.
pub open spec fn spec_read_image_pos(s: DecoderModel, pos: nat) -> nat {
    let img = s.image;
    let width = img.width as usize;
    let height = img.height as usize;
    match spec_result_buffer(img, s.limits.decoding_buffer_size, width, height) {
        Err(_) => pos,
        Ok((k, n)) => if width == 0 || height == 0 || min_nat(spec_chunk_dimensions(img).0, width as nat) == 0
            || min_nat(spec_chunk_dimensions(img).1, height as nat) == 0 || img.bits_per_sample.len() == 0 {
            pos
        } else {
            decode_chunks_pos(s, k, 0, pos)
        },
    }
}

/// Whether the exec result `r` is the spec result `s`, for samples.
pub open spec fn outcome_samples(r: TiffResult<DecodingResult>, s: Result<ResultModel, ErrorModel>) -> bool {
    match s {
        Ok(m) => r matches Ok(b) && b@ == m,
        Err(m) => r matches Err(e) && error_realizes(e, m),
    }
}


impl Decoder {
    /// Reads the next strip into `buffer`, its rows a row of the image apart
    /// from `start` on, and moves on to the strip after it.
    pub fn read_strip_to_buffer(&mut self, buffer: &mut DecodingResult, start: usize) -> (r: TiffResult<()>)
        requires
            old(self).wf(),
            old(buffer)@.len() * kind_size(old(buffer)@.kind()) <= usize::MAX,
            old(self)@.image.chunk_type == ChunkType::Strip ==> (spec_chunk_plan(
                old(self)@.image,
                old(buffer)@.kind(),
                old(self)@.current_chunk as nat,
            ) matches Ok(p) ==> p.fits(old(buffer)@.kind(), old(buffer)@.len(), start as nat, old(self)@.image.width as nat)),
        ensures
            final(self).wf(),
            final(buffer)@.kind() == old(buffer)@.kind(),
            final(buffer)@.len() == old(buffer)@.len(),
            final(self).position() == (if old(self)@.image.chunk_type != ChunkType::Strip {
                old(self).position()
            } else {
                chunk_pos(old(self)@, old(self)@.current_chunk as nat, old(self).position())
            }),
            old(self)@.image.chunk_type != ChunkType::Strip ==> {
                &&& r == Err::<(), TiffError>(chunk_type_error(ChunkType::Strip, old(self)@.image.chunk_type))
                &&& final(self)@ == old(self)@
                &&& final(buffer)@ == old(buffer)@
            },
            old(self)@.image.chunk_type == ChunkType::Strip ==> match spec_read_chunk(
                old(self)@,
                old(buffer)@.kind(),
                old(self)@.current_chunk as nat,
            ) {
                Err(m) => r matches Err(e) && error_realizes(e, m) && final(self)@ == old(self)@,
                Ok(p) => {
                    &&& r is Ok
                    &&& final(self)@ == next_chunk(old(self)@)
                    &&& final(buffer)@ == chunk_written(old(self)@, old(buffer)@, old(self)@.current_chunk as nat, p, start as nat, old(self)@.image.width as nat)
                },
            },
    {
        match self.check_chunk_type(ChunkType::Strip) {
            Ok(()) => {},
            Err(e) => return Err(e),
        }
        let chunk = self.current_chunk;
        let offset = match self.image.chunk_file_range(chunk) {
            Ok(range) => range.0,
            Err(e) => return Err(e),
        };
        match self.goto_offset_u64(offset) {
            Ok(()) => {},
            Err(e) => return Err(TiffError::IoError(e)),
        }
        let byte_order = self.reader.byte_order();
        let output_width = self.image().width as usize;
        let ghost b0 = buffer@;
        match self.image.expand_chunk(&self.reader, buffer, start, output_width, byte_order, chunk) {
            Ok(()) => {},
            Err(e) => return Err(e),
        }
        proof {
            let p = spec_read_chunk(self@, b0.kind(), chunk as nat)->Ok_0;
            lemma_result_written_is_write(
                b0,
                buffer@,
                start as int,
                p.rows as int,
                (p.cols * p.samples) as int,
                (output_width * p.samples) as int,
                p.op(b0.kind(), chunk_data(self@, chunk as nat, p), self@.order),
            );
        }
        self.current_chunk = chunk + 1;
        Ok(())
    }
}


/// The bytes of a decoding result that keeps to the limit `limit` do not
/// exceed it.
proof fn lemma_within_limit(n: nat, k: SampleKind, limit: usize)
    requires
        n <= limit as nat / kind_size(k),
    ensures
        n * kind_size(k) <= limit,
{
    let ks = kind_size(k) as int;
    lemma_fundamental_div_mod(limit as int, ks);
    assert(n * ks <= limit) by (nonlinear_arith)
        requires
            n <= (limit as int) / ks,
            limit as int == ks * ((limit as int) / ks) + (limit as int) % ks,
            (limit as int) % ks >= 0,
            ks >= 1,
    ;
}

/// A row of a block of at least one row is no larger than the block.
proof fn lemma_row_in_block(width: nat, rows: nat, samples: nat, ks: nat)
    requires
        rows >= 1,
    ensures
        width * samples * ks <= width * rows * samples * ks,
{
    assert(width * samples * ks <= width * rows * samples * ks) by (nonlinear_arith)
        requires
            rows >= 1,
    ;
}

impl Decoder {
    /// Read a single strip from the image and return it as a Vector
    pub fn read_strip(&mut self) -> (r: TiffResult<DecodingResult>)
        requires
            old(self).wf(),
            old(self)@.image.chunk_type == ChunkType::Strip ==> old(self)@.current_chunk
                * old(self)@.image.strip_decoder.unwrap().rows_per_strip <= old(self)@.image.height,
        ensures
            final(self).wf(),
            outcome_samples(r, spec_read_strip(old(self)@)),
            final(self).position() == spec_read_strip_pos(old(self)@, old(self).position()),
            r is Ok ==> final(self)@ == next_chunk(old(self)@),
            r is Err ==> final(self)@ == old(self)@,
    {
        match self.check_chunk_type(ChunkType::Strip) {
            Ok(()) => {},
            Err(e) => return Err(e),
        }
        let index = self.current_chunk;
        let rows_per_strip = self.image().strip_decoder.unwrap().rows_per_strip as usize;
        let height = self.image().height as usize;
        let left = height - index * rows_per_strip;
        let strip_height = if rows_per_strip <= left { rows_per_strip } else { left };
        let width = self.image().width as usize;
        let mut result = match self.result_buffer(width, strip_height) {
            Ok(b) => b,
            Err(e) => return Err(e),
        };
        proof {
            let img = self@.image;
            let k = result@.kind();
            let n = result@.len();
            let s = img.bits_per_sample.len();
            lemma_within_limit(n, k, self@.limits.decoding_buffer_size);
            if spec_chunk_plan(img, k, index as nat) is Ok {
                lemma_chunk_within(img, index as nat);
                lemma_block_fits(width as int, strip_height as int, s as int, 0, 0, width as int, strip_height as int);
                lemma_row_in_block(width as nat, strip_height as nat, s, kind_size(k));
                assert(0 * (width as int) * (s as int) + 0 * (s as int) == 0);
            }
        }
        match self.read_strip_to_buffer(&mut result, 0) {
            Ok(()) => {},
            Err(e) => return Err(e),
        }
        Ok(result)
    }

    /// Read a single tile from the image and return it as a Vector
    #[verifier::rlimit(40)]
    pub fn read_tile(&mut self) -> (r: TiffResult<DecodingResult>)
        requires
            old(self).wf(),
        ensures
            final(self).wf(),
            outcome_samples(r, spec_read_tile(old(self)@)),
            final(self).position() == spec_read_tile_pos(old(self)@, old(self).position()),
            r is Ok ==> final(self)@ == next_chunk(old(self)@),
            r is Err ==> final(self)@ == old(self)@,
    {
        match self.check_chunk_type(ChunkType::Tile) {
            Ok(()) => {},
            Err(e) => return Err(e),
        }
        let tile = self.current_chunk;
        let tile_attrs = self.image().tile_attributes.unwrap();
        let (padding_right, padding_down) = tile_attrs.get_padding(tile);
        let tile_width = tile_attrs.tile_width - padding_right;
        let tile_length = tile_attrs.tile_length - padding_down;
        let mut result = match self.result_buffer(tile_width, tile_length) {
            Ok(b) => b,
            Err(e) => return Err(e),
        };
        let offset = match self.image.chunk_file_range(tile) {
            Ok(range) => range.0,
            Err(e) => return Err(e),
        };
        match self.goto_offset_u64(offset) {
            Ok(()) => {},
            Err(e) => return Err(TiffError::IoError(e)),
        }
        let byte_order = self.reader.byte_order();
        let ghost b0 = result@;
        proof {
            let img = self@.image;
            let k = result@.kind();
            let n = result@.len();
            let s = img.bits_per_sample.len();
            lemma_within_limit(n, k, self@.limits.decoding_buffer_size);
            lemma_block_fits(tile_width as int, tile_length as int, s as int, 0, 0, tile_width as int, tile_length as int);
            lemma_row_in_block(tile_width as nat, tile_length as nat, s, kind_size(k));
            assert(0 * (tile_width as int) * (s as int) + 0 * (s as int) == 0);
        }
        match self.image.expand_chunk(&self.reader, &mut result, 0, tile_width, byte_order, tile) {
            Ok(()) => {},
            Err(e) => return Err(e),
        }
        proof {
            let p = spec_read_chunk(self@, b0.kind(), tile as nat)->Ok_0;
            lemma_result_written_is_write(
                b0,
                result@,
                0,
                p.rows as int,
                (p.cols * p.samples) as int,
                (tile_width * p.samples) as int,
                p.op(b0.kind(), chunk_data(self@, tile as nat, p), self@.order),
            );
        }
        assert(tile < self.image.chunk_offsets.len());
        self.current_chunk = tile + 1;
        Ok(result)
    }
}


/// Where a decoding of the whole image places a chunk of a consistent
/// image, the part of the chunk within the image fits in the samples of
/// the image.
proof fn lemma_chunk_start(img: ImageModel, chunk: nat)
    requires
        img.wf(),
        chunk < img.chunk_offsets.len(),
    ensures
        spec_chunk_data_dimensions(img, chunk) matches Ok(d) && {
            let w = img.width as nat;
            let h = img.height as nat;
            let s = img.bits_per_sample.len();
            &&& d.0 <= w
            &&& d.0 * s <= w * s
            &&& chunk_start(img, chunk) == chunk_y(img, chunk) * (w * s) + chunk_x(img, chunk) * s
            &&& rows_fit((w * h * s) as int, chunk_start(img, chunk) as int, d.1 as int, (d.0 * s) as int, (w * s) as int)
            &&& chunk_start(img, chunk) + d.0 * s <= w * h * s
        },
{
    lemma_chunk_within(img, chunk);
    let d = spec_chunk_data_dimensions(img, chunk)->Ok_0;
    let w = img.width as int;
    let h = img.height as int;
    let s = img.bits_per_sample.len() as int;
    let cd = spec_chunk_dimensions(img);
    let cw = min_nat(cd.0, w as nat) as int;
    let ch = min_nat(cd.1, h as nat) as int;
    let across = chunks_across(img) as int;
    let q = chunk as int / across;
    let m = chunk as int % across;
    assert(chunk_start(img, chunk) == q * (w * ch * s) + m * cw * s);
    assert(chunk_y(img, chunk) == q * ch);
    assert(chunk_x(img, chunk) == m * cw);
    assert(q * (w * ch * s) + m * cw * s == (q * ch) * w * s + (m * cw) * s) by (nonlinear_arith);
    assert((q * ch) * w * s == (q * ch) * (w * s)) by (nonlinear_arith);
    lemma_block_fits(w, h, s, m * cw, q * ch, d.0 as int, d.1 as int);
    assert((d.1 - 1) * (w * s) >= 0) by (nonlinear_arith)
        requires
            d.1 >= 1,
            w >= 0,
            s >= 0,
    ;
}

impl Decoder {
    /// Decodes the entire image and return it as a Vector
    #[verifier::rlimit(80)]
    pub fn read_image(&mut self) -> (r: TiffResult<DecodingResult>)
        requires
            old(self).wf(),
        ensures
            final(self)@ == old(self)@,
            final(self).wf(),
            outcome_samples(r, spec_read_image(old(self)@)),
            final(self).position() == spec_read_image_pos(old(self)@, old(self).position()),
    {
        let ghost pos0 = self.position();
        let width = self.image().width as usize;
        let height = self.image().height as usize;
        let mut result = match self.result_buffer(width, height) {
            Ok(b) => b,
            Err(e) => return Err(e),
        };
        if width == 0 || height == 0 {
            return Ok(result);
        }
        let chunk_dimensions = match self.image().chunk_dimensions() {
            Ok(d) => d,
            Err(e) => return Err(e),
        };
        let chunk_width = if (chunk_dimensions.0 as usize) <= width { chunk_dimensions.0 as usize } else { width };
        let chunk_height = if (chunk_dimensions.1 as usize) <= height { chunk_dimensions.1 as usize } else { height };
        if chunk_width == 0 || chunk_height == 0 {
            return Err(TiffError::FormatError(TiffFormatError::InconsistentSizesEncountered));
        }
        let samples = self.image().bits_per_sample.len();
        if samples == 0 {
            return Err(TiffError::FormatError(TiffFormatError::InconsistentSizesEncountered));
        }
        let ghost s0 = self@;
        let ghost k = result@.kind();
        let ghost n = result@.len();
        proof {
            lemma_within_limit(n, k, s0.limits.decoding_buffer_size);
            lemma_row_in_block(width as nat, height as nat, samples as nat, kind_size(k));
            assert(width * chunk_height * samples <= width * height * samples) by (nonlinear_arith)
                requires
                    chunk_height <= height,
            ;
            assert(kind_size(k) >= 1);
            assert(width * height * samples <= width * height * samples * kind_size(k)) by (nonlinear_arith)
                requires
                    kind_size(k) >= 1,
            ;
            assert(width * chunk_height <= width * chunk_height * samples) by (nonlinear_arith)
                requires
                    samples >= 1,
            ;
        }
        let across = (width - 1) / chunk_width + 1;
        let strip_samples = width * chunk_height * samples;
        let count = self.image().chunk_offsets.len();
        let mut chunk: usize = 0;
        while chunk < count
            invariant
                self@ == s0,
                s0 == old(self)@,
                spec_read_image(s0) == spec_decode_chunks(s0, k, zeros(k, n), 0),
                s0.image.wf(),
                n <= usize::MAX,
                count == s0.image.chunk_offsets.len(),
                chunk <= count,
                width == s0.image.width,
                height == s0.image.height,
                samples == s0.image.bits_per_sample.len(),
                samples >= 1,
                chunk_width == min_nat(spec_chunk_dimensions(s0.image).0, width as nat),
                chunk_height == min_nat(spec_chunk_dimensions(s0.image).1, height as nat),
                across == chunks_across(s0.image),
                strip_samples == width * chunk_height * samples,
                result@.kind() == k,
                result@.len() == n,
                n == width * height * samples,
                n * kind_size(k) <= usize::MAX,
                width * samples * kind_size(k) <= n * kind_size(k),
                spec_decode_chunks(s0, k, result@, chunk as nat) == spec_decode_chunks(s0, k, zeros(k, n), 0),
                spec_read_image_pos(s0, pos0) == decode_chunks_pos(s0, k, 0, pos0),
                decode_chunks_pos(s0, k, chunk as nat, self.position()) == decode_chunks_pos(s0, k, 0, pos0),
            decreases count - chunk,
        {
            let offset = self.image().chunk_offsets[chunk];
            let ghost before = self.position();
            match self.goto_offset_u64(offset) {
                Ok(()) => {},
                Err(e) => return Err(TiffError::IoError(e)),
            }
            assert(decode_chunks_pos(s0, k, chunk as nat, self.position()) == decode_chunks_pos(s0, k, chunk as nat, before));
            let x = chunk % across;
            let y = chunk / across;
            let ghost start = chunk_start(s0.image, chunk as nat);
            proof {
                lemma_chunk_start(s0.image, chunk as nat);
                let d = spec_chunk_data_dimensions(s0.image, chunk as nat)->Ok_0;
                assert(start == y * strip_samples + x * chunk_width * samples);
                assert(y * strip_samples <= start && x * chunk_width <= x * chunk_width * samples) by (nonlinear_arith)
                    requires
                        start == y * strip_samples + x * chunk_width * samples,
                        x >= 0,
                        y >= 0,
                        strip_samples >= 0,
                        chunk_width >= 0,
                        samples >= 1,
                ;
                assert(x * chunk_width * samples <= start) by (nonlinear_arith)
                    requires
                        start == y * strip_samples + x * chunk_width * samples,
                        y >= 0,
                        strip_samples >= 0,
                ;
            }
            let buffer_offset = y * strip_samples + x * chunk_width * samples;
            let byte_order = self.reader.byte_order();
            let ghost b0 = result@;
            match self.image.expand_chunk(&self.reader, &mut result, buffer_offset, width, byte_order, chunk) {
                Ok(()) => {},
                Err(e) => return Err(e),
            }
            proof {
                let p = spec_expand_chunk(s0.image, k, chunk as nat, s0.file, offset as nat)->Ok_0;
                lemma_result_written_is_write(
                    b0,
                    result@,
                    buffer_offset as int,
                    p.rows as int,
                    (p.cols * p.samples) as int,
                    (width * p.samples) as int,
                    p.op(k, chunk_data(s0, chunk as nat, p), s0.order),
                );
            }
            chunk = chunk + 1;
        }
        Ok(result)
    }

    /// Decodes the entire image; the same as `read_image`.
    pub fn read_jpeg(&mut self) -> (r: TiffResult<DecodingResult>)
        requires
            old(self).wf(),
        ensures
            final(self)@ == old(self)@,
            final(self).wf(),
            outcome_samples(r, spec_read_image(old(self)@)),
            final(self).position() == spec_read_image_pos(old(self)@, old(self).position()),
    {
        self.read_image()
    }
}


/// The number of strips `strip_count` gives for an image read from a file is
/// the number of strips the image has, where the height and the rows per
/// strip leave room to round up within a `u32`.
pub proof fn lemma_strip_count_matches(s: DecoderModel)
    requires
        s.image.wf(),
        s.image.chunk_type == ChunkType::Strip,
        s.image.height + s.image.strip_decoder.unwrap().rows_per_strip - 1 <= u32::MAX,
    ensures
        spec_strip_count(s.image.height, s.image.strip_decoder.unwrap().rows_per_strip) == Ok::<u32, TiffError>(
            s.image.chunk_offsets.len() as u32,
        ),
{
    let h = s.image.height as int;
    let rps = s.image.strip_decoder.unwrap().rows_per_strip as int;
    let q = (h - 1) / rps;
    lemma_fundamental_div_mod(h - 1, rps);
    assert(h + rps - 1 == (q + 1) * rps + (h - 1) % rps) by (nonlinear_arith)
        requires
            h - 1 == rps * q + (h - 1) % rps,
    ;
    vstd::arithmetic::div_mod::lemma_fundamental_div_mod_converse(h + rps - 1, rps, q + 1, (h - 1) % rps);
}

/// Reading images never goes back to a directory already read: where
/// reading the next image succeeds and another directory follows, its
/// offset is one not met before, and it joins those met; where the
/// directory that follows was met before, reading fails with
/// `CycleInOffsets` and no further image is offered.
pub proof fn lemma_next_image_fresh(s: DecoderModel)
    ensures
        spec_next_image(s).1 is Ok && spec_next_image(s).0.next_ifd is Some ==> {
            let n = spec_next_image(s).0.next_ifd->Some_0;
            &&& !s.seen_ifds.contains(n)
            &&& spec_next_image(s).0.seen_ifds == s.seen_ifds.insert(n)
        },
        s.next_ifd matches Some(loc) ==> (spec_read_ifd(s.file, s.order, s.bigtiff, loc) matches Ok((dir, Some(n)))
            ==> s.seen_ifds.contains(n) ==> {
                &&& spec_next_image(s).1 == Err::<(), ErrorModel>(ErrorModel::Exact(TiffError::FormatError(TiffFormatError::CycleInOffsets)))
                &&& spec_next_image(s).0.next_ifd is None
            }),
        s.seen_ifds.finite() ==> spec_next_image(s).0.seen_ifds.finite(),
        spec_next_image(s).0.next_ifd matches Some(n) ==> spec_next_image(s).0.seen_ifds.contains(n),
{
}


/// Where there are no more images, reading the next one fails with
/// `ImageFileDirectoryNotFound` and changes nothing.
pub proof fn lemma_no_more_images(s: DecoderModel)
    requires
        s.next_ifd is None,
    ensures
        spec_next_image(s) == (s, Err::<(), ErrorModel>(ErrorModel::Exact(TiffError::FormatError(TiffFormatError::ImageFileDirectoryNotFound)))),
{
}

/// Reading the entries of a directory fails only at the end of the file.
proof fn lemma_entries_fail_at_eof(file: Seq<u8>, bo: ByteOrder, bigtiff: bool, pos: nat, n: nat, dir: Map<u16, EntryModel>)
    ensures
        spec_read_entries(file, bo, bigtiff, pos, n, dir) matches Err(e) ==> e == TiffError::IoError(IoError::UnexpectedEof),
    decreases n,
{
    if n > 0 {
        match spec_read_entry(file, bo, bigtiff, pos) {
            Err(_) => {},
            Ok((None, p)) => lemma_entries_fail_at_eof(file, bo, bigtiff, p, (n - 1) as nat, dir),
            Ok((Some((k, e)), p)) => lemma_entries_fail_at_eof(file, bo, bigtiff, p, (n - 1) as nat, dir.insert(k, e)),
        }
    }
}

/// The value of no entry fails to read with `ImageFileDirectoryNotFound`.
proof fn lemma_value_found(e: EntryModel, ctx: ReadContext)
    ensures
        e.spec_val(ctx.dbs, ctx.bigtiff, ctx.file, ctx.order) != Err::<ValueModel, TiffError>(not_found()),
{
}

/// The error of reading on where there are no more images.
pub open spec fn not_found() -> TiffError {
    TiffError::FormatError(TiffFormatError::ImageFileDirectoryNotFound)
}

/// Converting the elements of a list fails with `ImageFileDirectoryNotFound`
/// only where converting an element can.
proof fn lemma_convert_found<T>(s: Seq<Value>, f: spec_fn(Value) -> Result<T, TiffError>)
    requires
        forall|v: Value| #[trigger] f(v) != Err::<T, TiffError>(not_found()),
    ensures
        spec_convert_all(s, f) != Err::<Seq<T>, TiffError>(not_found()),
    decreases s.len(),
{
    if s.len() > 0 {
        lemma_convert_found(s.drop_last(), f);
    }
}

/// Looking up a tag never fails with `ImageFileDirectoryNotFound`.
proof fn lemma_tag_found(dir: Map<u16, EntryModel>, tag: Tag, ctx: ReadContext)
    ensures
        spec_find_tag(dir, tag, ctx) != Err::<Option<ValueModel>, TiffError>(not_found()),
{
    if dir.contains_key(tag.code()) {
        lemma_value_found(dir[tag.code()], ctx);
    }
}

/// Converting a value to a list of integers never fails with
/// `ImageFileDirectoryNotFound`.
proof fn lemma_lists_found(m: ValueModel)
    ensures
        model_into_u64_vec(m) matches Err(e) ==> !error_realizes(not_found(), e),
        model_into_u8_vec(m) matches Err(e) ==> !error_realizes(not_found(), e),
{
    assert forall|v: Value| #[trigger] into_u8_fn()(v) != Err::<u8, TiffError>(not_found()) by {}
    assert forall|v: Value| #[trigger] into_u64_fn()(v) != Err::<u64, TiffError>(not_found()) by {}
    match m {
        ValueModel::Item(v) => if let Value::List(l) = v {
            lemma_convert_found(l@, into_u8_fn());
            lemma_convert_found(l@, into_u64_fn());
        },
        ValueModel::Items(l) => {
            lemma_convert_found(l, into_u8_fn());
            lemma_convert_found(l, into_u64_fn());
        },
        ValueModel::Text(_) => {},
    }
}

/// Whether `r` is no failure with `ImageFileDirectoryNotFound`.
pub open spec fn found<T>(r: Result<T, ErrorModel>) -> bool {
    r matches Err(m) ==> !error_realizes(not_found(), m)
}

/// The attributes of no image fail to read with `ImageFileDirectoryNotFound`.
proof fn lemma_image_found(dir: Map<u16, EntryModel>, ctx: ReadContext)
    ensures
        found(spec_image(dir, ctx)),
{
    assert forall|t: Tag| #[trigger] spec_find_tag(dir, t, ctx) != Err::<Option<ValueModel>, TiffError>(not_found()) by {
        lemma_tag_found(dir, t, ctx);
    }
    assert forall|m: ValueModel| #[trigger] model_into_u64_vec(m) matches Err(e) ==> !error_realizes(not_found(), e) by {
        lemma_lists_found(m);
    }
    assert forall|m: ValueModel| #[trigger] model_into_u8_vec(m) matches Err(e) ==> !error_realizes(not_found(), e) by {
        lemma_lists_found(m);
    }
    assert(found(spec_require_u32(dir, Tag::ImageWidth, ctx)));
    assert(found(spec_require_u32(dir, Tag::ImageLength, ctx)));
    assert(found(spec_photometric(dir, ctx)));
    assert(found(spec_compression(dir, ctx)));
    assert forall|cm: CompressionMethod| found(#[trigger] spec_jpeg_tables(dir, ctx, cm)) by {}
    assert(found(spec_samples(dir, ctx)));
    assert(found(spec_sample_format(dir, ctx)));
    assert forall|n: u16| found(#[trigger] spec_bits_per_sample(dir, ctx, n)) by {}
    assert(found(spec_predictor(dir, ctx)));
    assert(found(spec_planar(dir, ctx)));
    assert forall|w: u32, h: u32| found(#[trigger] spec_chunks(dir, ctx, w, h)) by {
        assert(found(spec_strips(dir, ctx, h)));
        assert(found(spec_tiles(dir, ctx, w, h)));
    }
    reveal(spec_image);
}

/// There are more images exactly where reading the next one does not fail
/// with `ImageFileDirectoryNotFound`: with no next directory it fails so,
/// and with one it never does.
pub proof fn lemma_more_images_exactly(s: DecoderModel)
    ensures
        s.next_ifd is None <==> (spec_next_image(s).1 matches Err(m) && error_realizes(not_found(), m)),
{
    if let Some(loc) = s.next_ifd {
        let count_size: int = if s.bigtiff { 8 } else { 2 };
        if let Some(num) = uint_at(s.file, loc as int, count_size, s.order) {
            lemma_entries_fail_at_eof(s.file, s.order, s.bigtiff, (loc + count_size) as nat, num, Map::empty());
        }
        if let Ok((dir, _)) = spec_read_ifd(s.file, s.order, s.bigtiff, loc) {
            lemma_image_found(dir, s.context());
        }
    }
}

/// A call on a decoder, as far as it changes the decoder's state: reading
/// in the next image (`next_image`, which `new` also makes once), moving on
/// to the next strip or tile (what `read_strip`, `read_tile` and
/// `read_strip_to_buffer` do where they succeed), setting the limits
/// (`with_limits`), or any other call, which keeps the state as it is.
pub enum Call {
    NextImage,
    NextChunk,
    SetLimits(Limits),
    Keep,
}

/// The state `s` after the call `c`.
pub open spec fn after_call(s: DecoderModel, c: Call) -> DecoderModel {
    match c {
        Call::NextImage => spec_next_image(s).0,
        Call::NextChunk => next_chunk(s),
        Call::SetLimits(limits) => DecoderModel { limits, ..s },
        Call::Keep => s,
    }
}

/// The state `s` after the calls `calls`, in turn.
pub open spec fn run(s: DecoderModel, calls: Seq<Call>) -> DecoderModel
    decreases calls.len(),
{
    if calls.len() == 0 {
        s
    } else {
        after_call(run(s, calls.drop_last()), calls.last())
    }
}

/// The offsets of the image file directories that the calls `calls`, made
/// in turn from the state `s`, read in.
pub open spec fn dirs_read(s: DecoderModel, calls: Seq<Call>) -> Seq<u64>
    decreases calls.len(),
{
    if calls.len() == 0 {
        Seq::empty()
    } else {
        let before = run(s, calls.drop_last());
        let earlier = dirs_read(s, calls.drop_last());
        if calls.last() is NextImage && before.next_ifd is Some {
            earlier.push(before.next_ifd->Some_0)
        } else {
            earlier
        }
    }
}

/// The byte order of a decoder is the one the file's first two bytes name,
/// "II" for little-endian and "MM" for big-endian, and no sequence of calls
/// on the decoder changes it.
pub proof fn lemma_byte_order_fixed(file: Seq<u8>, calls: Seq<Call>)
    ensures
        spec_new(file) matches Ok(m) ==> {
            &&& file[0] == 0x49 && file[1] == 0x49 ==> m.order == ByteOrder::LittleEndian
            &&& !(file[0] == 0x49 && file[1] == 0x49) ==> file[0] == 0x4d && file[1] == 0x4d
                && m.order == ByteOrder::BigEndian
            &&& run(m, calls).order == m.order
        },
{
    if let Ok((order, bigtiff, first)) = spec_header(file) {
        let s0 = spec_start(file, order, bigtiff, first);
        assert(spec_next_image(s0).0.order == order);
        if let Ok(m) = spec_new(file) {
            lemma_run_keeps_order(m, calls);
        }
    }
}

/// No sequence of calls changes the byte order.
proof fn lemma_run_keeps_order(s: DecoderModel, calls: Seq<Call>)
    ensures
        run(s, calls).order == s.order,
    decreases calls.len(),
{
    if calls.len() > 0 {
        lemma_run_keeps_order(s, calls.drop_last());
    }
}

/// What holds of the directories read over a decoder's life: none twice,
/// all of them seen, and the next one, where there is one, seen and not
/// read yet.
pub open spec fn dirs_fresh(s: DecoderModel, calls: Seq<Call>) -> bool {
    let t = run(s, calls);
    let read = dirs_read(s, calls);
    &&& read.no_duplicates()
    &&& forall|i: int| 0 <= i < read.len() ==> t.seen_ifds.contains(#[trigger] read[i])
    &&& t.next_ifd matches Some(n) ==> t.seen_ifds.contains(n) && !read.contains(n)
}

/// Reading in an image keeps every offset seen before among those seen.
proof fn lemma_next_image_keeps_seen(s: DecoderModel)
    ensures
        s.seen_ifds.subset_of(spec_next_image(s).0.seen_ifds),
{
}

/// `dirs_fresh` holds after any sequence of calls from a state whose next
/// directory, where there is one, was seen.
proof fn lemma_dirs_fresh(s: DecoderModel, calls: Seq<Call>)
    requires
        s.next_ifd matches Some(n) ==> s.seen_ifds.contains(n),
    ensures
        dirs_fresh(s, calls),
    decreases calls.len(),
{
    if calls.len() > 0 {
        let prev = calls.drop_last();
        lemma_dirs_fresh(s, prev);
        let t = run(s, prev);
        let read = dirs_read(s, prev);
        let c = calls.last();
        if c is NextImage && t.next_ifd is Some {
            let a = t.next_ifd->Some_0;
            let u = spec_next_image(t).0;
            lemma_next_image_keeps_seen(t);
            let read2 = read.push(a);
            assert(dirs_read(s, calls) == read2);
            assert(run(s, calls) == u);
            assert forall|i: int, j: int| 0 <= i < read2.len() && 0 <= j < read2.len() && i != j
                implies read2[i] != read2[j] by {
                if i < read.len() && j < read.len() {
                } else if i == read.len() {
                    assert(read.contains(read2[j]));
                } else {
                    assert(read.contains(read2[i]));
                }
            }
            assert forall|i: int| 0 <= i < read2.len() implies u.seen_ifds.contains(#[trigger] read2[i]) by {
                if i < read.len() {
                    assert(t.seen_ifds.contains(read[i]));
                }
            }
            if let Some(n) = u.next_ifd {
                assert(u.seen_ifds.contains(n));
                assert(!t.seen_ifds.contains(n));
                if read2.contains(n) {
                    let k = choose|k: int| 0 <= k < read2.len() && read2[k] == n;
                    assert(u.seen_ifds.contains(read2[k]));
                    if k < read.len() {
                        assert(t.seen_ifds.contains(read[k]));
                    }
                }
            }
        } else {
            assert(dirs_read(s, calls) == read);
            assert(run(s, calls).seen_ifds == t.seen_ifds);
            assert(run(s, calls).next_ifd == t.next_ifd);
        }
    }
}

/// Over a decoder's whole life, from the state `new` starts from on (the
/// decoder `new` returns is that state after one `NextImage`), no image
/// file directory is read in twice, whatever the calls made: the offsets of
/// the directories read are pairwise distinct.
pub proof fn lemma_dirs_read_once(file: Seq<u8>, calls: Seq<Call>)
    requires
        spec_header(file) is Ok,
    ensures
        ({
            let (order, bigtiff, first) = spec_header(file)->Ok_0;
            let s0 = spec_start(file, order, bigtiff, first);
            &&& spec_new(file) matches Ok(m) ==> m == run(s0, seq![Call::NextImage])
            &&& dirs_read(s0, calls).no_duplicates()
        }),
{
    let (order, bigtiff, first) = spec_header(file)->Ok_0;
    let s0 = spec_start(file, order, bigtiff, first);
    let one = seq![Call::NextImage];
    assert(one.drop_last() =~= Seq::<Call>::empty());
    assert(run(s0, one) == after_call(run(s0, one.drop_last()), one.last()));
    lemma_dirs_fresh(spec_start(file, order, bigtiff, first), calls);
}

/// A decoding result holds samples of the image's sample format, unsigned
/// where the image names none: unsigned integers for `Uint`, signed
/// integers for `Int`, floating point for `IEEEFP`. Integers take the
/// narrowest of 8, 16, 32 and 64 bits that holds the image's widest sample;
/// floating-point samples are exactly 32 or 64 bits wide.
pub proof fn lemma_result_kind_follows_format(img: ImageModel, limit: usize, width: usize, height: usize)
    ensures
        spec_result_buffer(img, limit, width, height) matches Ok((k, n)) ==> {
            let format = if img.sample_format.len() == 0 { SampleFormat::Uint } else { img.sample_format[0] };
            let bits = max_bits(img.bits_per_sample) as int;
            let unsigned = k == SampleKind::U8 || k == SampleKind::U16 || k == SampleKind::U32 || k == SampleKind::U64;
            let signed = k == SampleKind::I8 || k == SampleKind::I16 || k == SampleKind::I32 || k == SampleKind::I64;
            let float = k == SampleKind::F32 || k == SampleKind::F64;
            &&& unsigned <==> format == SampleFormat::Uint
            &&& signed <==> format == SampleFormat::Int
            &&& float <==> format == SampleFormat::IEEEFP
            &&& float ==> bits == kind_size(k) * 8
            &&& bits <= kind_size(k) * 8
            &&& kind_size(k) == 1 || kind_size(k) * 4 < bits
            &&& n == width * height * img.bits_per_sample.len()
        },
{
}

/// Reading in the next image with success starts on its first strip or
/// tile, its attributes those of the directory read, and the offset of
/// the directory after it the one that directory names.
pub proof fn lemma_next_image_starts_at_first_chunk(s: DecoderModel)
    ensures
        spec_next_image(s).1 is Ok ==> {
            let t = spec_next_image(s).0;
            let loc = s.next_ifd->Some_0;
            let (dir, next) = spec_read_ifd(s.file, s.order, s.bigtiff, loc)->Ok_0;
            &&& s.next_ifd is Some
            &&& spec_read_ifd(s.file, s.order, s.bigtiff, loc) is Ok
            &&& t.current_chunk == 0
            &&& t.next_ifd == next
            &&& spec_image(dir, s.context()) == Ok::<ImageModel, ErrorModel>(t.image)
        },
{
}

/// The header of a file names its byte order by its first two bytes, "II"
/// for little-endian and "MM" for big-endian; read in that order, a classic
/// file has 42 in bytes 2 and 3 and the offset of its first directory in
/// bytes 4 to 7, and a BigTIFF file has 43, then 8, then 0, and the offset
/// in bytes 8 to 15.
pub proof fn lemma_header_fields(file: Seq<u8>)
    ensures
        spec_header(file) matches Ok((bo, bigtiff, first)) ==> {
            &&& (file[0] == 0x49 && file[1] == 0x49 && bo == ByteOrder::LittleEndian)
                || (file[0] == 0x4d && file[1] == 0x4d && bo == ByteOrder::BigEndian)
            &&& !bigtiff ==> {
                &&& file.len() >= 8
                &&& uint_value(file.subrange(2, 4), bo) == 42
                &&& first == uint_value(file.subrange(4, 8), bo)
            }
            &&& bigtiff ==> {
                &&& file.len() >= 16
                &&& uint_value(file.subrange(2, 4), bo) == 43
                &&& uint_value(file.subrange(4, 6), bo) == 8
                &&& uint_value(file.subrange(6, 8), bo) == 0
                &&& first == uint_value(file.subrange(8, 16), bo)
            }
        },
{
    if file.len() >= 8 {
        lemma_value_4(file.subrange(4, 8));
    }
    if file.len() >= 16 {
        lemma_value_8(file.subrange(8, 16));
    }
}

/// A directory entry at `pos` holds, in the file's byte order, its tag in
/// two bytes, its type in the next two, then its count (four bytes, or
/// eight in a BigTIFF file) and its value field (four bytes, padded with
/// zeros, or eight in a BigTIFF file); reading it moves past all of it,
/// whether its type is known or not.
pub proof fn lemma_entry_fields(file: Seq<u8>, bo: ByteOrder, bigtiff: bool, pos: nat)
    ensures
        spec_read_entry(file, bo, bigtiff, pos) matches Ok((entry, next)) ==> {
            let p = pos as int;
            let ty = uint_value(file.subrange(p + 2, p + 4), bo);
            &&& next == (if bigtiff { p + 20 } else { p + 12 })
            &&& next <= file.len()
            &&& entry is None <==> Type::spec_from_u16(ty as u16) is None
            &&& entry matches Some((tag, e)) ==> {
                &&& tag == uint_value(file.subrange(p, p + 2), bo)
                &&& Type::spec_from_u16(ty as u16) == Some(e.field_type)
                &&& !bigtiff ==> e.count == uint_value(file.subrange(p + 4, p + 8), bo)
                    && e.field == file.subrange(p + 8, p + 12) + seq![0u8, 0u8, 0u8, 0u8]
                &&& bigtiff ==> e.count == uint_value(file.subrange(p + 4, p + 12), bo)
                    && e.field == file.subrange(p + 12, p + 20)
            }
        },
{
    let p = pos as int;
    if spec_read_entry(file, bo, bigtiff, pos) is Ok {
        lemma_value_2(file.subrange(p, p + 2));
        lemma_value_2(file.subrange(p + 2, p + 4));
        if p + 8 <= file.len() {
            lemma_value_4(file.subrange(p + 4, p + 8));
        }
        if p + 12 <= file.len() {
            lemma_value_8(file.subrange(p + 4, p + 12));
        }
    }
}

/// A count `n` exceeds the limit divided by the size `size` exactly where
/// `n` items of that size exceed the limit.
proof fn lemma_div_limit(n: nat, size: nat, limit: nat)
    requires
        size >= 1,
    ensures
        n > limit / size <==> n * size > limit,
{
    lemma_fundamental_div_mod(limit as int, size as int);
    let q = limit / size;
    if n > q {
        assert(n * size >= (q + 1) * size) by (nonlinear_arith)
            requires
                n >= q + 1,
                size >= 1,
        ;
        assert((q + 1) * size == size * q + size) by (nonlinear_arith);
    } else {
        assert(n * size <= q * size) by (nonlinear_arith)
            requires
                n <= q,
                size >= 1,
        ;
        assert(q * size == size * q) by (nonlinear_arith);
    }
}

/// With unlimited limits, a decoding result is refused for its size only
/// where its number of samples, or of bytes, cannot be counted in a `usize`.
pub proof fn lemma_unlimited_refuses_only_overflow(img: ImageModel, width: usize, height: usize)
    ensures
        spec_result_buffer(img, usize::MAX, width, height) == Err::<(SampleKind, nat), ErrorModel>(ErrorModel::Exact(TiffError::LimitsExceeded)) <==> {
            let n = img.bits_per_sample.len();
            let format = if img.sample_format.len() == 0 { SampleFormat::Uint } else { img.sample_format[0] };
            ||| width * height > usize::MAX
            ||| width * height * n > usize::MAX
            ||| spec_result_kind(format, max_bits(img.bits_per_sample)) matches Ok(k) && width * height * n * kind_size(k) > usize::MAX
        },
{
    let n = img.bits_per_sample.len();
    let format = if img.sample_format.len() == 0 { SampleFormat::Uint } else { img.sample_format[0] };
    if width * height <= usize::MAX && width * height * n <= usize::MAX {
        if spec_result_kind(format, max_bits(img.bits_per_sample)) is Ok {
            let k = spec_result_kind(format, max_bits(img.bits_per_sample))->Ok_0;
            lemma_div_limit((width * height * n) as nat, kind_size(k), usize::MAX as nat);
        }
    }
}

/// Expanding chunks in turn keeps the sample type and number of samples.
proof fn lemma_decode_chunks_shape(s: DecoderModel, k: SampleKind, buf: ResultModel, chunk: nat)
    ensures
        spec_decode_chunks(s, k, buf, chunk) matches Ok(m) ==> m.kind() == buf.kind() && m.len() == buf.len(),
    decreases s.image.chunk_offsets.len() - chunk,
{
    if chunk < s.image.chunk_offsets.len() {
        match spec_expand_chunk(s.image, k, chunk, s.file, s.image.chunk_offsets[chunk as int] as nat) {
            Err(_) => {},
            Ok(p) => {
                let start = chunk_start(s.image, chunk);
                let next = chunk_written(s, buf, chunk, p, start, s.image.width as nat);
                lemma_result_write_shape(
                    buf,
                    start as int,
                    p.rows as int,
                    (p.cols * p.samples) as int,
                    (s.image.width as nat * p.samples) as int,
                    p.op(buf.kind(), chunk_data(s, chunk, p), s.order),
                );
                lemma_decode_chunks_shape(s, k, next, chunk + 1);
            },
        }
    }
}

/// The samples a decoder hands out, for the whole image, a strip or a tile,
/// never take more bytes than the decoding buffer limit allows.
pub proof fn lemma_results_within_limit(s: DecoderModel)
    ensures
        spec_read_image(s) matches Ok(m) ==> m.len() * kind_size(m.kind()) <= s.limits.decoding_buffer_size,
        spec_read_strip(s) matches Ok(m) ==> m.len() * kind_size(m.kind()) <= s.limits.decoding_buffer_size,
        spec_read_tile(s) matches Ok(m) ==> m.len() * kind_size(m.kind()) <= s.limits.decoding_buffer_size,
{
    let dbs = s.limits.decoding_buffer_size;
    let img = s.image;
    let width = img.width as usize;
    let height = img.height as usize;
    if spec_result_buffer(img, dbs, width, height) is Ok {
        let (k, n) = spec_result_buffer(img, dbs, width, height)->Ok_0;
        lemma_within_limit(n, k, dbs);
        lemma_zeros_shape(k, n);
        lemma_decode_chunks_shape(s, k, zeros(k, n), 0);
    }
    if img.chunk_type == ChunkType::Strip {
        let sh = strip_height(img.height, img.strip_decoder.unwrap().rows_per_strip, s.current_chunk);
        if spec_result_buffer(img, dbs, width, sh) is Ok {
            let (k, n) = spec_result_buffer(img, dbs, width, sh)->Ok_0;
            lemma_within_limit(n, k, dbs);
            lemma_zeros_shape(k, n);
            if spec_read_chunk(s, k, s.current_chunk as nat) is Ok {
                let p = spec_read_chunk(s, k, s.current_chunk as nat)->Ok_0;
                lemma_result_write_shape(
                    zeros(k, n),
                    0,
                    p.rows as int,
                    (p.cols * p.samples) as int,
                    (width as nat * p.samples) as int,
                    p.op(k, chunk_data(s, s.current_chunk as nat, p), s.order),
                );
            }
        }
    }
    if img.chunk_type == ChunkType::Tile {
        let t = img.tile_attributes.unwrap();
        let pad = t.spec_get_padding(s.current_chunk as nat);
        let tw = (t.tile_width - pad.0) as usize;
        let tl = (t.tile_length - pad.1) as usize;
        if spec_result_buffer(img, dbs, tw, tl) is Ok {
            let (k, n) = spec_result_buffer(img, dbs, tw, tl)->Ok_0;
            lemma_within_limit(n, k, dbs);
            lemma_zeros_shape(k, n);
            if spec_read_chunk(s, k, s.current_chunk as nat) is Ok {
                let p = spec_read_chunk(s, k, s.current_chunk as nat)->Ok_0;
                lemma_result_write_shape(
                    zeros(k, n),
                    0,
                    p.rows as int,
                    (p.cols * p.samples) as int,
                    (tw as nat * p.samples) as int,
                    p.op(k, chunk_data(s, s.current_chunk as nat, p), s.order),
                );
            }
        }
    }
}


/// A position in a block of `rows` rows of `cols` pixels at column `x` and
/// row `y` of an image whose rows are `stride` samples long, `samples`
/// samples per pixel, lies in the block's rows and columns.
proof fn lemma_in_block(i: int, stride: int, samples: int, x: int, y: int, cols: int, rows: int)
    requires
        samples >= 1,
        x >= 0,
        y >= 0,
        cols >= 0,
        x * samples + cols * samples <= stride,
        in_rows(i, y * stride + x * samples, rows, cols * samples, stride),
    ensures
        y <= i / stride < y + rows,
        x * samples <= i % stride < x * samples + cols * samples,
{
    let start = y * stride + x * samples;
    let r = choose|r: int| 0 <= r < rows && row_base(start, r, stride) <= i < #[trigger] row_base(start, r, stride) + cols * samples;
    let t = i - row_base(start, r, stride);
    assert(i == (y + r) * stride + (x * samples + t)) by (nonlinear_arith)
        requires
            t == i - (y * stride + x * samples + r * stride),
    ;
    lemma_fundamental_div_mod_converse(i, stride, y + r, x * samples + t);
}

/// Two intervals of cells `size` apart, each within its cell, do not meet.
proof fn lemma_cells_apart(a: int, b: int, size: int, v: int, la: int, lb: int)
    requires
        a != b,
        a >= 0,
        b >= 0,
        0 <= la <= size,
        0 <= lb <= size,
    ensures
        !(a * size <= v < a * size + la && b * size <= v < b * size + lb),
{
    if a < b {
        assert(a * size + size <= b * size) by (nonlinear_arith)
            requires
                a < b,
                size >= 0,
        ;
    } else {
        assert(b * size + size <= a * size) by (nonlinear_arith)
            requires
                b < a,
                size >= 0,
        ;
    }
}

/// The samples of two chunks of a consistent image, where a decoding of the
/// whole image places them, do not overlap.
proof fn lemma_chunks_apart(img: ImageModel, j: nat, c: nat)
    requires
        img.wf(),
        j < img.chunk_offsets.len(),
        c < img.chunk_offsets.len(),
        j != c,
        img.bits_per_sample.len() >= 1,
    ensures
        spec_chunk_data_dimensions(img, j) matches Ok(dj) && spec_chunk_data_dimensions(img, c) matches Ok(dc) && {
            let s = img.bits_per_sample.len();
            let stride = img.width * s;
            forall|i: int| #[trigger] in_rows(i, chunk_start(img, j) as int, dj.1 as int, (dj.0 * s) as int, stride)
                ==> !in_rows(i, chunk_start(img, c) as int, dc.1 as int, (dc.0 * s) as int, stride)
        },
{
    lemma_chunk_within(img, j);
    lemma_chunk_within(img, c);
    lemma_chunk_start(img, j);
    lemma_chunk_start(img, c);
    let dj = spec_chunk_data_dimensions(img, j)->Ok_0;
    let dc = spec_chunk_data_dimensions(img, c)->Ok_0;
    let s = img.bits_per_sample.len() as int;
    let w = img.width as int;
    let stride = w * s;
    let cd = spec_chunk_dimensions(img);
    let cw = min_nat(cd.0, img.width as nat) as int;
    let ch = min_nat(cd.1, img.height as nat) as int;
    let across = chunks_across(img) as int;
    let qj = j as int / across;
    let mj = j as int % across;
    let qc = c as int / across;
    let mc = c as int % across;
    lemma_fundamental_div_mod(j as int, across);
    lemma_fundamental_div_mod(c as int, across);
    assert(qj >= 0 && qc >= 0) by (nonlinear_arith)
        requires
            j == across * qj + mj,
            c == across * qc + mc,
            0 <= mj < across,
            0 <= mc < across,
            j >= 0,
            c >= 0,
    ;
    assert(mj * cw * s + dj.0 * s <= stride && mc * cw * s + dc.0 * s <= stride) by (nonlinear_arith)
        requires
            mj * cw + dj.0 <= w,
            mc * cw + dc.0 <= w,
            stride == w * s,
            s >= 1,
    ;
    assert(mj * cw * s == (mj * cw) * s && mc * cw * s == (mc * cw) * s) by (nonlinear_arith);
    assert forall|i: int| #[trigger] in_rows(i, chunk_start(img, j) as int, dj.1 as int, (dj.0 * s) as int, stride)
        implies !in_rows(i, chunk_start(img, c) as int, dc.1 as int, (dc.0 * s) as int, stride) by {
        if in_rows(i, chunk_start(img, c) as int, dc.1 as int, (dc.0 * s) as int, stride) {
            lemma_in_block(i, stride, s, mj * cw, qj * ch, dj.0 as int, dj.1 as int);
            lemma_in_block(i, stride, s, mc * cw, qc * ch, dc.0 as int, dc.1 as int);
            if qj != qc {
                lemma_cells_apart(qj, qc, ch, i / stride, dj.1 as int, dc.1 as int);
            } else {
                assert(mj != mc);
                assert(dj.0 * s <= cw * s && dc.0 * s <= cw * s) by (nonlinear_arith)
                    requires
                        dj.0 <= cw,
                        dc.0 <= cw,
                        s >= 1,
                ;
                assert(mj * (cw * s) == mj * cw * s && mc * (cw * s) == mc * cw * s) by (nonlinear_arith);
                lemma_cells_apart(mj, mc, cw * s, i % stride, dj.0 * s, dc.0 * s);
            }
        }
    }
}


/// Whether the samples `m` hold, where a decoding of the whole image places
/// the chunk `chunk`, the chunk's expanded rows.
pub open spec fn chunk_in_place(s: DecoderModel, k: SampleKind, m: ResultModel, chunk: nat) -> bool {
    match spec_expand_chunk(s.image, k, chunk, s.file, s.image.chunk_offsets[chunk as int] as nat) {
        Err(_) => true,
        Ok(p) => res_rows_hold(
            m,
            chunk_start(s.image, chunk) as int,
            p.rows as int,
            (p.cols * p.samples) as int,
            (s.image.width * p.samples) as int,
            p.op(k, chunk_data(s, chunk, p), s.order),
        ),
    }
}

/// Expanding the chunks from `c` on, where it succeeds, expands each of
/// them and puts it in place, and keeps the chunks already in place there.
proof fn lemma_decode_chunks_place(s: DecoderModel, k: SampleKind, buf: ResultModel, c: nat)
    requires
        s.image.wf(),
        s.image.bits_per_sample.len() >= 1,
        buf.kind() == k,
        buf.len() == s.image.width * s.image.height * s.image.bits_per_sample.len(),
        c <= s.image.chunk_offsets.len(),
        spec_decode_chunks(s, k, buf, c) is Ok,
    ensures
        forall|j: nat| c <= j < s.image.chunk_offsets.len() ==> #[trigger] spec_expand_chunk(
            s.image,
            k,
            j,
            s.file,
            s.image.chunk_offsets[j as int] as nat,
        ) is Ok && chunk_in_place(s, k, spec_decode_chunks(s, k, buf, c)->Ok_0, j),
        forall|j: nat| j < c && #[trigger] chunk_in_place(s, k, buf, j) ==> chunk_in_place(s, k, spec_decode_chunks(s, k, buf, c)->Ok_0, j),
    decreases s.image.chunk_offsets.len() - c,
{
    let img = s.image;
    let count = img.chunk_offsets.len();
    if c < count {
        let p = spec_expand_chunk(img, k, c, s.file, img.chunk_offsets[c as int] as nat)->Ok_0;
        let start = chunk_start(img, c);
        let len = p.cols * p.samples;
        let stride = img.width * p.samples;
        let op = p.op(k, chunk_data(s, c, p), s.order);
        let next = chunk_written(s, buf, c, p, start, img.width as nat);
        lemma_chunk_start(img, c);
        lemma_result_write_shape(buf, start as int, p.rows as int, len as int, stride as int, op);
        lemma_result_write_holds(
            buf,
            start as int,
            p.rows as int,
            len as int,
            stride as int,
            chunk_data(s, c, p),
            p.row_step(k) as int,
            s.order,
            if p.predict { p.samples } else { 0 },
            p.invert,
        );
        assert(chunk_in_place(s, k, next, c));
        assert forall|j: nat| j < c && #[trigger] chunk_in_place(s, k, buf, j) implies chunk_in_place(s, k, next, j) by {
            if spec_expand_chunk(img, k, j, s.file, img.chunk_offsets[j as int] as nat) is Ok {
                let q = spec_expand_chunk(img, k, j, s.file, img.chunk_offsets[j as int] as nat)->Ok_0;
                lemma_chunk_start(img, j);
                lemma_chunks_apart(img, j, c);
                lemma_result_write_keeps(
                    buf,
                    start as int,
                    p.rows as int,
                    len as int,
                    stride as int,
                    op,
                    chunk_start(img, j) as int,
                    q.rows as int,
                    (q.cols * q.samples) as int,
                    (img.width * q.samples) as int,
                    q.op(k, chunk_data(s, j, q), s.order),
                );
            }
        }
        lemma_decode_chunks_place(s, k, next, c + 1);
    }
}

/// The state `s` with the next chunk to read set to `chunk`.
pub open spec fn at_chunk(s: DecoderModel, chunk: usize) -> DecoderModel {
    DecoderModel { current_chunk: chunk, ..s }
}

/// Decoding the whole image puts each strip or tile where it belongs: where
/// both succeed, row `r` of the chunk `chunk` as `read_strip` or `read_tile`
/// gives it stands in the whole image at the chunk's place.
pub proof fn lemma_image_holds_chunks(s: DecoderModel, chunk: usize, r: int)
    requires
        s.image.wf(),
        chunk < s.image.chunk_offsets.len(),
        spec_read_image(s) is Ok,
        s.image.chunk_type == ChunkType::Strip ==> spec_read_strip(at_chunk(s, chunk)) is Ok,
        s.image.chunk_type == ChunkType::Tile ==> spec_read_tile(at_chunk(s, chunk)) is Ok,
        0 <= r < spec_chunk_data_dimensions(s.image, chunk as nat)->Ok_0.1,
    ensures
        ({
            let part = if s.image.chunk_type == ChunkType::Strip {
                spec_read_strip(at_chunk(s, chunk))->Ok_0
            } else {
                spec_read_tile(at_chunk(s, chunk))->Ok_0
            };
            let len = spec_chunk_data_dimensions(s.image, chunk as nat)->Ok_0.0 * s.image.bits_per_sample.len();
            let stride = s.image.width * s.image.bits_per_sample.len();
            res_slice(spec_read_image(s)->Ok_0, chunk_start(s.image, chunk as nat) + r * stride, len as int)
                == res_slice(part, r * len, len as int)
        }),
{
    let img = s.image;
    let w = img.width as usize;
    let h = img.height as usize;
    let dbs = s.limits.decoding_buffer_size;
    let (k, n) = spec_result_buffer(img, dbs, w, h)->Ok_0;
    let full = spec_read_image(s)->Ok_0;
    let spp = img.bits_per_sample.len();
    assert(spp >= 1);
    lemma_zeros_shape(k, n);
    lemma_decode_chunks_place(s, k, zeros(k, n), 0);
    lemma_decode_chunks_shape(s, k, zeros(k, n), 0);
    let p = spec_expand_chunk(img, k, chunk as nat, s.file, img.chunk_offsets[chunk as int] as nat)->Ok_0;
    assert(chunk_in_place(s, k, full, chunk as nat));
    let sj = at_chunk(s, chunk);
    let len = p.cols * p.samples;
    let op = p.op(k, chunk_data(s, chunk as nat, p), s.order);
    assert(chunk_data(sj, chunk as nat, p) == chunk_data(s, chunk as nat, p));
    lemma_chunk_within(img, chunk as nat);
    if img.chunk_type == ChunkType::Strip {
        let sh = strip_height(img.height, img.strip_decoder.unwrap().rows_per_strip, chunk);
        let (k2, n2) = spec_result_buffer(img, dbs, w, sh)->Ok_0;
        assert(k2 == k);
        assert(spec_read_chunk(sj, k, chunk as nat) == Ok::<ChunkPlan, ErrorModel>(p));
        assert(p.rows == sh);
        lemma_zeros_shape(k, n2);
        lemma_block_fits(w as int, sh as int, spp as int, 0, 0, w as int, sh as int);
        assert(0 * (w as int) * (spp as int) + 0 * (spp as int) == 0);
        lemma_result_write_shape(zeros(k, n2), 0, p.rows as int, len as int, len as int, op);
        lemma_result_write_holds(
            zeros(k, n2),
            0,
            p.rows as int,
            len as int,
            len as int,
            chunk_data(s, chunk as nat, p),
            p.row_step(k) as int,
            s.order,
            if p.predict { p.samples } else { 0 },
            p.invert,
        );
        lemma_rows_hold_agree(full, spec_read_strip(sj)->Ok_0, chunk_start(img, chunk as nat) as int, p.rows as int, len as int, (img.width * spp) as int, op, r);
    } else {
        let t = img.tile_attributes.unwrap();
        let pad = t.spec_get_padding(chunk as nat);
        let tw = (t.tile_width - pad.0) as usize;
        let tl = (t.tile_length - pad.1) as usize;
        let (k2, n2) = spec_result_buffer(img, dbs, tw, tl)->Ok_0;
        assert(k2 == k);
        assert(spec_read_chunk(sj, k, chunk as nat) == Ok::<ChunkPlan, ErrorModel>(p));
        lemma_zeros_shape(k, n2);
        lemma_block_fits(tw as int, tl as int, spp as int, 0, 0, tw as int, tl as int);
        assert(0 * (tw as int) * (spp as int) + 0 * (spp as int) == 0);
        lemma_result_write_shape(zeros(k, n2), 0, p.rows as int, len as int, len as int, op);
        lemma_result_write_holds(
            zeros(k, n2),
            0,
            p.rows as int,
            len as int,
            len as int,
            chunk_data(s, chunk as nat, p),
            p.row_step(k) as int,
            s.order,
            if p.predict { p.samples } else { 0 },
            p.invert,
        );
        lemma_rows_hold_agree(full, spec_read_tile(sj)->Ok_0, chunk_start(img, chunk as nat) as int, p.rows as int, len as int, (img.width * spp) as int, op, r);
    }
}


/// The chunks of a consistent image make up a decoding of the whole image:
/// each of its samples lies in the rows of exactly one chunk, where the
/// decoding places the chunk.
pub proof fn lemma_chunks_make_up_image(img: ImageModel, i: int) -> (j: nat)
    requires
        img.wf(),
        img.bits_per_sample.len() >= 1,
        0 <= i < img.width * img.height * img.bits_per_sample.len(),
    ensures
        j < img.chunk_offsets.len(),
        spec_chunk_data_dimensions(img, j) matches Ok(d) && in_rows(
            i,
            chunk_start(img, j) as int,
            d.1 as int,
            (d.0 * img.bits_per_sample.len()) as int,
            (img.width * img.bits_per_sample.len()) as int,
        ),
        forall|c: nat| c < img.chunk_offsets.len() && c != j ==> !#[trigger] in_rows(
            i,
            chunk_start(img, c) as int,
            spec_chunk_data_dimensions(img, c)->Ok_0.1 as int,
            (spec_chunk_data_dimensions(img, c)->Ok_0.0 * img.bits_per_sample.len()) as int,
            (img.width * img.bits_per_sample.len()) as int,
        ),
{
    let s = img.bits_per_sample.len() as int;
    let w = img.width as int;
    let h = img.height as int;
    let stride = w * s;
    assert(stride >= 1) by (nonlinear_arith)
        requires
            stride == w * s,
            w >= 1,
            s >= 1,
    ;
    let py = i / stride;
    let q = i % stride;
    lemma_fundamental_div_mod(i, stride);
    let px = q / s;
    let cc = q % s;
    lemma_fundamental_div_mod(q, s);
    assert(0 <= py < h) by (nonlinear_arith)
        requires
            i == stride * py + q,
            0 <= q < stride,
            0 <= i < w * h * s,
            stride == w * s,
            stride >= 1,
    ;
    assert(0 <= px < w) by (nonlinear_arith)
        requires
            q == s * px + cc,
            0 <= cc < s,
            0 <= q < stride,
            stride == w * s,
            s >= 1,
    ;
    let j = lemma_chunk_of_pixel(img, px, py);
    lemma_chunk_start(img, j);
    let d = spec_chunk_data_dimensions(img, j)->Ok_0;
    let x = chunk_x(img, j) as int;
    let y = chunk_y(img, j) as int;
    let r = py - y;
    let base = row_base(chunk_start(img, j) as int, r, stride);
    assert(base == py * stride + x * s) by (nonlinear_arith)
        requires
            base == chunk_start(img, j) + r * stride,
            chunk_start(img, j) == y * stride + x * s,
            r == py - y,
    ;
    assert(base <= i < base + d.0 * s) by (nonlinear_arith)
        requires
            base == py * stride + x * s,
            i == stride * py + q,
            q == s * px + cc,
            0 <= cc < s,
            x <= px < x + d.0,
    ;
    assert(in_rows(i, chunk_start(img, j) as int, d.1 as int, (d.0 * s) as int, stride));
    assert forall|c: nat| c < img.chunk_offsets.len() && c != j implies !#[trigger] in_rows(
        i,
        chunk_start(img, c) as int,
        spec_chunk_data_dimensions(img, c)->Ok_0.1 as int,
        (spec_chunk_data_dimensions(img, c)->Ok_0.0 * s) as int,
        stride,
    ) by {
        lemma_chunks_apart(img, j, c);
    }
    j
}

} // verus!
