use lib::decoder::{ChunkType, Decoder, Limits};
use lib::error::{ColorType, TiffError, TiffFormatError, TiffUnsupportedError, UsageError};
use lib::result::DecodingResult;
use lib::stream::{ByteOrder, IoError};
use lib::ifd::Value;
use lib::tags::{CompressionMethod, Tag};

/// The value of an entry of an image file directory.
enum V {
    Short(Vec<u16>),
    Long(Vec<u32>),
    Ascii(&'static str),
}

fn put16(out: &mut Vec<u8>, le: bool, v: u16) {
    if le {
        out.extend_from_slice(&v.to_le_bytes());
    } else {
        out.extend_from_slice(&v.to_be_bytes());
    }
}

fn put32(out: &mut Vec<u8>, le: bool, v: u32) {
    if le {
        out.extend_from_slice(&v.to_le_bytes());
    } else {
        out.extend_from_slice(&v.to_be_bytes());
    }
}

fn encode(le: bool, v: &V) -> (u16, u32, Vec<u8>) {
    let mut b = Vec::new();
    match v {
        V::Short(xs) => {
            for x in xs {
                put16(&mut b, le, *x);
            }
            (3, xs.len() as u32, b)
        }
        V::Long(xs) => {
            for x in xs {
                put32(&mut b, le, *x);
            }
            (4, xs.len() as u32, b)
        }
        V::Ascii(s) => {
            b.extend_from_slice(s.as_bytes());
            b.push(0);
            (2, b.len() as u32, b)
        }
    }
}

/// Appends a directory with the entries at the end of `out`, pointing to
/// `next` as the directory that follows; returns its offset.
fn put_ifd(out: &mut Vec<u8>, le: bool, entries: &[(u16, V)], next: u32) -> u32 {
    if out.len() % 2 == 1 {
        out.push(0);
    }
    let start = out.len() as u32;
    let extra_start = start + 2 + 12 * entries.len() as u32 + 4;
    let mut extra: Vec<u8> = Vec::new();
    put16(out, le, entries.len() as u16);
    for (tag, v) in entries {
        let (typ, count, bytes) = encode(le, v);
        put16(out, le, *tag);
        put16(out, le, typ);
        put32(out, le, count);
        if bytes.len() <= 4 {
            let mut field = bytes.clone();
            field.resize(4, 0);
            out.extend_from_slice(&field);
        } else {
            put32(out, le, extra_start + extra.len() as u32);
            extra.extend_from_slice(&bytes);
            if extra.len() % 2 == 1 {
                extra.push(0);
            }
        }
    }
    put32(out, le, next);
    out.extend_from_slice(&extra);
    start
}

/// A file with the header, then `data` from offset 8 on, then one directory.
fn tiff(le: bool, data: &[u8], entries: &[(u16, V)]) -> Vec<u8> {
    let mut out = Vec::new();
    if le {
        out.extend_from_slice(b"II");
    } else {
        out.extend_from_slice(b"MM");
    }
    put16(&mut out, le, 42);
    put32(&mut out, le, 0);
    out.extend_from_slice(data);
    let ifd = put_ifd(&mut out, le, entries, 0);
    let off = if le { ifd.to_le_bytes() } else { ifd.to_be_bytes() };
    out[4..8].copy_from_slice(&off);
    out
}

/// The entries of an uncompressed grayscale image of one strip at offset 8.
fn gray_entries(width: u32, height: u32, bits: u16, bytes: u32, photometric: u16, predictor: u16) -> Vec<(u16, V)> {
    vec![
        (256, V::Long(vec![width])),
        (257, V::Long(vec![height])),
        (258, V::Short(vec![bits])),
        (259, V::Short(vec![1])),
        (262, V::Short(vec![photometric])),
        (273, V::Long(vec![8])),
        (277, V::Short(vec![1])),
        (278, V::Long(vec![height])),
        (279, V::Long(vec![bytes])),
        (317, V::Short(vec![predictor])),
    ]
}

fn gray8(width: u32, height: u32, data: &[u8]) -> Vec<u8> {
    tiff(true, data, &gray_entries(width, height, 8, data.len() as u32, 1, 1))
}

fn u8_samples(r: Result<DecodingResult, TiffError>) -> Vec<u8> {
    match r {
        Ok(DecodingResult::U8(v)) => v,
        other => panic!("expected bytes, got {:?}", other),
    }
}

fn u16_samples(r: Result<DecodingResult, TiffError>) -> Vec<u16> {
    match r {
        Ok(DecodingResult::U16(v)) => v,
        other => panic!("expected 16-bit samples, got {:?}", other),
    }
}

fn err<T: std::fmt::Debug>(r: Result<T, TiffError>) -> TiffError {
    match r {
        Err(e) => e,
        Ok(v) => panic!("expected an error, got {:?}", v),
    }
}

#[test]
fn new_rejects_missing_signature() {
    assert_eq!(err(Decoder::new(vec![])), TiffError::FormatError(TiffFormatError::TiffSignatureNotFound));
    assert_eq!(
        err(Decoder::new(b"XX\x2a\x00\x08\x00\x00\x00".to_vec())),
        TiffError::FormatError(TiffFormatError::TiffSignatureNotFound)
    );
    assert_eq!(err(Decoder::new(b"IM".to_vec())), TiffError::FormatError(TiffFormatError::TiffSignatureNotFound));
}

#[test]
fn new_rejects_wrong_version() {
    assert_eq!(
        err(Decoder::new(b"II\x29\x00\x08\x00\x00\x00".to_vec())),
        TiffError::FormatError(TiffFormatError::TiffSignatureInvalid)
    );
}

#[test]
fn new_reports_truncated_header() {
    assert_eq!(err(Decoder::new(b"II".to_vec())), TiffError::IoError(IoError::UnexpectedEof));
    assert_eq!(err(Decoder::new(b"MM\x00\x2a\x00".to_vec())), TiffError::IoError(IoError::UnexpectedEof));
}

#[test]
fn new_rejects_bigtiff_with_wrong_offset_size() {
    assert_eq!(
        err(Decoder::new(b"II\x2b\x00\x04\x00\x00\x00".to_vec())),
        TiffError::FormatError(TiffFormatError::TiffSignatureNotFound)
    );
    assert_eq!(
        err(Decoder::new(b"II\x2b\x00\x08\x00\x01\x00".to_vec())),
        TiffError::FormatError(TiffFormatError::TiffSignatureNotFound)
    );
}

#[test]
fn reads_gray8_image() {
    let file = gray8(4, 2, &[1, 2, 3, 4, 5, 6, 7, 8]);
    let mut d = Decoder::new(file).unwrap();
    assert_eq!(d.dimensions().unwrap(), (4, 2));
    assert_eq!(d.colortype().unwrap(), ColorType::Gray(8));
    assert_eq!(d.byte_order(), ByteOrder::LittleEndian);
    assert_eq!(d.get_chunk_type(), ChunkType::Strip);
    assert_eq!(d.strip_count().unwrap(), 1);
    assert!(!d.more_images());
    assert_eq!(u8_samples(d.read_image()), vec![1, 2, 3, 4, 5, 6, 7, 8]);
    assert_eq!(u8_samples(d.read_jpeg()), vec![1, 2, 3, 4, 5, 6, 7, 8]);
}

#[test]
fn reads_gray16_in_either_byte_order() {
    let data = [0x01, 0x02, 0x03, 0x04];
    let le = tiff(true, &data, &gray_entries(2, 1, 16, 4, 1, 1));
    let be = tiff(false, &data, &gray_entries(2, 1, 16, 4, 1, 1));
    let mut dl = Decoder::new(le).unwrap();
    let mut db = Decoder::new(be).unwrap();
    assert_eq!(db.byte_order(), ByteOrder::BigEndian);
    assert_eq!(u16_samples(dl.read_image()), vec![0x0201, 0x0403]);
    assert_eq!(u16_samples(db.read_image()), vec![0x0102, 0x0304]);
}

#[test]
fn white_is_zero_is_inverted() {
    let file = tiff(true, &[0, 10, 200, 255], &gray_entries(4, 1, 8, 4, 0, 1));
    let mut d = Decoder::new(file).unwrap();
    assert_eq!(u8_samples(d.read_image()), vec![255, 245, 55, 0]);
}

#[test]
fn white_is_zero_16_bit_is_inverted() {
    let file = tiff(true, &[0x00, 0x00, 0x34, 0x12], &gray_entries(2, 1, 16, 4, 0, 1));
    let mut d = Decoder::new(file).unwrap();
    assert_eq!(u16_samples(d.read_image()), vec![0xffff, 0xffff - 0x1234]);
}

#[test]
fn horizontal_predictor_is_undone() {
    let file = tiff(true, &[1, 1, 1, 1, 200, 100, 0, 1], &gray_entries(4, 2, 8, 8, 1, 2));
    let mut d = Decoder::new(file).unwrap();
    assert_eq!(u8_samples(d.read_image()), vec![1, 2, 3, 4, 200, 44, 44, 45]);
}

#[test]
fn horizontal_predictor_works_per_sample_of_rgb() {
    let entries = vec![
        (256, V::Long(vec![2])),
        (257, V::Long(vec![1])),
        (258, V::Short(vec![8, 8, 8])),
        (259, V::Short(vec![1])),
        (262, V::Short(vec![2])),
        (273, V::Long(vec![8])),
        (277, V::Short(vec![3])),
        (278, V::Long(vec![1])),
        (279, V::Long(vec![6])),
        (317, V::Short(vec![2])),
    ];
    let file = tiff(true, &[10, 20, 30, 1, 2, 3], &entries);
    let mut d = Decoder::new(file).unwrap();
    assert_eq!(d.colortype().unwrap(), ColorType::RGB(8));
    assert_eq!(d.get_tag_u16_vec(Tag::BitsPerSample).unwrap(), vec![8, 8, 8]);
    assert_eq!(u8_samples(d.read_image()), vec![10, 20, 30, 11, 22, 33]);
}

/// A 4 by 3 grayscale image in two strips of two rows.
fn two_strips() -> Vec<u8> {
    let data: Vec<u8> = (1..=12).collect();
    let entries = vec![
        (256, V::Long(vec![4])),
        (257, V::Long(vec![3])),
        (258, V::Short(vec![8])),
        (259, V::Short(vec![1])),
        (262, V::Short(vec![1])),
        (273, V::Long(vec![8, 16])),
        (277, V::Short(vec![1])),
        (278, V::Long(vec![2])),
        (279, V::Long(vec![8, 4])),
    ];
    tiff(true, &data, &entries)
}

#[test]
fn reads_strips_in_turn() {
    let mut d = Decoder::new(two_strips()).unwrap();
    assert_eq!(d.strip_count().unwrap(), 2);
    assert_eq!(d.get_tag_u32_vec(Tag::StripOffsets).unwrap(), vec![8, 16]);
    assert_eq!(u8_samples(d.read_strip()), vec![1, 2, 3, 4, 5, 6, 7, 8]);
    assert_eq!(u8_samples(d.read_strip()), vec![9, 10, 11, 12]);
}

#[test]
fn whole_image_is_the_strips_stacked() {
    let mut whole = Decoder::new(two_strips()).unwrap();
    let image = u8_samples(whole.read_image());
    let mut strips = Decoder::new(two_strips()).unwrap();
    let mut stacked = u8_samples(strips.read_strip());
    stacked.extend(u8_samples(strips.read_strip()));
    assert_eq!(image, stacked);
}

#[test]
fn read_strip_to_buffer_fills_from_start() {
    let mut d = Decoder::new(two_strips()).unwrap();
    let mut buffer = DecodingResult::U8(vec![0; 14]);
    d.read_strip_to_buffer(&mut buffer, 2).unwrap();
    match buffer {
        DecodingResult::U8(v) => assert_eq!(v, vec![0, 0, 1, 2, 3, 4, 5, 6, 7, 8, 0, 0, 0, 0]),
        other => panic!("unexpected {:?}", other),
    }
}

#[test]
fn reading_tiles_on_strips_is_a_usage_error() {
    let mut d = Decoder::new(two_strips()).unwrap();
    assert_eq!(
        err(d.read_tile()),
        TiffError::UsageError(UsageError::InvalidChunkType(ChunkType::Tile, ChunkType::Strip))
    );
    assert_eq!(
        err(d.tile_count()),
        TiffError::UsageError(UsageError::InvalidChunkType(ChunkType::Tile, ChunkType::Strip))
    );
}

/// A 3 by 3 grayscale image in four tiles of 2 by 2, padded at the right
/// and the bottom.
fn four_tiles() -> Vec<u8> {
    let data: Vec<u8> = vec![
        1, 2, 4, 5, // tile 0: rows 0 and 1, columns 0 and 1
        3, 0, 6, 0, // tile 1: column 2, padded
        7, 8, 0, 0, // tile 2: row 2, padded
        9, 0, 0, 0, // tile 3
    ];
    let entries = vec![
        (256, V::Long(vec![3])),
        (257, V::Long(vec![3])),
        (258, V::Short(vec![8])),
        (259, V::Short(vec![1])),
        (262, V::Short(vec![1])),
        (277, V::Short(vec![1])),
        (322, V::Long(vec![2])),
        (323, V::Long(vec![2])),
        (324, V::Long(vec![8, 12, 16, 20])),
        (325, V::Long(vec![4, 4, 4, 4])),
    ];
    tiff(true, &data, &entries)
}

#[test]
fn reads_tiles_without_padding() {
    let mut d = Decoder::new(four_tiles()).unwrap();
    assert_eq!(d.get_chunk_type(), ChunkType::Tile);
    assert_eq!(d.tile_count().unwrap(), 4);
    assert_eq!(u8_samples(d.read_tile()), vec![1, 2, 4, 5]);
    assert_eq!(u8_samples(d.read_tile()), vec![3, 6]);
    assert_eq!(u8_samples(d.read_tile()), vec![7, 8]);
    assert_eq!(u8_samples(d.read_tile()), vec![9]);
}

#[test]
fn whole_tiled_image_is_assembled() {
    let mut d = Decoder::new(four_tiles()).unwrap();
    assert_eq!(u8_samples(d.read_image()), vec![1, 2, 3, 4, 5, 6, 7, 8, 9]);
}

#[test]
fn strip_count_on_tiles_is_a_usage_error() {
    let mut d = Decoder::new(four_tiles()).unwrap();
    assert_eq!(
        err(d.strip_count()),
        TiffError::UsageError(UsageError::InvalidChunkType(ChunkType::Strip, ChunkType::Tile))
    );
}

#[test]
fn unsupported_compression_is_reported() {
    let mut entries = gray_entries(2, 1, 8, 2, 1, 1);
    entries[3] = (259, V::Short(vec![5]));
    let mut d = Decoder::new(tiff(true, &[1, 2], &entries)).unwrap();
    assert_eq!(
        err(d.read_image()),
        TiffError::UnsupportedError(TiffUnsupportedError::UnsupportedCompressionMethod(CompressionMethod::LZW))
    );
}

#[test]
fn short_strip_is_an_unexpected_eof() {
    let file = tiff(true, &[1, 2, 3], &gray_entries(4, 1, 8, 3, 1, 1));
    let mut d = Decoder::new(file).unwrap();
    assert_eq!(err(d.read_image()), TiffError::IoError(IoError::UnexpectedEof));
}

#[test]
fn decoding_buffer_limit_is_kept() {
    let d = Decoder::new(gray8(4, 2, &[1, 2, 3, 4, 5, 6, 7, 8])).unwrap();
    let mut limits = Limits::default();
    limits.decoding_buffer_size = 8;
    let mut exact = d.with_limits(limits.clone());
    assert_eq!(u8_samples(exact.read_image()).len(), 8);
    limits.decoding_buffer_size = 7;
    let mut small = exact.with_limits(limits);
    assert_eq!(err(small.read_image()), TiffError::LimitsExceeded);
}

#[test]
fn unlimited_limits_are_the_largest() {
    let l = Limits::unlimited();
    assert_eq!(l.decoding_buffer_size, usize::MAX);
    assert_eq!(l.ifd_value_size, usize::MAX);
    assert_eq!(l.intermediate_buffer_size, usize::MAX);
    let d = Limits::default();
    assert_eq!(d.decoding_buffer_size, 256 * 1024 * 1024);
    assert_eq!(d.intermediate_buffer_size, 128 * 1024 * 1024);
    assert_eq!(d.ifd_value_size, 1024 * 1024);
}

#[test]
fn signed_samples_are_decoded() {
    let mut entries = gray_entries(2, 1, 16, 4, 1, 1);
    entries.push((339, V::Short(vec![2])));
    let mut d = Decoder::new(tiff(true, &[0xff, 0xff, 0x02, 0x00], &entries)).unwrap();
    match d.read_image() {
        Ok(DecodingResult::I16(v)) => assert_eq!(v, vec![-1, 2]),
        other => panic!("unexpected {:?}", other),
    }
}

#[test]
fn float_samples_are_kept_as_bits() {
    let mut entries = gray_entries(1, 1, 32, 4, 1, 1);
    entries.push((339, V::Short(vec![3])));
    let bits = 1.5f32.to_bits().to_le_bytes();
    let mut d = Decoder::new(tiff(true, &bits, &entries)).unwrap();
    match d.read_image() {
        Ok(DecodingResult::F32(v)) => assert_eq!(v, vec![1.5f32.to_bits()]),
        other => panic!("unexpected {:?}", other),
    }
}

#[test]
fn unsupported_bits_per_channel() {
    let mut d = Decoder::new(tiff(true, &[0; 4], &gray_entries(1, 1, 24, 4, 1, 1))).unwrap();
    assert_eq!(
        err(d.read_image()),
        TiffError::UnsupportedError(TiffUnsupportedError::UnsupportedColorType(ColorType::Gray(24)))
    );
    let mut entries = gray_entries(1, 1, 16, 4, 1, 1);
    entries.push((339, V::Short(vec![3])));
    let mut f = Decoder::new(tiff(true, &[0; 4], &entries)).unwrap();
    assert_eq!(
        err(f.read_image()),
        TiffError::UnsupportedError(TiffUnsupportedError::UnsupportedBitsPerChannel(16))
    );
}

#[test]
fn tags_are_found() {
    let mut entries = gray_entries(4, 2, 8, 8, 1, 1);
    entries.push((270, V::Ascii("hello")));
    let mut d = Decoder::new(tiff(true, &[0; 8], &entries)).unwrap();
    assert_eq!(d.get_tag_ascii_string(Tag::ImageDescription).unwrap(), "hello");
    assert_eq!(d.get_tag_u32(Tag::ImageWidth).unwrap(), 4);
    assert_eq!(d.get_tag_u64(Tag::ImageLength).unwrap(), 2);
    assert_eq!(d.get_tag_u32_vec(Tag::BitsPerSample).unwrap(), vec![8]);
    assert_eq!(
        err(d.get_tag_u16_vec(Tag::BitsPerSample)),
        TiffError::FormatError(TiffFormatError::UnsignedIntegerExpected(Value::Unsigned(8)))
    );
    assert_eq!(d.get_tag_u64_vec(Tag::StripByteCounts).unwrap(), vec![8]);
    assert_eq!(
        err(d.get_tag_u8_vec(Tag::Compression)),
        TiffError::FormatError(TiffFormatError::UnsignedIntegerExpected(Value::Unsigned(1)))
    );
    assert_eq!(d.find_tag_unsigned::<u16>(Tag::Predictor).unwrap(), Some(1));
    assert_eq!(d.find_tag_unsigned_vec::<u32>(Tag::StripOffsets).unwrap(), Some(vec![8]));
    assert_eq!(d.get_tag_unsigned::<u8>(Tag::SamplesPerPixel).unwrap(), 1);
    assert!(d.find_tag(Tag::Artist).unwrap().is_none());
    assert_eq!(
        err(d.get_tag(Tag::Artist)),
        TiffError::FormatError(TiffFormatError::RequiredTagNotFound(Tag::Artist))
    );
}

#[test]
fn values_too_large_for_the_type_are_refused() {
    let mut d = Decoder::new(gray8(300, 1, &[0; 300])).unwrap();
    assert_eq!(
        err(d.get_tag_unsigned::<u8>(Tag::ImageWidth)),
        TiffError::FormatError(TiffFormatError::InvalidTagValueType(Tag::ImageWidth))
    );
    assert_eq!(d.get_tag_unsigned::<u16>(Tag::ImageWidth).unwrap(), 300);
}

#[test]
fn raw_reads_follow_the_byte_order() {
    let mut le = Decoder::new(gray8(4, 1, &[0x01, 0x02, 0x03, 0x04])).unwrap();
    le.goto_offset(8).unwrap();
    assert_eq!(le.read_short().unwrap(), 0x0201);
    assert_eq!(le.read_byte().unwrap(), 0x03);
    le.goto_offset(8).unwrap();
    assert_eq!(le.read_long().unwrap(), 0x04030201);
    let mut be = Decoder::new(tiff(false, &[0x01, 0x02, 0x03, 0x04], &gray_entries(4, 1, 8, 4, 1, 1))).unwrap();
    be.goto_offset(8).unwrap();
    assert_eq!(be.read_short().unwrap(), 0x0102);
    assert_eq!(be.read_sshort().unwrap(), 0x0304);
    be.goto_offset(0).unwrap();
    assert_eq!(be.read_string(2).unwrap(), "MM");
    be.goto_offset(1_000_000).unwrap();
    assert_eq!(be.read_byte(), Err(IoError::UnexpectedEof));
}

#[test]
fn ifd_offset_of_a_plain_file_is_four_bytes() {
    let mut d = Decoder::new(gray8(1, 1, &[0])).unwrap();
    d.goto_offset(4).unwrap();
    let first = d.read_ifd_offset().unwrap();
    assert!(first > 8);
}

/// A file with two images of one gray byte each.
fn two_images() -> Vec<u8> {
    let mut out = Vec::new();
    out.extend_from_slice(b"II");
    put16(&mut out, true, 42);
    put32(&mut out, true, 0);
    out.extend_from_slice(&[7, 9]);
    let second = put_ifd(&mut out, true, &gray_entries_at(1, 1, 9), 0);
    let first = put_ifd(&mut out, true, &gray_entries_at(1, 1, 8), second);
    out[4..8].copy_from_slice(&first.to_le_bytes());
    out
}

fn gray_entries_at(width: u32, height: u32, offset: u32) -> Vec<(u16, V)> {
    vec![
        (256, V::Long(vec![width])),
        (257, V::Long(vec![height])),
        (258, V::Short(vec![8])),
        (259, V::Short(vec![1])),
        (262, V::Short(vec![1])),
        (273, V::Long(vec![offset])),
        (277, V::Short(vec![1])),
        (279, V::Long(vec![width * height])),
    ]
}

#[test]
fn reads_images_in_turn() {
    let mut d = Decoder::new(two_images()).unwrap();
    assert!(d.more_images());
    assert_eq!(u8_samples(d.read_image()), vec![7]);
    d.next_image().unwrap();
    assert!(!d.more_images());
    assert_eq!(u8_samples(d.read_image()), vec![9]);
    assert_eq!(
        err(d.next_image()),
        TiffError::FormatError(TiffFormatError::ImageFileDirectoryNotFound)
    );
}

#[test]
fn a_directory_pointing_to_itself_is_a_cycle() {
    let mut out = Vec::new();
    out.extend_from_slice(b"II");
    put16(&mut out, true, 42);
    put32(&mut out, true, 8);
    let first = put_ifd(&mut out, true, &gray_entries_at(1, 1, 0), 8);
    assert_eq!(first, 8);
    assert_eq!(err(Decoder::new(out)), TiffError::FormatError(TiffFormatError::CycleInOffsets));
}

#[test]
fn missing_directory_is_an_unexpected_eof() {
    assert_eq!(
        err(Decoder::new(b"II\x2a\x00\x00\x01\x00\x00".to_vec())),
        TiffError::IoError(IoError::UnexpectedEof)
    );
}

#[test]
fn zero_width_is_invalid() {
    let file = tiff(true, &[0], &gray_entries(0, 1, 8, 1, 1, 1));
    assert_eq!(err(Decoder::new(file)), TiffError::FormatError(TiffFormatError::InvalidDimensions(0, 1)));
}

#[test]
fn init_keeps_the_first_image() {
    let d = Decoder::new(gray8(2, 1, &[3, 4])).unwrap();
    let mut d = d.init().unwrap();
    assert_eq!(d.dimensions().unwrap(), (2, 1));
}

#[test]
fn packbits_strips_are_unpacked() {
    let packed = [0x03, 1, 2, 3, 4, 0xfd, 9, 0x80];
    let mut entries = gray_entries(8, 1, 8, packed.len() as u32, 1, 1);
    entries[3] = (259, V::Short(vec![32773]));
    let mut d = Decoder::new(tiff(true, &packed, &entries)).unwrap();
    assert_eq!(u8_samples(d.read_image()), vec![1, 2, 3, 4, 9, 9, 9, 9]);
}

#[test]
fn packbits_run_past_the_end_is_an_unexpected_eof() {
    let mut out = Vec::new();
    out.extend_from_slice(b"II");
    put16(&mut out, true, 42);
    put32(&mut out, true, 8);
    let mut entries = gray_entries(4, 1, 8, 2, 1, 1);
    entries[3] = (259, V::Short(vec![32773]));
    entries[5] = (273, V::Long(vec![1000]));
    put_ifd(&mut out, true, &entries, 0);
    let mut d = Decoder::new(out).unwrap();
    assert_eq!(err(d.read_image()), TiffError::IoError(IoError::UnexpectedEof));
}

#[test]
fn packbits_unpacks_too_few_samples() {
    let packed = [0x01, 1, 2];
    let mut entries = gray_entries(4, 1, 8, packed.len() as u32, 1, 1);
    entries[3] = (259, V::Short(vec![32773]));
    let mut d = Decoder::new(tiff(true, &packed, &entries)).unwrap();
    assert_eq!(err(d.read_image()), TiffError::IoError(IoError::UnexpectedEof));
}

#[test]
fn strings_must_be_utf8() {
    let mut d = Decoder::new(gray8(4, 1, &[b'o', b'k', 0xff, 0])).unwrap();
    d.goto_offset(8).unwrap();
    assert_eq!(d.read_string(2).unwrap(), "ok");
    d.goto_offset(8).unwrap();
    assert_eq!(err(d.read_string(4)), TiffError::FormatError(TiffFormatError::InvalidTag));
}

#[test]
fn unlimited_limits_decode_the_image() {
    let d = Decoder::new(gray8(2, 2, &[1, 2, 3, 4])).unwrap();
    let mut d = d.with_limits(Limits::unlimited());
    assert_eq!(u8_samples(d.read_image()), vec![1, 2, 3, 4]);
}

#[test]
fn read_strip_to_buffer_needs_strips() {
    let mut d = Decoder::new(four_tiles()).unwrap();
    let mut buffer = DecodingResult::U8(vec![0; 4]);
    assert_eq!(
        err(d.read_strip_to_buffer(&mut buffer, 0)),
        TiffError::UsageError(UsageError::InvalidChunkType(ChunkType::Strip, ChunkType::Tile))
    );
}

#[test]
fn wrong_buffer_kind_is_an_unsupported_color_type() {
    let mut d = Decoder::new(two_strips()).unwrap();
    let mut buffer = DecodingResult::U16(vec![0; 8]);
    assert_eq!(
        err(d.read_strip_to_buffer(&mut buffer, 0)),
        TiffError::UnsupportedError(TiffUnsupportedError::UnsupportedColorType(ColorType::Gray(8)))
    );
}

fn with(mut entries: Vec<(u16, V)>, tag: u16, v: V) -> Vec<(u16, V)> {
    match entries.iter().position(|(t, _)| *t == tag) {
        Some(i) => entries[i] = (tag, v),
        None => entries.push((tag, v)),
    }
    entries
}

fn new_error(entries: Vec<(u16, V)>) -> TiffError {
    err(Decoder::new(tiff(true, &[0; 16], &entries)))
}

#[test]
fn layout_errors_are_reported() {
    let base = gray_entries(4, 2, 8, 8, 1, 1);
    assert_eq!(
        new_error(with(gray_entries(4, 2, 8, 8, 1, 1), 279, V::Long(vec![4, 4]))),
        TiffError::FormatError(TiffFormatError::InconsistentSizesEncountered)
    );
    assert_eq!(
        new_error(with(base, 324, V::Long(vec![8]))),
        TiffError::FormatError(TiffFormatError::StripTileTagConflict)
    );
    assert_eq!(
        new_error(with(gray_entries(4, 2, 8, 8, 1, 1), 317, V::Short(vec![7]))),
        TiffError::FormatError(TiffFormatError::UnknownPredictor(7))
    );
    assert_eq!(
        new_error(with(gray_entries(4, 2, 8, 8, 1, 1), 277, V::Short(vec![0]))),
        TiffError::FormatError(TiffFormatError::SamplesPerPixelIsZero)
    );
}

#[test]
fn unsupported_layouts_are_reported() {
    assert_eq!(
        new_error(with(gray_entries(4, 2, 8, 8, 1, 1), 277, V::Short(vec![2]))),
        TiffError::UnsupportedError(TiffUnsupportedError::UnsupportedSampleDepth(2))
    );
    assert_eq!(
        new_error(with(gray_entries(4, 2, 8, 8, 1, 1), 284, V::Short(vec![2]))),
        TiffError::UnsupportedError(TiffUnsupportedError::UnsupportedPlanarConfig(Some(
            lib::tags::PlanarConfiguration::Planar
        )))
    );
    assert_eq!(
        new_error(with(gray_entries(4, 2, 8, 8, 1, 1), 262, V::Short(vec![99]))),
        TiffError::UnsupportedError(TiffUnsupportedError::UnknownInterpretation)
    );
    match new_error(with(gray_entries(4, 2, 8, 8, 1, 1), 339, V::Short(vec![1, 2]))) {
        TiffError::UnsupportedError(TiffUnsupportedError::UnsupportedSampleFormat(f)) => {
            assert_eq!(f, vec![lib::tags::SampleFormat::Uint, lib::tags::SampleFormat::Int])
        }
        other => panic!("unexpected {:?}", other),
    }
}

#[test]
fn unsupported_samples_are_reported_when_decoding() {
    let mut void = Decoder::new(tiff(true, &[0; 8], &with(gray_entries(4, 2, 8, 8, 1, 1), 339, V::Short(vec![4])))).unwrap();
    match err(void.read_image()) {
        TiffError::UnsupportedError(TiffUnsupportedError::UnsupportedSampleFormat(f)) => {
            assert_eq!(f, vec![lib::tags::SampleFormat::Void])
        }
        other => panic!("unexpected {:?}", other),
    }
    let mut rgb = Decoder::new(tiff(true, &[0; 8], &with(gray_entries(4, 2, 8, 8, 2, 1), 258, V::Short(vec![8])))).unwrap();
    match err(rgb.colortype()) {
        TiffError::UnsupportedError(TiffUnsupportedError::InterpretationWithBits(p, b)) => {
            assert_eq!(p, lib::tags::PhotometricInterpretation::RGB);
            assert_eq!(b, vec![8]);
        }
        other => panic!("unexpected {:?}", other),
    }
    let mut fp = Decoder::new(tiff(true, &[0; 8], &gray_entries(4, 2, 8, 8, 1, 3))).unwrap();
    assert_eq!(
        err(fp.read_image()),
        TiffError::UnsupportedError(TiffUnsupportedError::FloatingPointPredictor(ColorType::Gray(8)))
    );
    let mut float_entries = gray_entries(1, 1, 32, 4, 1, 2);
    float_entries.push((339, V::Short(vec![3])));
    let mut hp = Decoder::new(tiff(true, &[0; 4], &float_entries)).unwrap();
    assert_eq!(
        err(hp.read_image()),
        TiffError::UnsupportedError(TiffUnsupportedError::HorizontalPredictor(ColorType::Gray(32)))
    );
    let mut small = Decoder::new(tiff(true, &[0; 4], &gray_entries(4, 1, 4, 4, 1, 2))).unwrap();
    assert_eq!(
        err(small.read_image()),
        TiffError::UnsupportedError(TiffUnsupportedError::HorizontalPredictor(ColorType::Gray(4)))
    );
}

#[test]
fn each_tile_stands_in_the_whole_image() {
    let mut whole = Decoder::new(four_tiles()).unwrap();
    let image = u8_samples(whole.read_image());
    let mut tiles = Decoder::new(four_tiles()).unwrap();
    // (column, row, width) of each tile's part within the 3 by 3 image.
    let places = [(0usize, 0usize, 2usize), (2, 0, 1), (0, 2, 2), (2, 2, 1)];
    for (x, y, w) in places.iter() {
        let tile = u8_samples(tiles.read_tile());
        let rows = tile.len() / w;
        for r in 0..rows {
            let at = (y + r) * 3 + x;
            assert_eq!(&image[at..at + w], &tile[r * w..(r + 1) * w]);
        }
    }
}

#[test]
fn reading_tiles_on_strips_keeps_the_position() {
    let mut d = Decoder::new(two_strips()).unwrap();
    d.goto_offset(2).unwrap();
    assert!(d.read_tile().is_err());
    assert_eq!(d.read_short().unwrap(), 42);
}

#[test]
fn no_next_image_keeps_the_position() {
    let mut d = Decoder::new(gray8(1, 1, &[5])).unwrap();
    d.goto_offset(2).unwrap();
    assert_eq!(
        err(d.next_image()),
        TiffError::FormatError(TiffFormatError::ImageFileDirectoryNotFound)
    );
    assert_eq!(d.read_short().unwrap(), 42);
}

#[test]
fn an_absent_tag_keeps_the_position() {
    let mut d = Decoder::new(gray8(1, 1, &[5])).unwrap();
    d.goto_offset(2).unwrap();
    assert!(d.find_tag(Tag::Artist).unwrap().is_none());
    assert_eq!(d.read_short().unwrap(), 42);
}

#[test]
fn a_strip_read_leaves_the_reader_at_the_strip() {
    let mut d = Decoder::new(two_strips()).unwrap();
    assert_eq!(u8_samples(d.read_strip()), vec![1, 2, 3, 4, 5, 6, 7, 8]);
    assert_eq!(d.read_byte().unwrap(), 1);
    assert_eq!(u8_samples(d.read_strip()), vec![9, 10, 11, 12]);
    assert_eq!(d.read_byte().unwrap(), 9);
}

#[test]
fn a_whole_image_read_leaves_the_reader_at_the_last_chunk() {
    let mut d = Decoder::new(two_strips()).unwrap();
    assert_eq!(u8_samples(d.read_image()).len(), 12);
    assert_eq!(d.read_byte().unwrap(), 9);
}

/// A BigTIFF entry: tag, type, count and an eight-byte value field.
fn big_entry(out: &mut Vec<u8>, tag: u16, typ: u16, count: u64, value: u64) {
    out.extend_from_slice(&tag.to_le_bytes());
    out.extend_from_slice(&typ.to_le_bytes());
    out.extend_from_slice(&count.to_le_bytes());
    out.extend_from_slice(&value.to_le_bytes());
}

#[test]
fn bigtiff_entries_of_unknown_type_are_skipped_whole() {
    let mut out = Vec::new();
    out.extend_from_slice(b"II");
    put16(&mut out, true, 43);
    put16(&mut out, true, 8);
    put16(&mut out, true, 0);
    out.extend_from_slice(&16u64.to_le_bytes());
    let entries: Vec<(u16, u16, u64, u64)> = vec![
        (256, 4, 1, 1),
        (257, 4, 1, 1),
        (258, 3, 1, 8),
        (259, 3, 1, 1),
        (262, 3, 1, 1),
        (273, 4, 1, 0),
        (277, 3, 1, 1),
        (279, 4, 1, 1),
        (40000, 99, 1, 0x0102_0304_0506_0708),
    ];
    out.extend_from_slice(&(entries.len() as u64).to_le_bytes());
    let data_offset = 16 + 8 + 20 * entries.len() as u64 + 8;
    for (tag, typ, count, value) in entries.iter().rev() {
        let value = if *tag == 273 { data_offset } else { *value };
        big_entry(&mut out, *tag, *typ, *count, value);
    }
    out.extend_from_slice(&0u64.to_le_bytes());
    out.push(77);
    let mut d = Decoder::new(out).unwrap();
    assert_eq!(d.dimensions().unwrap(), (1, 1));
    assert_eq!(u8_samples(d.read_image()), vec![77]);
    assert!(d.find_tag(Tag::Unknown(40000)).unwrap().is_none());
}

#[test]
fn a_next_directory_past_the_end_is_not_a_missing_image() {
    let mut out = Vec::new();
    out.extend_from_slice(b"II");
    put16(&mut out, true, 42);
    put32(&mut out, true, 0);
    out.push(5);
    let first = put_ifd(&mut out, true, &gray_entries_at(1, 1, 8), 60000);
    out[4..8].copy_from_slice(&first.to_le_bytes());
    let mut d = Decoder::new(out).unwrap();
    assert!(d.more_images());
    assert_eq!(err(d.next_image()), TiffError::IoError(IoError::UnexpectedEof));
    assert!(!d.more_images());
    assert_eq!(
        err(d.next_image()),
        TiffError::FormatError(TiffFormatError::ImageFileDirectoryNotFound)
    );
}

#[test]
fn the_byte_order_stays_that_of_the_header() {
    let mut d = Decoder::new(two_images()).unwrap();
    assert_eq!(d.byte_order(), ByteOrder::LittleEndian);
    d.read_image().unwrap();
    d.next_image().unwrap();
    assert_eq!(d.byte_order(), ByteOrder::LittleEndian);
    let mut b = Decoder::new(tiff(false, &[1], &gray_entries(1, 1, 8, 1, 1, 1))).unwrap();
    assert_eq!(b.byte_order(), ByteOrder::BigEndian);
    b.read_strip().unwrap();
    assert_eq!(b.byte_order(), ByteOrder::BigEndian);
}

#[test]
fn wide_targets_convert_tags_too() {
    let mut d = Decoder::new(gray8(300, 1, &[0; 300])).unwrap();
    assert_eq!(d.find_tag_unsigned::<u64>(Tag::ImageWidth).unwrap(), Some(300));
    assert_eq!(d.find_tag_unsigned::<i64>(Tag::ImageWidth).unwrap(), Some(300));
    assert_eq!(d.find_tag_unsigned_vec::<u64>(Tag::StripOffsets).unwrap(), Some(vec![8]));
    assert_eq!(d.find_tag_unsigned::<u128>(Tag::Artist).unwrap(), None);
    assert_eq!(
        err(d.get_tag_unsigned::<u64>(Tag::Artist)),
        TiffError::FormatError(TiffFormatError::RequiredTagNotFound(Tag::Artist))
    );
}

#[test]
fn get_tag_u64_agrees_with_get_tag_unsigned() {
    let mut d = Decoder::new(gray8(300, 1, &[0; 300])).unwrap();
    for tag in [Tag::ImageWidth, Tag::StripOffsets, Tag::Artist, Tag::ImageDescription] {
        assert_eq!(d.get_tag_u64(tag), d.get_tag_unsigned::<u64>(tag));
    }
}

#[test]
fn each_directory_is_read_once() {
    let mut d = Decoder::new(two_images()).unwrap();
    let mut images = 1;
    while d.more_images() {
        d.next_image().unwrap();
        images += 1;
    }
    assert_eq!(images, 2);
}
