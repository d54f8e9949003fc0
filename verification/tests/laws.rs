use lib::error::TiffError;
use lib::ifd::Value;
use lib::packbits::unpack_bits;
use lib::samples::{decode_row, invert_row, predict_row};
use lib::stream::{u16_from_bytes, u32_from_bytes, ByteOrder};
use lib::tags::{PhotometricInterpretation, Tag, Type};

#[test]
fn predicting_a_differenced_row_gives_it_back() {
    let row: Vec<u8> = vec![10, 20, 30, 250, 5, 7, 100, 0];
    // Horizontal differencing with two samples per pixel.
    let mut diff = row.clone();
    for c in (2..row.len()).rev() {
        diff[c] = row[c].wrapping_sub(row[c - 2]);
    }
    let mut back = diff.clone();
    predict_row(&mut back, 2);
    assert_eq!(back, row);
}

#[test]
fn predicting_wraps_around() {
    let mut row: Vec<u16> = vec![0xfff0, 0x0020, 0x0001];
    predict_row(&mut row, 1);
    assert_eq!(row, vec![0xfff0, 0x0010, 0x0011]);
}

#[test]
fn inverting_twice_gives_the_row_back() {
    let row: Vec<u16> = vec![0, 1, 0x1234, 0xffff];
    let mut once = row.clone();
    invert_row(&mut once);
    assert_eq!(once, vec![0xffff, 0xfffe, 0xffff - 0x1234, 0]);
    invert_row(&mut once);
    assert_eq!(once, row);
}

#[test]
fn byte_orders_mirror_each_other() {
    assert_eq!(u16_from_bytes(&vec![0x12, 0x34], ByteOrder::LittleEndian), 0x3412);
    assert_eq!(u16_from_bytes(&vec![0x34, 0x12], ByteOrder::BigEndian), 0x3412);
    assert_eq!(u32_from_bytes(&vec![1, 2, 3, 4], ByteOrder::LittleEndian), 0x04030201);
    assert_eq!(u32_from_bytes(&vec![4, 3, 2, 1], ByteOrder::BigEndian), 0x04030201);
}

#[test]
fn rows_decode_in_the_byte_order() {
    let data = vec![0xaa, 0x01, 0x02, 0x03, 0x04];
    let le: Vec<u16> = decode_row(&data, 1, 2, ByteOrder::LittleEndian);
    let be: Vec<u16> = decode_row(&data, 1, 2, ByteOrder::BigEndian);
    assert_eq!(le, vec![0x0201, 0x0403]);
    assert_eq!(be, vec![0x0102, 0x0304]);
    let signed: Vec<i16> = decode_row(&vec![0xfe, 0xff], 0, 1, ByteOrder::LittleEndian);
    assert_eq!(signed, vec![-2]);
}

#[test]
fn tag_numbers_round_trip() {
    assert_eq!(Tag::from_u16(256), Some(Tag::ImageWidth));
    assert_eq!(Tag::ImageWidth.to_u16(), 256);
    assert_eq!(Tag::from_u16(0x9999), None);
    assert_eq!(Tag::from_u16_exhaustive(0x9999), Tag::Unknown(0x9999));
    assert_eq!(Tag::Unknown(0x9999).to_u16(), 0x9999);
    for n in 0..=u16::MAX {
        assert_eq!(Tag::from_u16_exhaustive(n).to_u16(), n);
    }
    assert_eq!(Type::from_u16(3), Some(Type::SHORT));
    assert_eq!(PhotometricInterpretation::from_u16(0), Some(PhotometricInterpretation::WhiteIsZero));
}

#[test]
fn unsigned_values_widen() {
    assert_eq!(Value::Short(5).into_u16().unwrap(), 5);
    assert_eq!(Value::Short(5).into_u32().unwrap(), 5);
    assert_eq!(Value::Short(5).into_u64().unwrap(), 5);
    assert_eq!(Value::Unsigned(70000).into_u16(), Err(TiffError::IntSizeError));
    assert_eq!(Value::Unsigned(70000).into_u32().unwrap(), 70000);
    assert_eq!(Value::UnsignedBig(1 << 40).into_u32(), Err(TiffError::IntSizeError));
    assert_eq!(Value::UnsignedBig(1 << 40).into_u64().unwrap(), 1 << 40);
    assert_eq!(Value::Byte(7).into_u8().unwrap(), 7);
}

#[test]
fn lists_convert_element_by_element() {
    let v = Value::List(vec![Value::Short(1), Value::Unsigned(2)]);
    assert_eq!(v.into_u32_vec().unwrap(), vec![1, 2]);
    let w = Value::List(vec![Value::Short(1), Value::Signed(-2)]);
    assert_eq!(
        w.into_u64_vec(),
        Err(TiffError::FormatError(lib::error::TiffFormatError::UnsignedIntegerExpected(Value::Signed(-2))))
    );
    assert_eq!(Value::Ascii("ab".to_string()).into_string().unwrap(), "ab");
    assert_eq!(Value::Rational(3, 4).into_u32_vec().unwrap(), vec![3, 4]);
}

#[test]
fn packbits_runs_and_literals() {
    let file = vec![0xaa, 0x02, 5, 6, 7, 0xff, 8, 0x80, 0xfe, 1];
    assert_eq!(unpack_bits(&file, 1, 9), Some(vec![5, 6, 7, 8, 8, 1, 1, 1]));
    assert_eq!(unpack_bits(&file, 1, 4), Some(vec![5, 6, 7]));
    assert_eq!(unpack_bits(&file, 1, 0), Some(vec![]));
    assert_eq!(unpack_bits(&file, 9, 2), None);
    assert_eq!(unpack_bits(&vec![0x05, 1, 2], 0, 3), None);
}
