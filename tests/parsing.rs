use dng::dng_utils::{get_bytes_per_value_for_type, get_endian, get_word_size};
use dng::get_value::{
    byte, double, float, long, rational, rsational, sbyte, short, slong, sshort,
};
use dng::header::ImageFileHeader;
use dng::{DataType, DirectoryEntry, DngError, Endian, EntryData, WordSize, IFD};

/// Builds a little-endian file image byte by byte.
struct Le(Vec<u8>);

impl Le {
    fn new(len: usize) -> Le {
        Le(vec![0u8; len])
    }
    fn u16(&mut self, at: usize, v: u16) {
        self.0[at..at + 2].copy_from_slice(&v.to_le_bytes());
    }
    fn u32(&mut self, at: usize, v: u32) {
        self.0[at..at + 4].copy_from_slice(&v.to_le_bytes());
    }
    fn header(&mut self, first_ifd: u32) {
        self.0[0] = 0x49;
        self.0[1] = 0x49;
        self.u16(2, 42);
        self.u32(4, first_ifd);
    }
    /// Writes a directory at `at` with the given (tag, type, count, value field) records.
    fn ifd(&mut self, at: usize, records: &[(u16, u16, u32, u32)]) {
        self.u16(at, records.len() as u16);
        for (i, (tag, ty, count, value)) in records.iter().enumerate() {
            let r = at + 2 + 12 * i;
            self.u16(r, *tag);
            self.u16(r + 2, *ty);
            self.u32(r + 4, *count);
            self.u32(r + 8, *value);
        }
        self.u32(at + 2 + 12 * records.len(), 0);
    }
}

fn entry(tag: u16, data_type: u16, count: usize, value_or_offset: u32) -> DirectoryEntry {
    DirectoryEntry { tag, data_type, count, value_or_offset }
}

#[test]
fn header_little_endian_classic() {
    let buffer = vec![0x49u8, 0x49, 42, 0, 8, 0, 0, 0, 0, 0];
    let h = ImageFileHeader::parse_image_header(&buffer).unwrap();
    assert_eq!(h.endian, Endian::Little);
    assert_eq!(h.word_size, WordSize::Thirtytwo);
    assert_eq!(h.ifd_offset, 8);
}

#[test]
fn header_big_endian_sixty_four() {
    let buffer = vec![0x4Du8, 0x4D, 0, 43, 0, 0, 0, 8];
    let h = ImageFileHeader::parse_image_header(&buffer).unwrap();
    assert_eq!(h.endian, Endian::Big);
    assert_eq!(h.word_size, WordSize::Sixtyfour);
    assert_eq!(h.ifd_offset, 8);
}

#[test]
fn header_unknown_byte_order() {
    for first in [[0x49u8, 0x4D], [0x4D, 0x49], [0x00, 0x00], [0xFF, 0x49]] {
        let buffer = vec![first[0], first[1], 42, 0, 8, 0, 0, 0];
        assert_eq!(
            ImageFileHeader::parse_image_header(&buffer).unwrap_err(),
            DngError::InvalidHeader
        );
    }
}

#[test]
fn header_bad_magic() {
    let buffer = vec![0x49u8, 0x49, 41, 0, 8, 0, 0, 0];
    assert_eq!(ImageFileHeader::parse_image_header(&buffer).unwrap_err(), DngError::InvalidHeader);
    // the big-endian magic byte is the second of the pair
    let buffer = vec![0x4Du8, 0x4D, 42, 0, 0, 0, 0, 8];
    assert_eq!(ImageFileHeader::parse_image_header(&buffer).unwrap_err(), DngError::InvalidHeader);
}

#[test]
fn header_truncated() {
    assert_eq!(ImageFileHeader::parse_image_header(&vec![0x49u8]).unwrap_err(), DngError::OutOfBounds);
    assert_eq!(
        ImageFileHeader::parse_image_header(&vec![0x49u8, 0x49, 42, 0, 8]).unwrap_err(),
        DngError::OutOfBounds
    );
}

#[test]
fn endian_and_word_size() {
    assert_eq!(get_endian(&vec![0x4Du8, 0x4D, 0xF0]), Ok(Endian::Big));
    assert_eq!(get_endian(&vec![0x49u8, 0x49, 0xF0]), Ok(Endian::Little));
    assert_eq!(get_word_size(&vec![0x4Du8, 0x4D, 0, 42], Endian::Big), Ok(WordSize::Thirtytwo));
    assert_eq!(get_word_size(&vec![0x49u8, 0x49, 43], Endian::Little), Ok(WordSize::Sixtyfour));
}

#[test]
fn primitive_reads() {
    let b = vec![0xFFu8, 0xCC, 0x18, 0xCD, 0x97, 0xAA, 0xEC, 0x63, 0x5A, 0xA5];
    assert_eq!(byte(&b, 1), Ok(0xCC));
    assert_eq!(short(&b, 1, Endian::Big), Ok(0xCC18));
    assert_eq!(short(&b, 1, Endian::Little), Ok(0x18CC));
    assert_eq!(long(&b, 1, Endian::Big), Ok(0xCC18CD97));
    assert_eq!(long(&b, 1, Endian::Little), Ok(0x97CD18CC));
    assert_eq!(double(&b, 1, Endian::Big), Ok(0xCC18CD97AAEC635A));
    assert_eq!(double(&b, 1, Endian::Little), Ok(0x5A63ECAA97CD18CC));
    assert_eq!(rational(&b, 1, Endian::Big), Ok([0xCC18CD97, 0xAAEC635A]));
    assert_eq!(sbyte(&b, 0), Ok(-1));
    assert_eq!(sshort(&b, 0, Endian::Big), Ok(0xFFCCu16 as i16));
    assert_eq!(slong(&b, 0, Endian::Little), Ok(0xCD18CCFFu32 as i32));
    assert_eq!(rsational(&b, 0, Endian::Big), Ok([0xFFCC18CDu32 as i32, 0x97AAEC63u32 as i32]));
}

#[test]
fn primitive_reads_out_of_bounds() {
    let b = vec![1u8, 2, 3, 4];
    assert_eq!(byte(&b, 4), Err(DngError::OutOfBounds));
    assert_eq!(short(&b, 3, Endian::Big), Err(DngError::OutOfBounds));
    assert_eq!(long(&b, 1, Endian::Little), Err(DngError::OutOfBounds));
    assert_eq!(long(&b, 0, Endian::Little), Ok(0x04030201));
    assert_eq!(double(&b, 0, Endian::Big), Err(DngError::OutOfBounds));
    assert_eq!(short(&b, usize::MAX, Endian::Big), Err(DngError::OutOfBounds));
}

#[test]
fn float_bit_patterns() {
    let b = 1.5f32.to_be_bytes().to_vec();
    assert_eq!(f32::from_bits(float(&b, 0, Endian::Big).unwrap()), 1.5f32);
    let b = (-2.25f64).to_le_bytes().to_vec();
    assert_eq!(f64::from_bits(double(&b, 0, Endian::Little).unwrap()), -2.25f64);
}

#[test]
fn type_widths() {
    let widths = [(1u16, 1u16), (2, 1), (3, 2), (4, 4), (5, 8), (6, 1), (7, 1), (8, 2), (9, 4), (10, 8), (11, 4), (12, 8)];
    for (code, w) in widths {
        assert_eq!(get_bytes_per_value_for_type(code), Ok(w));
    }
    assert_eq!(get_bytes_per_value_for_type(0), Err(DngError::UnknownType));
    assert_eq!(get_bytes_per_value_for_type(13), Err(DngError::UnknownType));
}

#[test]
fn inline_short_single_little_endian() {
    let mut f = Le::new(64);
    f.header(8);
    // the value field's bytes in the file are 05 01 00 00
    f.ifd(8, &[(259, 3, 1, 0x0105)]);
    let ifd = IFD::parse_ifd(&f.0, 8, Endian::Little).unwrap();
    let e = ifd.entry(259).unwrap();
    match e.get_entry_values(&f.0, Endian::Little).unwrap() {
        EntryData::Single(v) => assert_eq!(v, DataType::Short(u16::from_le_bytes([0x05, 0x01]))),
        other => panic!("expected one value, got {:?}", other),
    }
}

#[test]
fn inline_short_single_big_endian() {
    // one directory of one SHORT entry whose value field bytes are 00 07 00 00
    let buffer = vec![
        0x4D, 0x4D, 0, 42, 0, 0, 0, 8, // header
        0, 1, // one record
        0x01, 0x03, 0, 3, 0, 0, 0, 1, 0x00, 0x07, 0x00, 0x00, // tag 259, SHORT, 1
        0, 0, 0, 0,
    ];
    let ifd = IFD::parse_ifd(&buffer, 8, Endian::Big).unwrap();
    let e = ifd.entry(259).unwrap();
    assert_eq!(e.value_or_offset, 0x0007_0000);
    match e.get_entry_values(&buffer, Endian::Big).unwrap() {
        EntryData::Single(v) => assert_eq!(v, DataType::Short(7)),
        other => panic!("expected one value, got {:?}", other),
    }
}

#[test]
fn inline_two_shorts_little_endian() {
    let mut f = Le::new(64);
    f.header(8);
    // two SHORTs 8 and 16 packed into the value field: bytes 08 00 10 00
    f.ifd(8, &[(258, 3, 2, 0x0010_0008)]);
    let ifd = IFD::parse_ifd(&f.0, 8, Endian::Little).unwrap();
    let values = ifd.entry(258).unwrap().get_entry_values(&f.0, Endian::Little).unwrap().to_vec();
    assert_eq!(values, vec![DataType::Short(8), DataType::Short(16)]);
}

#[test]
fn offset_values_read_from_buffer() {
    let mut f = Le::new(80);
    f.header(8);
    f.ifd(8, &[(258, 3, 3, 40)]);
    f.u16(40, 8);
    f.u16(42, 12);
    f.u16(44, 0xBEEF);
    let ifd = IFD::parse_ifd(&f.0, 8, Endian::Little).unwrap();
    let e = ifd.entry(258).unwrap();
    match e.get_entry_values(&f.0, Endian::Little).unwrap() {
        EntryData::Multiple(vs) => {
            assert_eq!(vs, vec![DataType::Short(8), DataType::Short(12), DataType::Short(0xBEEF)]);
            for (i, v) in vs.iter().enumerate() {
                let at = e.value_or_offset as usize + 2 * i;
                assert_eq!(*v, DataType::get_entry_value(&f.0, 3, at, Endian::Little).unwrap());
            }
        }
        other => panic!("expected several values, got {:?}", other),
    }
}

#[test]
fn offset_rationals_big_endian() {
    let mut buffer = vec![0u8; 32];
    buffer[16..20].copy_from_slice(&300u32.to_be_bytes());
    buffer[20..24].copy_from_slice(&7u32.to_be_bytes());
    let e = entry(282, 5, 1, 16);
    match e.get_entry_values(&buffer, Endian::Big).unwrap() {
        EntryData::Single(v) => assert_eq!(v, DataType::Rational([300, 7])),
        other => panic!("expected one value, got {:?}", other),
    }
}

#[test]
fn entry_errors() {
    let buffer = vec![0u8; 16];
    assert_eq!(entry(1, 13, 1, 0).get_entry_values(&buffer, Endian::Little).unwrap_err(), DngError::UnknownType);
    assert_eq!(entry(1, 4, 3, 8).get_entry_values(&buffer, Endian::Little).unwrap_err(), DngError::OutOfBounds);
    assert_eq!(entry(1, 4, 2, 8).get_entry_values(&buffer, Endian::Little).unwrap().to_vec().len(), 2);
    assert_eq!(entry(1, 4, usize::MAX, 8).get_entry_values(&buffer, Endian::Little).unwrap_err(), DngError::OutOfBounds);
}

#[test]
fn zero_count_is_empty() {
    match entry(1, 3, 0, 0).get_entry_values(&vec![], Endian::Big).unwrap() {
        EntryData::Multiple(vs) => assert!(vs.is_empty()),
        other => panic!("expected no values, got {:?}", other),
    }
}

#[test]
fn coercions() {
    assert_eq!(DataType::Short(7).to_u32(), Ok(7));
    assert_eq!(DataType::Long(70000).to_usize(), Ok(70000));
    assert_eq!(DataType::Long(70000).to_u16(), Err(DngError::NumericOverflow));
    assert_eq!(DataType::Sshort(-1).to_u32(), Err(DngError::NumericOverflow));
    assert_eq!(DataType::Slong(5).to_usize(), Ok(5));
    assert_eq!(DataType::Rational([1, 2]).to_u32(), Err(DngError::UnsupportedCoercion));
    assert_eq!(DataType::Double(0).to_u32(), Err(DngError::UnsupportedCoercion));
}

#[test]
fn ifd_duplicate_tag_keeps_last() {
    let mut f = Le::new(64);
    f.header(8);
    f.ifd(8, &[(256, 3, 1, 10), (256, 3, 1, 20)]);
    let ifd = IFD::parse_ifd(&f.0, 8, Endian::Little).unwrap();
    assert_eq!(ifd.numb_of_entries, 2);
    assert_eq!(ifd.entries.len(), 1);
    assert_eq!(ifd.entry(256).unwrap().value_or_offset, 20);
}

#[test]
fn ifd_truncated() {
    let mut f = Le::new(30);
    f.header(8);
    f.u16(8, 3);
    assert_eq!(IFD::parse_ifd(&f.0, 8, Endian::Little).unwrap_err(), DngError::OutOfBounds);
    assert_eq!(IFD::parse_ifd(&f.0, 29, Endian::Little).unwrap_err(), DngError::OutOfBounds);
}
