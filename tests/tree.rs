use std::collections::HashMap;

use dng::header::ImageFileHeader;
use dng::thumbnail::extract_thumbnail;
use dng::{DirectoryEntry, DngError, Endian, IFDs, LayoutIssue, DNG, IFD};

const LONG: u16 = 4;
const SHORT: u16 = 3;

fn put16(b: &mut Vec<u8>, at: usize, v: u16) {
    b[at..at + 2].copy_from_slice(&v.to_le_bytes());
}

fn put32(b: &mut Vec<u8>, at: usize, v: u32) {
    b[at..at + 4].copy_from_slice(&v.to_le_bytes());
}

/// A little-endian file of `len` bytes whose first directory is at 8.
fn file(len: usize) -> Vec<u8> {
    let mut b = vec![0u8; len];
    b[0] = 0x49;
    b[1] = 0x49;
    put16(&mut b, 2, 42);
    put32(&mut b, 4, 8);
    b
}

fn put_ifd(b: &mut Vec<u8>, at: usize, records: &[(u16, u16, u32, u32)]) {
    put16(b, at, records.len() as u16);
    for (i, (tag, ty, count, value)) in records.iter().enumerate() {
        let r = at + 2 + 12 * i;
        put16(b, r, *tag);
        put16(b, r + 2, *ty);
        put32(b, r + 4, *count);
        put32(b, r + 8, *value);
    }
}

const BITS_AT: u32 = 160;
const PIXELS_AT: u32 = 170;

/// A file whose only directory is a 2x1 RGB8 thumbnail, with some records
/// replaced (same tag) or left out.
fn thumbnail_file(replace: &[(u16, u16, u32, u32)], omit: Option<u16>) -> Vec<u8> {
    let mut records: Vec<(u16, u16, u32, u32)> = vec![
        (254, LONG, 1, 1),
        (256, SHORT, 1, 2),
        (257, SHORT, 1, 1),
        (258, SHORT, 3, BITS_AT),
        (259, SHORT, 1, 1),
        (262, SHORT, 1, 2),
        (273, LONG, 1, PIXELS_AT),
        (274, SHORT, 1, 1),
        (277, SHORT, 1, 3),
        (278, LONG, 1, 1),
        (279, LONG, 1, 6),
        (284, SHORT, 1, 1),
    ];
    for r in replace {
        for x in records.iter_mut() {
            if x.0 == r.0 {
                *x = *r;
            }
        }
    }
    records.retain(|r| Some(r.0) != omit);
    let mut b = file(176);
    put_ifd(&mut b, 8, &records);
    for i in 0..3 {
        put16(&mut b, BITS_AT as usize + 2 * i, 8);
    }
    for (i, v) in [10u8, 20, 30, 40, 50, 60].iter().enumerate() {
        b[PIXELS_AT as usize + i] = *v;
    }
    b
}

fn nst_ifd(offset: usize, subfile_type: u32) -> IFD {
    let mut entries = HashMap::new();
    entries.insert(254, DirectoryEntry { tag: 254, data_type: LONG, count: 1, value_or_offset: subfile_type });
    IFD { offset, numb_of_entries: 1, entries }
}

#[test]
fn sub_ifds_are_collected() {
    let mut b = file(100);
    put_ifd(&mut b, 8, &[(330, LONG, 2, 40)]);
    put32(&mut b, 40, 60);
    put32(&mut b, 44, 80);
    put_ifd(&mut b, 60, &[(254, LONG, 1, 0)]);
    put_ifd(&mut b, 80, &[(254, LONG, 1, 1)]);
    let dng = DNG::from_encoded_vec(b).unwrap();
    assert_eq!(dng.ifds.ifds.len(), 3);
    for offset in [8usize, 60, 80] {
        assert_eq!(dng.ifds.get(offset).unwrap().offset, offset);
    }
    assert!(dng.ifds.get(40).is_none());
    assert_eq!(dng.ifds.thumbnail, Some(80));
    assert_eq!(dng.ifds.raw_image, None);
}

#[test]
fn nested_sub_ifds_are_collected() {
    let mut b = file(100);
    put_ifd(&mut b, 8, &[(330, LONG, 1, 40)]);
    put_ifd(&mut b, 40, &[(330, LONG, 1, 60)]);
    put_ifd(&mut b, 60, &[]);
    let dng = DNG::from_encoded_vec(b).unwrap();
    assert_eq!(dng.ifds.ifds.len(), 3);
    assert!(dng.ifds.get(60).is_some());
    assert_eq!(dng.ifds.thumbnail, None);
}

#[test]
fn shared_sub_ifd_is_kept_once() {
    let mut b = file(120);
    put_ifd(&mut b, 8, &[(330, LONG, 2, 24)]);
    put32(&mut b, 24, 40);
    put32(&mut b, 28, 60);
    put_ifd(&mut b, 40, &[(330, LONG, 1, 80)]);
    put_ifd(&mut b, 60, &[(330, LONG, 1, 80)]);
    put_ifd(&mut b, 80, &[]);
    let dng = DNG::from_encoded_vec(b).unwrap();
    assert_eq!(dng.ifds.ifds.len(), 4);
    assert!(dng.ifds.get(80).is_some());
}

#[test]
fn cyclic_sub_ifds_fail() {
    let mut b = file(64);
    put_ifd(&mut b, 8, &[(330, LONG, 1, 40)]);
    put_ifd(&mut b, 40, &[(330, LONG, 1, 8)]);
    assert_eq!(DNG::from_encoded_vec(b).unwrap_err(), DngError::CyclicStructure);
}

#[test]
fn self_referencing_ifd_fails() {
    let mut b = file(40);
    put_ifd(&mut b, 8, &[(330, LONG, 1, 8)]);
    assert_eq!(DNG::from_encoded_vec(b).unwrap_err(), DngError::CyclicStructure);
}

#[test]
fn sub_ifd_past_end_fails() {
    let mut b = file(40);
    put_ifd(&mut b, 8, &[(330, LONG, 1, 1000)]);
    assert_eq!(DNG::from_encoded_vec(b).unwrap_err(), DngError::OutOfBounds);
}

#[test]
fn sub_ifd_pointer_not_an_offset() {
    let mut b = file(64);
    // a negative SLONG cannot be an offset
    put_ifd(&mut b, 8, &[(330, 9, 1, 0xFFFF_FFFF)]);
    assert_eq!(DNG::from_encoded_vec(b).unwrap_err(), DngError::NumericOverflow);
}

#[test]
fn first_ifd_past_end_fails() {
    let mut b = file(16);
    put32(&mut b, 4, 100);
    assert_eq!(DNG::from_encoded_vec(b).unwrap_err(), DngError::OutOfBounds);
}

#[test]
fn parse_ifds_from_header() {
    let mut b = file(64);
    put_ifd(&mut b, 8, &[(330, LONG, 1, 40)]);
    put_ifd(&mut b, 40, &[(254, LONG, 1, 1)]);
    let h = ImageFileHeader::parse_image_header(&b).unwrap();
    let set = IFDs::parse_ifds(&b, &h).unwrap();
    assert_eq!(set.ifds.len(), 2);
    assert_eq!(set.thumbnail, Some(40));
    let root = set.get(8).unwrap();
    assert_eq!(dng::ifds::sub_ifd_offsets_of(root, &b, Endian::Little).unwrap(), vec![40]);
}

#[test]
fn thumbnail_smallest_offset_wins() {
    let set = IFDs { ifds: vec![nst_ifd(10, 0), nst_ifd(50, 1), nst_ifd(30, 1)], thumbnail: None, raw_image: None };
    assert_eq!(set.select_thumbnail(&vec![], Endian::Little), Some(30));
    let set = IFDs { ifds: vec![nst_ifd(10, 0), nst_ifd(50, 2)], thumbnail: None, raw_image: None };
    assert_eq!(set.select_thumbnail(&vec![], Endian::Little), None);
}

#[test]
fn thumbnail_extracted() {
    let b = thumbnail_file(&[], None);
    let dng = DNG::from_encoded_vec(b.clone()).unwrap();
    assert_eq!(dng.ifds.thumbnail, Some(8));
    let img = dng.thumbnail().unwrap();
    assert_eq!(img.width, 2);
    assert_eq!(img.height, 1);
    assert_eq!(img.pixel_data.len(), 6);
    assert_eq!(img.pixel_data, b[PIXELS_AT as usize..PIXELS_AT as usize + 6].to_vec());
    assert_eq!(img.pixel_data, vec![10u8, 20, 30, 40, 50, 60]);
}

#[test]
fn thumbnail_compressed_unsupported() {
    let dng = DNG::from_encoded_vec(thumbnail_file(&[(259, SHORT, 1, 7)], None)).unwrap();
    assert_eq!(
        dng.thumbnail().unwrap_err(),
        DngError::UnsupportedThumbnailLayout(LayoutIssue::Compression)
    );
}

#[test]
fn thumbnail_layout_issues() {
    let cases: Vec<((u16, u16, u32, u32), LayoutIssue)> = vec![
        ((258, SHORT, 2, 0x0008_0008), LayoutIssue::BitsPerSample),
        ((262, SHORT, 1, 6), LayoutIssue::PhotometricInterpretation),
        ((274, SHORT, 1, 3), LayoutIssue::Orientation),
        ((277, SHORT, 1, 4), LayoutIssue::SamplesPerPixel),
        ((278, LONG, 1, 16), LayoutIssue::RowsPerStrip),
        ((284, SHORT, 1, 2), LayoutIssue::PlanarConfiguration),
    ];
    for (record, issue) in cases {
        let dng = DNG::from_encoded_vec(thumbnail_file(&[record], None)).unwrap();
        assert_eq!(dng.thumbnail().unwrap_err(), DngError::UnsupportedThumbnailLayout(issue));
    }
}

#[test]
fn thumbnail_missing_tag() {
    let dng = DNG::from_encoded_vec(thumbnail_file(&[], Some(279))).unwrap();
    assert_eq!(dng.thumbnail().unwrap_err(), DngError::MissingRequiredTag(279));
    let dng = DNG::from_encoded_vec(thumbnail_file(&[], Some(256))).unwrap();
    assert_eq!(dng.thumbnail().unwrap_err(), DngError::MissingRequiredTag(256));
}

#[test]
fn thumbnail_strip_past_end() {
    let dng = DNG::from_encoded_vec(thumbnail_file(&[(279, LONG, 1, 600)], None)).unwrap();
    assert_eq!(dng.thumbnail().unwrap_err(), DngError::OutOfBounds);
}

#[test]
fn thumbnail_not_found() {
    let dng = DNG::from_encoded_vec(thumbnail_file(&[(254, LONG, 1, 0)], None)).unwrap();
    assert_eq!(dng.ifds.thumbnail, None);
    assert_eq!(dng.thumbnail().unwrap_err(), DngError::ThumbnailNotFound);
}

#[test]
fn extract_from_directory() {
    let b = thumbnail_file(&[], None);
    let ifd = IFD::parse_ifd(&b, 8, Endian::Little).unwrap();
    let img = extract_thumbnail(&ifd, &b, Endian::Little).unwrap();
    assert_eq!(img.pixel_data, vec![10u8, 20, 30, 40, 50, 60]);
    // a width that is not an integer
    let b = thumbnail_file(&[(256, 5, 1, 100)], None);
    let ifd = IFD::parse_ifd(&b, 8, Endian::Little).unwrap();
    assert_eq!(extract_thumbnail(&ifd, &b, Endian::Little).unwrap_err(), DngError::UnsupportedCoercion);
}
