//! Choice of the thumbnail directory and extraction of its pixels.
//!
//! Only single-strip, uncompressed, chunky RGB images with eight bits per
//! sample are extracted; any other layout is reported, not decoded.
use vstd::prelude::*;

use crate::entry::{
    bounded_value, bounded_values, entry_values, to_u16_list, unsigned_value,
    DataType, DirectoryEntry, EntryData,
};
use crate::error::{DngError, LayoutIssue};
use crate::get_value::fits;
use crate::ifd::IFD;
use crate::ifds::IFDs;
use crate::Endian;

verus! {

/// Tags that thumbnail selection and extraction read.
pub const NEW_SUBFILE_TYPE: u16 = 254;

pub const IMAGE_WIDTH: u16 = 256;

pub const IMAGE_LENGTH: u16 = 257;

pub const BITS_PER_SAMPLE: u16 = 258;

pub const COMPRESSION: u16 = 259;

pub const PHOTOMETRIC_INTERPRETATION: u16 = 262;

pub const STRIP_OFFSETS: u16 = 273;

pub const ORIENTATION: u16 = 274;

pub const SAMPLES_PER_PIXEL: u16 = 277;

pub const ROWS_PER_STRIP: u16 = 278;

pub const STRIP_BYTE_COUNTS: u16 = 279;

pub const PLANAR_CONFIGURATION: u16 = 284;

/// The pixels of a thumbnail: interleaved RGB bytes, row after row.
#[derive(Debug)]
pub struct ThumbnailImage {
    pub pixel_data: Vec<u8>,
    pub width: u32,
    pub height: u32,
}

/// The directory's NewSubFileType entry holds the single value 1
/// (a reduced-resolution image).
#[verifier::opaque]
pub open spec fn is_reduced(entries: Map<u16, DirectoryEntry>, buffer: Seq<u8>, endian: Endian) -> bool {
    &&& entries.contains_key(NEW_SUBFILE_TYPE)
    &&& match entry_values(entries[NEW_SUBFILE_TYPE], buffer, endian) {
        Ok(vs) => vs.len() == 1 && unsigned_value(vs[0]) == Ok::<int, DngError>(1),
        Err(_) => false,
    }
}

/// `choice` is the thumbnail of `set`: the reduced-resolution directory with
/// the smallest offset, or none when there is no such directory.
pub open spec fn thumbnail_choice(set: &IFDs, buffer: Seq<u8>, endian: Endian, choice: Option<usize>) -> bool {
    match choice {
        Some(o) => {
            &&& exists|i: int|
                0 <= i < set.ifds.len() && set.ifds@[i].offset == o && is_reduced(
                    #[trigger] set.ifds@[i].entries@,
                    buffer,
                    endian,
                )
            &&& forall|i: int|
                0 <= i < set.ifds.len() && is_reduced(#[trigger] set.ifds@[i].entries@, buffer, endian)
                    ==> o <= set.ifds@[i].offset
        },
        None => forall|i: int|
            0 <= i < set.ifds.len() ==> !is_reduced(#[trigger] set.ifds@[i].entries@, buffer, endian),
    }
}

/// Whether the directory is a reduced-resolution image.
pub fn is_reduced_resolution(ifd: &IFD, buffer: &Vec<u8>, endian: Endian) -> (r: bool)
    ensures
        r == is_reduced(ifd.entries@, buffer@, endian),
{
    reveal(is_reduced);
    match ifd.entry(NEW_SUBFILE_TYPE) {
        None => false,
        Some(entry) => match entry.get_entry_values(buffer, endian) {
            Ok(EntryData::Single(v)) => match v.to_u32() {
                Ok(n) => n == 1,
                Err(_) => false,
            },
            _ => false,
        },
    }
}

impl IFDs {
    /// The offset of the reduced-resolution directory with the smallest offset.
    pub fn select_thumbnail(&self, buffer: &Vec<u8>, endian: Endian) -> (r: Option<usize>)
        ensures
            thumbnail_choice(self, buffer@, endian, r),
    {
        let mut best: Option<usize> = None;
        let mut i: usize = 0;
        while i < self.ifds.len()
            invariant
                i <= self.ifds.len(),
                match best {
                    Some(o) => {
                        &&& exists|j: int|
                            0 <= j < i && self.ifds@[j].offset == o && is_reduced(
                                #[trigger] self.ifds@[j].entries@,
                                buffer@,
                                endian,
                            )
                        &&& forall|j: int|
                            0 <= j < i && is_reduced(#[trigger] self.ifds@[j].entries@, buffer@, endian)
                                ==> o <= self.ifds@[j].offset
                    },
                    None => forall|j: int|
                        0 <= j < i ==> !is_reduced(#[trigger] self.ifds@[j].entries@, buffer@, endian),
                },
            decreases self.ifds.len() - i,
        {
            let ifd = &self.ifds[i];
            if is_reduced_resolution(ifd, buffer, endian) {
                best = match best {
                    Some(o) => if ifd.offset < o {
                        Some(ifd.offset)
                    } else {
                        Some(o)
                    },
                    None => Some(ifd.offset),
                };
            }
            i = i + 1;
        }
        best
    }
}

} // verus!

verus! {

/// The values of a required tag, or `MissingRequiredTag` when it is absent.
pub open spec fn tag_values(entries: Map<u16, DirectoryEntry>, buffer: Seq<u8>, endian: Endian, tag: u16) -> Result<
    Seq<DataType>,
    DngError,
> {
    if !entries.contains_key(tag) {
        Err(DngError::MissingRequiredTag(tag))
    } else {
        entry_values(entries[tag], buffer, endian)
    }
}

/// A required tag with one value, read as an integer no larger than `max`.
pub open spec fn scalar_tag(
    entries: Map<u16, DirectoryEntry>,
    buffer: Seq<u8>,
    endian: Endian,
    tag: u16,
    max: int,
) -> Result<int, DngError> {
    match tag_values(entries, buffer, endian, tag) {
        Err(e) => Err(e),
        Ok(vs) => if vs.len() == 1 {
            bounded_value(vs[0], max)
        } else {
            Err(DngError::UnsupportedCoercion)
        },
    }
}

/// A required tag with any number of values, each read as a `u16`.
pub open spec fn list_tag(entries: Map<u16, DirectoryEntry>, buffer: Seq<u8>, endian: Endian, tag: u16) -> Result<
    Seq<int>,
    DngError,
> {
    match tag_values(entries, buffer, endian, tag) {
        Err(e) => Err(e),
        Ok(vs) => bounded_values(vs, u16::MAX as int),
    }
}

/// The error of a result, if it is one.
pub open spec fn failure<T>(r: Result<T, DngError>) -> Option<DngError> {
    match r {
        Ok(_) => None,
        Err(e) => Some(e),
    }
}

/// The first of two possible errors.
pub open spec fn first_of(a: Option<DngError>, b: Option<DngError>) -> Option<DngError> {
    if a is Some {
        a
    } else {
        b
    }
}

/// The value of an integer result, or 0 for an error.
pub open spec fn value_of(r: Result<int, DngError>) -> int {
    match r {
        Ok(n) => n,
        Err(_) => 0,
    }
}

/// The largest value that the type of each required scalar tag holds.
pub open spec fn tag_max(tag: u16) -> int {
    if tag == STRIP_OFFSETS || tag == STRIP_BYTE_COUNTS {
        usize::MAX as int
    } else if tag == IMAGE_WIDTH || tag == IMAGE_LENGTH || tag == ROWS_PER_STRIP || tag
        == PLANAR_CONFIGURATION {
        u32::MAX as int
    } else {
        u16::MAX as int
    }
}

/// The value of a required scalar tag.
pub open spec fn tag(entries: Map<u16, DirectoryEntry>, buffer: Seq<u8>, endian: Endian, t: u16) -> Result<
    int,
    DngError,
> {
    scalar_tag(entries, buffer, endian, t, tag_max(t))
}

/// The first required tag, in the order below, that is absent or does not
/// resolve to a value of its type.
pub open spec fn tag_failure(m: Map<u16, DirectoryEntry>, b: Seq<u8>, e: Endian) -> Option<DngError> {
    first_of(
        failure(tag(m, b, e, IMAGE_WIDTH)),
        first_of(
            failure(tag(m, b, e, IMAGE_LENGTH)),
            first_of(
                failure(list_tag(m, b, e, BITS_PER_SAMPLE)),
                first_of(
                    failure(tag(m, b, e, COMPRESSION)),
                    first_of(
                        failure(tag(m, b, e, PHOTOMETRIC_INTERPRETATION)),
                        first_of(
                            failure(tag(m, b, e, STRIP_OFFSETS)),
                            first_of(
                                failure(tag(m, b, e, ORIENTATION)),
                                first_of(
                                    failure(tag(m, b, e, SAMPLES_PER_PIXEL)),
                                    first_of(
                                        failure(tag(m, b, e, ROWS_PER_STRIP)),
                                        first_of(
                                            failure(tag(m, b, e, STRIP_BYTE_COUNTS)),
                                            failure(tag(m, b, e, PLANAR_CONFIGURATION)),
                                        ),
                                    ),
                                ),
                            ),
                        ),
                    ),
                ),
            ),
        ),
    )
}

/// The first requirement of the supported layout that the tags break.
pub open spec fn layout_issue(m: Map<u16, DirectoryEntry>, b: Seq<u8>, e: Endian) -> Option<LayoutIssue> {
    if list_tag(m, b, e, BITS_PER_SAMPLE) != Ok::<Seq<int>, DngError>(seq![8int, 8, 8]) {
        Some(LayoutIssue::BitsPerSample)
    } else if tag(m, b, e, COMPRESSION) != Ok::<int, DngError>(1) {
        Some(LayoutIssue::Compression)
    } else if tag(m, b, e, PHOTOMETRIC_INTERPRETATION) != Ok::<int, DngError>(2) {
        Some(LayoutIssue::PhotometricInterpretation)
    } else if tag(m, b, e, ORIENTATION) != Ok::<int, DngError>(1) {
        Some(LayoutIssue::Orientation)
    } else if tag(m, b, e, SAMPLES_PER_PIXEL) != Ok::<int, DngError>(3) {
        Some(LayoutIssue::SamplesPerPixel)
    } else if tag(m, b, e, ROWS_PER_STRIP) != tag(m, b, e, IMAGE_LENGTH) {
        Some(LayoutIssue::RowsPerStrip)
    } else if tag(m, b, e, PLANAR_CONFIGURATION) != Ok::<int, DngError>(1) {
        Some(LayoutIssue::PlanarConfiguration)
    } else {
        None
    }
}

/// Where the strip starts.
pub open spec fn strip_start(m: Map<u16, DirectoryEntry>, b: Seq<u8>, e: Endian) -> int {
    value_of(tag(m, b, e, STRIP_OFFSETS))
}

/// How many bytes the strip holds.
pub open spec fn strip_len(m: Map<u16, DirectoryEntry>, b: Seq<u8>, e: Endian) -> int {
    value_of(tag(m, b, e, STRIP_BYTE_COUNTS))
}

/// Why the directory yields no thumbnail: a required tag, the layout, or a
/// strip that runs past the end of the buffer; none when it yields one.
pub open spec fn thumbnail_failure(m: Map<u16, DirectoryEntry>, b: Seq<u8>, e: Endian) -> Option<DngError> {
    first_of(
        tag_failure(m, b, e),
        match layout_issue(m, b, e) {
            Some(issue) => Some(DngError::UnsupportedThumbnailLayout(issue)),
            None => if fits(b, strip_start(m, b, e), strip_len(m, b, e)) {
                None
            } else {
                Some(DngError::OutOfBounds)
            },
        },
    )
}

/// `r` is the thumbnail that the directory with these entries yields.
#[verifier::opaque]
pub open spec fn extracted(
    r: Result<ThumbnailImage, DngError>,
    m: Map<u16, DirectoryEntry>,
    b: Seq<u8>,
    e: Endian,
) -> bool {
    match r {
        Ok(img) => {
            &&& thumbnail_failure(m, b, e) is None
            &&& img.pixel_data@ == b.subrange(strip_start(m, b, e), strip_start(m, b, e) + strip_len(m, b, e))
            &&& img.width == value_of(tag(m, b, e, IMAGE_WIDTH))
            &&& img.height == value_of(tag(m, b, e, IMAGE_LENGTH))
        },
        Err(err) => thumbnail_failure(m, b, e) == Some(err),
    }
}

fn required_values(ifd: &IFD, buffer: &Vec<u8>, endian: Endian, tag: u16) -> (r: Result<EntryData, DngError>)
    ensures
        match r {
            Ok(d) => tag_values(ifd.entries@, buffer@, endian, tag) == Ok::<Seq<DataType>, DngError>(d.values())
                && (d is Single <==> d.values().len() == 1),
            Err(e) => tag_values(ifd.entries@, buffer@, endian, tag) == Err::<Seq<DataType>, DngError>(e),
        },
{
    match ifd.entry(tag) {
        None => Err(DngError::MissingRequiredTag(tag)),
        Some(entry) => {
            entry.get_entry_values(buffer, endian)
        },
    }
}

fn required_u32(ifd: &IFD, buffer: &Vec<u8>, endian: Endian, tag: u16) -> (r: Result<u32, DngError>)
    ensures
        match r {
            Ok(n) => scalar_tag(ifd.entries@, buffer@, endian, tag, u32::MAX as int) == Ok::<int, DngError>(n as int),
            Err(e) => scalar_tag(ifd.entries@, buffer@, endian, tag, u32::MAX as int) == Err::<int, DngError>(e),
        },
{
    match required_values(ifd, buffer, endian, tag) {
        Err(e) => Err(e),
        Ok(EntryData::Single(v)) => v.to_u32(),
        Ok(EntryData::Multiple(_)) => Err(DngError::UnsupportedCoercion),
    }
}

fn required_u16(ifd: &IFD, buffer: &Vec<u8>, endian: Endian, tag: u16) -> (r: Result<u16, DngError>)
    ensures
        match r {
            Ok(n) => scalar_tag(ifd.entries@, buffer@, endian, tag, u16::MAX as int) == Ok::<int, DngError>(n as int),
            Err(e) => scalar_tag(ifd.entries@, buffer@, endian, tag, u16::MAX as int) == Err::<int, DngError>(e),
        },
{
    match required_values(ifd, buffer, endian, tag) {
        Err(e) => Err(e),
        Ok(EntryData::Single(v)) => v.to_u16(),
        Ok(EntryData::Multiple(_)) => Err(DngError::UnsupportedCoercion),
    }
}

fn required_usize(ifd: &IFD, buffer: &Vec<u8>, endian: Endian, tag: u16) -> (r: Result<usize, DngError>)
    ensures
        match r {
            Ok(n) => scalar_tag(ifd.entries@, buffer@, endian, tag, usize::MAX as int) == Ok::<int, DngError>(n as int),
            Err(e) => scalar_tag(ifd.entries@, buffer@, endian, tag, usize::MAX as int) == Err::<int, DngError>(e),
        },
{
    match required_values(ifd, buffer, endian, tag) {
        Err(e) => Err(e),
        Ok(EntryData::Single(v)) => v.to_usize(),
        Ok(EntryData::Multiple(_)) => Err(DngError::UnsupportedCoercion),
    }
}

fn required_u16_list(ifd: &IFD, buffer: &Vec<u8>, endian: Endian, tag: u16) -> (r: Result<Vec<u16>, DngError>)
    ensures
        match r {
            Ok(v) => list_tag(ifd.entries@, buffer@, endian, tag) == Ok::<Seq<int>, DngError>(
                v@.map_values(|x: u16| x as int),
            ),
            Err(e) => list_tag(ifd.entries@, buffer@, endian, tag) == Err::<Seq<int>, DngError>(e),
        },
{
    match required_values(ifd, buffer, endian, tag) {
        Err(e) => Err(e),
        Ok(d) => to_u16_list(&d.to_vec()),
    }
}

/// Extracts the thumbnail that the directory describes: reads its required
/// tags, checks that they describe a supported layout, and copies the strip's
/// bytes from the buffer.
pub fn extract_thumbnail(ifd: &IFD, buffer: &Vec<u8>, endian: Endian) -> (r: Result<ThumbnailImage, DngError>)
    ensures
        extracted(r, ifd.entries@, buffer@, endian),
{
    reveal(extracted);
    let ghost m = ifd.entries@;
    let ghost b = buffer@;
    let width = match required_u32(ifd, buffer, endian, IMAGE_WIDTH) {
        Ok(v) => v,
        Err(e) => return Err(e),
    };
    let height = match required_u32(ifd, buffer, endian, IMAGE_LENGTH) {
        Ok(v) => v,
        Err(e) => return Err(e),
    };
    let bits = match required_u16_list(ifd, buffer, endian, BITS_PER_SAMPLE) {
        Ok(v) => v,
        Err(e) => return Err(e),
    };
    let compression = match required_u16(ifd, buffer, endian, COMPRESSION) {
        Ok(v) => v,
        Err(e) => return Err(e),
    };
    let photometric = match required_u16(ifd, buffer, endian, PHOTOMETRIC_INTERPRETATION) {
        Ok(v) => v,
        Err(e) => return Err(e),
    };
    let strip_offset = match required_usize(ifd, buffer, endian, STRIP_OFFSETS) {
        Ok(v) => v,
        Err(e) => return Err(e),
    };
    let orientation = match required_u16(ifd, buffer, endian, ORIENTATION) {
        Ok(v) => v,
        Err(e) => return Err(e),
    };
    let samples_per_pixel = match required_u16(ifd, buffer, endian, SAMPLES_PER_PIXEL) {
        Ok(v) => v,
        Err(e) => return Err(e),
    };
    let rows_per_strip = match required_u32(ifd, buffer, endian, ROWS_PER_STRIP) {
        Ok(v) => v,
        Err(e) => return Err(e),
    };
    let strip_byte_count = match required_usize(ifd, buffer, endian, STRIP_BYTE_COUNTS) {
        Ok(v) => v,
        Err(e) => return Err(e),
    };
    let planar = match required_u32(ifd, buffer, endian, PLANAR_CONFIGURATION) {
        Ok(v) => v,
        Err(e) => return Err(e),
    };
    assert(tag_failure(m, b, endian) is None);
    let eight_bit_rgb = bits.len() == 3 && bits[0] == 8 && bits[1] == 8 && bits[2] == 8;
    assert(eight_bit_rgb <==> bits@.map_values(|x: u16| x as int) =~= seq![8int, 8, 8]) by {
        if bits@.map_values(|x: u16| x as int) =~= seq![8int, 8, 8] {
            assert(bits@.map_values(|x: u16| x as int)[0] == 8);
            assert(bits@.map_values(|x: u16| x as int)[1] == 8);
            assert(bits@.map_values(|x: u16| x as int)[2] == 8);
        }
    }
    if !eight_bit_rgb {
        return Err(DngError::UnsupportedThumbnailLayout(LayoutIssue::BitsPerSample));
    }
    if compression != 1 {
        return Err(DngError::UnsupportedThumbnailLayout(LayoutIssue::Compression));
    }
    if photometric != 2 {
        return Err(DngError::UnsupportedThumbnailLayout(LayoutIssue::PhotometricInterpretation));
    }
    if orientation != 1 {
        return Err(DngError::UnsupportedThumbnailLayout(LayoutIssue::Orientation));
    }
    if samples_per_pixel != 3 {
        return Err(DngError::UnsupportedThumbnailLayout(LayoutIssue::SamplesPerPixel));
    }
    if rows_per_strip != height {
        return Err(DngError::UnsupportedThumbnailLayout(LayoutIssue::RowsPerStrip));
    }
    if planar != 1 {
        return Err(DngError::UnsupportedThumbnailLayout(LayoutIssue::PlanarConfiguration));
    }
    let len = buffer.len();
    if strip_offset > len || len - strip_offset < strip_byte_count {
        return Err(DngError::OutOfBounds);
    }
    let mut pixel_data: Vec<u8> = Vec::new();
    let mut i: usize = 0;
    while i < strip_byte_count
        invariant
            i <= strip_byte_count,
            len == buffer@.len(),
            strip_offset + strip_byte_count <= len,
            pixel_data@ == buffer@.subrange(strip_offset as int, strip_offset + i),
        decreases strip_byte_count - i,
    {
        pixel_data.push(buffer[strip_offset + i]);
        i = i + 1;
        assert(pixel_data@ =~= buffer@.subrange(strip_offset as int, strip_offset + i));
    }
    Ok(ThumbnailImage { pixel_data, width, height })
}

} // verus!

verus! {

/// `r` is what extracting the chosen thumbnail of `set` gives: the
/// thumbnail that its directory yields, or `ThumbnailNotFound` when no
/// directory was chosen.
pub open spec fn thumbnail_outcome(
    set: &IFDs,
    buffer: Seq<u8>,
    endian: Endian,
    r: Result<ThumbnailImage, DngError>,
) -> bool {
    match set.thumbnail {
        None => r == Err::<ThumbnailImage, DngError>(DngError::ThumbnailNotFound),
        Some(o) => if set.contains(o) {
            exists|i: int|
                0 <= i < set.ifds.len() && set.ifds@[i].offset == o && extracted(
                    r,
                    #[trigger] set.ifds@[i].entries@,
                    buffer,
                    endian,
                )
        } else {
            r == Err::<ThumbnailImage, DngError>(DngError::ThumbnailNotFound)
        },
    }
}

impl IFDs {
    /// Extracts the thumbnail chosen when the tree was resolved;
    /// `ThumbnailNotFound` when no directory is a reduced-resolution image.
    pub fn thumbnail_image(&self, buffer: &Vec<u8>, endian: Endian) -> (r: Result<ThumbnailImage, DngError>)
        ensures
            thumbnail_outcome(self, buffer@, endian, r),
    {
        match self.thumbnail {
            None => Err(DngError::ThumbnailNotFound),
            Some(o) => match self.position(o) {
                Some(i) => {
                    assert(self.offsets()[i as int] == o);
                    let r = extract_thumbnail(&self.ifds[i], buffer, endian);
                    assert(extracted(r, self.ifds@[i as int].entries@, buffer@, endian));
                    r
                },
                None => Err(DngError::ThumbnailNotFound),
            },
        }
    }
}

/// A thumbnail directory whose required tags all resolve but whose
/// Compression is not 1 is refused as an unsupported layout.
pub proof fn lemma_compressed_thumbnail_unsupported(
    entries: Map<u16, DirectoryEntry>,
    buffer: Seq<u8>,
    endian: Endian,
)
    requires
        tag_failure(entries, buffer, endian) is None,
        tag(entries, buffer, endian, COMPRESSION) != Ok::<int, DngError>(1),
    ensures
        thumbnail_failure(entries, buffer, endian) matches Some(
            DngError::UnsupportedThumbnailLayout(_),
        ),
{
}

} // verus!
