//! The eight-byte image file header.
use vstd::prelude::*;

use crate::dng_utils::{endian_spec, get_endian, get_word_size, word_size_spec};
use crate::error::DngError;
use crate::get_value::{fits, long, long_at};
use crate::{Endian, WordSize};

verus! {

/// Byte order, format variant and the offset of the first directory.
#[derive(Clone, Copy, Debug, PartialEq, Eq, Structural)]
pub struct ImageFileHeader {
    pub endian: Endian,
    pub word_size: WordSize,
    pub ifd_offset: usize,
}

/// The header that `buffer` begins with, or the first reason it has none.
pub open spec fn header_spec(buffer: Seq<u8>) -> Result<ImageFileHeader, DngError> {
    match endian_spec(buffer) {
        Err(e) => Err(e),
        Ok(endian) => match word_size_spec(buffer, endian) {
            Err(e) => Err(e),
            Ok(word_size) => if fits(buffer, 4, 4) {
                Ok(
                    ImageFileHeader {
                        endian,
                        word_size,
                        ifd_offset: long_at(buffer, 4, endian) as usize,
                    },
                )
            } else {
                Err(DngError::OutOfBounds)
            },
        },
    }
}

impl ImageFileHeader {
    /// Reads the byte-order marker (bytes 0-1), the magic byte and the first
    /// directory offset (bytes 4-7, in the file's byte order).
    pub fn parse_image_header(encoded_image: &Vec<u8>) -> (r: Result<Self, DngError>)
        ensures
            r == header_spec(encoded_image@),
    {
        let endian = match get_endian(encoded_image) {
            Ok(e) => e,
            Err(e) => return Err(e),
        };
        let word_size = match get_word_size(encoded_image, endian) {
            Ok(w) => w,
            Err(e) => return Err(e),
        };
        match long(encoded_image, 4, endian) {
            Ok(offset) => Ok(Self { endian, word_size, ifd_offset: offset as usize }),
            Err(e) => Err(e),
        }
    }
}

} // verus!

verus! {

/// A buffer whose first two bytes are neither "II" nor "MM" holds no header:
/// parsing it fails with `InvalidHeader`.
pub proof fn lemma_unknown_byte_order_is_invalid(buffer: Seq<u8>)
    requires
        buffer.len() >= 2,
        !(buffer[0] == 0x49 && buffer[1] == 0x49),
        !(buffer[0] == 0x4D && buffer[1] == 0x4D),
    ensures
        header_spec(buffer) == Err::<ImageFileHeader, DngError>(DngError::InvalidHeader),
{
}

} // verus!
