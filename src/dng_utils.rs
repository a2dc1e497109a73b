//! The file header's byte-order marker and magic byte, and the value-type width table.
use vstd::prelude::*;

use crate::error::DngError;
use crate::get_value::{byte, fits, short, short_at};
use crate::{Endian, WordSize};

verus! {

/// The byte-order marker "II" (little-endian).
pub const LITTLE_ENDIAN_MARK: u16 = 0x4949;

/// The byte-order marker "MM" (big-endian).
pub const BIG_ENDIAN_MARK: u16 = 0x4D4D;

/// Magic byte of classic 32-bit TIFF.
pub const MAGIC_CLASSIC: u8 = 42;

/// Magic byte of the 64-bit (BigTIFF style) variant.
pub const MAGIC_BIG: u8 = 43;

/// The byte order named by the first two bytes, read as a big-endian probe.
pub open spec fn endian_spec(buffer: Seq<u8>) -> Result<Endian, DngError> {
    if !fits(buffer, 0, 2) {
        Err(DngError::OutOfBounds)
    } else if short_at(buffer, 0, Endian::Big) == LITTLE_ENDIAN_MARK {
        Ok(Endian::Little)
    } else if short_at(buffer, 0, Endian::Big) == BIG_ENDIAN_MARK {
        Ok(Endian::Big)
    } else {
        Err(DngError::InvalidHeader)
    }
}

/// Position of the magic byte: the low byte of the 16-bit value 42 or 43,
/// which comes first in a little-endian file and second in a big-endian one.
pub open spec fn magic_index(endian: Endian) -> int {
    match endian {
        Endian::Little => 2,
        Endian::Big => 3,
    }
}

/// The word size named by the magic byte.
pub open spec fn word_size_spec(buffer: Seq<u8>, endian: Endian) -> Result<WordSize, DngError> {
    let i = magic_index(endian);
    if !fits(buffer, i, 1) {
        Err(DngError::OutOfBounds)
    } else if buffer[i] == MAGIC_CLASSIC {
        Ok(WordSize::Thirtytwo)
    } else if buffer[i] == MAGIC_BIG {
        Ok(WordSize::Sixtyfour)
    } else {
        Err(DngError::InvalidHeader)
    }
}

/// Bytes per value of each TIFF value type; 0 for a code outside 1 to 12.
pub open spec fn width_of(data_type: u16) -> int {
    if data_type == 1 || data_type == 2 || data_type == 6 || data_type == 7 {
        1
    } else if data_type == 3 || data_type == 8 {
        2
    } else if data_type == 4 || data_type == 9 || data_type == 11 {
        4
    } else if data_type == 5 || data_type == 10 || data_type == 12 {
        8
    } else {
        0
    }
}

/// Reads the byte-order marker at the start of the file.
pub fn get_endian(buffer: &Vec<u8>) -> (r: Result<Endian, DngError>)
    ensures
        r == endian_spec(buffer@),
{
    match short(buffer, 0, Endian::Big) {
        Err(e) => Err(e),
        Ok(LITTLE_ENDIAN_MARK) => Ok(Endian::Little),
        Ok(BIG_ENDIAN_MARK) => Ok(Endian::Big),
        Ok(_) => Err(DngError::InvalidHeader),
    }
}

/// Reads the format magic byte of a file with the given byte order.
pub fn get_word_size(buffer: &Vec<u8>, endian: Endian) -> (r: Result<WordSize, DngError>)
    ensures
        r == word_size_spec(buffer@, endian),
{
    let idx: usize = match endian {
        Endian::Little => 2,
        Endian::Big => 3,
    };
    match byte(buffer, idx) {
        Err(e) => Err(e),
        Ok(MAGIC_CLASSIC) => Ok(WordSize::Thirtytwo),
        Ok(MAGIC_BIG) => Ok(WordSize::Sixtyfour),
        Ok(_) => Err(DngError::InvalidHeader),
    }
}

/// Bytes per value of a TIFF value type; `UnknownType` outside 1 to 12.
pub fn get_bytes_per_value_for_type(data_type: u16) -> (r: Result<u16, DngError>)
    ensures
        match r {
            Ok(w) => w == width_of(data_type) && w > 0,
            Err(e) => width_of(data_type) == 0 && e == DngError::UnknownType,
        },
{
    match data_type {
        1 | 2 | 6 | 7 => Ok(1),
        3 | 8 => Ok(2),
        4 | 9 | 11 => Ok(4),
        5 | 10 | 12 => Ok(8),
        _ => Err(DngError::UnknownType),
    }
}

} // verus!
