//! Endian-aware reads of the TIFF scalar types from a byte buffer.
//!
//! Each read checks that the whole value lies inside the buffer and fails with
//! `OutOfBounds` otherwise. Multi-byte values are composed byte by byte, so the
//! result does not depend on the byte order of the machine.
use vstd::prelude::*;

use crate::error::DngError;
use crate::Endian;

verus! {

/// `width` bytes starting at `offset` lie inside `buffer`.
pub open spec fn fits(buffer: Seq<u8>, offset: int, width: int) -> bool {
    0 <= offset && offset + width <= buffer.len()
}

/// The unsigned 16-bit value of the two bytes at `offset`.
pub open spec fn short_at(buffer: Seq<u8>, offset: int, endian: Endian) -> int {
    match endian {
        Endian::Big => buffer[offset] * 256 + buffer[offset + 1],
        Endian::Little => buffer[offset + 1] * 256 + buffer[offset],
    }
}

/// The unsigned 32-bit value of the four bytes at `offset`.
pub open spec fn long_at(buffer: Seq<u8>, offset: int, endian: Endian) -> int {
    match endian {
        Endian::Big => short_at(buffer, offset, endian) * 0x1_0000 + short_at(
            buffer,
            offset + 2,
            endian,
        ),
        Endian::Little => short_at(buffer, offset + 2, endian) * 0x1_0000 + short_at(
            buffer,
            offset,
            endian,
        ),
    }
}

/// The unsigned 64-bit value of the eight bytes at `offset`.
pub open spec fn quad_at(buffer: Seq<u8>, offset: int, endian: Endian) -> int {
    match endian {
        Endian::Big => long_at(buffer, offset, endian) * 0x1_0000_0000 + long_at(
            buffer,
            offset + 4,
            endian,
        ),
        Endian::Little => long_at(buffer, offset + 4, endian) * 0x1_0000_0000 + long_at(
            buffer,
            offset,
            endian,
        ),
    }
}

/// Two's complement reading of an unsigned value `u` whose type holds `2 * half` values.
pub open spec fn signed(u: int, half: int) -> int {
    if u < half {
        u
    } else {
        u - 2 * half
    }
}

/// The result of a read of `width` bytes at `offset` whose value is `v`.
pub open spec fn read_result<T>(buffer: Seq<u8>, offset: int, width: int, r: Result<T, DngError>, v: T) -> bool {
    match r {
        Ok(x) => fits(buffer, offset, width) && x == v,
        Err(e) => !fits(buffer, offset, width) && e == DngError::OutOfBounds,
    }
}

fn in_buffer(buffer: &Vec<u8>, offset: usize, width: usize) -> (r: bool)
    ensures
        r == fits(buffer@, offset as int, width as int),
        buffer@.len() <= usize::MAX,
{
    offset <= buffer.len() && buffer.len() - offset >= width
}

pub(crate) fn read_u16(buffer: &Vec<u8>, offset: usize, endian: Endian) -> (r: u16)
    requires
        fits(buffer@, offset as int, 2),
    ensures
        r == short_at(buffer@, offset as int, endian),
{
    let _len = buffer.len();
    let b0 = buffer[offset] as u16;
    let b1 = buffer[offset + 1] as u16;
    match endian {
        Endian::Big => b0 * 256 + b1,
        Endian::Little => b1 * 256 + b0,
    }
}

pub(crate) fn read_u32(buffer: &Vec<u8>, offset: usize, endian: Endian) -> (r: u32)
    requires
        fits(buffer@, offset as int, 4),
    ensures
        r == long_at(buffer@, offset as int, endian),
{
    let _len = buffer.len();
    let first = read_u16(buffer, offset, endian) as u32;
    let second = read_u16(buffer, offset + 2, endian) as u32;
    match endian {
        Endian::Big => first * 0x1_0000 + second,
        Endian::Little => second * 0x1_0000 + first,
    }
}

pub(crate) fn read_u64(buffer: &Vec<u8>, offset: usize, endian: Endian) -> (r: u64)
    requires
        fits(buffer@, offset as int, 8),
    ensures
        r == quad_at(buffer@, offset as int, endian),
{
    let _len = buffer.len();
    let first = read_u32(buffer, offset, endian) as u64;
    let second = read_u32(buffer, offset + 4, endian) as u64;
    match endian {
        Endian::Big => first * 0x1_0000_0000 + second,
        Endian::Little => second * 0x1_0000_0000 + first,
    }
}

pub(crate) fn to_i8(u: u8) -> (r: i8)
    ensures
        r == signed(u as int, 0x80),
{
    if u < 0x80 {
        u as i8
    } else {
        (u as i16 - 0x100) as i8
    }
}

pub(crate) fn to_i16(u: u16) -> (r: i16)
    ensures
        r == signed(u as int, 0x8000),
{
    if u < 0x8000 {
        u as i16
    } else {
        (u as i32 - 0x1_0000) as i16
    }
}

pub(crate) fn to_i32(u: u32) -> (r: i32)
    ensures
        r == signed(u as int, 0x8000_0000),
{
    if u < 0x8000_0000 {
        u as i32
    } else {
        (u as i64 - 0x1_0000_0000) as i32
    }
}

/// BYTE: the unsigned byte at `offset`.
pub fn byte(buffer: &Vec<u8>, offset: usize) -> (r: Result<u8, DngError>)
    ensures
        read_result(buffer@, offset as int, 1, r, buffer@[offset as int]),
{
    if offset < buffer.len() {
        Ok(buffer[offset])
    } else {
        Err(DngError::OutOfBounds)
    }
}

/// ASCII: one 7-bit character code, read as its byte.
pub fn ascii(buffer: &Vec<u8>, offset: usize) -> (r: Result<u8, DngError>)
    ensures
        read_result(buffer@, offset as int, 1, r, buffer@[offset as int]),
{
    byte(buffer, offset)
}

/// SHORT: an unsigned 16-bit value.
pub fn short(buffer: &Vec<u8>, offset: usize, endian: Endian) -> (r: Result<u16, DngError>)
    ensures
        read_result(buffer@, offset as int, 2, r, short_at(buffer@, offset as int, endian) as u16),
{
    if in_buffer(buffer, offset, 2) {
        Ok(read_u16(buffer, offset, endian))
    } else {
        Err(DngError::OutOfBounds)
    }
}

/// LONG: an unsigned 32-bit value.
pub fn long(buffer: &Vec<u8>, offset: usize, endian: Endian) -> (r: Result<u32, DngError>)
    ensures
        read_result(buffer@, offset as int, 4, r, long_at(buffer@, offset as int, endian) as u32),
{
    if in_buffer(buffer, offset, 4) {
        Ok(read_u32(buffer, offset, endian))
    } else {
        Err(DngError::OutOfBounds)
    }
}

/// RATIONAL: numerator and denominator, two unsigned 32-bit values.
pub fn rational(buffer: &Vec<u8>, offset: usize, endian: Endian) -> (r: Result<[u32; 2], DngError>)
    ensures
        read_result(
            buffer@,
            offset as int,
            8,
            r,
            [
                long_at(buffer@, offset as int, endian) as u32,
                long_at(buffer@, offset + 4, endian) as u32,
            ],
        ),
{
    if in_buffer(buffer, offset, 8) {
        Ok([read_u32(buffer, offset, endian), read_u32(buffer, offset + 4, endian)])
    } else {
        Err(DngError::OutOfBounds)
    }
}

/// SBYTE: a two's complement signed byte.
pub fn sbyte(buffer: &Vec<u8>, offset: usize) -> (r: Result<i8, DngError>)
    ensures
        read_result(buffer@, offset as int, 1, r, signed(buffer@[offset as int] as int, 0x80) as i8),
{
    if offset < buffer.len() {
        Ok(to_i8(buffer[offset]))
    } else {
        Err(DngError::OutOfBounds)
    }
}

/// UNDEFINED: a byte whose meaning depends on the tag.
pub fn undefined(buffer: &Vec<u8>, offset: usize) -> (r: Result<u8, DngError>)
    ensures
        read_result(buffer@, offset as int, 1, r, buffer@[offset as int]),
{
    byte(buffer, offset)
}

/// SSHORT: a two's complement signed 16-bit value.
pub fn sshort(buffer: &Vec<u8>, offset: usize, endian: Endian) -> (r: Result<i16, DngError>)
    ensures
        read_result(
            buffer@,
            offset as int,
            2,
            r,
            signed(short_at(buffer@, offset as int, endian), 0x8000) as i16,
        ),
{
    if in_buffer(buffer, offset, 2) {
        Ok(to_i16(read_u16(buffer, offset, endian)))
    } else {
        Err(DngError::OutOfBounds)
    }
}

/// SLONG: a two's complement signed 32-bit value.
pub fn slong(buffer: &Vec<u8>, offset: usize, endian: Endian) -> (r: Result<i32, DngError>)
    ensures
        read_result(
            buffer@,
            offset as int,
            4,
            r,
            signed(long_at(buffer@, offset as int, endian), 0x8000_0000) as i32,
        ),
{
    if in_buffer(buffer, offset, 4) {
        Ok(to_i32(read_u32(buffer, offset, endian)))
    } else {
        Err(DngError::OutOfBounds)
    }
}

/// SRATIONAL: numerator and denominator, two signed 32-bit values.
pub fn rsational(buffer: &Vec<u8>, offset: usize, endian: Endian) -> (r: Result<[i32; 2], DngError>)
    ensures
        read_result(
            buffer@,
            offset as int,
            8,
            r,
            [
                signed(long_at(buffer@, offset as int, endian), 0x8000_0000) as i32,
                signed(long_at(buffer@, offset + 4, endian), 0x8000_0000) as i32,
            ],
        ),
{
    if in_buffer(buffer, offset, 8) {
        Ok([to_i32(read_u32(buffer, offset, endian)), to_i32(read_u32(buffer, offset + 4, endian))])
    } else {
        Err(DngError::OutOfBounds)
    }
}

/// FLOAT: the 32-bit pattern of an IEEE single-precision value, in the
/// machine-independent form that `f32::from_bits` takes.
pub fn float(buffer: &Vec<u8>, offset: usize, endian: Endian) -> (r: Result<u32, DngError>)
    ensures
        read_result(buffer@, offset as int, 4, r, long_at(buffer@, offset as int, endian) as u32),
{
    long(buffer, offset, endian)
}

/// DOUBLE: the 64-bit pattern of an IEEE double-precision value, in the
/// machine-independent form that `f64::from_bits` takes.
pub fn double(buffer: &Vec<u8>, offset: usize, endian: Endian) -> (r: Result<u64, DngError>)
    ensures
        read_result(buffer@, offset as int, 8, r, quad_at(buffer@, offset as int, endian) as u64),
{
    if in_buffer(buffer, offset, 8) {
        Ok(read_u64(buffer, offset, endian))
    } else {
        Err(DngError::OutOfBounds)
    }
}

} // verus!
