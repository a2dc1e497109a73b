//! Tagged values, and the resolution of one directory entry into its values.
use vstd::prelude::*;

use crate::dng_utils::{get_bytes_per_value_for_type, width_of};
use crate::error::DngError;
use crate::get_value::{
    ascii, byte, double, fits, float, long, long_at, quad_at, rational, read_u16, read_u32,
    read_u64, rsational, sbyte, short, short_at, signed, slong, sshort, to_i16, to_i32, to_i8,
    undefined,
};
use crate::Endian;

verus! {

/// One value of a directory entry, in the type its entry declares.
///
/// `Float` and `Double` carry the bit pattern of the IEEE value.
#[derive(Clone, Copy, Debug, PartialEq)]
pub enum DataType {
    Byte(u8),
    Ascii(u8),
    Short(u16),
    Long(u32),
    Rational([u32; 2]),
    Sbyte(i8),
    Undefined(u8),
    Sshort(i16),
    Slong(i32),
    Srational([i32; 2]),
    Float(u32),
    Double(u64),
}

/// The value of type `data_type` whose bytes start at `offset`.
pub open spec fn decode(buffer: Seq<u8>, data_type: u16, offset: int, endian: Endian) -> DataType {
    if data_type == 1 {
        DataType::Byte(buffer[offset])
    } else if data_type == 2 {
        DataType::Ascii(buffer[offset])
    } else if data_type == 3 {
        DataType::Short(short_at(buffer, offset, endian) as u16)
    } else if data_type == 4 {
        DataType::Long(long_at(buffer, offset, endian) as u32)
    } else if data_type == 5 {
        DataType::Rational(
            [long_at(buffer, offset, endian) as u32, long_at(buffer, offset + 4, endian) as u32],
        )
    } else if data_type == 6 {
        DataType::Sbyte(signed(buffer[offset] as int, 0x80) as i8)
    } else if data_type == 7 {
        DataType::Undefined(buffer[offset])
    } else if data_type == 8 {
        DataType::Sshort(signed(short_at(buffer, offset, endian), 0x8000) as i16)
    } else if data_type == 9 {
        DataType::Slong(signed(long_at(buffer, offset, endian), 0x8000_0000) as i32)
    } else if data_type == 10 {
        DataType::Srational(
            [
                signed(long_at(buffer, offset, endian), 0x8000_0000) as i32,
                signed(long_at(buffer, offset + 4, endian), 0x8000_0000) as i32,
            ],
        )
    } else if data_type == 11 {
        DataType::Float(long_at(buffer, offset, endian) as u32)
    } else {
        DataType::Double(quad_at(buffer, offset, endian) as u64)
    }
}

/// The value of type `data_type` at `offset`, or why it cannot be read.
pub open spec fn value_at(buffer: Seq<u8>, data_type: u16, offset: int, endian: Endian) -> Result<
    DataType,
    DngError,
> {
    if width_of(data_type) == 0 {
        Err(DngError::UnknownType)
    } else if !fits(buffer, offset, width_of(data_type)) {
        Err(DngError::OutOfBounds)
    } else {
        Ok(decode(buffer, data_type, offset, endian))
    }
}

/// The value as a non-negative integer: unsigned and signed integer types
/// convert, a negative value overflows, rationals and floating-point values
/// have no integer reading.
pub open spec fn unsigned_value(v: DataType) -> Result<int, DngError> {
    match v {
        DataType::Byte(u) => Ok(u as int),
        DataType::Ascii(u) => Ok(u as int),
        DataType::Undefined(u) => Ok(u as int),
        DataType::Short(u) => Ok(u as int),
        DataType::Long(u) => Ok(u as int),
        DataType::Sbyte(i) => if i >= 0 {
            Ok(i as int)
        } else {
            Err(DngError::NumericOverflow)
        },
        DataType::Sshort(i) => if i >= 0 {
            Ok(i as int)
        } else {
            Err(DngError::NumericOverflow)
        },
        DataType::Slong(i) => if i >= 0 {
            Ok(i as int)
        } else {
            Err(DngError::NumericOverflow)
        },
        _ => Err(DngError::UnsupportedCoercion),
    }
}

/// The value as an integer no larger than `max`.
pub open spec fn bounded_value(v: DataType, max: int) -> Result<int, DngError> {
    match unsigned_value(v) {
        Ok(n) => if n <= max {
            Ok(n)
        } else {
            Err(DngError::NumericOverflow)
        },
        Err(e) => Err(e),
    }
}

/// `r` is the integer result that `spec` describes.
pub open spec fn coerced<T: Integer>(r: Result<T, DngError>, spec: Result<int, DngError>) -> bool {
    match r {
        Ok(n) => spec == Ok::<int, DngError>(n as int),
        Err(e) => spec == Err::<int, DngError>(e),
    }
}

impl DataType {
    /// Reads one value of type `data_type` at `offset`.
    pub fn get_entry_value(buffer: &Vec<u8>, data_type: u16, offset: usize, endian: Endian) -> (r:
        Result<Self, DngError>)
        ensures
            r == value_at(buffer@, data_type, offset as int, endian),
    {
        match data_type {
            1 => match byte(buffer, offset) {
                Ok(v) => Ok(DataType::Byte(v)),
                Err(e) => Err(e),
            },
            2 => match ascii(buffer, offset) {
                Ok(v) => Ok(DataType::Ascii(v)),
                Err(e) => Err(e),
            },
            3 => match short(buffer, offset, endian) {
                Ok(v) => Ok(DataType::Short(v)),
                Err(e) => Err(e),
            },
            4 => match long(buffer, offset, endian) {
                Ok(v) => Ok(DataType::Long(v)),
                Err(e) => Err(e),
            },
            5 => match rational(buffer, offset, endian) {
                Ok(v) => Ok(DataType::Rational(v)),
                Err(e) => Err(e),
            },
            6 => match sbyte(buffer, offset) {
                Ok(v) => Ok(DataType::Sbyte(v)),
                Err(e) => Err(e),
            },
            7 => match undefined(buffer, offset) {
                Ok(v) => Ok(DataType::Undefined(v)),
                Err(e) => Err(e),
            },
            8 => match sshort(buffer, offset, endian) {
                Ok(v) => Ok(DataType::Sshort(v)),
                Err(e) => Err(e),
            },
            9 => match slong(buffer, offset, endian) {
                Ok(v) => Ok(DataType::Slong(v)),
                Err(e) => Err(e),
            },
            10 => match rsational(buffer, offset, endian) {
                Ok(v) => Ok(DataType::Srational(v)),
                Err(e) => Err(e),
            },
            11 => match float(buffer, offset, endian) {
                Ok(v) => Ok(DataType::Float(v)),
                Err(e) => Err(e),
            },
            12 => match double(buffer, offset, endian) {
                Ok(v) => Ok(DataType::Double(v)),
                Err(e) => Err(e),
            },
            _ => Err(DngError::UnknownType),
        }
    }

    fn unsigned(&self) -> (r: Result<u32, DngError>)
        ensures
            coerced(r, unsigned_value(*self)),
    {
        match *self {
            DataType::Byte(u) => Ok(u as u32),
            DataType::Ascii(u) => Ok(u as u32),
            DataType::Undefined(u) => Ok(u as u32),
            DataType::Short(u) => Ok(u as u32),
            DataType::Long(u) => Ok(u),
            DataType::Sbyte(i) => if i >= 0 {
                Ok(i as u32)
            } else {
                Err(DngError::NumericOverflow)
            },
            DataType::Sshort(i) => if i >= 0 {
                Ok(i as u32)
            } else {
                Err(DngError::NumericOverflow)
            },
            DataType::Slong(i) => if i >= 0 {
                Ok(i as u32)
            } else {
                Err(DngError::NumericOverflow)
            },
            _ => Err(DngError::UnsupportedCoercion),
        }
    }

    /// The value as a `u32`.
    pub fn to_u32(&self) -> (r: Result<u32, DngError>)
        ensures
            coerced(r, bounded_value(*self, u32::MAX as int)),
    {
        self.unsigned()
    }

    /// The value as a `usize`.
    pub fn to_usize(&self) -> (r: Result<usize, DngError>)
        ensures
            coerced(r, bounded_value(*self, usize::MAX as int)),
    {
        match self.unsigned() {
            Ok(n) => Ok(n as usize),
            Err(e) => Err(e),
        }
    }

    /// The value as a `u16`.
    pub fn to_u16(&self) -> (r: Result<u16, DngError>)
        ensures
            coerced(r, bounded_value(*self, u16::MAX as int)),
    {
        match self.unsigned() {
            Ok(n) => if n <= u16::MAX as u32 {
                Ok(n as u16)
            } else {
                Err(DngError::NumericOverflow)
            },
            Err(e) => Err(e),
        }
    }
}

} // verus!

verus! {

/// The decoded values of one directory entry.
#[derive(Debug)]
pub enum EntryData {
    Single(DataType),
    Multiple(Vec<DataType>),
}

impl EntryData {
    /// The values in file order.
    pub open spec fn values(&self) -> Seq<DataType> {
        match self {
            EntryData::Single(v) => seq![*v],
            EntryData::Multiple(vs) => vs@,
        }
    }

    /// The values in file order, as a vector.
    pub fn to_vec(&self) -> (r: Vec<DataType>)
        ensures
            r@ == self.values(),
    {
        match self {
            EntryData::Single(v) => vec![*v],
            EntryData::Multiple(vs) => {
                let mut out: Vec<DataType> = Vec::new();
                let mut i: usize = 0;
                while i < vs.len()
                    invariant
                        i <= vs.len(),
                        out@ == vs@.subrange(0, i as int),
                    decreases vs.len() - i,
                {
                    out.push(vs[i]);
                    i = i + 1;
                    assert(out@ =~= vs@.subrange(0, i as int));
                }
                assert(out@ =~= vs@);
                out
            },
        }
    }
}

/// One 12-byte record of a directory.
#[derive(Clone, Copy, Debug, PartialEq, Eq, Structural)]
pub struct DirectoryEntry {
    pub tag: u16,
    pub data_type: u16,
    pub count: usize,
    pub value_or_offset: u32,
}

/// The four bytes of the value field as they stand in the file: the field was
/// read as a 32-bit value in the file's byte order, so they are recovered in
/// that same order. Inline values are then read from these bytes exactly as
/// they would be from the file.
pub open spec fn inline_bytes(value_or_offset: u32, endian: Endian) -> Seq<u8> {
    let b3 = (value_or_offset / 0x100_0000) as u8;
    let b2 = (value_or_offset / 0x1_0000 % 0x100) as u8;
    let b1 = (value_or_offset / 0x100 % 0x100) as u8;
    let b0 = (value_or_offset % 0x100) as u8;
    match endian {
        Endian::Big => seq![b3, b2, b1, b0],
        Endian::Little => seq![b0, b1, b2, b3],
    }
}

/// `count` consecutive values of type `data_type` starting at `start`.
pub open spec fn values_from(
    bytes: Seq<u8>,
    data_type: u16,
    start: int,
    count: nat,
    endian: Endian,
) -> Seq<DataType> {
    Seq::new(count, |i: int| decode(bytes, data_type, start + i * width_of(data_type), endian))
}

/// The values of `entry`: inline in its value field when they take at most
/// four bytes, else at the absolute offset that the field holds.
pub open spec fn entry_values(entry: DirectoryEntry, buffer: Seq<u8>, endian: Endian) -> Result<
    Seq<DataType>,
    DngError,
> {
    let w = width_of(entry.data_type);
    if w == 0 {
        Err(DngError::UnknownType)
    } else if w * entry.count <= 4 {
        Ok(
            values_from(
                inline_bytes(entry.value_or_offset, endian),
                entry.data_type,
                0,
                entry.count as nat,
                endian,
            ),
        )
    } else if fits(buffer, entry.value_or_offset as int, w * entry.count) {
        Ok(values_from(buffer, entry.data_type, entry.value_or_offset as int, entry.count as nat, endian))
    } else {
        Err(DngError::OutOfBounds)
    }
}

/// `r` is the resolution of `entry`: its values, as `Single` exactly when
/// there is one.
pub open spec fn resolved(
    r: Result<EntryData, DngError>,
    entry: DirectoryEntry,
    buffer: Seq<u8>,
    endian: Endian,
) -> bool {
    match r {
        Ok(d) => entry_values(entry, buffer, endian) == Ok::<Seq<DataType>, DngError>(d.values())
            && (d is Single <==> entry.count == 1),
        Err(e) => entry_values(entry, buffer, endian) == Err::<Seq<DataType>, DngError>(e),
    }
}

fn field_bytes(value_or_offset: u32, endian: Endian) -> (r: Vec<u8>)
    ensures
        r@ == inline_bytes(value_or_offset, endian),
{
    let b3 = (value_or_offset / 0x100_0000) as u8;
    let b2 = (value_or_offset / 0x1_0000 % 0x100) as u8;
    let b1 = (value_or_offset / 0x100 % 0x100) as u8;
    let b0 = (value_or_offset % 0x100) as u8;
    let r = match endian {
        Endian::Big => vec![b3, b2, b1, b0],
        Endian::Little => vec![b0, b1, b2, b3],
    };
    assert(r@ =~= inline_bytes(value_or_offset, endian));
    r
}

fn decode_at(buffer: &Vec<u8>, data_type: u16, offset: usize, endian: Endian) -> (r: DataType)
    requires
        width_of(data_type) > 0,
        fits(buffer@, offset as int, width_of(data_type)),
    ensures
        r == decode(buffer@, data_type, offset as int, endian),
{
    // The type is known and the value lies inside the buffer, so the read
    // cannot fail; the second arm is never taken.
    match DataType::get_entry_value(buffer, data_type, offset, endian) {
        Ok(v) => v,
        Err(_) => DataType::Byte(0),
    }
}

fn read_values(buffer: &Vec<u8>, data_type: u16, start: usize, width: usize, count: usize, endian: Endian) -> (r: Vec<DataType>)
    requires
        width == width_of(data_type),
        width > 0,
        fits(buffer@, start as int, width * count),
    ensures
        r@ == values_from(buffer@, data_type, start as int, count as nat, endian),
{
    let len = buffer.len();
    let mut out: Vec<DataType> = Vec::new();
    let mut i: usize = 0;
    while i < count
        invariant
            i <= count,
            len == buffer@.len(),
            width == width_of(data_type),
            width > 0,
            fits(buffer@, start as int, width * count),
            out@ == values_from(buffer@, data_type, start as int, i as nat, endian),
        decreases count - i,
    {
        assert(i * width + width <= count * width) by (nonlinear_arith)
            requires
                i < count,
        ;
        assert(i * width == width * i) by (nonlinear_arith);
        let offset = start + i * width;
        out.push(decode_at(buffer, data_type, offset, endian));
        i = i + 1;
        assert(out@ =~= values_from(buffer@, data_type, start as int, i as nat, endian));
    }
    out
}

impl DirectoryEntry {
    /// Decodes the values of this entry from `buffer`.
    ///
    /// When the values take at most four bytes they are read from the value
    /// field itself, in its bytes as the file holds them; otherwise from the
    /// buffer at the offset the field gives.
    pub fn get_entry_values(&self, buffer: &Vec<u8>, endian: Endian) -> (r: Result<EntryData, DngError>)
        ensures
            resolved(r, *self, buffer@, endian),
    {
        let width = match get_bytes_per_value_for_type(self.data_type) {
            Ok(w) => w as usize,
            Err(e) => return Err(e),
        };
        let count = self.count;
        assert(count <= 4 ==> width * count <= 32) by (nonlinear_arith)
            requires
                width <= 8,
        ;
        let values = if count <= 4 && width * count <= 4 {
            let bytes = field_bytes(self.value_or_offset, endian);
            read_values(&bytes, self.data_type, 0, width, count, endian)
        } else {
            assert(width * count > 4) by (nonlinear_arith)
                requires
                    width >= 1,
                    !(count <= 4 && width * count <= 4),
            ;
            let start = self.value_or_offset as usize;
            let len = buffer.len();
            assert(count * width <= 8 * count) by (nonlinear_arith)
                requires
                    width <= 8,
            ;
            assert(width * count == count * width) by (nonlinear_arith);
            if start > len || ((len - start) as u128) < (count as u128) * (width as u128) {
                return Err(DngError::OutOfBounds);
            }
            read_values(buffer, self.data_type, start, width, count, endian)
        };
        if count == 1 {
            assert(seq![values@[0]] =~= values@);
            Ok(EntryData::Single(values[0]))
        } else {
            Ok(EntryData::Multiple(values))
        }
    }
}

} // verus!

verus! {

/// Each value as an integer no larger than `max`, or the error of the first
/// value that is not one.
pub open spec fn bounded_values(values: Seq<DataType>, max: int) -> Result<Seq<int>, DngError>
    decreases values.len(),
{
    if values.len() == 0 {
        Ok(Seq::empty())
    } else {
        match bounded_values(values.drop_last(), max) {
            Err(e) => Err(e),
            Ok(s) => match bounded_value(values.last(), max) {
                Err(e) => Err(e),
                Ok(n) => Ok(s.push(n)),
            },
        }
    }
}

proof fn lemma_bounded_error_persists(values: Seq<DataType>, max: int, k: int)
    requires
        0 <= k <= values.len(),
        bounded_values(values.subrange(0, k), max) is Err,
    ensures
        bounded_values(values, max) == bounded_values(values.subrange(0, k), max),
    decreases values.len() - k,
{
    if k < values.len() {
        assert(values.subrange(0, k + 1).drop_last() =~= values.subrange(0, k));
        lemma_bounded_error_persists(values, max, k + 1);
    } else {
        assert(values.subrange(0, k) =~= values);
    }
}

/// Each value as a `u16`, or the error of the first value that is not one.
pub fn to_u16_list(values: &Vec<DataType>) -> (r: Result<Vec<u16>, DngError>)
    ensures
        match r {
            Ok(v) => bounded_values(values@, u16::MAX as int) == Ok::<Seq<int>, DngError>(
                v@.map_values(|x: u16| x as int),
            ),
            Err(e) => bounded_values(values@, u16::MAX as int) == Err::<Seq<int>, DngError>(e),
        },
{
    let mut out: Vec<u16> = Vec::new();
    let mut i: usize = 0;
    assert(values@.subrange(0, 0) =~= Seq::<DataType>::empty());
    assert(out@.map_values(|x: u16| x as int) =~= Seq::<int>::empty());
    while i < values.len()
        invariant
            i <= values.len(),
            bounded_values(values@.subrange(0, i as int), u16::MAX as int) == Ok::<
                Seq<int>,
                DngError,
            >(out@.map_values(|x: u16| x as int)),
        decreases values.len() - i,
    {
        assert(values@.subrange(0, i + 1).drop_last() =~= values@.subrange(0, i as int));
        match values[i].to_u16() {
            Ok(n) => {
                let ghost prev = out@;
                out.push(n);
                assert(out@.map_values(|x: u16| x as int) =~= prev.map_values(|x: u16| x as int).push(
                    n as int,
                ));
            },
            Err(e) => {
                proof {
                    lemma_bounded_error_persists(values@, u16::MAX as int, i + 1);
                }
                return Err(e);
            },
        }
        i = i + 1;
    }
    assert(values@.subrange(0, i as int) =~= values@);
    Ok(out)
}

} // verus!

verus! {

/// The value field recovers the four bytes it was read from.
proof fn lemma_field_bytes(buffer: Seq<u8>, at: int, endian: Endian)
    requires
        fits(buffer, at, 4),
    ensures
        inline_bytes(long_at(buffer, at, endian) as u32, endian) == buffer.subrange(at, at + 4),
{
    let (b0, b1, b2, b3) = match endian {
        Endian::Little => (buffer[at], buffer[at + 1], buffer[at + 2], buffer[at + 3]),
        Endian::Big => (buffer[at + 3], buffer[at + 2], buffer[at + 1], buffer[at]),
    };
    let v = long_at(buffer, at, endian);
    assert(v == b3 * 0x100_0000 + b2 * 0x1_0000 + b1 * 0x100 + b0);
    assert(v % 0x100 == b0 && v / 0x100 % 0x100 == b1 && v / 0x1_0000 % 0x100 == b2 && v / 0x100_0000
        == b3) by (nonlinear_arith)
        requires
            v == b3 * 0x100_0000 + b2 * 0x1_0000 + b1 * 0x100 + b0,
            0 <= b0 < 0x100,
            0 <= b1 < 0x100,
            0 <= b2 < 0x100,
            0 <= b3 < 0x100,
    ;
    assert(inline_bytes(v as u32, endian) =~= buffer.subrange(at, at + 4));
}

/// Values that fit in four bytes are the bytes of the entry's own value
/// field, read exactly as they stand in the file at position `at`.
pub proof fn lemma_inline_values_are_field_bytes(
    entry: DirectoryEntry,
    buffer: Seq<u8>,
    at: int,
    endian: Endian,
)
    requires
        fits(buffer, at, 4),
        entry.value_or_offset == long_at(buffer, at, endian),
        width_of(entry.data_type) > 0,
        width_of(entry.data_type) * entry.count <= 4,
    ensures
        entry_values(entry, buffer, endian) == Ok::<Seq<DataType>, DngError>(
            values_from(buffer, entry.data_type, at, entry.count as nat, endian),
        ),
{
    lemma_field_bytes(buffer, at, endian);
    let w = width_of(entry.data_type);
    let field = inline_bytes(entry.value_or_offset, endian);
    assert forall|j: int| 0 <= j < entry.count implies #[trigger] decode(
        field,
        entry.data_type,
        j * w,
        endian,
    ) == decode(buffer, entry.data_type, at + j * w, endian) by {
        assert(j * w + w <= entry.count * w) by (nonlinear_arith)
            requires
                j < entry.count,
                w > 0,
        ;
        assert(j * w >= 0) by (nonlinear_arith)
            requires
                j >= 0,
                w > 0,
        ;
        assert(w * entry.count == entry.count * w) by (nonlinear_arith);
        assert(field[j * w] == buffer[at + j * w]);
        if w >= 2 {
            assert(field[j * w + 1] == buffer[at + j * w + 1]);
        }
        if w >= 4 {
            assert(field[j * w + 2] == buffer[at + j * w + 2]);
            assert(field[j * w + 3] == buffer[at + j * w + 3]);
        }
    }
    assert(values_from(field, entry.data_type, 0, entry.count as nat, endian) =~= values_from(
        buffer,
        entry.data_type,
        at,
        entry.count as nat,
        endian,
    ));
}

/// Values that take more than four bytes come from the buffer at the offset
/// in the value field, one every `width` bytes: the `j`-th is the value that
/// `get_entry_value` reads there.
pub proof fn lemma_offset_values(entry: DirectoryEntry, buffer: Seq<u8>, endian: Endian, j: int)
    requires
        width_of(entry.data_type) > 0,
        width_of(entry.data_type) * entry.count > 4,
        fits(buffer, entry.value_or_offset as int, width_of(entry.data_type) * entry.count),
        0 <= j < entry.count,
    ensures
        entry_values(entry, buffer, endian) matches Ok(vs) && value_at(
            buffer,
            entry.data_type,
            entry.value_or_offset + j * width_of(entry.data_type),
            endian,
        ) == Ok::<DataType, DngError>(vs[j]),
{
    let w = width_of(entry.data_type);
    assert(j * w + w <= w * entry.count) by (nonlinear_arith)
        requires
            j < entry.count,
            w > 0,
    ;
    assert(j * w >= 0) by (nonlinear_arith)
        requires
            j >= 0,
            w > 0,
    ;
}

} // verus!
