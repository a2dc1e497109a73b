//! One image file directory: a table of entries keyed by tag.
use vstd::prelude::*;

use std::collections::HashMap;

use crate::entry::DirectoryEntry;
use crate::error::DngError;
use crate::get_value::{fits, long_at, read_u16, read_u32, short_at};
use crate::Endian;

verus! {

/// Bytes of one directory record.
pub const ENTRY_SIZE: usize = 12;

/// A parsed directory, identified by the absolute offset it was read from.
///
/// A tag that occurs twice keeps its later record.
#[derive(Debug)]
pub struct IFD {
    pub offset: usize,
    pub numb_of_entries: u16,
    pub entries: HashMap<u16, DirectoryEntry>,
}

/// Position of the `i`-th record of the directory at `offset`.
pub open spec fn record_offset(offset: int, i: int) -> int {
    offset + 2 + ENTRY_SIZE * i
}

/// The `i`-th record of the directory at `offset`.
pub open spec fn record_at(buffer: Seq<u8>, offset: int, i: int, endian: Endian) -> DirectoryEntry {
    let at = record_offset(offset, i);
    DirectoryEntry {
        tag: short_at(buffer, at, endian) as u16,
        data_type: short_at(buffer, at + 2, endian) as u16,
        count: long_at(buffer, at + 4, endian) as usize,
        value_or_offset: long_at(buffer, at + 8, endian) as u32,
    }
}

/// The table of the first `n` records, each keyed by its tag, later records
/// replacing earlier ones with the same tag.
pub open spec fn records_map(buffer: Seq<u8>, offset: int, n: nat, endian: Endian) -> Map<
    u16,
    DirectoryEntry,
>
    decreases n,
{
    if n == 0 {
        Map::empty()
    } else {
        let rec = record_at(buffer, offset, n - 1, endian);
        records_map(buffer, offset, (n - 1) as nat, endian).insert(rec.tag, rec)
    }
}

/// The number of records of the directory at `offset`.
pub open spec fn entry_count(buffer: Seq<u8>, offset: int, endian: Endian) -> int {
    short_at(buffer, offset, endian)
}

/// The entry table of the directory at `offset`, or `OutOfBounds` when the
/// count or a record lies past the end of the buffer.
pub open spec fn ifd_spec(buffer: Seq<u8>, offset: int, endian: Endian) -> Result<
    Map<u16, DirectoryEntry>,
    DngError,
> {
    if !fits(buffer, offset, 2) {
        Err(DngError::OutOfBounds)
    } else if !fits(buffer, offset + 2, ENTRY_SIZE * entry_count(buffer, offset, endian)) {
        Err(DngError::OutOfBounds)
    } else {
        Ok(records_map(buffer, offset, entry_count(buffer, offset, endian) as nat, endian))
    }
}

impl IFD {
    /// Parses the directory at `offset`: a 16-bit count, then that many
    /// 12-byte records. The next-directory field after the records is not
    /// followed.
    pub fn parse_ifd(buffer: &Vec<u8>, offset: usize, endian: Endian) -> (r: Result<Self, DngError>)
        ensures
            match r {
                Ok(ifd) => ifd.offset == offset && ifd_spec(buffer@, offset as int, endian)
                    == Ok::<Map<u16, DirectoryEntry>, DngError>(ifd.entries@)
                    && ifd.numb_of_entries == entry_count(buffer@, offset as int, endian),
                Err(e) => ifd_spec(buffer@, offset as int, endian) == Err::<
                    Map<u16, DirectoryEntry>,
                    DngError,
                >(e),
            },
    {
        let len = buffer.len();
        if offset > len || len - offset < 2 {
            return Err(DngError::OutOfBounds);
        }
        let count = read_u16(buffer, offset, endian);
        let n = count as usize;
        if (len - offset - 2) / ENTRY_SIZE < n {
            return Err(DngError::OutOfBounds);
        }
        let mut entries: HashMap<u16, DirectoryEntry> = HashMap::new();
        let mut i: usize = 0;
        while i < n
            invariant
                i <= n,
                n == entry_count(buffer@, offset as int, endian),
                len == buffer@.len(),
                fits(buffer@, offset + 2, ENTRY_SIZE * n),
                entries@ == records_map(buffer@, offset as int, i as nat, endian),
            decreases n - i,
        {
            let at = offset + 2 + ENTRY_SIZE * i;
            let tag = read_u16(buffer, at, endian);
            let data_type = read_u16(buffer, at + 2, endian);
            let count = read_u32(buffer, at + 4, endian) as usize;
            let value_or_offset = read_u32(buffer, at + 8, endian);
            entries.insert(tag, DirectoryEntry { tag, data_type, count, value_or_offset });
            i = i + 1;
        }
        Ok(IFD { offset, numb_of_entries: count, entries })
    }

    /// The entry with the given tag, if the directory has one.
    pub fn entry(&self, tag: u16) -> (r: Option<DirectoryEntry>)
        ensures
            r == (if self.entries@.contains_key(tag) {
                Some(self.entries@[tag])
            } else {
                None
            }),
    {
        match self.entries.get(&tag) {
            Some(e) => Some(*e),
            None => None,
        }
    }
}

} // verus!
