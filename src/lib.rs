use vstd::prelude::*;

pub mod error;
pub mod dng_utils;
pub mod get_value;
pub mod entry;
pub mod header;
pub mod ifd;
pub mod ifds;
pub mod thumbnail;

pub use entry::{DataType, DirectoryEntry, EntryData};
pub use error::{DngError, LayoutIssue};
pub use header::ImageFileHeader;
pub use ifd::IFD;
pub use ifds::IFDs;
pub use thumbnail::ThumbnailImage;

use header::header_spec;
use ifds::{resolved_tree, tree_acyclic, tree_failure, tree_resolvable};
use thumbnail::thumbnail_outcome;

verus! {

/// Byte order of every multi-byte value in the file.
#[derive(Clone, Copy, Debug, PartialEq, Eq, Structural)]
pub enum Endian {
    Big,
    Little,
}

/// The format variant named by the header's magic byte.
#[derive(Clone, Copy, Debug, PartialEq, Eq, Structural)]
pub enum WordSize {
    Thirtytwo,
    Sixtyfour,
}

} // verus!

verus! {

/// A parsed DNG file: its header, its directory tree, and the bytes it was
/// parsed from.
#[derive(Debug)]
pub struct DNG {
    pub image_file_header: ImageFileHeader,
    pub ifds: IFDs,
    pub encoded_image: Vec<u8>,
}

impl DNG {
    /// Parses the header and resolves the directory tree of a whole file.
    pub fn from_encoded_vec(encoded_image: Vec<u8>) -> (r: Result<Self, DngError>)
        ensures
            match r {
                Ok(dng) => {
                    &&& header_spec(encoded_image@) == Ok::<ImageFileHeader, DngError>(
                        dng.image_file_header,
                    )
                    &&& dng.encoded_image@ == encoded_image@
                    &&& resolved_tree(
                        &dng.ifds,
                        encoded_image@,
                        dng.image_file_header.endian,
                        dng.image_file_header.ifd_offset,
                    )
                },
                Err(e) => match header_spec(encoded_image@) {
                    Err(h) => h == e,
                    Ok(h) => tree_failure(encoded_image@, h.endian, h.ifd_offset, e),
                },
            },
            r is Ok <==> match header_spec(encoded_image@) {
                Err(_) => false,
                Ok(h) => tree_resolvable(encoded_image@, h.endian, h.ifd_offset) && tree_acyclic(
                    encoded_image@,
                    h.endian,
                    h.ifd_offset,
                ),
            },
    {
        let image_file_header = match ImageFileHeader::parse_image_header(&encoded_image) {
            Ok(h) => h,
            Err(e) => return Err(e),
        };
        let ifds = match IFDs::parse_ifds(&encoded_image, &image_file_header) {
            Ok(s) => s,
            Err(e) => return Err(e),
        };
        Ok(DNG { image_file_header, ifds, encoded_image })
    }

    /// Extracts the file's thumbnail (see `IFDs::thumbnail_image`).
    pub fn thumbnail(&self) -> (r: Result<ThumbnailImage, DngError>)
        ensures
            thumbnail_outcome(&self.ifds, self.encoded_image@, self.image_file_header.endian, r),
    {
        self.ifds.thumbnail_image(&self.encoded_image, self.image_file_header.endian)
    }
}

} // verus!
