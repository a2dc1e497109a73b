use vstd::prelude::*;

verus! {

/// The part of a thumbnail directory that lies outside the supported layout
/// (single strip, uncompressed, chunky RGB with eight bits per sample).
#[derive(Clone, Copy, Debug, PartialEq, Eq, Structural)]
pub enum LayoutIssue {
    BitsPerSample,
    Compression,
    PhotometricInterpretation,
    Orientation,
    SamplesPerPixel,
    RowsPerStrip,
    PlanarConfiguration,
}

/// Every failure that parsing a DNG buffer can report.
#[derive(Clone, Copy, Debug, PartialEq, Eq, Structural)]
pub enum DngError {
    /// The byte-order marker or the format magic byte is not recognised.
    InvalidHeader,
    /// A read would go past the end of the buffer.
    OutOfBounds,
    /// A directory entry names a value type outside 1 to 12.
    UnknownType,
    /// The Sub-IFD pointers lead back to a directory already on the path.
    CyclicStructure,
    /// The thumbnail directory lacks the tag given.
    MissingRequiredTag(u16),
    /// The thumbnail directory is not a single-strip uncompressed RGB8 image.
    UnsupportedThumbnailLayout(LayoutIssue),
    /// No directory is marked as a reduced-resolution image.
    ThumbnailNotFound,
    /// A value does not fit the integer type asked for (or is negative).
    NumericOverflow,
    /// A value of this type cannot be read as an integer.
    UnsupportedCoercion,
}

} // verus!
