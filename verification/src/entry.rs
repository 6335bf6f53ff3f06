//! The persistent catalog data: one [`Entry`] per payload record of the
//! archive, plus the compression tag and version code enumerations.
use vstd::prelude::*;

verus! {

/// How an entry's payload bytes are encoded on disk.
#[derive(Debug, Clone, Copy, PartialEq, Eq, Structural)]
pub enum Compression {
    /// Payload bytes are copied verbatim.
    Stored,
    /// Payload is an 8-byte frame header followed by a raw LZMA1 stream.
    LZMA,
}

/// The recognized archive version codes.
#[derive(Debug, Clone, Copy, PartialEq, Eq, Structural)]
pub enum Version {
    V0,
    V1,
    V2,
}

impl Version {
    /// Byte width of the per-record offset field: 32-bit for V0,
    /// 64-bit for V1 and V2.
    pub open spec fn spec_offset_width(self) -> int {
        match self {
            Version::V0 => 4,
            Version::V1 => 8,
            Version::V2 => 8,
        }
    }

    /// Executable twin of [`Version::spec_offset_width`].
    pub fn offset_width(self) -> (w: usize)
        ensures
            w == self.spec_offset_width(),
    {
        match self {
            Version::V0 => 4,
            Version::V1 => 8,
            Version::V2 => 8,
        }
    }
}

/// The mathematical image of one catalog entry.
pub ghost struct EntryModel {
    pub name: Seq<char>,
    pub offset: u64,
    pub length: u64,
    pub compression: Compression,
}

/// One named payload record of an open archive: its decoded name, the byte
/// span `[offset, offset + length)` it occupies on disk, and its
/// compression tag. Index position in the catalog is the extraction handle.
#[derive(Debug, Clone)]
pub struct Entry {
    pub offset: u64,
    pub length: u64,
    pub name: String,
    pub compression: Compression,
}

impl View for Entry {
    type V = EntryModel;

    open spec fn view(&self) -> EntryModel {
        EntryModel {
            name: self.name@,
            offset: self.offset,
            length: self.length,
            compression: self.compression,
        }
    }
}

impl DeepView for Entry {
    type V = EntryModel;

    open spec fn deep_view(&self) -> EntryModel {
        self.view()
    }
}

} // verus!
