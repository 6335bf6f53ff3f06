//! Error taxonomies of the archive reader.
//!
//! `FormatError` is fatal to opening an archive: no catalog is produced and
//! no partially parsed archive ever exists. `ExtractError` is fatal only to
//! the single extraction call that raised it.
use vstd::prelude::*;

verus! {

/// A violation of the container format found while opening an archive.
#[derive(Debug, Clone, Copy, PartialEq, Eq, Structural)]
pub enum FormatError {
    /// The first four bytes are not the fixed signature.
    BadSignature,
    /// The version code is none of the three recognized ones.
    UnsupportedVersion,
    /// The archive flags word is nonzero (the patch-archive variant).
    UnsupportedArchiveFlags,
    /// The source ends before the fixed-size header.
    TruncatedHeader,
    /// The source ends before the bytes an entry record requires.
    TruncatedEntry,
    /// A record's declared size is too small for its name and fixed fields,
    /// or its declared name size is odd.
    EntrySizeMismatch,
    /// A record's flags word names a compression scheme other than
    /// stored or LZMA.
    UnsupportedCompressionTag,
}

/// A failure of a single extraction call.
#[derive(Debug, Clone, Copy, PartialEq, Eq, Structural)]
pub enum ExtractError {
    /// The entry's byte span lies outside the archive.
    Io,
    /// The entry's compressed frame is malformed or does not decode.
    Codec,
}

/// Either kind of failure, as surfaced by [`crate::try_extract`].
#[derive(Debug, Clone, Copy, PartialEq, Eq, Structural)]
pub enum IroError {
    Format(FormatError),
    Extract(ExtractError),
}

impl FormatError {
    /// A short description, in place of a `Display` implementation.
    pub fn describe(&self) -> (s: &'static str)
    {
        match self {
            FormatError::BadSignature => "bad archive signature",
            FormatError::UnsupportedVersion => "unsupported archive version",
            FormatError::UnsupportedArchiveFlags => "unsupported archive flags",
            FormatError::TruncatedHeader => "truncated header",
            FormatError::TruncatedEntry => "truncated entry record",
            FormatError::EntrySizeMismatch => "entry size mismatch",
            FormatError::UnsupportedCompressionTag => "unsupported compression tag",
        }
    }
}

impl ExtractError {
    /// A short description, in place of a `Display` implementation.
    pub fn describe(&self) -> (s: &'static str)
    {
        match self {
            ExtractError::Io => "entry data out of range",
            ExtractError::Codec => "compressed frame malformed",
        }
    }
}

} // verus!
