//! The mathematical model of the container format.
//!
//! These spec functions define, byte for byte, what a well-formed archive
//! contains: a 16-byte header, then `entry_count` self-describing records.
//! Every executable parser in this crate is proved to return exactly what
//! this model says, whichever I/O backend it runs over.
use vstd::prelude::*;

use crate::entry::Compression;
use crate::entry::EntryModel;
use crate::entry::Version;
use crate::errors::FormatError;
use crate::le::le16_at;
use crate::le::le32_at;
use crate::le::le64_at;
use crate::names::decoded_name;

verus! {

/// Byte length of the fixed-size archive header.
pub const HEADER_SIZE: usize = 16;

/// True when the source opens with the fixed four-byte signature "IROS".
pub open spec fn has_signature(data: Seq<u8>) -> bool {
    &&& data.len() >= 4
    &&& data[0] == 0x49u8
    &&& data[1] == 0x52u8
    &&& data[2] == 0x4Fu8
    &&& data[3] == 0x53u8
}

/// The version named by a header's version code, if recognized.
pub open spec fn version_of_code(code: u32) -> Option<Version> {
    if code == 0x10000 {
        Some(Version::V0)
    } else if code == 0x10001 {
        Some(Version::V1)
    } else if code == 0x10002 {
        Some(Version::V2)
    } else {
        None
    }
}

/// The compression tag named by a record's flags word, if recognized.
pub open spec fn compression_of_flags(flags: u32) -> Option<Compression> {
    if flags == 0 {
        Some(Compression::Stored)
    } else if flags == 2 {
        Some(Compression::LZMA)
    } else {
        None
    }
}

/// What a parsed header contributes: the version (which fixes the offset
/// field width of every following record) and the record count.
pub ghost struct HeaderModel {
    pub version: Version,
    pub entry_count: u32,
}

/// The header borne by the first 16 bytes: signature, version code,
/// archive flags (which must be zero), and entry count, each checked in
/// that order.
pub open spec fn spec_header(data: Seq<u8>) -> Result<HeaderModel, FormatError> {
    if data.len() < HEADER_SIZE {
        Err(FormatError::TruncatedHeader)
    } else if !has_signature(data) {
        Err(FormatError::BadSignature)
    } else if le32_at(data, 8) != 0 {
        Err(FormatError::UnsupportedArchiveFlags)
    } else {
        match version_of_code(le32_at(data, 4)) {
            None => Err(FormatError::UnsupportedVersion),
            Some(v) => Ok(
                (HeaderModel { version: v, entry_count: le32_at(data, 12) }),
            ),
        }
    }
}

/// Byte width of a record's fields besides the name: the two size words,
/// the flags word, the offset (4 or 8 bytes), and the length word.
pub open spec fn entry_fixed_width(wide: bool) -> int {
    if wide {
        20
    } else {
        16
    }
}

/// The entry record at byte position `pos`, and the position of the next
/// record: the cursor advances by the record's own declared `entry_size`,
/// so trailing vendor padding inside a record is tolerated. Fails when
/// the declared sizes are inconsistent (`EntrySizeMismatch`) or when the
/// source ends before the declared record does (`TruncatedEntry`).
pub open spec fn spec_entry(data: Seq<u8>, pos: int, wide: bool) -> Result<
    (EntryModel, int),
    FormatError,
> {
    if pos + 4 > data.len() {
        Err(FormatError::TruncatedEntry)
    } else {
        let entry_size = le16_at(data, pos) as int;
        let name_size = le16_at(data, pos + 2) as int;
        if name_size % 2 != 0 || entry_size < name_size + entry_fixed_width(wide) {
            Err(FormatError::EntrySizeMismatch)
        } else if pos + entry_size > data.len() {
            Err(FormatError::TruncatedEntry)
        } else {
            let fpos = pos + 4 + name_size;
            let flags = le32_at(data, fpos);
            match compression_of_flags(flags) {
                None => Err(FormatError::UnsupportedCompressionTag),
                Some(comp) => Ok(
                    (
                        (EntryModel {
                            name: decoded_name(data.subrange(pos + 4, pos + 4 + name_size)),
                            offset: if wide {
                                le64_at(data, fpos + 4)
                            } else {
                                le32_at(data, fpos + 4) as u64
                            },
                            length: le32_at(data, fpos + 4 + (if wide { 8int } else { 4int })) as u64,
                            compression: comp,
                        }),
                        pos + entry_size,
                    ),
                ),
            }
        }
    }
}

/// The `count` consecutive entry records starting at `pos`, or the first
/// record's failure. The offset width `wide` is chosen once from the
/// header's version and reused for every record.
pub open spec fn spec_entries(data: Seq<u8>, pos: int, count: int, wide: bool) -> Result<
    Seq<EntryModel>,
    FormatError,
> decreases count,
{
    if count <= 0 {
        Ok(Seq::empty())
    } else {
        match spec_entry(data, pos, wide) {
            Err(e) => Err(e),
            Ok(first) => match spec_entries(data, first.1, count - 1, wide) {
                Err(e) => Err(e),
                Ok(rest) => Ok(seq![first.0] + rest),
            },
        }
    }
}

/// The whole catalog borne by an archive's bytes: the header, then its
/// `entry_count` records in on-disk order, every record decoded with the
/// offset width of the header's version.
pub open spec fn spec_catalog(data: Seq<u8>) -> Result<Seq<EntryModel>, FormatError> {
    match spec_header(data) {
        Err(e) => Err(e),
        Ok(h) => spec_entries(
            data,
            HEADER_SIZE as int,
            h.entry_count as int,
            h.version.spec_offset_width() == 8,
        ),
    }
}

/// Each of the three version codes parses, under a matching signature and
/// zero flags, to its version, and the catalog is then read entirely with
/// that version's offset width.
pub proof fn lemma_version_codes(data: Seq<u8>)
    requires
        data.len() >= HEADER_SIZE,
        has_signature(data),
        le32_at(data, 8) == 0,
    ensures
        le32_at(data, 4) == 0x10000 ==> spec_header(data) == Ok::<HeaderModel, FormatError>(
            (HeaderModel { version: Version::V0, entry_count: le32_at(data, 12) }),
        ) && Version::V0.spec_offset_width() == 4,
        le32_at(data, 4) == 0x10001 ==> spec_header(data) == Ok::<HeaderModel, FormatError>(
            (HeaderModel { version: Version::V1, entry_count: le32_at(data, 12) }),
        ) && Version::V1.spec_offset_width() == 8,
        le32_at(data, 4) == 0x10002 ==> spec_header(data) == Ok::<HeaderModel, FormatError>(
            (HeaderModel { version: Version::V2, entry_count: le32_at(data, 12) }),
        ) && Version::V2.spec_offset_width() == 8,
        spec_header(data) matches Ok(h) ==> spec_catalog(data) == spec_entries(
            data,
            HEADER_SIZE as int,
            h.entry_count as int,
            h.version.spec_offset_width() == 8,
        ),
{
}

/// A header whose archive-flags word is nonzero never yields a catalog:
/// opening fails with `UnsupportedArchiveFlags`.
pub proof fn lemma_nonzero_flags_rejected(data: Seq<u8>)
    requires
        data.len() >= HEADER_SIZE,
        has_signature(data),
        le32_at(data, 8) != 0,
    ensures
        spec_catalog(data) == Err::<Seq<EntryModel>, FormatError>(
            FormatError::UnsupportedArchiveFlags,
        ),
{
}

/// A record whose declared `entry_size` is smaller than its name size
/// plus the fixed field width fails with `EntrySizeMismatch`.
pub proof fn lemma_entry_size_mismatch(data: Seq<u8>, pos: int, wide: bool)
    requires
        0 <= pos,
        pos + 4 <= data.len(),
        le16_at(data, pos) < le16_at(data, pos + 2) + entry_fixed_width(wide),
    ensures
        spec_entry(data, pos, wide) == Err::<(EntryModel, int), FormatError>(
            FormatError::EntrySizeMismatch,
        ),
{
}

/// Parsing a record never depends on bytes past its declared boundary:
/// two sources that agree on the four size bytes agree on whether the
/// record's sizes are inconsistent, and two sources that agree on the
/// whole declared record span parse it to the same entry.
pub proof fn lemma_entry_reads_within_boundary(d1: Seq<u8>, d2: Seq<u8>, pos: int, wide: bool)
    requires
        0 <= pos,
        pos + 4 <= d1.len(),
        pos + 4 <= d2.len(),
        forall|i: int| pos <= i < pos + 4 ==> d1[i] == d2[i],
    ensures
        spec_entry(d1, pos, wide) == Err::<(EntryModel, int), FormatError>(
            FormatError::EntrySizeMismatch,
        ) <==> spec_entry(d2, pos, wide) == Err::<(EntryModel, int), FormatError>(
            FormatError::EntrySizeMismatch,
        ),
        pos + le16_at(d1, pos) <= d1.len() && pos + le16_at(d1, pos) <= d2.len() && (forall|i: int|
            pos <= i < pos + le16_at(d1, pos) ==> d1[i] == d2[i]) ==> spec_entry(d1, pos, wide)
            == spec_entry(d2, pos, wide),
{
    crate::le::lemma_le_fields_local(d1, d2, pos);
    crate::le::lemma_le_fields_local(d1, d2, pos + 2);
    let entry_size = le16_at(d1, pos) as int;
    let name_size = le16_at(d1, pos + 2) as int;
    if pos + entry_size <= d1.len() && pos + entry_size <= d2.len() && (forall|i: int|
        pos <= i < pos + entry_size ==> d1[i] == d2[i]) {
        if !(name_size % 2 != 0 || entry_size < name_size + entry_fixed_width(wide)) {
            let fpos = pos + 4 + name_size;
            crate::le::lemma_le_fields_local(d1, d2, fpos);
            crate::le::lemma_le_fields_local(d1, d2, fpos + 4);
            crate::le::lemma_le_fields_local(d1, d2, fpos + 4 + (if wide { 8int } else { 4int }));
            assert(d1.subrange(pos + 4, pos + 4 + name_size) =~= d2.subrange(
                pos + 4,
                pos + 4 + name_size,
            ));
        }
    }
}

} // verus!
