//! The executable header and entry-table parser, written once over the
//! [`Backend`] cursor contract and proved to return exactly what the
//! format model in [`crate::format`] says.
use vstd::prelude::*;

use vstd::slice::slice_subrange;
use vstd::slice::slice_to_vec;

use crate::backend::Backend;
use crate::entry::Compression;
use crate::entry::Entry;
use crate::entry::EntryModel;
use crate::entry::Version;
use crate::errors::FormatError;
use crate::format::spec_catalog;
use crate::format::spec_entries;
use crate::format::spec_entry;
use crate::format::spec_header;
use crate::format::HeaderModel;
use crate::format::HEADER_SIZE;
use crate::le::read_u16_at;
use crate::le::read_u32_at;
use crate::le::read_u64_at;
use crate::names::decode_archive_name;

verus! {

/// The result of parsing the records that remain, prefixed by the ones
/// already parsed.
pub open spec fn with_prefix(prefix: Seq<EntryModel>, r: Result<Seq<EntryModel>, FormatError>) -> Result<
    Seq<EntryModel>,
    FormatError,
> {
    match r {
        Ok(s) => Ok(prefix + s),
        Err(e) => Err(e),
    }
}

/// Parses the fixed-size header at the start of the content: validates
/// the signature and the flags word, and yields the version and the
/// entry count, exactly as [`spec_header`] says.
pub fn parse_header<B: Backend>(c: &mut B) -> (r: Result<(Version, u32), FormatError>)
    requires
        old(c).inv(),
        old(c).pos() == 0,
    ensures
        final(c).inv(),
        final(c).data() == old(c).data(),
        match r {
            Ok(h) => spec_header(old(c).data()) == Ok::<HeaderModel, FormatError>(
                (HeaderModel { version: h.0, entry_count: h.1 }),
            ) && final(c).pos() == HEADER_SIZE,
            Err(e) => spec_header(old(c).data()) == Err::<HeaderModel, FormatError>(e),
        },
{
    let ghost data = old(c).data();
    let buf = match c.read(HEADER_SIZE as u64) {
        Some(b) => b,
        None => {
            return Err(FormatError::TruncatedHeader);
        },
    };
    if !(buf[0] == 0x49 && buf[1] == 0x52 && buf[2] == 0x4F && buf[3] == 0x53) {
        return Err(FormatError::BadSignature);
    }
    if read_u32_at(&buf, 8) != 0 {
        return Err(FormatError::UnsupportedArchiveFlags);
    }
    let code: u32 = read_u32_at(&buf, 4);
    let version: Version;
    if code == 0x10000 {
        version = Version::V0;
    } else if code == 0x10001 {
        version = Version::V1;
    } else if code == 0x10002 {
        version = Version::V2;
    } else {
        return Err(FormatError::UnsupportedVersion);
    }
    let count: u32 = read_u32_at(&buf, 12);
    Ok((version, count))
}

/// Parses one entry record at the cursor: on success the returned
/// entry's view is the record's model and the cursor stands at the next
/// record, the record's own declared size further on.
pub fn read_entry<B: Backend>(c: &mut B, wide: bool) -> (r: Result<Entry, FormatError>)
    requires
        old(c).inv(),
    ensures
        final(c).inv(),
        final(c).data() == old(c).data(),
        match r {
            Ok(e) => spec_entry(old(c).data(), old(c).pos(), wide) matches Ok(p) && p.0 == e@
                && final(c).pos() == p.1,
            Err(err) => spec_entry(old(c).data(), old(c).pos(), wide) == Err::<
                (EntryModel, int),
                FormatError,
            >(err),
        },
{
    let ghost data = old(c).data();
    let ghost pos0 = old(c).pos();
    proof {
        c.lemma_inv_bounds();
    }
    let start = match c.read(4) {
        Some(b) => b,
        None => {
            return Err(FormatError::TruncatedEntry);
        },
    };
    let entry_size: u16 = read_u16_at(&start, 0);
    let name_size: u16 = read_u16_at(&start, 2);
    let fixed: u32 = if wide {
        20
    } else {
        16
    };
    if name_size % 2 != 0 || (entry_size as u32) < name_size as u32 + fixed {
        return Err(FormatError::EntrySizeMismatch);
    }
    let rest = match c.read(name_size as u64 + fixed as u64 - 4) {
        Some(b) => b,
        None => {
            return Err(FormatError::TruncatedEntry);
        },
    };
    // Advance past any trailing vendor padding the record declares.
    let padding: u64 = entry_size as u64 - name_size as u64 - fixed as u64;
    if !c.skip(padding) {
        return Err(FormatError::TruncatedEntry);
    }
    let ns: usize = name_size as usize;
    let name_bytes = slice_to_vec(slice_subrange(rest.as_slice(), 0, ns));
    proof {
        assert(name_bytes@ =~= data.subrange(pos0 + 4, pos0 + 4 + ns as int));
    }
    let name = decode_archive_name(&name_bytes);
    let flags: u32 = read_u32_at(&rest, ns);
    let offset: u64 = if wide {
        read_u64_at(&rest, ns + 4)
    } else {
        read_u32_at(&rest, ns + 4) as u64
    };
    let width: usize = if wide {
        8
    } else {
        4
    };
    let length: u64 = read_u32_at(&rest, ns + 4 + width) as u64;
    let compression: Compression;
    if flags == 0 {
        compression = Compression::Stored;
    } else if flags == 2 {
        compression = Compression::LZMA;
    } else {
        return Err(FormatError::UnsupportedCompressionTag);
    }
    Ok(Entry { name, offset, length, compression })
}

/// Parses the header and then every record of the entry table, yielding
/// the catalog in on-disk order, exactly as [`spec_catalog`] says.
#[verifier::loop_isolation(false)]
pub fn read_catalog<B: Backend>(c: &mut B) -> (r: Result<Vec<Entry>, FormatError>)
    requires
        old(c).inv(),
        old(c).pos() == 0,
    ensures
        final(c).inv(),
        final(c).data() == old(c).data(),
        match r {
            Ok(v) => spec_catalog(old(c).data()) == Ok::<Seq<EntryModel>, FormatError>(
                v.deep_view(),
            ),
            Err(e) => spec_catalog(old(c).data()) == Err::<Seq<EntryModel>, FormatError>(e),
        },
{
    let ghost data = old(c).data();
    let h = match parse_header(c) {
        Ok(h) => h,
        Err(e) => {
            return Err(e);
        },
    };
    let version: Version = h.0;
    let count: u32 = h.1;
    let wide: bool = version.offset_width() == 8;
    let ghost goal = spec_entries(data, HEADER_SIZE as int, count as int, wide);
    proof {
        assert(spec_catalog(data) == goal);
    }
    let mut entries: Vec<Entry> = Vec::new();
    let mut k: u32 = 0;
    proof {
        assert(entries.deep_view() =~= Seq::<EntryModel>::empty());
        assert(with_prefix(entries.deep_view(), goal) == goal) by {
            match goal {
                Ok(s) => {
                    assert(entries.deep_view() + s =~= s);
                },
                Err(_) => {},
            }
        }
    }
    while k < count
        invariant
            c.inv(),
            c.data() == data,
            k <= count,
            goal == with_prefix(
                entries.deep_view(),
                spec_entries(data, c.pos(), count - k, wide),
            ),
        decreases count - k,
    {
        let ghost posk = c.pos();
        let ghost dv0 = entries.deep_view();
        let ghost remk = count as int - k as int;
        let e = match read_entry(c, wide) {
            Ok(e) => e,
            Err(err) => {
                proof {
                    assert(spec_entries(data, posk, remk, wide) == Err::<
                        Seq<EntryModel>,
                        FormatError,
                    >(err));
                }
                return Err(err);
            },
        };
        entries.push(e);
        k = k + 1;
        proof {
            let rest = spec_entries(data, c.pos(), count - k, wide);
            assert(spec_entries(data, posk, remk, wide) == with_prefix(seq![e@], rest));
            assert(entries.deep_view() =~= dv0 + seq![e@]);
            assert(goal == with_prefix(entries.deep_view(), rest)) by {
                match rest {
                    Ok(s) => {
                        assert(dv0 + (seq![e@] + s) =~= (dv0 + seq![e@]) + s);
                    },
                    Err(_) => {},
                }
            }
        }
    }
    proof {
        assert(spec_entries(data, c.pos(), 0, wide) == Ok::<Seq<EntryModel>, FormatError>(
            Seq::<EntryModel>::empty(),
        ));
        assert(goal == Ok::<Seq<EntryModel>, FormatError>(entries.deep_view())) by {
            assert(entries.deep_view() + Seq::<EntryModel>::empty() =~= entries.deep_view());
        }
    }
    Ok(entries)
}

} // verus!
