//! An open archive: the catalog built once from the content bytes, and
//! extraction of any entry by its catalog index.
use vstd::prelude::*;

use crate::backend::Backend;
use crate::backend::BufferedBackend;
use crate::backend::MappedBackend;
use crate::entry::Compression;
use crate::entry::Entry;
use crate::entry::EntryModel;
use crate::errors::ExtractError;
use crate::errors::FormatError;
use crate::errors::IroError;
use crate::extract::extract_payload;
use crate::extract::frame_decompressed_size;
use crate::extract::spec_extract_all;
use crate::extract::spec_extract_entry;
use crate::format::spec_catalog;
use crate::parse::read_catalog;

verus! {

/// An open archive over an I/O backend: it owns the backend cursor and
/// the ordered entry catalog, built once while opening. Dropping the
/// archive releases the content; there is no other state.
#[derive(Debug)]
pub struct IRO<B: Backend> {
    /// The backend cursor the archive reads through.
    pub cursor: B,
    /// The entry catalog, index-stable and in on-disk order.
    pub files: Vec<Entry>,
}

impl<B: Backend> IRO<B> {
    /// The archive's whole byte content.
    pub open spec fn data(&self) -> Seq<u8> {
        self.cursor.data()
    }

    /// The backend cursor is internally well-formed.
    pub open spec fn cursor_ok(&self) -> bool {
        self.cursor.inv()
    }

    /// A well-formed open archive: its catalog is exactly what the
    /// format model says its bytes bear.
    pub open spec fn wf(&self) -> bool {
        &&& self.cursor_ok()
        &&& spec_catalog(self.data()) == Ok::<Seq<EntryModel>, FormatError>(
            self.files.deep_view(),
        )
    }

    /// Decodes the payload of the entry at `entry_idx` into the caller's
    /// sink, appending exactly the bytes the format model assigns that
    /// entry, and returns how many; on failure the sink is untouched.
    /// A successful LZMA extraction appends exactly as many bytes as the
    /// entry's frame header declares.
    pub fn extract_to(&mut self, sink: &mut Vec<u8>, entry_idx: usize) -> (r: Result<
        usize,
        ExtractError,
    >)
        requires
            old(self).wf(),
            entry_idx < old(self).files.len(),
        ensures
            final(self).wf(),
            final(self).files == old(self).files,
            final(self).data() == old(self).data(),
            match r {
                Ok(n) => spec_extract_entry(
                    old(self).data(),
                    old(self).files.deep_view()[entry_idx as int],
                ) matches Ok(p) && final(sink)@ == old(sink)@ + p && n == p.len(),
                Err(e) => spec_extract_entry(
                    old(self).data(),
                    old(self).files.deep_view()[entry_idx as int],
                ) == Err::<Seq<u8>, ExtractError>(e) && final(sink)@ == old(sink)@,
            },
            r matches Ok(n) ==> (old(self).files.deep_view()[entry_idx as int].compression
                == Compression::LZMA ==> n == frame_decompressed_size(
                old(self).data(),
                old(self).files.deep_view()[entry_idx as int].offset,
            ) as nat),
    {
        let offset: u64 = self.files[entry_idx].offset;
        let length: u64 = self.files[entry_idx].length;
        let compression: Compression = self.files[entry_idx].compression;
        proof {
            assert(old(self).files.deep_view()[entry_idx as int] == self.files@[
            entry_idx as int]@);
        }
        match extract_payload(&mut self.cursor, offset, length, compression) {
            Ok(mut payload) => {
                let n: usize = payload.len();
                sink.append(&mut payload);
                Ok(n)
            },
            Err(e) => Err(e),
        }
    }

    /// Extracts every entry in catalog order, yielding the payloads in
    /// that order; stops at the first failing entry and surfaces its
    /// error, exactly as the format model says.
    #[verifier::loop_isolation(false)]
    pub fn extract_all(&mut self) -> (r: Result<Vec<Vec<u8>>, ExtractError>)
        requires
            old(self).wf(),
        ensures
            final(self).wf(),
            final(self).files == old(self).files,
            final(self).data() == old(self).data(),
            match r {
                Ok(outs) => spec_extract_all(old(self).data(), old(self).files.deep_view())
                    == Ok::<Seq<Seq<u8>>, ExtractError>(outs.deep_view()),
                Err(e) => spec_extract_all(old(self).data(), old(self).files.deep_view()) == Err::<
                    Seq<Seq<u8>>,
                    ExtractError,
                >(e),
            },
    {
        let ghost data = old(self).data();
        let ghost cat = old(self).files.deep_view();
        let mut outs: Vec<Vec<u8>> = Vec::new();
        let mut idx: usize = 0;
        let total: usize = self.files.len();
        proof {
            assert(cat.skip(0) =~= cat);
            assert(outs.deep_view() =~= Seq::<Seq<u8>>::empty());
            assert(with_outputs(outs.deep_view(), spec_extract_all(data, cat)) == spec_extract_all(
                data,
                cat,
            )) by {
                match spec_extract_all(data, cat) {
                    Ok(s) => {
                        assert(outs.deep_view() + s =~= s);
                    },
                    Err(_) => {},
                }
            }
        }
        while idx < total
            invariant
                self.wf(),
                self.files == old(self).files,
                self.data() == data,
                idx <= total,
                spec_extract_all(data, cat) == with_outputs(
                    outs.deep_view(),
                    spec_extract_all(data, cat.skip(idx as int)),
                ),
            decreases total - idx,
        {
            let ghost outs0 = outs.deep_view();
            let mut payload: Vec<u8> = Vec::new();
            match self.extract_to(&mut payload, idx) {
                Ok(_) => {},
                Err(e) => {
                    proof {
                        assert(cat.skip(idx as int)[0] == cat[idx as int]);
                        assert(spec_extract_all(data, cat.skip(idx as int)) == Err::<
                            Seq<Seq<u8>>,
                            ExtractError,
                        >(e));
                    }
                    return Err(e);
                },
            }
            let ghost pv = payload@;
            outs.push(payload);
            idx = idx + 1;
            proof {
                assert(cat.skip(idx - 1)[0] == cat[idx - 1]);
                assert(cat.skip(idx - 1).skip(1) =~= cat.skip(idx as int));
                let rest = spec_extract_all(data, cat.skip(idx as int));
                assert(pv =~= cat_payload(data, cat[idx - 1]));
                assert(outs.deep_view() =~~= outs0 + seq![cat_payload(data, cat[idx - 1])]);
                assert(spec_extract_all(data, cat) == with_outputs(outs.deep_view(), rest)) by {
                    match rest {
                        Ok(s) => {
                            assert(outs0 + (seq![cat_payload(data, cat[idx - 1])] + s) =~= (outs0
                                + seq![cat_payload(data, cat[idx - 1])]) + s);
                        },
                        Err(_) => {},
                    }
                }
            }
        }
        proof {
            assert(cat.skip(total as int) =~= Seq::<EntryModel>::empty());
            assert(spec_extract_all(data, cat) == Ok::<Seq<Seq<u8>>, ExtractError>(
                outs.deep_view(),
            )) by {
                assert(outs.deep_view() + Seq::<Seq<u8>>::empty() =~= outs.deep_view());
            }
        }
        Ok(outs)
    }
}

/// The payload the format model assigns an extractable entry.
pub open spec fn cat_payload(data: Seq<u8>, e: EntryModel) -> Seq<u8> {
    spec_extract_entry(data, e)->Ok_0
}

/// The payloads of the entries that remain, prefixed by the ones already
/// extracted.
pub open spec fn with_outputs(prefix: Seq<Seq<u8>>, r: Result<Seq<Seq<u8>>, ExtractError>) -> Result<
    Seq<Seq<u8>>,
    ExtractError,
> {
    match r {
        Ok(s) => Ok(prefix + s),
        Err(e) => Err(e),
    }
}

/// Opens an archive over the memory-mapped backend: parses the header
/// and the whole entry table out of the given content, or fails with
/// the format violation found, leaving no archive behind.
pub fn open(data: Vec<u8>) -> (r: Result<IRO<MappedBackend>, FormatError>)
    ensures
        match r {
            Ok(a) => a.wf() && a.data() == data@,
            Err(e) => spec_catalog(data@) == Err::<Seq<EntryModel>, FormatError>(e),
        },
{
    let ghost d = data@;
    let mut cursor = MappedBackend::new(data);
    match read_catalog(&mut cursor) {
        Ok(files) => Ok(IRO { cursor, files }),
        Err(e) => Err(e),
    }
}

/// Opens an archive over the buffered-stream backend. The catalog and
/// every extracted payload are byte-identical to what [`open`] yields
/// over the same content: see [`lemma_backend_equivalence`].
pub fn open_buffered(data: Vec<u8>) -> (r: Result<IRO<BufferedBackend>, FormatError>)
    ensures
        match r {
            Ok(a) => a.wf() && a.data() == data@,
            Err(e) => spec_catalog(data@) == Err::<Seq<EntryModel>, FormatError>(e),
        },
{
    let ghost d = data@;
    let mut cursor = BufferedBackend::new(data);
    match read_catalog(&mut cursor) {
        Ok(files) => Ok(IRO { cursor, files }),
        Err(e) => Err(e),
    }
}

/// Backend equivalence: two well-formed archives over the same content,
/// whatever their backends, carry identical catalogs and assign every
/// entry identical extraction results. The backend is a performance
/// choice, never a semantic one.
pub proof fn lemma_backend_equivalence<B1: Backend, B2: Backend>(a: &IRO<B1>, b: &IRO<B2>)
    requires
        a.wf(),
        b.wf(),
        a.data() == b.data(),
    ensures
        a.files.deep_view() == b.files.deep_view(),
        forall|i: int|
            0 <= i < a.files.deep_view().len() ==> spec_extract_entry(
                a.data(),
                #[trigger] a.files.deep_view()[i],
            ) == spec_extract_entry(b.data(), b.files.deep_view()[i]),
{
}

/// Opens the content as an archive and extracts every entry in catalog
/// order: the payloads on success, the format violation or the first
/// extraction failure otherwise.
pub fn try_extract(data: Vec<u8>) -> (r: Result<Vec<Vec<u8>>, IroError>)
    ensures
        match spec_catalog(data@) {
            Err(f) => r == Err::<Vec<Vec<u8>>, IroError>(IroError::Format(f)),
            Ok(cat) => match spec_extract_all(data@, cat) {
                Err(x) => r == Err::<Vec<Vec<u8>>, IroError>(IroError::Extract(x)),
                Ok(outs) => r matches Ok(v) && v.deep_view() == outs,
            },
        },
{
    let ghost d = data@;
    match open(data) {
        Err(f) => Err(IroError::Format(f)),
        Ok(mut archive) => match archive.extract_all() {
            Err(x) => Err(IroError::Extract(x)),
            Ok(outs) => Ok(outs),
        },
    }
}

} // verus!
