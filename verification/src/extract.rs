//! The extraction engine: decoding one entry's payload out of the
//! archive bytes, through the stored-copy or the LZMA path.
//!
//! The mathematical result of extracting an entry is fixed by
//! [`spec_extract`]; the executable engine is proved to return it over
//! any [`Backend`].
use vstd::prelude::*;

use vstd::slice::slice_subrange;
use vstd::slice::slice_to_vec;

use crate::backend::Backend;
use crate::entry::Compression;
use crate::entry::EntryModel;
use crate::errors::ExtractError;
use crate::le::le32_at;
use crate::le::read_u32_at;

verus! {

/// Byte length of the frame header that opens an LZMA entry's payload:
/// a 32-bit decompressed size and a 32-bit properties length.
pub const FRAME_HEADER_SIZE: usize = 8;

/// What `lzma_rs` decompresses a raw LZMA1 stream to, under a provided
/// decompressed size: `None` when the stream does not decode. The result
/// depends on the stream bytes and the size alone.
pub uninterp spec fn lzma_decode_of(stream: Seq<u8>, declared: u32) -> Option<Seq<u8>>;

/// Relies on `lzma_rs::lzma_decompress_with_options` with
/// `UnpackedSize::UseProvided`: the stream opens with five properties
/// bytes and carries no size field, decoding is a function of the stream
/// and the provided size alone, and on success exactly `declared` bytes
/// come out (the decoder reports an error otherwise).
#[verifier::external_body]
fn lzma_decode(stream: &Vec<u8>, declared: u32) -> (r: Option<Vec<u8>>)
    ensures
        r is Some <==> lzma_decode_of(stream@, declared) is Some,
        r matches Some(v) ==> lzma_decode_of(stream@, declared) == Some(v@) && v@.len()
            == declared as nat,
{
    let mut input = std::io::Cursor::new(stream.as_slice());
    let mut output: Vec<u8> = Vec::new();
    let options = lzma_rs::decompress::Options {
        unpacked_size: lzma_rs::decompress::UnpackedSize::UseProvided(Some(declared as u64)),
        memlimit: None,
        allow_incomplete: false,
    };
    match lzma_rs::lzma_decompress_with_options(&mut input, &mut output, &options) {
        Ok(()) => Some(output),
        Err(_) => None,
    }
}

/// The decompressed size an LZMA entry's frame header declares: the
/// 32-bit little-endian word at the entry's offset.
pub open spec fn frame_decompressed_size(data: Seq<u8>, offset: u64) -> u32
    recommends
        offset + 4 <= data.len(),
{
    le32_at(data, offset as int)
}

/// The payload borne by the byte span `[offset, offset + length)` under
/// the given compression tag. A span outside the content fails with
/// `Io`. A stored payload is the span itself, verbatim. An LZMA payload
/// opens with an 8-byte frame header - decompressed size, then a
/// properties length that must equal 5 - followed by the raw stream;
/// a bad properties length or a stream that does not decode fails with
/// `Codec`.
pub open spec fn spec_extract(data: Seq<u8>, offset: u64, length: u64, compression: Compression) -> Result<
    Seq<u8>,
    ExtractError,
> {
    if offset + length > data.len() {
        Err(ExtractError::Io)
    } else {
        let span = data.subrange(offset as int, offset + length);
        match compression {
            Compression::Stored => Ok(span),
            Compression::LZMA => {
                if length < FRAME_HEADER_SIZE {
                    Err(ExtractError::Io)
                } else if le32_at(span, 4) != 5 {
                    Err(ExtractError::Codec)
                } else {
                    match lzma_decode_of(
                        span.skip(FRAME_HEADER_SIZE as int),
                        le32_at(span, 0),
                    ) {
                        Some(out) => Ok(out),
                        None => Err(ExtractError::Codec),
                    }
                }
            },
        }
    }
}

/// The payload of one catalog entry.
pub open spec fn spec_extract_entry(data: Seq<u8>, e: EntryModel) -> Result<Seq<u8>, ExtractError> {
    spec_extract(data, e.offset, e.length, e.compression)
}

/// The payloads of a catalog's entries in order, or the first entry's
/// failure.
pub open spec fn spec_extract_all(data: Seq<u8>, entries: Seq<EntryModel>) -> Result<
    Seq<Seq<u8>>,
    ExtractError,
> decreases entries.len(),
{
    if entries.len() == 0 {
        Ok(Seq::empty())
    } else {
        match spec_extract_entry(data, entries[0]) {
            Err(e) => Err(e),
            Ok(payload) => match spec_extract_all(data, entries.skip(1)) {
                Err(e) => Err(e),
                Ok(rest) => Ok(seq![payload] + rest),
            },
        }
    }
}

/// Stored extraction is the identity transform: a stored entry's
/// payload is exactly the `length` raw bytes located at `offset`.
pub proof fn lemma_stored_identity(data: Seq<u8>, offset: u64, length: u64)
    requires
        offset + length <= data.len(),
    ensures
        spec_extract(data, offset, length, Compression::Stored) == Ok::<Seq<u8>, ExtractError>(
            data.subrange(offset as int, offset + length),
        ),
{
}

/// An LZMA frame whose properties-length word is not 5 fails with a
/// `Codec` error, before any decompression is attempted.
pub proof fn lemma_bad_properties_length(data: Seq<u8>, offset: u64, length: u64)
    requires
        offset + length <= data.len(),
        length >= FRAME_HEADER_SIZE,
        le32_at(data.subrange(offset as int, offset + length), 4) != 5,
    ensures
        spec_extract(data, offset, length, Compression::LZMA) == Err::<Seq<u8>, ExtractError>(
            ExtractError::Codec,
        ),
{
}

/// Extracting every well-formed entry succeeds entry by entry: a catalog
/// of N extractable entries yields exactly N payloads, each the entry's
/// own; and a failure is the first failing entry's, every entry before
/// it having been extractable.
pub proof fn lemma_extract_all_structure(data: Seq<u8>, entries: Seq<EntryModel>)
    ensures
        spec_extract_all(data, entries) matches Ok(outs) ==> outs.len() == entries.len() && forall|
            i: int,
        |
            0 <= i < entries.len() ==> spec_extract_entry(data, entries[i]) == Ok::<
                Seq<u8>,
                ExtractError,
            >(outs[i]),
        spec_extract_all(data, entries) matches Err(e) ==> exists|k: int|
            {
                &&& 0 <= k < entries.len()
                &&& #[trigger] spec_extract_entry(data, entries[k]) == Err::<Seq<u8>, ExtractError>(
                    e,
                )
                &&& forall|j: int| 0 <= j < k ==> spec_extract_entry(data, entries[j]) is Ok
            },
    decreases entries.len(),
{
    if entries.len() == 0 {
    } else {
        lemma_extract_all_structure(data, entries.skip(1));
        match spec_extract_entry(data, entries[0]) {
            Err(e) => {
                assert(spec_extract_entry(data, entries[0]) == Err::<Seq<u8>, ExtractError>(e));
                assert({
                    &&& 0 <= 0 < entries.len()
                    &&& spec_extract_entry(data, entries[0]) == Err::<Seq<u8>, ExtractError>(e)
                    &&& forall|j: int| 0 <= j < 0 ==> spec_extract_entry(data, entries[j]) is Ok
                });
            },
            Ok(payload) => {
                match spec_extract_all(data, entries.skip(1)) {
                    Err(e) => {
                        let k = choose|k: int|
                            {
                                &&& 0 <= k < entries.skip(1).len()
                                &&& #[trigger] spec_extract_entry(data, entries.skip(1)[k])
                                    == Err::<Seq<u8>, ExtractError>(e)
                                &&& forall|j: int|
                                    0 <= j < k ==> spec_extract_entry(data, entries.skip(1)[j]) is Ok
                            };
                        assert(entries.skip(1)[k] == entries[k + 1]);
                        assert forall|j: int| 0 <= j < k + 1 implies spec_extract_entry(
                            data,
                            entries[j],
                        ) is Ok by {
                            if j > 0 {
                                assert(entries.skip(1)[j - 1] == entries[j]);
                            }
                        }
                        assert({
                            &&& 0 <= k + 1 < entries.len()
                            &&& spec_extract_entry(data, entries[k + 1]) == Err::<
                                Seq<u8>,
                                ExtractError,
                            >(e)
                            &&& forall|j: int|
                                0 <= j < k + 1 ==> spec_extract_entry(data, entries[j]) is Ok
                        });
                    },
                    Ok(rest) => {
                        let outs = seq![payload] + rest;
                        assert forall|i: int| 0 <= i < entries.len() implies spec_extract_entry(
                            data,
                            entries[i],
                        ) == Ok::<Seq<u8>, ExtractError>(outs[i]) by {
                            if i > 0 {
                                assert(entries.skip(1)[i - 1] == entries[i]);
                                assert(outs[i] == rest[i - 1]);
                            }
                        }
                    },
                }
            },
        }
    }
}

/// Extracts the payload at `[offset, offset + length)` under the given
/// compression tag, returning exactly what [`spec_extract`] says; for an
/// LZMA entry a successful result has exactly the frame's declared
/// decompressed size.
pub fn extract_payload<B: Backend>(
    c: &mut B,
    offset: u64,
    length: u64,
    compression: Compression,
) -> (r: Result<Vec<u8>, ExtractError>)
    requires
        old(c).inv(),
    ensures
        final(c).inv(),
        final(c).data() == old(c).data(),
        match r {
            Ok(v) => spec_extract(old(c).data(), offset, length, compression) == Ok::<
                Seq<u8>,
                ExtractError,
            >(v@),
            Err(e) => spec_extract(old(c).data(), offset, length, compression) == Err::<
                Seq<u8>,
                ExtractError,
            >(e),
        },
        r matches Ok(v) ==> (compression == Compression::LZMA ==> v@.len()
            == frame_decompressed_size(old(c).data(), offset) as nat),
{
    let ghost data = old(c).data();
    if !c.seek(offset) {
        return Err(ExtractError::Io);
    }
    let span = match c.read(length) {
        Some(v) => v,
        None => {
            return Err(ExtractError::Io);
        },
    };
    match compression {
        Compression::Stored => Ok(span),
        Compression::LZMA => {
            if length < FRAME_HEADER_SIZE as u64 {
                return Err(ExtractError::Io);
            }
            if read_u32_at(&span, 4) != 5 {
                return Err(ExtractError::Codec);
            }
            let declared: u32 = read_u32_at(&span, 0);
            let ghost span0 = span@;
            let stream = slice_to_vec(
                slice_subrange(span.as_slice(), FRAME_HEADER_SIZE, span.len()),
            );
            proof {
                assert(stream@ =~= span0.skip(FRAME_HEADER_SIZE as int));
            }
            match lzma_decode(&stream, declared) {
                Some(out) => Ok(out),
                None => Err(ExtractError::Codec),
            }
        },
    }
}

} // verus!
