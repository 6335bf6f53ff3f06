//! The name decoder: UTF-16LE byte runs to owned text.
//!
//! Entry names are stored as UTF-16LE code units. Decoding is lossy and
//! never fails: an unpaired surrogate becomes the replacement character.
//! Separately from decoding, archive-internal backslash separators are
//! normalized to forward slashes, so catalog names are the same on every
//! host.
use vstd::prelude::*;

use crate::le::le16_at;

verus! {

/// The Unicode replacement character's scalar value, substituted for
/// unpaired surrogate code units.
pub const REPLACEMENT_SCALAR: u32 = 0xFFFD;

/// The 16-bit code units held by a little-endian byte run (any trailing
/// odd byte carries no code unit).
pub open spec fn utf16le_units(bytes: Seq<u8>) -> Seq<u16> {
    Seq::new((bytes.len() / 2) as nat, |i: int| le16_at(bytes, 2 * i))
}

/// A lead (high) surrogate code unit.
pub open spec fn is_high_surrogate(u: u16) -> bool {
    0xD800 <= u <= 0xDBFF
}

/// A trail (low) surrogate code unit.
pub open spec fn is_low_surrogate(u: u16) -> bool {
    0xDC00 <= u <= 0xDFFF
}

/// The supplementary-plane scalar encoded by a surrogate pair.
pub open spec fn combine_surrogates(hi: u16, lo: u16) -> u32
    recommends
        is_high_surrogate(hi),
        is_low_surrogate(lo),
{
    (0x10000 + (hi - 0xD800) * 0x400 + (lo - 0xDC00)) as u32
}

/// The scalar values encoded by a UTF-16 code-unit sequence, decoded
/// front to back: a non-surrogate unit is its own scalar, a high
/// surrogate followed by a low one combines into one supplementary
/// scalar, and any other surrogate becomes the replacement character.
pub open spec fn decode_utf16_scalars(units: Seq<u16>) -> Seq<u32>
    decreases units.len(),
{
    if units.len() == 0 {
        Seq::empty()
    } else if !is_high_surrogate(units[0]) && !is_low_surrogate(units[0]) {
        seq![units[0] as u32] + decode_utf16_scalars(units.skip(1))
    } else if is_high_surrogate(units[0]) && units.len() >= 2 && is_low_surrogate(units[1]) {
        seq![combine_surrogates(units[0], units[1])] + decode_utf16_scalars(units.skip(2))
    } else {
        seq![REPLACEMENT_SCALAR] + decode_utf16_scalars(units.skip(1))
    }
}

/// The text encoded by a UTF-16 code-unit sequence.
pub open spec fn decode_utf16_chars(units: Seq<u16>) -> Seq<char> {
    decode_utf16_scalars(units).map_values(|v: u32| v as char)
}

/// Backslash separators replaced by forward slashes.
pub open spec fn normalize_separators(s: Seq<char>) -> Seq<char> {
    s.map_values(|c: char| if c == '\\' { '/' } else { c })
}

/// The catalog name borne by a raw name-field byte run: UTF-16LE decoding
/// followed by separator normalization.
pub open spec fn decoded_name(bytes: Seq<u8>) -> Seq<char> {
    normalize_separators(decode_utf16_chars(utf16le_units(bytes)))
}

/// Relies on `char::from_u32` of std: it returns `Some` exactly for
/// Unicode scalar values, and the resulting `char` has the given value.
pub assume_specification[ char::from_u32 ](v: u32) -> (r: Option<char>)
    ensures
        r is Some <==> vstd::utf8::is_scalar(v),
        r matches Some(c) ==> c as u32 == v,
;

/// Relies on `String::push` of std: it appends the given character.
pub assume_specification[ String::push ](s: &mut String, c: char)
    ensures
        final(s)@ == old(s)@.push(c),
;

/// Collects the 16-bit code units of a little-endian byte run.
fn units_of(bytes: &Vec<u8>) -> (units: Vec<u16>)
    ensures
        units@ == utf16le_units(bytes@),
{
    let n: usize = bytes.len() / 2;
    let mut units: Vec<u16> = Vec::new();
    let mut i: usize = 0;
    while i < n
        invariant
            i <= n,
            n == bytes.len() / 2,
            units@ =~= utf16le_units(bytes@).take(i as int),
        decreases n - i,
    {
        let lo: u16 = bytes[2 * i] as u16;
        let hi: u16 = bytes[2 * i + 1] as u16;
        units.push(lo + hi * 0x100);
        i = i + 1;
        proof {
            assert(units@ =~= utf16le_units(bytes@).take(i as int));
        }
    }
    proof {
        assert(units@ =~= utf16le_units(bytes@));
    }
    units
}

/// Decodes the code units into text, optionally normalizing separators.
fn decode_units(units: &Vec<u16>, to_slash: bool) -> (s: String)
    ensures
        to_slash ==> s@ == normalize_separators(decode_utf16_chars(units@)),
        !to_slash ==> s@ == decode_utf16_chars(units@),
{
    let mut s = String::new();
    let mut i: usize = 0;
    let ghost mut done: Seq<u32> = Seq::empty();
    proof {
        assert(units@.skip(0) =~= units@);
    }
    while i < units.len()
        invariant
            i <= units.len(),
            decode_utf16_scalars(units@) == done + decode_utf16_scalars(units@.skip(i as int)),
            forall|k: int| 0 <= k < done.len() ==> vstd::utf8::is_scalar(#[trigger] done[k]),
            s@.len() == done.len(),
            forall|k: int|
                0 <= k < done.len() ==> #[trigger] s@[k] == (if to_slash {
                    if done[k] as char == '\\' {
                        '/'
                    } else {
                        done[k] as char
                    }
                } else {
                    done[k] as char
                }),
        decreases units.len() - i,
    {
        let ghost rest = units@.skip(i as int);
        let u: u16 = units[i];
        let v: u32;
        let step: usize;
        if !(0xD800 <= u && u <= 0xDFFF) {
            v = u as u32;
            step = 1;
        } else if 0xD800 <= u && u <= 0xDBFF && i + 1 < units.len() && 0xDC00 <= units[i + 1]
            && units[i + 1] <= 0xDFFF {
            let u2: u16 = units[i + 1];
            v = 0x10000 + (u as u32 - 0xD800) * 0x400 + (u2 as u32 - 0xDC00);
            step = 2;
        } else {
            v = REPLACEMENT_SCALAR;
            step = 1;
        }
        proof {
            assert(rest[0] == units@[i as int]);
            if step == 2 {
                assert(rest[1] == units@[i as int + 1]);
                assert(rest.skip(2) =~= units@.skip(i as int + 2));
            } else {
                assert(rest.skip(1) =~= units@.skip(i as int + 1));
            }
            assert(decode_utf16_scalars(rest) == seq![v] + decode_utf16_scalars(
                units@.skip(i as int + step as int),
            ));
            assert(vstd::utf8::is_scalar(v));
        }
        let c: char = match char::from_u32(v) {
            Some(c) => c,
            None => {
                proof {
                    assert(false);
                }
                ' '
            },
        };
        proof {
            vstd::utf8::char_u32_cast(c, v);
        }
        if to_slash && c == '\\' {
            s.push('/');
        } else {
            s.push(c);
        }
        proof {
            done = done.push(v);
            assert(decode_utf16_scalars(units@) == done + decode_utf16_scalars(
                units@.skip(i as int + step as int),
            )) by {
                assert(done + decode_utf16_scalars(units@.skip(i as int + step as int)) =~= (
                done.drop_last() + seq![v]) + decode_utf16_scalars(
                    units@.skip(i as int + step as int),
                ));
            }
        }
        i = i + step;
    }
    proof {
        assert(units@.skip(units@.len() as int) =~= Seq::<u16>::empty());
        assert(decode_utf16_scalars(units@) == done);
        if to_slash {
            assert(s@ =~= normalize_separators(decode_utf16_chars(units@)));
        } else {
            assert(s@ =~= decode_utf16_chars(units@));
        }
    }
    s
}

/// Decodes a UTF-16LE byte run to owned text, lossily: unpaired
/// surrogates become the replacement character. Never fails.
pub fn decode_utf16le(bytes: &Vec<u8>) -> (s: String)
    ensures
        s@ == decode_utf16_chars(utf16le_units(bytes@)),
{
    let units = units_of(bytes);
    decode_units(&units, false)
}

/// Decodes a raw name field: UTF-16LE decoding, then backslash
/// separators normalized to forward slashes.
pub fn decode_archive_name(bytes: &Vec<u8>) -> (s: String)
    ensures
        s@ == decoded_name(bytes@),
{
    let units = units_of(bytes);
    decode_units(&units, true)
}

/// The UTF-16LE encoding of ASCII-range text: each byte widens to one
/// little-endian code unit.
pub open spec fn encode_utf16le_ascii(text: Seq<u8>) -> Seq<u8> {
    Seq::new((text.len() * 2) as nat, |i: int| if i % 2 == 0 { text[i / 2] } else { 0u8 })
}

/// Name decoding round-trips ASCII-range text: encoding bytes below 0x80
/// as UTF-16LE and decoding recovers exactly the original values.
pub proof fn lemma_ascii_round_trip(text: Seq<u8>)
    requires
        forall|i: int| 0 <= i < text.len() ==> text[i] < 0x80,
    ensures
        decode_utf16_scalars(utf16le_units(encode_utf16le_ascii(text))) == text.map_values(
            |b: u8| b as u32,
        ),
        forall|i: int|
            0 <= i < text.len() ==> decode_utf16_chars(utf16le_units(encode_utf16le_ascii(text)))[i]
                as u32 == text[i] as u32,
    decreases text.len(),
{
    let enc = encode_utf16le_ascii(text);
    let units = utf16le_units(enc);
    assert(units =~= text.map_values(|b: u8| b as u16)) by {
        assert forall|i: int| 0 <= i < units.len() implies units[i] == text[i] as u16 by {
            assert(enc[2 * i] == text[i]);
            assert(enc[2 * i + 1] == 0u8);
        }
    }
    if text.len() == 0 {
        assert(decode_utf16_scalars(units) =~= text.map_values(|b: u8| b as u32));
    } else {
        lemma_ascii_round_trip(text.skip(1));
        assert(units[0] == text[0] as u16);
        assert(!is_high_surrogate(units[0]) && !is_low_surrogate(units[0]));
        assert(units.skip(1) =~= utf16le_units(encode_utf16le_ascii(text.skip(1)))) by {
            let enc2 = encode_utf16le_ascii(text.skip(1));
            assert forall|j: int| 0 <= j < units.len() - 1 implies units.skip(1)[j]
                == utf16le_units(enc2)[j] by {
                assert(units.skip(1)[j] == units[j + 1]);
                assert(utf16le_units(enc2)[j] == text.skip(1)[j] as u16) by {
                    assert(enc2[2 * j] == text.skip(1)[j]);
                    assert(enc2[2 * j + 1] == 0u8);
                }
            }
        }
        assert(decode_utf16_scalars(units) =~= text.map_values(|b: u8| b as u32)) by {
            assert(decode_utf16_scalars(units) == seq![text[0] as u32] + decode_utf16_scalars(
                units.skip(1),
            ));
        }
    }
}

} // verus!
