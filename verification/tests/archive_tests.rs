//! End-to-end tests of the archive reader: header and entry-table
//! parsing over both backends, stored and LZMA extraction, and every
//! error variant.
use moteria::open;
use moteria::open_buffered;
use moteria::try_extract;
use moteria::Compression;
use moteria::ExtractError;
use moteria::FormatError;
use moteria::IroError;

fn push_u16(out: &mut Vec<u8>, v: u16) {
    out.extend_from_slice(&v.to_le_bytes());
}

fn push_u32(out: &mut Vec<u8>, v: u32) {
    out.extend_from_slice(&v.to_le_bytes());
}

fn push_u64(out: &mut Vec<u8>, v: u64) {
    out.extend_from_slice(&v.to_le_bytes());
}

fn header(version: u32, flags: u32, count: u32) -> Vec<u8> {
    let mut out = Vec::new();
    out.extend_from_slice(b"IROS");
    push_u32(&mut out, version);
    push_u32(&mut out, flags);
    push_u32(&mut out, count);
    out
}

fn utf16le(name: &str) -> Vec<u8> {
    let mut out = Vec::new();
    for unit in name.encode_utf16() {
        push_u16(&mut out, unit);
    }
    out
}

/// One entry record with `pad` trailing vendor-padding bytes.
fn record(name: &str, flags: u32, offset: u64, length: u32, wide: bool, pad: u16) -> Vec<u8> {
    let name_bytes = utf16le(name);
    let off_w: u16 = if wide { 8 } else { 4 };
    let entry_size: u16 = 4 + name_bytes.len() as u16 + 4 + off_w + 4 + pad;
    let mut out = Vec::new();
    push_u16(&mut out, entry_size);
    push_u16(&mut out, name_bytes.len() as u16);
    out.extend_from_slice(&name_bytes);
    push_u32(&mut out, flags);
    if wide {
        push_u64(&mut out, offset);
    } else {
        push_u32(&mut out, offset as u32);
    }
    push_u32(&mut out, length);
    for _ in 0..pad {
        out.push(0xEE);
    }
    out
}

/// A single-entry stored archive under the given version code.
fn one_stored(version: u32, name: &str, payload: &[u8]) -> Vec<u8> {
    let wide = version != 0x10000;
    let rec = record(name, 0, 0, payload.len() as u32, wide, 0);
    let offset = (16 + rec.len()) as u64;
    let rec = record(name, 0, offset, payload.len() as u32, wide, 0);
    let mut data = header(version, 0, 1);
    data.extend_from_slice(&rec);
    data.extend_from_slice(payload);
    data
}

#[test]
fn version_v0_parses_with_narrow_offsets() {
    let data = one_stored(0x10000, "zero.bin", b"abc");
    let archive = open(data).unwrap();
    assert_eq!(archive.files.len(), 1);
    assert_eq!(archive.files[0].name, "zero.bin");
    // The record before the payload is 4 + 16 + 4 + 4 + 4 bytes long.
    assert_eq!(archive.files[0].offset, 16 + 32);
    assert_eq!(archive.files[0].length, 3);
    assert_eq!(archive.files[0].compression, Compression::Stored);
}

#[test]
fn version_v1_parses_with_wide_offsets() {
    let data = one_stored(0x10001, "one.bin", b"abcd");
    let archive = open(data).unwrap();
    assert_eq!(archive.files.len(), 1);
    // The record before the payload is 4 + 14 + 4 + 8 + 4 bytes long.
    assert_eq!(archive.files[0].offset, 16 + 34);
    assert_eq!(archive.files[0].length, 4);
}

#[test]
fn version_v2_parses_with_wide_offsets() {
    let data = one_stored(0x10002, "two.bin", b"x");
    let archive = open(data).unwrap();
    assert_eq!(archive.files.len(), 1);
    assert_eq!(archive.files[0].offset, 16 + 34);
}

#[test]
fn nonzero_archive_flags_fail_open() {
    let mut data = one_stored(0x10002, "a.txt", b"hi");
    data[8] = 1;
    assert_eq!(open(data).unwrap_err(), FormatError::UnsupportedArchiveFlags);
}

#[test]
fn nonzero_flags_beat_unknown_version() {
    // The flags word is inspected before the version code, so a patch
    // archive is reported as such even under an unknown version.
    let mut data = header(0x20000, 0, 0);
    data[8] = 1;
    assert_eq!(open(data).unwrap_err(), FormatError::UnsupportedArchiveFlags);
}

#[test]
fn bad_signature_fails_open() {
    let mut data = one_stored(0x10002, "a.txt", b"hi");
    data[0] = b'X';
    assert_eq!(open(data).unwrap_err(), FormatError::BadSignature);
}

#[test]
fn unknown_version_fails_open() {
    let data = header(0x10003, 0, 0);
    assert_eq!(open(data).unwrap_err(), FormatError::UnsupportedVersion);
}

#[test]
fn short_header_fails_open() {
    let data = b"IROS\x02\x00\x01".to_vec();
    assert_eq!(open(data).unwrap_err(), FormatError::TruncatedHeader);
}

#[test]
fn missing_entry_record_fails_open() {
    // The header promises one entry but no bytes follow.
    let data = header(0x10002, 0, 1);
    assert_eq!(open(data).unwrap_err(), FormatError::TruncatedEntry);
}

#[test]
fn record_past_end_fails_open() {
    let mut data = header(0x10002, 0, 1);
    let rec = record("a.txt", 0, 50, 2, true, 0);
    data.extend_from_slice(&rec[..rec.len() - 3]);
    assert_eq!(open(data).unwrap_err(), FormatError::TruncatedEntry);
}

#[test]
fn undersized_entry_size_fails_open() {
    let mut data = header(0x10002, 0, 1);
    let mut rec = record("a.txt", 0, 50, 2, true, 0);
    // Declare one byte less than the name and fixed fields require.
    let short = (rec.len() - 1) as u16;
    rec[0] = short.to_le_bytes()[0];
    rec[1] = short.to_le_bytes()[1];
    data.extend_from_slice(&rec);
    assert_eq!(open(data).unwrap_err(), FormatError::EntrySizeMismatch);
}

#[test]
fn odd_name_size_fails_open() {
    let mut data = header(0x10002, 0, 1);
    let mut rec = record("a.txt", 0, 50, 2, true, 1);
    // Declare an odd name size (the record is one byte longer already).
    let odd = (10 + 1) as u16;
    rec[2] = odd.to_le_bytes()[0];
    rec[3] = odd.to_le_bytes()[1];
    data.extend_from_slice(&rec);
    assert_eq!(open(data).unwrap_err(), FormatError::EntrySizeMismatch);
}

#[test]
fn unknown_compression_tag_fails_open() {
    let mut data = header(0x10002, 0, 1);
    let rec = record("a.txt", 1, 50, 2, true, 0);
    data.extend_from_slice(&rec);
    assert_eq!(open(data).unwrap_err(), FormatError::UnsupportedCompressionTag);
}

#[test]
fn stored_extraction_is_identity() {
    let payload = b"exact payload bytes \x00\x01\x02\xFF";
    let data = one_stored(0x10002, "p.bin", payload);
    let mut archive = open(data).unwrap();
    let outs = archive.extract_all().unwrap();
    assert_eq!(outs.len(), 1);
    assert_eq!(outs[0], payload.to_vec());
}

#[test]
fn extract_to_appends_and_counts() {
    let data = one_stored(0x10002, "p.bin", b"worldly");
    let mut archive = open(data).unwrap();
    let mut sink = b"hello ".to_vec();
    let n = archive.extract_to(&mut sink, 0).unwrap();
    assert_eq!(n, 7);
    assert_eq!(sink, b"hello worldly".to_vec());
}

#[test]
fn failed_extraction_leaves_sink_untouched() {
    // The entry's span reaches past the end of the content.
    let mut data = header(0x10002, 0, 1);
    let rec = record("far.bin", 0, 10_000, 4, true, 0);
    data.extend_from_slice(&rec);
    let mut archive = open(data).unwrap();
    let mut sink = b"kept".to_vec();
    assert_eq!(archive.extract_to(&mut sink, 0).unwrap_err(), ExtractError::Io);
    assert_eq!(sink, b"kept".to_vec());
}

#[test]
fn entry_padding_is_tolerated() {
    // The cursor must advance by each record's own declared entry_size,
    // so a padded first record may not derail the second.
    let rec1_probe = record("first.bin", 0, 0, 2, true, 7);
    let rec2_probe = record("second.bin", 0, 0, 3, true, 0);
    let off1 = (16 + rec1_probe.len() + rec2_probe.len()) as u64;
    let off2 = off1 + 2;
    let rec1 = record("first.bin", 0, off1, 2, true, 7);
    let rec2 = record("second.bin", 0, off2, 3, true, 0);
    let mut data = header(0x10001, 0, 2);
    data.extend_from_slice(&rec1);
    data.extend_from_slice(&rec2);
    data.extend_from_slice(b"ABCDE");
    let mut archive = open(data).unwrap();
    assert_eq!(archive.files.len(), 2);
    assert_eq!(archive.files[0].name, "first.bin");
    assert_eq!(archive.files[1].name, "second.bin");
    let outs = archive.extract_all().unwrap();
    assert_eq!(outs[0], b"AB".to_vec());
    assert_eq!(outs[1], b"CDE".to_vec());
}

#[test]
fn zero_length_entry_extracts_empty() {
    let data = one_stored(0x10002, "nothing.bin", b"");
    let mut archive = open(data).unwrap();
    let outs = archive.extract_all().unwrap();
    assert_eq!(outs[0], Vec::<u8>::new());
}

#[test]
fn backslash_names_are_normalized() {
    let data = one_stored(0x10002, "dir\\sub\\a.bin", b"z");
    let archive = open(data).unwrap();
    assert_eq!(archive.files[0].name, "dir/sub/a.bin");
}

#[test]
fn empty_archive_has_empty_catalog() {
    let data = header(0x10002, 0, 0);
    let mut archive = open(data).unwrap();
    assert_eq!(archive.files.len(), 0);
    assert_eq!(archive.extract_all().unwrap().len(), 0);
}

#[test]
fn extract_all_yields_one_payload_per_entry() {
    let recs_probe: Vec<Vec<u8>> = vec![
        record("a", 0, 0, 2, true, 0),
        record("b", 0, 0, 3, true, 0),
        record("c", 0, 0, 4, true, 0),
    ];
    let table_len: usize = recs_probe.iter().map(|r| r.len()).sum();
    let base = (16 + table_len) as u64;
    let mut data = header(0x10002, 0, 3);
    data.extend_from_slice(&record("a", 0, base, 2, true, 0));
    data.extend_from_slice(&record("b", 0, base + 2, 3, true, 0));
    data.extend_from_slice(&record("c", 0, base + 5, 4, true, 0));
    data.extend_from_slice(b"aaBBBcccc");
    let mut archive = open(data).unwrap();
    let outs = archive.extract_all().unwrap();
    assert_eq!(outs.len(), 3);
    assert_eq!(outs[0], b"aa".to_vec());
    assert_eq!(outs[1], b"BBB".to_vec());
    assert_eq!(outs[2], b"cccc".to_vec());
}

#[test]
fn extract_all_stops_at_first_bad_entry() {
    let rec_probe = record("good", 0, 0, 2, true, 0);
    let base = (16 + 2 * rec_probe.len()) as u64;
    let mut data = header(0x10002, 0, 2);
    data.extend_from_slice(&record("good", 0, base, 2, true, 0));
    // The second entry's span lies far past the end of the content.
    data.extend_from_slice(&record("bad!", 0, 90_000, 2, true, 0));
    data.extend_from_slice(b"ok");
    let mut archive = open(data).unwrap();
    assert_eq!(archive.extract_all().unwrap_err(), ExtractError::Io);
}

#[test]
fn scenario_single_stored_entry() {
    // Header {signature "IROS", version 0x10002, flags 0, entry_count 1},
    // one stored entry named "a.txt" whose two-byte payload is "hi".
    let data = one_stored(0x10002, "a.txt", b"hi");
    let mut archive = open(data.clone()).unwrap();
    assert_eq!(archive.files.len(), 1);
    assert_eq!(archive.files[0].name, "a.txt");
    let outs = archive.extract_all().unwrap();
    assert_eq!(outs.len(), 1);
    assert_eq!(outs[0], b"hi".to_vec());
    // The same through the one-call front end.
    let outs2 = try_extract(data).unwrap();
    assert_eq!(outs2, vec![b"hi".to_vec()]);
}

#[test]
fn try_extract_surfaces_both_error_kinds() {
    let mut bad_format = one_stored(0x10002, "a.txt", b"hi");
    bad_format[0] = b'Y';
    assert_eq!(
        try_extract(bad_format).unwrap_err(),
        IroError::Format(FormatError::BadSignature)
    );
    let mut bad_entry = header(0x10002, 0, 1);
    bad_entry.extend_from_slice(&record("a.txt", 0, 40_000, 2, true, 0));
    assert_eq!(
        try_extract(bad_entry).unwrap_err(),
        IroError::Extract(ExtractError::Io)
    );
}

#[test]
fn buffered_backend_matches_mapped_backend() {
    // Several entries, one of them larger than the buffered backend's
    // read-ahead window, so refills and window seeks are exercised.
    let big: Vec<u8> = (0..20_000u32).map(|i| (i % 251) as u8).collect();
    let rec_probe: Vec<Vec<u8>> = vec![
        record("big.bin", 0, 0, big.len() as u32, true, 0),
        record("small.bin", 0, 0, 5, true, 3),
        record("dir\\x.bin", 0, 0, 4, true, 0),
    ];
    let table_len: usize = rec_probe.iter().map(|r| r.len()).sum();
    let base = (16 + table_len) as u64;
    let mut data = header(0x10001, 0, 3);
    data.extend_from_slice(&record("big.bin", 0, base, big.len() as u32, true, 0));
    data.extend_from_slice(&record("small.bin", 0, base + big.len() as u64, 5, true, 3));
    data.extend_from_slice(&record(
        "dir\\x.bin",
        0,
        base + big.len() as u64 + 5,
        4,
        true,
        0,
    ));
    data.extend_from_slice(&big);
    data.extend_from_slice(b"smallwxyz");
    let mut mapped = open(data.clone()).unwrap();
    let mut buffered = open_buffered(data).unwrap();
    assert_eq!(mapped.files.len(), buffered.files.len());
    for i in 0..mapped.files.len() {
        assert_eq!(mapped.files[i].name, buffered.files[i].name);
        assert_eq!(mapped.files[i].offset, buffered.files[i].offset);
        assert_eq!(mapped.files[i].length, buffered.files[i].length);
        assert_eq!(mapped.files[i].compression, buffered.files[i].compression);
    }
    let outs_mapped = mapped.extract_all().unwrap();
    let outs_buffered = buffered.extract_all().unwrap();
    assert_eq!(outs_mapped, outs_buffered);
    assert_eq!(outs_mapped[0], big);
}
