use std::io::Write;

use unzipper::extract::{EntryError, EntryStatus};
use unzipper::extract_archive;
use unzipper::meta::Archive;
use unzipper::parse::ParseError;

struct RawEntry {
    name: Vec<u8>,
    flags: u16,
    method: u16,
    crc: u32,
    csize: u32,
    usize_: u32,
    mod_time: u16,
    mod_date: u16,
    payload: Vec<u8>,
    external_attrs: u32,
    version_made_by: u16,
    comment: Vec<u8>,
    cd_extra: Vec<u8>,
}

fn store_entry(name: &str, data: &[u8]) -> RawEntry {
    RawEntry {
        name: name.as_bytes().to_vec(),
        flags: 0,
        method: 0,
        crc: crc32fast::hash(data),
        csize: data.len() as u32,
        usize_: data.len() as u32,
        mod_time: 0,
        mod_date: 0,
        payload: data.to_vec(),
        external_attrs: 0,
        version_made_by: 0,
        comment: Vec::new(),
        cd_extra: Vec::new(),
    }
}

fn deflate_entry(name: &str, data: &[u8]) -> RawEntry {
    let mut enc = flate2::write::DeflateEncoder::new(Vec::new(), flate2::Compression::default());
    enc.write_all(data).unwrap();
    let payload = enc.finish().unwrap();
    RawEntry {
        name: name.as_bytes().to_vec(),
        flags: 0,
        method: 8,
        crc: crc32fast::hash(data),
        csize: payload.len() as u32,
        usize_: data.len() as u32,
        mod_time: 0,
        mod_date: 0,
        payload,
        external_attrs: 0,
        version_made_by: 0,
        comment: Vec::new(),
        cd_extra: Vec::new(),
    }
}

fn build_zip(entries: &[RawEntry], archive_comment: &[u8]) -> Vec<u8> {
    let mut out: Vec<u8> = Vec::new();
    let mut offsets: Vec<u32> = Vec::new();
    for e in entries {
        offsets.push(out.len() as u32);
        out.extend_from_slice(&0x04034b50u32.to_le_bytes());
        out.extend_from_slice(&20u16.to_le_bytes());
        out.extend_from_slice(&e.flags.to_le_bytes());
        out.extend_from_slice(&e.method.to_le_bytes());
        out.extend_from_slice(&e.mod_time.to_le_bytes());
        out.extend_from_slice(&e.mod_date.to_le_bytes());
        out.extend_from_slice(&e.crc.to_le_bytes());
        out.extend_from_slice(&e.csize.to_le_bytes());
        out.extend_from_slice(&e.usize_.to_le_bytes());
        out.extend_from_slice(&(e.name.len() as u16).to_le_bytes());
        out.extend_from_slice(&0u16.to_le_bytes());
        out.extend_from_slice(&e.name);
        out.extend_from_slice(&e.payload);
    }
    let cd_start = out.len() as u32;
    for (e, off) in entries.iter().zip(offsets.iter()) {
        out.extend_from_slice(&0x02014b50u32.to_le_bytes());
        out.extend_from_slice(&e.version_made_by.to_le_bytes());
        out.extend_from_slice(&20u16.to_le_bytes());
        out.extend_from_slice(&e.flags.to_le_bytes());
        out.extend_from_slice(&e.method.to_le_bytes());
        out.extend_from_slice(&e.mod_time.to_le_bytes());
        out.extend_from_slice(&e.mod_date.to_le_bytes());
        out.extend_from_slice(&e.crc.to_le_bytes());
        out.extend_from_slice(&e.csize.to_le_bytes());
        out.extend_from_slice(&e.usize_.to_le_bytes());
        out.extend_from_slice(&(e.name.len() as u16).to_le_bytes());
        out.extend_from_slice(&(e.cd_extra.len() as u16).to_le_bytes());
        out.extend_from_slice(&(e.comment.len() as u16).to_le_bytes());
        out.extend_from_slice(&0u16.to_le_bytes());
        out.extend_from_slice(&0u16.to_le_bytes());
        out.extend_from_slice(&e.external_attrs.to_le_bytes());
        out.extend_from_slice(&off.to_le_bytes());
        out.extend_from_slice(&e.name);
        out.extend_from_slice(&e.cd_extra);
        out.extend_from_slice(&e.comment);
    }
    let cd_size = out.len() as u32 - cd_start;
    out.extend_from_slice(&0x06054b50u32.to_le_bytes());
    out.extend_from_slice(&0u16.to_le_bytes());
    out.extend_from_slice(&0u16.to_le_bytes());
    out.extend_from_slice(&(entries.len() as u16).to_le_bytes());
    out.extend_from_slice(&(entries.len() as u16).to_le_bytes());
    out.extend_from_slice(&cd_size.to_le_bytes());
    out.extend_from_slice(&cd_start.to_le_bytes());
    out.extend_from_slice(&(archive_comment.len() as u16).to_le_bytes());
    out.extend_from_slice(archive_comment);
    out
}

#[test]
fn store_entry_roundtrip() {
    let zip = build_zip(&[store_entry("hello.txt", b"hi")], b"");
    let (archive, report) = extract_archive(&zip).unwrap();
    assert_eq!(archive.entries.len(), 1);
    assert_eq!(report.statuses.len(), 1);
    assert!(matches!(report.statuses[0], EntryStatus::WroteFile));
    assert_eq!(report.files.len(), 1);
    assert_eq!(report.files[0].path, vec![b"hello.txt".to_vec()]);
    assert_eq!(report.files[0].data, b"hi".to_vec());
}

#[test]
fn written_bytes_match_declared_crc_and_size() {
    let zip = build_zip(
        &[store_entry("a.txt", b"alpha"), deflate_entry("b.txt", b"beta beta beta beta")],
        b"",
    );
    let (archive, report) = extract_archive(&zip).unwrap();
    assert_eq!(report.files.len(), 2);
    for (entry, file) in archive.entries.iter().zip(report.files.iter()) {
        assert_eq!(crc32fast::hash(&file.data), entry.crc32);
        assert_eq!(file.data.len() as u64, entry.uncompressed_size);
    }
}

#[test]
fn deflate_entry_roundtrip() {
    let data = b"the quick brown fox jumps over the lazy dog, twice over";
    let zip = build_zip(&[deflate_entry("fox.txt", data)], b"");
    let (_, report) = extract_archive(&zip).unwrap();
    assert_eq!(report.files.len(), 1);
    assert_eq!(report.files[0].data, data.to_vec());
}

#[test]
fn traversal_entry_skipped() {
    let zip = build_zip(
        &[store_entry("a/../../etc/passwd", b"root"), store_entry("ok.txt", b"fine")],
        b"",
    );
    let (_, report) = extract_archive(&zip).unwrap();
    assert!(matches!(report.statuses[0], EntryStatus::SkippedUnsafe));
    assert!(matches!(report.statuses[1], EntryStatus::WroteFile));
    assert_eq!(report.files.len(), 1);
    assert_eq!(report.files[0].path, vec![b"ok.txt".to_vec()]);
}

#[test]
fn truncated_payload_fails_only_that_entry() {
    let mut bad = store_entry("bad.txt", b"short");
    bad.csize = 0x10000;
    let zip = build_zip(&[store_entry("good.txt", b"good"), bad], b"");
    let (_, report) = extract_archive(&zip).unwrap();
    assert!(matches!(report.statuses[0], EntryStatus::WroteFile));
    assert!(matches!(report.statuses[1], EntryStatus::Failed(EntryError::TruncatedEntry)));
    assert_eq!(report.files.len(), 1);
    assert_eq!(report.files[0].data, b"good".to_vec());
}

#[test]
fn truncated_deflate_stream_fails() {
    let data = b"aaaaaaaaaaaaaaaaaaaaaaaaaaaaaaaaaaaaaaaaaaaaaaaaaaaaaaaa";
    let mut e = deflate_entry("t.txt", data);
    let half = e.payload.len() / 2;
    e.payload.truncate(half);
    e.csize = half as u32;
    let zip = build_zip(&[e], b"");
    let (_, report) = extract_archive(&zip).unwrap();
    assert!(matches!(report.statuses[0], EntryStatus::Failed(EntryError::TruncatedEntry)));
}

#[test]
fn zero_entries_valid_eocd() {
    let zip = build_zip(&[], b"");
    let (archive, report) = extract_archive(&zip).unwrap();
    assert_eq!(archive.entries.len(), 0);
    assert_eq!(report.statuses.len(), 0);
    assert_eq!(report.files.len(), 0);
    assert_eq!(report.dirs.len(), 0);
}

#[test]
fn duplicate_names_keep_order_last_wins() {
    let zip = build_zip(
        &[store_entry("dup.txt", b"first"), store_entry("dup.txt", b"second")],
        b"",
    );
    let (_, report) = extract_archive(&zip).unwrap();
    assert_eq!(report.files.len(), 2);
    assert_eq!(report.files[0].path, report.files[1].path);
    assert_eq!(report.files[0].data, b"first".to_vec());
    assert_eq!(report.files[1].data, b"second".to_vec());
}

#[test]
fn extraction_is_deterministic() {
    let zip = build_zip(
        &[store_entry("x.txt", b"xx"), deflate_entry("y.txt", b"yy yy yy yy")],
        b"",
    );
    let (_, first) = extract_archive(&zip).unwrap();
    let (_, second) = extract_archive(&zip).unwrap();
    assert_eq!(first.files.len(), second.files.len());
    for (f, s) in first.files.iter().zip(second.files.iter()) {
        assert_eq!(f.path, s.path);
        assert_eq!(f.data, s.data);
        assert_eq!(f.mode, s.mode);
    }
}

#[test]
fn wrong_declared_crc_fails() {
    let mut e = store_entry("c.txt", b"data");
    e.crc = e.crc.wrapping_add(1);
    let zip = build_zip(&[e], b"");
    let (_, report) = extract_archive(&zip).unwrap();
    assert!(matches!(report.statuses[0], EntryStatus::Failed(EntryError::CrcMismatch)));
}

#[test]
fn store_size_mismatch_fails() {
    let mut e = store_entry("s.txt", b"ab");
    e.usize_ = 3;
    let zip = build_zip(&[e], b"");
    let (_, report) = extract_archive(&zip).unwrap();
    assert!(matches!(report.statuses[0], EntryStatus::Failed(EntryError::SizeMismatch)));
}

#[test]
fn unsupported_method_fails() {
    let mut e = store_entry("m.txt", b"zz");
    e.method = 99;
    let zip = build_zip(&[e], b"");
    let (_, report) = extract_archive(&zip).unwrap();
    assert!(matches!(report.statuses[0], EntryStatus::Failed(EntryError::UnsupportedMethod)));
}

#[test]
fn local_header_mismatch_fails() {
    let zip_ok = build_zip(&[store_entry("h.txt", b"qq")], b"");
    let mut zip = zip_ok.clone();
    // the first local header's method field sits at offset 8
    zip[8] = 8;
    let (_, report) = extract_archive(&zip).unwrap();
    assert!(matches!(report.statuses[0], EntryStatus::Failed(EntryError::InconsistentEntry)));
}

#[test]
fn directory_entry_planned() {
    let zip = build_zip(&[store_entry("sub/", b""), store_entry("sub/f.txt", b"v")], b"");
    let (_, report) = extract_archive(&zip).unwrap();
    assert!(matches!(report.statuses[0], EntryStatus::MadeDir));
    assert_eq!(report.dirs.len(), 1);
    assert_eq!(report.dirs[0], vec![b"sub".to_vec()]);
    assert_eq!(report.files.len(), 1);
    assert_eq!(report.files[0].path, vec![b"sub".to_vec(), b"f.txt".to_vec()]);
}

#[test]
fn no_eocd_is_malformed() {
    let bytes = b"this is not a zip archive at all".to_vec();
    let r = extract_archive(&bytes);
    assert!(matches!(r, Err(ParseError::MalformedArchive(_))));
}

#[test]
fn comments_surface_to_caller() {
    let mut e = store_entry("c.txt", b"1");
    e.comment = b"entry note".to_vec();
    let zip = build_zip(&[e], b"archive note");
    let (archive, _) = extract_archive(&zip).unwrap();
    assert_eq!(archive.comment, b"archive note".to_vec());
    assert_eq!(archive.entries[0].comment, b"entry note".to_vec());
}

#[test]
fn unix_mode_masks_setuid() {
    let mut e = store_entry("tool", b"#!");
    e.version_made_by = 3 << 8;
    e.external_attrs = 0o104755 << 16;
    let zip = build_zip(&[e], b"");
    let (_, report) = extract_archive(&zip).unwrap();
    assert_eq!(report.files[0].mode, Some(0o755));
}

#[test]
fn non_unix_origin_has_no_mode() {
    let zip = build_zip(&[store_entry("plain.txt", b"p")], b"");
    let (_, report) = extract_archive(&zip).unwrap();
    assert_eq!(report.files[0].mode, None);
}

#[test]
fn zip64_eocd_record_supersedes_legacy_fields() {
    let mut zip = build_zip(&[store_entry("z.txt", b"zip64")], b"");
    // strip the legacy end-of-central-directory record and rebuild it with
    // sentinel fields plus a ZIP64 record and locator in front of it
    let eocd_start = zip.len() - 22;
    let count = u16::from_le_bytes([zip[eocd_start + 10], zip[eocd_start + 11]]) as u64;
    let cd_size =
        u32::from_le_bytes(zip[eocd_start + 12..eocd_start + 16].try_into().unwrap()) as u64;
    let cd_off =
        u32::from_le_bytes(zip[eocd_start + 16..eocd_start + 20].try_into().unwrap()) as u64;
    zip.truncate(eocd_start);
    let z64_off = zip.len() as u64;
    zip.extend_from_slice(&0x06064b50u32.to_le_bytes());
    zip.extend_from_slice(&44u64.to_le_bytes());
    zip.extend_from_slice(&45u16.to_le_bytes());
    zip.extend_from_slice(&45u16.to_le_bytes());
    zip.extend_from_slice(&0u32.to_le_bytes());
    zip.extend_from_slice(&0u32.to_le_bytes());
    zip.extend_from_slice(&count.to_le_bytes());
    zip.extend_from_slice(&count.to_le_bytes());
    zip.extend_from_slice(&cd_size.to_le_bytes());
    zip.extend_from_slice(&cd_off.to_le_bytes());
    zip.extend_from_slice(&0x07064b50u32.to_le_bytes());
    zip.extend_from_slice(&0u32.to_le_bytes());
    zip.extend_from_slice(&z64_off.to_le_bytes());
    zip.extend_from_slice(&1u32.to_le_bytes());
    zip.extend_from_slice(&0x06054b50u32.to_le_bytes());
    zip.extend_from_slice(&0u16.to_le_bytes());
    zip.extend_from_slice(&0u16.to_le_bytes());
    zip.extend_from_slice(&0xffffu16.to_le_bytes());
    zip.extend_from_slice(&0xffffu16.to_le_bytes());
    zip.extend_from_slice(&0xffff_ffffu32.to_le_bytes());
    zip.extend_from_slice(&0xffff_ffffu32.to_le_bytes());
    zip.extend_from_slice(&0u16.to_le_bytes());
    let (archive, report) = extract_archive(&zip).unwrap();
    assert_eq!(archive.entries.len(), 1);
    assert_eq!(report.files[0].data, b"zip64".to_vec());
}

#[test]
fn zip64_extra_field_resolves_sizes() {
    let data = b"payload";
    let mut e = store_entry("big.txt", data);
    let real = data.len() as u64;
    e.csize = 0xffff_ffff;
    e.usize_ = 0xffff_ffff;
    let mut extra: Vec<u8> = Vec::new();
    extra.extend_from_slice(&1u16.to_le_bytes());
    extra.extend_from_slice(&16u16.to_le_bytes());
    extra.extend_from_slice(&real.to_le_bytes());
    extra.extend_from_slice(&real.to_le_bytes());
    e.cd_extra = extra;
    let zip = build_zip(&[e], b"");
    let (archive, report) = extract_archive(&zip).unwrap();
    assert_eq!(archive.entries[0].compressed_size, real);
    assert_eq!(archive.entries[0].uncompressed_size, real);
    assert!(matches!(report.statuses[0], EntryStatus::WroteFile));
    assert_eq!(report.files[0].data, data.to_vec());
}

#[test]
fn fail_fast_stops_at_first_failure() {
    let mut bad = store_entry("broken.txt", b"data");
    bad.crc = bad.crc.wrapping_add(1);
    let zip = build_zip(
        &[store_entry("one.txt", b"1"), bad, store_entry("two.txt", b"2")],
        b"",
    );
    let bytes = zip;
    let archive = Archive::parse(&bytes).unwrap();
    let report = unzipper::extract::extract_all_fail_fast(&bytes, &archive);
    assert_eq!(report.statuses.len(), 2);
    assert!(matches!(report.statuses[0], EntryStatus::WroteFile));
    assert!(matches!(report.statuses[1], EntryStatus::Failed(EntryError::CrcMismatch)));
    assert_eq!(report.files.len(), 1);
    let full = unzipper::extract::extract_all(&bytes, &archive);
    assert_eq!(full.statuses.len(), 3);
    assert_eq!(full.files.len(), 2);
}

#[test]
fn fail_fast_without_failure_extracts_everything() {
    let bytes = build_zip(&[store_entry("a", b"a"), store_entry("b", b"b")], b"");
    let archive = Archive::parse(&bytes).unwrap();
    let report = unzipper::extract::extract_all_fail_fast(&bytes, &archive);
    assert_eq!(report.statuses.len(), 2);
    assert_eq!(report.files.len(), 2);
}

#[test]
fn modification_time_fields_parsed() {
    let mut e = store_entry("dated.txt", b"d");
    // 1994-06-24 10:30:12 in MS-DOS encoding
    e.mod_time = (10 << 11) | (30 << 5) | (12 / 2);
    e.mod_date = ((1994 - 1980) << 9) | (6 << 5) | 24;
    let expect_time = e.mod_time;
    let expect_date = e.mod_date;
    let bytes = build_zip(&[e], b"");
    let (archive, _) = extract_archive(&bytes).unwrap();
    assert_eq!(archive.entries[0].mod_time, expect_time);
    assert_eq!(archive.entries[0].mod_date, expect_date);
}

#[test]
fn utf8_name_flag_read() {
    let mut e = store_entry("uni.txt", b"u");
    e.flags = 1 << 11;
    let bytes = build_zip(&[e, store_entry("plain.txt", b"p")], b"");
    let (archive, _) = extract_archive(&bytes).unwrap();
    assert!(archive.entries[0].is_utf8_name());
    assert!(!archive.entries[1].is_utf8_name());
}

#[test]
fn decoy_eocd_in_payload_ignored() {
    // the payload embeds bytes shaped like an end-of-central-directory
    // record; the engine must go by the real one at the end
    let mut fake: Vec<u8> = Vec::new();
    fake.extend_from_slice(&0x06054b50u32.to_le_bytes());
    fake.extend_from_slice(&[0u8; 18]);
    let e = store_entry("decoy.bin", &fake);
    let bytes = build_zip(&[e], b"");
    let (archive, report) = extract_archive(&bytes).unwrap();
    assert_eq!(archive.entries.len(), 1);
    assert_eq!(report.files[0].data, fake);
}

#[test]
fn wrong_entry_count_is_malformed() {
    let mut bytes = build_zip(&[store_entry("a", b"a")], b"");
    let n = bytes.len();
    // both entry-count fields of the end record claim a second entry
    bytes[n - 12] = 2;
    bytes[n - 14] = 2;
    assert!(matches!(extract_archive(&bytes), Err(ParseError::MalformedArchive(_))));
}

#[test]
fn cd_size_mismatch_is_malformed() {
    let mut bytes = build_zip(&[store_entry("a", b"a")], b"");
    let n = bytes.len();
    // declare the central directory one byte shorter than it is
    let cd_size = u32::from_le_bytes(bytes[n - 10..n - 6].try_into().unwrap()) - 1;
    bytes[n - 10..n - 6].copy_from_slice(&cd_size.to_le_bytes());
    assert!(matches!(extract_archive(&bytes), Err(ParseError::MalformedArchive(_))));
}
