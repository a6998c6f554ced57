//! End-to-end tests of the archive writer: round trips through an
//! independent ZIP reader, duplicate rejection, error reporting, and
//! byte-level checks of the record layout.
use std::io::Cursor;
use std::io::Read;

use simzip::update_slow;
use simzip::Attribute;
use simzip::Compression;
use simzip::FileMeta;
use simzip::ZipEntry;
use simzip::ZipError;
use simzip::ZipInfo;

// 2023-11-14 22:13:20 UTC: a timestamp well inside the DOS window.
const NOW: u64 = 1_700_000_000;

fn mem_metas(n: usize) -> Vec<Option<FileMeta>> {
    let mut v: Vec<Option<FileMeta>> = Vec::new();
    for _ in 0..n {
        v.push(None);
    }
    v
}

#[test]
fn round_trip_store_entry() {
    let mut zip = ZipInfo::new("test.zip");
    let mut entry = ZipEntry::new("test entry.txt", b"test content".to_vec());
    entry.compression = Compression::Store;
    assert!(zip.add(entry));
    let bytes = zip.store(NOW, &mem_metas(1)).unwrap();

    let mut archive = zip::ZipArchive::new(Cursor::new(bytes)).unwrap();
    assert_eq!(archive.len(), 1);
    let mut file = archive.by_index(0).unwrap();
    assert_eq!(file.name(), "test entry.txt");
    let mut content = Vec::new();
    file.read_to_end(&mut content).unwrap();
    assert_eq!(content, b"test content");
    assert_eq!(file.crc32(), update_slow(0, b"test content"));
}

#[test]
fn round_trip_deflate_entry() {
    let mut zip = ZipInfo::new("test.zip");
    let payload: Vec<u8> = b"abcabcabcabcabcabcabcabcabcabc0123456789".to_vec();
    // The default method is Deflate.
    assert!(zip.add(ZipEntry::new("d.bin", payload.clone())));
    let bytes = zip.store(NOW, &mem_metas(1)).unwrap();

    let mut archive = zip::ZipArchive::new(Cursor::new(bytes)).unwrap();
    let mut file = archive.by_index(0).unwrap();
    let mut content = Vec::new();
    file.read_to_end(&mut content).unwrap();
    assert_eq!(content, payload);
    assert_eq!(file.crc32(), update_slow(0, &payload));
}

#[test]
fn duplicate_rejection_enabled() {
    let mut zip = ZipInfo::new("test.zip");
    zip.prohibit_duplicates();
    assert!(zip.add(ZipEntry::new("same.txt", b"one".to_vec())));
    assert!(!zip.add(ZipEntry::new("same.txt", b"two".to_vec())));
    let bytes = zip.store(NOW, &mem_metas(1)).unwrap();
    let archive = zip::ZipArchive::new(Cursor::new(bytes)).unwrap();
    assert_eq!(archive.len(), 1);
}

#[test]
fn duplicate_rejection_disabled() {
    let mut zip = ZipInfo::new("test.zip");
    let mut a = ZipEntry::new("same.txt", b"one".to_vec());
    a.compression = Compression::Store;
    let mut b = ZipEntry::new("same.txt", b"two".to_vec());
    b.compression = Compression::Store;
    assert!(zip.add(a));
    assert!(zip.add(b));
    let raw = zip.store(NOW, &mem_metas(2)).unwrap();
    // Both entries are serialized under the same name: the end
    // record counts two, and two local-file-header signatures stand
    // in the data section.
    let end = raw.len() - 22;
    assert_eq!(u16::from_le_bytes([raw[end + 10], raw[end + 11]]), 2);
    let sigs = raw
        .windows(4)
        .filter(|w| w == &[0x50, 0x4B, 0x03, 0x04])
        .count();
    assert_eq!(sigs, 2);
}

#[test]
fn duplicate_rejection_differs_by_path() {
    let mut zip = ZipInfo::new("test.zip");
    zip.prohibit_duplicates();
    let mut a = ZipEntry::new("same.txt", b"one".to_vec());
    a.path = Some("dir".to_string());
    assert!(zip.add(a));
    // Same name, no path: a different key, so it is taken.
    assert!(zip.add(ZipEntry::new("same.txt", b"two".to_vec())));
    let mut b = ZipEntry::new("same.txt", b"three".to_vec());
    b.path = Some("dir".to_string());
    assert!(!zip.add(b));
}

#[test]
fn unsupported_compression_reported() {
    let mut zip = ZipInfo::new("test.zip");
    let mut entry = ZipEntry::new("s.bin", b"x".to_vec());
    entry.compression = Compression::Shrink;
    zip.add(entry);
    assert_eq!(
        zip.store(NOW, &mem_metas(1)),
        Err(ZipError::UnsupportedCompression(Compression::Shrink))
    );
}

#[test]
fn time_after_window_reported() {
    let mut zip = ZipInfo::new("test.zip");
    zip.add(ZipEntry::new("t.bin", b"x".to_vec()));
    // Year 2128: past the last year the DOS encoding can hold.
    assert_eq!(
        zip.store(5_000_000_000, &mem_metas(1)),
        Err(ZipError::TimeOutOfRange(5_000_000_000))
    );
}

#[test]
fn time_before_window_reported() {
    let mut zip = ZipInfo::new("test.zip");
    zip.add(ZipEntry::new("t.bin", b"x".to_vec()));
    // Year 1973: before the 1980 epoch of the DOS encoding.
    assert_eq!(
        zip.store(100_000_000, &mem_metas(1)),
        Err(ZipError::TimeOutOfRange(100_000_000))
    );
}

#[test]
fn empty_archive_round_trips() {
    let mut zip = ZipInfo::new("empty.zip");
    let bytes = zip.store(NOW, &mem_metas(0)).unwrap();
    assert_eq!(bytes.len(), 22);
    let archive = zip::ZipArchive::new(Cursor::new(bytes)).unwrap();
    assert_eq!(archive.len(), 0);
}

#[test]
fn archive_comment_round_trips() {
    let mut zip = ZipInfo::new_with_comment("c.zip", "made for testing");
    zip.add(ZipEntry::new("a.txt", b"aaa".to_vec()));
    let bytes = zip.store(NOW, &mem_metas(1)).unwrap();
    let archive = zip::ZipArchive::new(Cursor::new(bytes)).unwrap();
    assert_eq!(archive.comment(), b"made for testing");
}

#[test]
fn entry_path_prefixes_name() {
    let mut zip = ZipInfo::new("p.zip");
    let mut entry = ZipEntry::new("file.txt", b"data".to_vec());
    entry.path = Some("some/dir".to_string());
    entry.compression = Compression::Store;
    zip.add(entry);
    let bytes = zip.store(NOW, &mem_metas(1)).unwrap();
    let mut archive = zip::ZipArchive::new(Cursor::new(bytes)).unwrap();
    let file = archive.by_index(0).unwrap();
    assert_eq!(file.name(), "some/dir/file.txt");
}

#[test]
fn entry_comment_round_trips() {
    let mut zip = ZipInfo::new("ec.zip");
    let mut entry = ZipEntry::new("a.txt", b"aaa".to_vec());
    entry.comment = Some("per-entry note".to_string());
    zip.add(entry);
    let bytes = zip.store(NOW, &mem_metas(1)).unwrap();
    let mut archive = zip::ZipArchive::new(Cursor::new(bytes)).unwrap();
    let file = archive.by_index(0).unwrap();
    assert_eq!(file.comment(), "per-entry note");
}

#[test]
fn from_file_derives_base_name() {
    let entry = ZipEntry::from_file("/tmp/dir/leaf.txt", None);
    assert_eq!(entry.name, "leaf.txt");
    let entry = ZipEntry::from_file("plain.txt", None);
    assert_eq!(entry.name, "plain.txt");
    let entry = ZipEntry::from_file("a/b/c", Some("inside"));
    assert_eq!(entry.name, "c");
    assert_eq!(entry.path.as_deref(), Some("inside"));
}

#[test]
fn from_file_ignores_trailing_slashes() {
    // Trailing slashes do not count, as with a POSIX base name.
    let entry = ZipEntry::from_file("/usr/bin/", None);
    assert_eq!(entry.name, "bin");
    let entry = ZipEntry::from_file("a/b/", None);
    assert_eq!(entry.name, "b");
    let entry = ZipEntry::from_file("x///", None);
    assert_eq!(entry.name, "x");
}

#[test]
fn error_messages_name_the_cause() {
    assert_eq!(
        ZipError::UnsupportedCompression(Compression::Shrink).message(),
        "compression Shrink isn't supported yet"
    );
    assert_eq!(
        ZipError::TimeOutOfRange(0).message(),
        "timestamp cannot be represented in the archive"
    );
}

#[test]
fn disk_entry_uses_file_meta() {
    let mut zip = ZipInfo::new("d.zip");
    let mut entry = ZipEntry::from_file("/made/up/file.txt", None);
    entry.compression = Compression::Store;
    zip.add(entry);
    let meta = FileMeta {
        data: b"file payload".to_vec(),
        size: 12,
        mtime: 1_600_000_000,
        atime: 1_600_000_001,
        ctime: 1_600_000_002,
        created: 1_600_000_000,
        uid: 1000,
        gid: 100,
        readonly: true,
        executable: false,
    };
    let bytes = zip.store(NOW, &vec![Some(meta)]).unwrap();
    let mut archive = zip::ZipArchive::new(Cursor::new(bytes)).unwrap();
    let mut file = archive.by_index(0).unwrap();
    assert_eq!(file.name(), "file.txt");
    // Read-only source: mode 0444 with the regular-file marker.
    assert_eq!(file.unix_mode(), Some(0o100444));
    let mut content = Vec::new();
    file.read_to_end(&mut content).unwrap();
    assert_eq!(content, b"file payload");
}

#[test]
fn executable_source_sets_exec_bits() {
    let mut zip = ZipInfo::new("x.zip");
    let mut entry = ZipEntry::from_file("bin/tool", None);
    entry.compression = Compression::Store;
    zip.add(entry);
    let meta = FileMeta {
        data: b"#!x".to_vec(),
        size: 3,
        mtime: 1_600_000_000,
        atime: 0,
        ctime: 0,
        created: 1_600_000_000,
        uid: 0,
        gid: 0,
        readonly: false,
        executable: true,
    };
    let bytes = zip.store(NOW, &vec![Some(meta)]).unwrap();
    let mut archive = zip::ZipArchive::new(Cursor::new(bytes)).unwrap();
    let file = archive.by_index(0).unwrap();
    assert_eq!(file.unix_mode(), Some(0o100777));
}

#[test]
fn offsets_match_local_headers() {
    // The offset invariant, checked through an independent reader:
    // each central-directory record's recorded offset points at the
    // local-file-header signature of its entry.
    let mut zip = ZipInfo::new("o.zip");
    let mut a = ZipEntry::new("first.txt", b"first payload".to_vec());
    a.compression = Compression::Store;
    let mut b = ZipEntry::new("second.txt", b"2nd".to_vec());
    b.compression = Compression::Store;
    let mut c = ZipEntry::new("third.txt", vec![7u8; 300]);
    c.compression = Compression::Store;
    zip.add(a);
    zip.add(b);
    zip.add(c);
    let bytes = zip.store(NOW, &mem_metas(3)).unwrap();
    let raw = bytes.clone();
    let mut archive = zip::ZipArchive::new(Cursor::new(bytes)).unwrap();
    for i in 0..3 {
        let file = archive.by_index(i).unwrap();
        let start = file.header_start() as usize;
        assert_eq!(&raw[start..start + 4], &[0x50, 0x4B, 0x03, 0x04]);
    }
}

#[test]
fn local_extra_field_length_matches_content() {
    // The extra-field length invariant, checked at the byte level:
    // the declared length covers exactly the bytes between the name
    // and the payload.
    let mut zip = ZipInfo::new("e.zip");
    let mut entry = ZipEntry::new("n.txt", b"xyz".to_vec());
    entry.compression = Compression::Store;
    zip.add(entry);
    let raw = zip.store(NOW, &mem_metas(1)).unwrap();
    // Local header: fixed 30 bytes, then name, then extra, then payload.
    let name_len = u16::from_le_bytes([raw[26], raw[27]]) as usize;
    let extra_len = u16::from_le_bytes([raw[28], raw[29]]) as usize;
    assert_eq!(name_len, 5);
    let extra = &raw[30 + name_len..30 + name_len + extra_len];
    // One Unix-timestamp field: its declared inner length covers the
    // rest of the extra field exactly.
    assert_eq!(u16::from_le_bytes([extra[0], extra[1]]), 0x5455);
    let inner = u16::from_le_bytes([extra[2], extra[3]]) as usize;
    assert_eq!(4 + inner, extra_len);
    // The payload follows immediately.
    assert_eq!(&raw[30 + name_len + extra_len..30 + name_len + extra_len + 3], b"xyz");
}

#[test]
fn end_record_sizes_central_directory() {
    // The end-record invariant, checked at the byte level: the end
    // record's central-directory size spans from the recorded start
    // offset to the end record itself, and the start offset points
    // at a central-file-header signature just after the last
    // payload.
    let mut zip = ZipInfo::new("z.zip");
    let mut a = ZipEntry::new("a.txt", b"AAAA".to_vec());
    a.compression = Compression::Store;
    let mut b = ZipEntry::new("b.txt", b"BB".to_vec());
    b.compression = Compression::Store;
    zip.add(a);
    zip.add(b);
    let raw = zip.store(NOW, &mem_metas(2)).unwrap();
    let end = raw.len() - 22;
    assert_eq!(&raw[end..end + 4], &[0x50, 0x4B, 0x05, 0x06]);
    let n_disk = u16::from_le_bytes([raw[end + 8], raw[end + 9]]);
    let n_all = u16::from_le_bytes([raw[end + 10], raw[end + 11]]);
    assert_eq!(n_disk, 2);
    assert_eq!(n_all, 2);
    let central_size =
        u32::from_le_bytes([raw[end + 12], raw[end + 13], raw[end + 14], raw[end + 15]]) as usize;
    let central_off =
        u32::from_le_bytes([raw[end + 16], raw[end + 17], raw[end + 18], raw[end + 19]]) as usize;
    assert_eq!(central_off + central_size, end);
    assert_eq!(&raw[central_off..central_off + 4], &[0x50, 0x4B, 0x01, 0x02]);
}

#[test]
fn store_twice_is_stable() {
    // Re-serializing from scratch is well-defined: both runs give
    // the same bytes for the same wall-clock time.
    let mut zip = ZipInfo::new("twice.zip");
    let mut entry = ZipEntry::new("a.txt", b"payload".to_vec());
    entry.compression = Compression::Store;
    zip.add(entry);
    let first = zip.store(NOW, &mem_metas(1)).unwrap();
    let second = zip.store(NOW, &mem_metas(1)).unwrap();
    assert_eq!(first, second);
}

#[test]
fn dos_fields_encoded_exactly() {
    // NOW is 2023-11-14 22:13:20 UTC. The packed time is
    // 20/2 + 13*16 + 22*2048 = 45274 and the packed date is
    // 14 + 11*32 + (2023-1980)*512 = 22382; they stand at fixed
    // places in the local header.
    let mut zip = ZipInfo::new("t.zip");
    let mut entry = ZipEntry::new("a", b"z".to_vec());
    entry.compression = Compression::Store;
    zip.add(entry);
    let raw = zip.store(NOW, &mem_metas(1)).unwrap();
    assert_eq!(&raw[0..4], &[0x50, 0x4B, 0x03, 0x04]);
    assert_eq!(u16::from_le_bytes([raw[4], raw[5]]), 20); // version needed
    assert_eq!(u16::from_le_bytes([raw[6], raw[7]]), 0); // flags
    assert_eq!(u16::from_le_bytes([raw[8], raw[9]]), 0); // method: Store
    assert_eq!(u16::from_le_bytes([raw[10], raw[11]]), 45274);
    assert_eq!(u16::from_le_bytes([raw[12], raw[13]]), 22382);
}

#[test]
fn default_permissions_are_rw() {
    let mut zip = ZipInfo::new("m.zip");
    let mut entry = ZipEntry::new("a.txt", b"x".to_vec());
    entry.compression = Compression::Store;
    zip.add(entry);
    let bytes = zip.store(NOW, &mem_metas(1)).unwrap();
    let mut archive = zip::ZipArchive::new(Cursor::new(bytes)).unwrap();
    let file = archive.by_index(0).unwrap();
    assert_eq!(file.unix_mode(), Some(0o100666));
}

#[test]
fn store_populates_derived_fields() {
    let mut zip = ZipInfo::new("f.zip");
    let mut entry = ZipEntry::new("a.txt", b"some payload".to_vec());
    entry.compression = Compression::Store;
    zip.add(entry);
    let raw = zip.store(NOW, &mem_metas(1)).unwrap();
    let e = &zip.entries[0];
    assert_eq!(e.crc, update_slow(0, b"some payload"));
    assert_eq!(e.len, 12); // Store: compressed length is the payload length
    assert_eq!(e.orig_len, 12);
    assert_eq!(e.offset, 0); // first entry starts the archive
    assert_eq!(e.modified, NOW);
    assert_eq!(e.times_mask, 0b100); // in-memory: only a status-change time
    assert!(raw.len() > 12);
}

#[test]
fn method_codes_match_format() {
    assert_eq!(Compression::Store.value(), 0);
    assert_eq!(Compression::Shrink.value(), 1);
    assert_eq!(Compression::Reduction1.value(), 2);
    assert_eq!(Compression::Reduction2.value(), 3);
    assert_eq!(Compression::Reduction3.value(), 4);
    assert_eq!(Compression::Reduction4.value(), 5);
    assert_eq!(Compression::Implode.value(), 6);
    assert_eq!(Compression::Deflate.value(), 8);
    assert_eq!(Compression::Deflat64.value(), 9);
    assert_eq!(Compression::BZIP2.value(), 12);
    assert_eq!(Compression::LZMA.value(), 14);
    assert_eq!(Compression::PPMd.value(), 98);
}

#[test]
fn disk_entry_deflate_round_trips() {
    let mut zip = ZipInfo::new("dd.zip");
    // The default method is Deflate.
    zip.add(ZipEntry::from_file("data/report.txt", None));
    let payload: Vec<u8> = b"report report report report report".to_vec();
    let meta = FileMeta {
        size: payload.len() as u64,
        data: payload.clone(),
        mtime: 1_650_000_000,
        atime: 1_650_000_001,
        ctime: 1_650_000_002,
        created: 1_650_000_000,
        uid: 0,
        gid: 0,
        readonly: false,
        executable: false,
    };
    let bytes = zip.store(NOW, &vec![Some(meta)]).unwrap();
    let mut archive = zip::ZipArchive::new(Cursor::new(bytes)).unwrap();
    let mut file = archive.by_index(0).unwrap();
    assert_eq!(file.name(), "report.txt");
    let mut content = Vec::new();
    file.read_to_end(&mut content).unwrap();
    assert_eq!(content, payload);
    assert_eq!(file.crc32(), update_slow(0, &payload));
}

#[test]
fn entries_compare_by_name_and_path() {
    let a = ZipEntry::new("x.txt", b"one".to_vec());
    let b = ZipEntry::new("x.txt", b"completely different".to_vec());
    assert!(a == b);
    let c = ZipEntry::new("y.txt", b"one".to_vec());
    assert!(a != c);
    let mut d = ZipEntry::new("x.txt", b"one".to_vec());
    d.path = Some("dir".to_string());
    assert!(a != d);
}

#[test]
fn preset_exec_attribute_sets_exec_bits() {
    let mut zip = ZipInfo::new("a.zip");
    let mut entry = ZipEntry::new("tool", b"#!".to_vec());
    entry.compression = Compression::Store;
    entry.attributes.push(Attribute::Exec);
    zip.add(entry);
    let bytes = zip.store(NOW, &mem_metas(1)).unwrap();
    let mut archive = zip::ZipArchive::new(Cursor::new(bytes)).unwrap();
    let file = archive.by_index(0).unwrap();
    assert_eq!(file.unix_mode(), Some(0o100777));
}

#[test]
fn empty_payload_entry_round_trips() {
    let mut zip = ZipInfo::new("e0.zip");
    let mut entry = ZipEntry::new("empty.txt", Vec::new());
    entry.compression = Compression::Store;
    zip.add(entry);
    let bytes = zip.store(NOW, &mem_metas(1)).unwrap();
    let mut archive = zip::ZipArchive::new(Cursor::new(bytes)).unwrap();
    let mut file = archive.by_index(0).unwrap();
    assert_eq!(file.name(), "empty.txt");
    assert_eq!(file.crc32(), 0);
    let mut content = Vec::new();
    file.read_to_end(&mut content).unwrap();
    assert!(content.is_empty());
}

#[test]
fn store_twice_deflate_is_stable() {
    // A second store re-serializes from scratch; with the same
    // clock value the Deflate output is the same stream, and both
    // calls succeed.
    let mut zip = ZipInfo::new("twice-d.zip");
    zip.add(ZipEntry::new("a.bin", b"deflate me deflate me deflate me".to_vec()));
    let first = zip.store(NOW, &mem_metas(1)).unwrap();
    let second = zip.store(NOW, &mem_metas(1)).unwrap();
    assert_eq!(first, second);
}
