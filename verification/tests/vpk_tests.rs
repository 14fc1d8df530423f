use layeredfs::vpk::{Vpk, VpkError, VpkHeaderV1, VpkHeaderV2};

fn le16(out: &mut Vec<u8>, v: u16) {
    out.extend_from_slice(&v.to_le_bytes());
}

fn le32(out: &mut Vec<u8>, v: u32) {
    out.extend_from_slice(&v.to_le_bytes());
}

fn put_str(out: &mut Vec<u8>, s: &str) {
    out.extend_from_slice(s.as_bytes());
    out.push(0);
}

fn record(out: &mut Vec<u8>, crc: u32, preload: u16, archive: u16, off: u32, len: u32, term: u16) {
    le32(out, crc);
    le16(out, preload);
    le16(out, archive);
    le32(out, off);
    le32(out, len);
    le16(out, term);
}

/// A version-1 directory: three files in two folders under one extension.
fn synthetic_v1() -> Vec<u8> {
    let mut tree: Vec<u8> = Vec::new();
    put_str(&mut tree, "txt");
    put_str(&mut tree, "folder1");
    put_str(&mut tree, "a");
    record(&mut tree, 0x11111111, 0, 0x7fff, 0, 4, 0xffff);
    put_str(&mut tree, "b");
    record(&mut tree, 0x22222222, 0, 0x7fff, 4, 7, 0xffff);
    put_str(&mut tree, "");
    put_str(&mut tree, "folder2");
    put_str(&mut tree, "c");
    record(&mut tree, 0x33333333, 0, 0x7fff, 11, 2, 0xffff);
    put_str(&mut tree, "");
    put_str(&mut tree, "");
    put_str(&mut tree, "");

    let mut out: Vec<u8> = Vec::new();
    le32(&mut out, 0x55AA1234);
    le32(&mut out, 1);
    le32(&mut out, tree.len() as u32);
    out.extend_from_slice(&tree);
    out
}

#[test]
fn vpk_parse_v1() {
    let bytes = synthetic_v1();
    let vpk = Vpk::from_bytes(&bytes, "pak01_dir.vpk".to_string()).expect("well-formed directory");
    assert_eq!(vpk.version(), 1);
    assert_eq!(vpk.file_count(), 3);
    assert_eq!(vpk.file_at(0).path, "folder1/a.txt");
    assert_eq!(vpk.file_at(1).path, "folder1/b.txt");
    assert_eq!(vpk.file_at(2).path, "folder2/c.txt");
    assert!(vpk.contains_path("folder1/b.txt"));
    assert!(!vpk.contains_path("folder1/c.txt"));
    let e = vpk.find("folder2/c.txt").expect("indexed");
    assert_eq!(e.entry_length, 2);
    assert_eq!(e.entry_offset, 11);
    assert_eq!(e.crc, 0x33333333);
    assert!(vpk.find("missing/file.txt").is_none());
}

#[test]
fn vpk_invalid_terminator() {
    let mut tree: Vec<u8> = Vec::new();
    put_str(&mut tree, "txt");
    put_str(&mut tree, "folder");
    put_str(&mut tree, "a");
    record(&mut tree, 0, 0, 0x7fff, 0, 4, 0x1234);
    let mut out: Vec<u8> = Vec::new();
    le32(&mut out, 0x55AA1234);
    le32(&mut out, 1);
    le32(&mut out, tree.len() as u32);
    out.extend_from_slice(&tree);

    let r = Vpk::from_bytes(&out, "x.vpk".to_string());
    assert!(matches!(r, Err(VpkError::InvalidEntryTerminator(0x1234))));
}

#[test]
fn vpk_invalid_signature() {
    let mut out: Vec<u8> = Vec::new();
    le32(&mut out, 0xDEADBEEF);
    le32(&mut out, 1);
    le32(&mut out, 0);
    let r = Vpk::from_bytes(&out, "x.vpk".to_string());
    assert!(matches!(r, Err(VpkError::InvalidSignature(0xDEADBEEF))));
}

#[test]
fn vpk_unsupported_version() {
    let mut out: Vec<u8> = Vec::new();
    le32(&mut out, 0x55AA1234);
    le32(&mut out, 3);
    le32(&mut out, 0);
    let r = Vpk::from_bytes(&out, "x.vpk".to_string());
    assert!(matches!(r, Err(VpkError::UnsupportedVersion(3))));
}

#[test]
fn vpk_v2_header() {
    let mut out: Vec<u8> = Vec::new();
    le32(&mut out, 0x55AA1234);
    le32(&mut out, 2);
    le32(&mut out, 1);
    le32(&mut out, 0);
    le32(&mut out, 0);
    le32(&mut out, 48);
    le32(&mut out, 0);
    out.push(0); // empty tree: no extensions

    let h1 = VpkHeaderV1::parse(&out).unwrap();
    assert_eq!(h1.signature, 0x55AA1234);
    assert_eq!(h1.version, 2);
    assert_eq!(h1.tree_length, 1);
    let h2 = VpkHeaderV2::parse(&out).unwrap();
    assert_eq!(h2.other_md5_section_size, 48);

    let vpk = Vpk::from_bytes(&out, "x.vpk".to_string()).unwrap();
    assert_eq!(vpk.version(), 2);
    assert_eq!(vpk.file_count(), 0);
}

#[test]
fn vpk_preload_bytes_skipped() {
    let mut tree: Vec<u8> = Vec::new();
    put_str(&mut tree, "txt");
    put_str(&mut tree, "folder");
    put_str(&mut tree, "a");
    record(&mut tree, 0, 3, 0x7fff, 0, 4, 0xffff);
    tree.extend_from_slice(&[0xAA, 0xBB, 0xCC]); // inline preload data
    put_str(&mut tree, "b");
    record(&mut tree, 0, 0, 0x7fff, 4, 4, 0xffff);
    put_str(&mut tree, "");
    put_str(&mut tree, "");
    put_str(&mut tree, "");
    let mut out: Vec<u8> = Vec::new();
    le32(&mut out, 0x55AA1234);
    le32(&mut out, 1);
    le32(&mut out, tree.len() as u32);
    out.extend_from_slice(&tree);

    let vpk = Vpk::from_bytes(&out, "x.vpk".to_string()).unwrap();
    assert_eq!(vpk.file_count(), 2);
    assert_eq!(vpk.file_at(1).path, "folder/b.txt");
}

#[test]
fn vpk_truncated_tree_ends_gracefully() {
    // the original reader treats running out of data inside a name as the
    // end of that level, so a cleanly cut tree still parses
    let mut out: Vec<u8> = Vec::new();
    le32(&mut out, 0x55AA1234);
    le32(&mut out, 1);
    le32(&mut out, 100);
    out.extend_from_slice(b"tx"); // an unterminated extension name
    let vpk = Vpk::from_bytes(&out, "x.vpk".to_string()).unwrap();
    assert_eq!(vpk.file_count(), 0);
}

#[test]
fn vpk_utf8_names() {
    let mut tree: Vec<u8> = Vec::new();
    put_str(&mut tree, "txt");
    put_str(&mut tree, "f\u{f6}lder");
    put_str(&mut tree, "n\u{e4}me");
    record(&mut tree, 0, 0, 0x7fff, 0, 1, 0xffff);
    put_str(&mut tree, "");
    put_str(&mut tree, "");
    put_str(&mut tree, "");
    let mut out: Vec<u8> = Vec::new();
    le32(&mut out, 0x55AA1234);
    le32(&mut out, 1);
    le32(&mut out, tree.len() as u32);
    out.extend_from_slice(&tree);

    let vpk = Vpk::from_bytes(&out, "x.vpk".to_string()).unwrap();
    assert_eq!(vpk.file_count(), 1);
    assert_eq!(vpk.file_at(0).path, "f\u{f6}lder/n\u{e4}me.txt");
    assert!(vpk.contains_path("f\u{f6}lder/n\u{e4}me.txt"));
}

#[test]
fn vpk_invalid_utf8_name_rejected() {
    let mut tree: Vec<u8> = Vec::new();
    put_str(&mut tree, "txt");
    tree.extend_from_slice(&[0xFF, 0xFE]); // not valid UTF-8
    tree.push(0);
    let mut out: Vec<u8> = Vec::new();
    le32(&mut out, 0x55AA1234);
    le32(&mut out, 1);
    le32(&mut out, tree.len() as u32);
    out.extend_from_slice(&tree);

    let r = Vpk::from_bytes(&out, "x.vpk".to_string());
    assert!(matches!(r, Err(VpkError::FailedReadDirEntry)));
}

#[test]
fn vpk_truncated_record_is_io_error() {
    let mut tree: Vec<u8> = Vec::new();
    put_str(&mut tree, "txt");
    put_str(&mut tree, "folder");
    put_str(&mut tree, "a");
    tree.extend_from_slice(&[0u8; 5]); // record cut short
    let mut out: Vec<u8> = Vec::new();
    le32(&mut out, 0x55AA1234);
    le32(&mut out, 1);
    le32(&mut out, tree.len() as u32);
    out.extend_from_slice(&tree);
    let r = Vpk::from_bytes(&out, "x.vpk".to_string());
    assert!(matches!(r, Err(VpkError::IoError)));
}
