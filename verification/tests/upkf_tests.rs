use layeredfs::compression::CompressionType;
use layeredfs::upkf::{Upkf, UpkfError, UpkfMeta};

fn build_archive(compression: CompressionType) -> Upkf {
    let mut up = Upkf::new("test origin".to_string());
    up.add_text_file("docs/readme.txt".to_string(), "hello layered world".to_string(), compression);
    up.add_binary_file("bin/blob".to_string(), vec![0u8, 1, 2, 3, 250, 251, 252], compression);
    up.add_file(
        "meta/tagged".to_string(),
        "{\"kind\":\"test\"}".to_string(),
        b"tagged content".to_vec(),
        true,
        compression,
    );
    up
}

fn check_round_trip(compression: CompressionType) {
    let up = build_archive(compression);
    let bytes = up.to_bytes().expect("serialization should succeed");
    let back = Upkf::from_bytes(&bytes, None, true).expect("load with checking should succeed");

    assert_eq!(back.get_origin().as_str(), "test origin");
    assert_eq!(back.count(), 3);

    let e0 = back.get(0);
    assert_eq!(e0.get_path().as_str(), "docs/readme.txt");
    assert_eq!(e0.get_content().as_slice(), b"hello layered world");
    assert_eq!(*e0.is_bynary(), false);
    assert_eq!(e0.get_meta().as_str(), "");

    let e1 = back.get(1);
    assert_eq!(e1.get_path().as_str(), "bin/blob");
    assert_eq!(e1.get_content().as_slice(), &[0u8, 1, 2, 3, 250, 251, 252]);
    assert_eq!(*e1.is_bynary(), true);

    let e2 = back.get(2);
    assert_eq!(e2.get_path().as_str(), "meta/tagged");
    assert_eq!(e2.get_meta().as_str(), "{\"kind\":\"test\"}");
    assert_eq!(e2.get_content().as_slice(), b"tagged content");
    assert!(e2.get_crc32().is_some());
    assert_eq!(e2.get_sha256().as_ref().map(|s| s.len()), Some(64));
}

#[test]
fn round_trip_none() {
    check_round_trip(CompressionType::NONE);
}

#[test]
fn round_trip_lzma() {
    check_round_trip(CompressionType::LZMA);
}

#[test]
fn round_trip_lzma2() {
    check_round_trip(CompressionType::LZMA2);
}

#[test]
fn round_trip_gzip() {
    check_round_trip(CompressionType::GZIP);
}

#[test]
fn integrity_detection_payload_flip() {
    let mut up = Upkf::new("origin".to_string());
    up.add_binary_file("a.bin".to_string(), b"some payload bytes".to_vec(), CompressionType::NONE);
    let mut bytes = up.to_bytes().unwrap();
    // the payload is the last field of the last entry, so the final byte
    // sits inside the payload region
    let last = bytes.len() - 1;
    bytes[last] ^= 0xFF;

    let checked = Upkf::from_bytes(&bytes, None, true);
    assert!(matches!(
        checked,
        Err(UpkfError::Crc32CheckFailed) | Err(UpkfError::Sha256CheckFailed)
    ));

    // without checking, loading must still complete without panicking:
    // garbage or an error, never a crash
    let _ = Upkf::from_bytes(&bytes, None, false);
}

#[test]
fn aggregate_checksum_mismatch() {
    let mut up = Upkf::new("og".to_string());
    up.add_binary_file("a.bin".to_string(), b"payload".to_vec(), CompressionType::NONE);
    let mut bytes = up.to_bytes().unwrap();
    // the aggregate checksum sits right after the length-prefixed origin:
    // 4 (magic) + 1 (version) + 1 (flag) + 2 (length) + 2 (origin)
    bytes[10] ^= 0x55;
    let r = Upkf::from_bytes(&bytes, None, false);
    assert!(matches!(r, Err(UpkfError::Crc32CheckFailed)));
}

#[test]
fn magic_rejection() {
    let up = Upkf::new("origin".to_string());
    let mut bytes = up.to_bytes().unwrap();
    bytes[0] = 0x00;
    let r = Upkf::from_bytes(&bytes, None, true);
    assert!(matches!(r, Err(UpkfError::NotAnUpkFileError)));

    let arbitrary = b"this is not an archive at all";
    let r2 = Upkf::from_bytes(arbitrary, None, true);
    assert!(matches!(r2, Err(UpkfError::NotAnUpkFileError)));

    let short = [0x55u8, 0x50];
    let r3 = Upkf::from_bytes(&short, None, true);
    assert!(matches!(r3, Err(UpkfError::IoError)));
}

#[test]
fn version_rejection() {
    let up = Upkf::new("origin".to_string());
    let mut bytes = up.to_bytes().unwrap();
    bytes[4] = 9;
    let r = Upkf::from_bytes(&bytes, None, false);
    assert!(matches!(r, Err(UpkfError::VersionNotSupportedError)));
}

#[test]
fn truncated_entry_stream() {
    let mut up = Upkf::new("origin".to_string());
    up.add_binary_file("a.bin".to_string(), b"0123456789".to_vec(), CompressionType::NONE);
    let bytes = up.to_bytes().unwrap();
    let cut = &bytes[..bytes.len() - 3];
    let r = Upkf::from_bytes(cut, None, false);
    assert!(matches!(r, Err(UpkfError::IoError)));
}

#[test]
fn meta_deserialize_name_and_fields() {
    let m = UpkfMeta::deserialize(
        "{\"compression\": \"LZMA\", \"binary\": false, \"metadata\": {\"a\": 1}}",
        CompressionType::NONE,
    )
    .expect("valid json");
    assert_eq!(m.get_compression().name(), "LZMA");
    assert_eq!(m.is_binary(), false);
    assert_eq!(m.get_string_meta(), "{\"a\":1}");
}

#[test]
fn meta_deserialize_numeric_code() {
    let m = UpkfMeta::deserialize("{\"compression\": 3}", CompressionType::NONE).unwrap();
    assert_eq!(m.get_compression().name(), "GZIP");
    assert_eq!(m.is_binary(), true);
    assert_eq!(m.get_string_meta(), "");
}

#[test]
fn meta_deserialize_defaults_and_errors() {
    let m = UpkfMeta::deserialize("{}", CompressionType::LZMA2).unwrap();
    assert_eq!(m.get_compression().name(), "LZMA2");
    assert_eq!(m.is_binary(), true);

    let bad = UpkfMeta::deserialize("not json at all {", CompressionType::NONE);
    assert!(bad.is_err());

    let unknown = UpkfMeta::deserialize("{\"compression\": \"ZSTD\"}", CompressionType::GZIP)
        .unwrap();
    assert_eq!(unknown.get_compression().name(), "GZIP");
}

#[test]
fn meta_serialize_mentions_compression() {
    let m = UpkfMeta::default(CompressionType::LZMA);
    let text = m.serialize_string();
    assert!(text.contains("LZMA"));
    let back = UpkfMeta::deserialize(text.as_str(), CompressionType::NONE).unwrap();
    assert_eq!(back.get_compression().name(), "LZMA");
}

#[test]
fn compression_type_codes() {
    assert_eq!(CompressionType::NONE.code(), 0);
    assert_eq!(CompressionType::LZMA.code(), 1);
    assert_eq!(CompressionType::LZMA2.code(), 2);
    assert_eq!(CompressionType::GZIP.code(), 3);
    assert!(matches!(CompressionType::from_code(2), Some(CompressionType::LZMA2)));
    assert!(CompressionType::from_code(9).is_none());
    assert!(matches!(CompressionType::from_name("GZIP"), Some(CompressionType::GZIP)));
    assert!(CompressionType::from_name("gzip").is_none());
}
