use std::io::Write;

use layeredfs::compression::CompressionType;
use layeredfs::layered::{FsError, LayeredFS, LayeredFile, ProviderKind};
use layeredfs::strutil::extension_of;
use layeredfs::upkf::Upkf;

fn upkf_bytes_with(path: &str, content: &[u8]) -> Vec<u8> {
    let mut up = Upkf::new("layered test".to_string());
    up.add_binary_file(path.to_string(), content.to_vec(), CompressionType::NONE);
    up.to_bytes().unwrap()
}

fn vpk_bytes_single(payload: &[u8]) -> Vec<u8> {
    // a version-1 directory holding folder/a.txt whose payload follows the tree
    let mut tree: Vec<u8> = Vec::new();
    tree.extend_from_slice(b"txt\0folder\0a\0");
    tree.extend_from_slice(&0u32.to_le_bytes()); // crc
    tree.extend_from_slice(&0u16.to_le_bytes()); // preload bytes
    tree.extend_from_slice(&0x7fffu16.to_le_bytes()); // archive index: after directory
    tree.extend_from_slice(&0u32.to_le_bytes()); // offset within data section
    tree.extend_from_slice(&(payload.len() as u32).to_le_bytes());
    tree.extend_from_slice(&0xffffu16.to_le_bytes());
    tree.extend_from_slice(b"\0\0\0");
    let mut out: Vec<u8> = Vec::new();
    out.extend_from_slice(&0x55AA1234u32.to_le_bytes());
    out.extend_from_slice(&1u32.to_le_bytes());
    out.extend_from_slice(&(tree.len() as u32).to_le_bytes());
    out.extend_from_slice(&tree);
    out.extend_from_slice(payload);
    out
}

#[test]
fn layer_precedence_and_reverse() {
    let dir = tempfile::TempDir::new().unwrap();
    let mut f = tempfile::Builder::new()
        .prefix("a.txt")
        .rand_bytes(0)
        .tempfile_in(dir.path())
        .unwrap();
    f.write_all(b"from folder").unwrap();
    f.flush().unwrap();

    let bytes = upkf_bytes_with("a.txt", b"from archive");

    let mut fs = LayeredFS::new();
    fs.add_folder_layer(dir.path().to_str().unwrap().to_string(), false);
    fs.add_upkf_layer("mem.upkf".to_string(), &bytes, true, false).unwrap();
    assert_eq!(fs.layer_count(), 2);
    let folder_id = fs.layer_at(0).uuid();
    let upkf_id = fs.layer_at(1).uuid();
    assert_ne!(folder_id, upkf_id);

    assert!(fs.contains("a.txt"));
    let h = fs.get_file("a.txt").unwrap();
    assert_eq!(h.layer(), folder_id);
    assert!(matches!(h, LayeredFile::Folder { .. }));

    fs.reverse();
    let h2 = fs.get_file("a.txt").unwrap();
    assert_eq!(h2.layer(), upkf_id);
    assert_eq!(h2.read().unwrap(), b"from archive".to_vec());
    assert_eq!(h2.read_string().unwrap(), "from archive");
}

#[test]
fn unknown_path_not_found() {
    let bytes = upkf_bytes_with("present.txt", b"x");
    let mut fs = LayeredFS::new();
    fs.add_upkf_layer("mem.upkf".to_string(), &bytes, true, false).unwrap();
    let dir = tempfile::TempDir::new().unwrap();
    fs.add_folder_layer(dir.path().to_str().unwrap().to_string(), false);

    assert!(!fs.contains("missing"));
    let r = fs.get_file("missing");
    assert!(matches!(r, Err(FsError::NotFound)));
    assert!(fs.resolve("missing").is_none());
}

#[test]
fn provider_dispatch() {
    let dir = tempfile::TempDir::new().unwrap();
    let fs = LayeredFS::new();

    // a directory always selects the folder provider
    let r = fs.select_provider(dir.path().to_str().unwrap());
    assert!(matches!(r, Ok(ProviderKind::Folder)));

    // an existing .vpk file selects the VPK provider
    let vf = tempfile::Builder::new().suffix(".vpk").tempfile_in(dir.path()).unwrap();
    let r = fs.select_provider(vf.path().to_str().unwrap());
    assert!(matches!(r, Ok(ProviderKind::Vpk)));

    // an unrecognized extension is refused as unsupported
    let zf = tempfile::Builder::new().suffix(".zip").tempfile_in(dir.path()).unwrap();
    match fs.select_provider(zf.path().to_str().unwrap()) {
        Err(layeredfs::layered::LayeredFSError::Unsupported(e)) => assert_eq!(e, "zip"),
        other => panic!("expected an unsupported extension, got {:?}", other.is_ok()),
    }

    // a missing path with no extension is refused for want of one
    let no_ext = dir.path().join("does_not_exist");
    let r = fs.select_provider(no_ext.to_str().unwrap());
    assert!(matches!(r, Err(layeredfs::layered::LayeredFSError::NoExtension)));

    // the UPKF provider answers once it is registered
    let mut fs2 = LayeredFS::new();
    fs2.add_layer_provider(ProviderKind::Upkf);
    let uf = tempfile::Builder::new().suffix(".upkf").tempfile_in(dir.path()).unwrap();
    let r = fs2.select_provider(uf.path().to_str().unwrap());
    assert!(matches!(r, Ok(ProviderKind::Upkf)));
}

#[test]
fn vpk_layer_lazy_offsets() {
    let payload = b"DATA";
    let bytes = vpk_bytes_single(payload);
    let mut fs = LayeredFS::new();
    fs.add_vpk_layer("pak_dir.vpk".to_string(), &bytes, false).unwrap();

    assert!(fs.contains("folder/a.txt"));
    let h = fs.get_file("folder/a.txt").unwrap();
    match h {
        LayeredFile::Vpk { archive_path, offset, length, ref path, .. } => {
            assert_eq!(archive_path, "pak_dir.vpk");
            assert_eq!(length as usize, payload.len());
            assert_eq!(path, "folder/a.txt");
            // the recorded window points exactly at the payload
            let start = offset as usize;
            assert_eq!(&bytes[start..start + length as usize], payload);
        },
        _ => panic!("expected a vpk-backed handle"),
    }

    // a handle read must come from the backing file, not from memory
    let h2 = fs.get_file("folder/a.txt").unwrap();
    assert!(matches!(h2.read(), Err(FsError::NotResident)));
    assert_eq!(h2.size(), Some(payload.len() as u64));
}

#[test]
fn resolve_composes_virtual_paths() {
    let bytes = upkf_bytes_with("a.txt", b"x");
    let mut fs = LayeredFS::new();
    fs.add_upkf_layer("base.upkf".to_string(), &bytes, false, false).unwrap();
    let r = fs.resolve("a.txt").unwrap();
    assert_eq!(r, "base.upkf!/a.txt");
}

#[test]
fn find_layer_by_identity() {
    let bytes = upkf_bytes_with("a.txt", b"x");
    let mut fs = LayeredFS::new();
    fs.add_upkf_layer("base.upkf".to_string(), &bytes, false, false).unwrap();
    let id = fs.layer_at(0).uuid();
    let found = fs.find_layer(id).expect("the layer is in the list");
    assert_eq!(found.uuid(), id);
    assert!(fs.find_layer(id.wrapping_add(1)).is_none());

    let meta = found.meta();
    assert_eq!(meta.origin.as_deref(), Some("layered test"));
    assert_eq!(meta.filename, "base.upkf");
    assert_eq!(meta.size, Some(bytes.len() as u64));
}

#[test]
fn prepend_puts_layer_first() {
    let a = upkf_bytes_with("a.txt", b"first");
    let b = upkf_bytes_with("a.txt", b"second");
    let mut fs = LayeredFS::new();
    fs.add_upkf_layer("a.upkf".to_string(), &a, false, false).unwrap();
    fs.add_upkf_layer("b.upkf".to_string(), &b, false, true).unwrap();
    // b was prepended, so it wins the tie
    let h = fs.get_file("a.txt").unwrap();
    assert_eq!(h.read().unwrap(), b"second".to_vec());
    assert_eq!(fs.resolve("a.txt").unwrap(), "b.upkf!/a.txt");
}

#[test]
fn folder_layer_meta_and_resolve() {
    let dir = tempfile::TempDir::new().unwrap();
    let base = dir.path().to_str().unwrap().to_string();
    let mut fs = LayeredFS::new();
    fs.add_folder_layer(base.clone(), false);
    let layer = fs.layer_at(0);
    let meta = layer.meta();
    assert!(meta.origin.is_none());
    assert_eq!(meta.filename, base);
    assert!(meta.size.is_none());
    assert_eq!(layer.resolve("sub/file.txt"), format!("{}/sub/file.txt", base));
}

#[test]
fn reverse_twice_restores_order() {
    let a = upkf_bytes_with("a.txt", b"first");
    let b = upkf_bytes_with("a.txt", b"second");
    let mut fs = LayeredFS::new();
    fs.add_upkf_layer("a.upkf".to_string(), &a, false, false).unwrap();
    fs.add_upkf_layer("b.upkf".to_string(), &b, false, false).unwrap();
    let first = fs.layer_at(0).uuid();
    fs.reverse();
    fs.reverse();
    assert_eq!(fs.layer_at(0).uuid(), first);
    assert_eq!(fs.get_file("a.txt").unwrap().read().unwrap(), b"first".to_vec());
}

#[test]
fn extension_extraction() {
    assert_eq!(extension_of("dir/archive.tar.gz").as_deref(), Some("gz"));
    assert_eq!(extension_of("pak01_dir.vpk").as_deref(), Some("vpk"));
    assert_eq!(extension_of("dir.d/noext"), None);
    assert_eq!(extension_of(".hidden"), None);
    assert_eq!(extension_of("plain"), None);
}
