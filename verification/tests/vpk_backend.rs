use tf_asset_loader::Loader;

fn push_cstr(out: &mut Vec<u8>, s: &str) {
    out.extend_from_slice(s.as_bytes());
    out.push(0);
}

/// A minimal version-1 package-index file holding one entry at
/// `models/test.mdl` whose bytes live entirely in the preload section.
fn tiny_vpk(data: &[u8]) -> Vec<u8> {
    let mut tree: Vec<u8> = Vec::new();
    push_cstr(&mut tree, "mdl"); // extension
    push_cstr(&mut tree, "models"); // directory
    push_cstr(&mut tree, "test"); // file name
    tree.extend_from_slice(&0u32.to_le_bytes()); // crc32
    tree.extend_from_slice(&(data.len() as u16).to_le_bytes()); // preload length
    tree.extend_from_slice(&0u16.to_le_bytes()); // archive index
    tree.extend_from_slice(&0u32.to_le_bytes()); // archive offset
    tree.extend_from_slice(&0u32.to_le_bytes()); // file length: preload only
    tree.extend_from_slice(&0xffffu16.to_le_bytes()); // terminator suffix
    tree.extend_from_slice(data); // preload data
    push_cstr(&mut tree, ""); // end of file names
    push_cstr(&mut tree, ""); // end of directories
    push_cstr(&mut tree, ""); // end of extensions

    let mut out: Vec<u8> = Vec::new();
    out.extend_from_slice(&0x55aa1234u32.to_le_bytes()); // signature
    out.extend_from_slice(&1u32.to_le_bytes()); // version
    out.extend_from_slice(&(tree.len() as u32).to_le_bytes()); // tree length
    out.extend_from_slice(&tree);
    out
}

#[test]
fn package_index_entries_are_loadable() {
    let root = tempfile::tempdir().unwrap();
    fs_err::create_dir_all(root.path().join("tf")).unwrap();
    fs_err::create_dir_all(root.path().join("hl2")).unwrap();
    let pak = tiny_vpk(b"packed model");
    fs_err::write(root.path().join("tf").join("pak01_dir.vpk"), &pak).unwrap();

    let loader = Loader::with_tf2_dir(root.path().to_str().unwrap()).unwrap();
    assert!(loader.has("models/test.mdl").unwrap());
    assert_eq!(loader.load("models/test.mdl").unwrap(), Some(b"packed model".to_vec()));
    // the lowercase fallback reaches packaged entries too
    assert_eq!(loader.load("Models/Test.MDL").unwrap(), Some(b"packed model".to_vec()));
    // a package miss is absent, not an error
    assert_eq!(loader.load("models/other.mdl").unwrap(), None);
}

#[test]
fn malformed_package_index_is_skipped() {
    let root = tempfile::tempdir().unwrap();
    fs_err::create_dir_all(root.path().join("tf")).unwrap();
    fs_err::create_dir_all(root.path().join("hl2")).unwrap();
    fs_err::write(root.path().join("tf").join("bad_dir.vpk"), b"not a package").unwrap();
    fs_err::write(root.path().join("tf").join("a.bin"), b"a").unwrap();

    // construction survives the bad index and the rest still works
    let loader = Loader::with_tf2_dir(root.path().to_str().unwrap()).unwrap();
    assert_eq!(loader.load("a.bin").unwrap(), Some(b"a".to_vec()));
}
