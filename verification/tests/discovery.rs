use tf_asset_loader::{Loader, LoaderError};

#[test]
fn override_must_name_an_existing_directory() {
    let root = tempfile::tempdir().unwrap();
    let bogus = root.path().join("not-there");
    envmnt::set("TF_DIR", bogus.to_str().unwrap());
    // the override is authoritative: no fallback is attempted
    let built = Loader::new();
    assert!(matches!(built, Err(LoaderError::Tf2NotFound)));
}

#[test]
fn override_to_a_real_install_root_is_used() {
    let root = tempfile::tempdir().unwrap();
    fs_err::create_dir_all(root.path().join("tf")).unwrap();
    fs_err::create_dir_all(root.path().join("hl2")).unwrap();
    fs_err::write(root.path().join("tf").join("a.bin"), b"a").unwrap();
    envmnt::set("TF_DIR", root.path().to_str().unwrap());
    let loader = Loader::new().unwrap();
    assert_eq!(loader.load("a.bin").unwrap(), Some(b"a".to_vec()));
}

#[test]
fn io_errors_convert_into_the_io_variant() {
    let io = std::io::Error::new(std::io::ErrorKind::PermissionDenied, "denied");
    assert!(matches!(LoaderError::from(io), LoaderError::Io(_)));
}
