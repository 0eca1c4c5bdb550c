use std::path::Path;
use tf_asset_loader::source::{map_read_outcome, FileRead, MemSource, Source};
use tf_asset_loader::{Loader, LoaderError};

/// A scratch install root holding empty `tf` and `hl2` content
/// directories.
fn scratch_root() -> tempfile::TempDir {
    let root = tempfile::tempdir().unwrap();
    fs_err::create_dir_all(root.path().join("tf")).unwrap();
    fs_err::create_dir_all(root.path().join("hl2")).unwrap();
    root
}

fn loader_at(root: &Path) -> Loader {
    Loader::with_tf2_dir(root.to_str().unwrap()).unwrap()
}

fn mem_with(entries: &[(&str, &[u8])], faults: &[&str]) -> Source {
    let mut mem = MemSource::new();
    for (path, data) in entries {
        mem.insert(path.to_string(), data.to_vec());
    }
    for path in faults {
        mem.add_fault(path.to_string());
    }
    Source::Mem(mem)
}

#[test]
fn first_listed_source_wins() {
    let root = scratch_root();
    let mut loader = loader_at(root.path());
    loader.add_source(mem_with(&[("x/y.bin", b"first")], &[]));
    loader.add_source(mem_with(&[("x/y.bin", b"second")], &[]));
    assert_eq!(loader.load("x/y.bin").unwrap(), Some(b"first".to_vec()));
    assert!(loader.has("x/y.bin").unwrap());
}

#[test]
fn miss_is_absent_not_error() {
    let root = scratch_root();
    let mut loader = loader_at(root.path());
    loader.add_source(mem_with(&[("present.bin", b"data")], &[]));
    let missing = loader.load("nowhere/nothing.bin").unwrap();
    assert_eq!(missing, None);
    assert!(!loader.has("nowhere/nothing.bin").unwrap());
}

#[test]
fn lowercase_fallback_finds_lowercase_stored_path() {
    let root = scratch_root();
    let mut loader = loader_at(root.path());
    loader.add_source(mem_with(&[("models/foo.mdl", b"mdl")], &[]));
    // the exact-case pass misses, the lowercase retry hits
    assert_eq!(loader.load("Models/Foo.MDL").unwrap(), Some(b"mdl".to_vec()));
    assert!(loader.has("Models/Foo.MDL").unwrap());
}

#[test]
fn lowercase_fallback_tries_exactly_one_transform() {
    let root = scratch_root();
    let mut loader = loader_at(root.path());
    // stored under a third casing: neither the query nor its lowercase form
    loader.add_source(mem_with(&[("models/Foo.MDL", b"mdl")], &[]));
    assert_eq!(loader.load("models/foo.mdl").unwrap(), None);
    assert!(!loader.has("models/foo.mdl").unwrap());
}

#[test]
fn lowercase_query_only_matches_lowercase_storage() {
    let root = scratch_root();
    let mut loader = loader_at(root.path());
    // an already-lowercase query gets no second pass, so storage under
    // any other casing stays invisible to it
    loader.add_source(mem_with(&[("Models/Foo.mdl", b"mdl")], &[]));
    assert_eq!(loader.load("models/foo.mdl").unwrap(), None);
}

#[test]
fn error_aborts_scan_before_later_hit() {
    let root = scratch_root();
    let mut loader = loader_at(root.path());
    loader.add_source(mem_with(&[], &["x/y.bin"]));
    loader.add_source(mem_with(&[("x/y.bin", b"hit")], &[]));
    let err = loader.load("x/y.bin");
    assert!(matches!(err, Err(LoaderError::Other(_))));
    let err = loader.has("x/y.bin");
    assert!(matches!(err, Err(LoaderError::Other(_))));
}

#[test]
fn download_directory_included_only_when_present_at_construction() {
    let root = scratch_root();
    let before = loader_at(root.path());
    assert_eq!(before.load("loose.bin").unwrap(), None);

    let download = root.path().join("tf").join("download");
    fs_err::create_dir_all(&download).unwrap();
    fs_err::write(download.join("loose.bin"), b"loose").unwrap();

    // the old loader never re-checks: the directory stays out of its list
    assert_eq!(before.load("loose.bin").unwrap(), None);

    // a loader constructed while it exists lists it third
    let after = loader_at(root.path());
    assert_eq!(after.load("loose.bin").unwrap(), Some(b"loose".to_vec()));
}

#[test]
fn game_directory_outranks_engine_and_download() {
    let root = scratch_root();
    let download = root.path().join("tf").join("download");
    fs_err::create_dir_all(&download).unwrap();
    fs_err::write(root.path().join("tf").join("same.bin"), b"tf").unwrap();
    fs_err::write(root.path().join("hl2").join("same.bin"), b"hl2").unwrap();
    fs_err::write(download.join("same.bin"), b"download").unwrap();
    let loader = loader_at(root.path());
    assert_eq!(loader.load("same.bin").unwrap(), Some(b"tf".to_vec()));

    fs_err::remove_file(root.path().join("tf").join("same.bin")).unwrap();
    assert_eq!(loader.load("same.bin").unwrap(), Some(b"hl2".to_vec()));
}

#[test]
fn find_in_paths_swallows_existence_errors() {
    let root = scratch_root();
    let mut loader = loader_at(root.path());
    loader.add_source(mem_with(&[("b/x.bin", b"data")], &["a/x.bin"]));
    // the direct check errors for the first candidate ...
    assert!(loader.has("a/x.bin").is_err());
    // ... but the search treats it as a miss and keeps going
    let found = loader.find_in_paths("x.bin", &["a/".to_string(), "b/".to_string()]);
    assert_eq!(found, Some("b/x.bin".to_string()));
}

#[test]
fn find_in_paths_misses_cleanly() {
    let root = scratch_root();
    let loader = loader_at(root.path());
    let found = loader.find_in_paths("x.bin", &["a/".to_string(), "b/".to_string()]);
    assert_eq!(found, None);
}

#[test]
fn find_in_paths_keeps_the_candidate_casing() {
    let root = scratch_root();
    let mut loader = loader_at(root.path());
    loader.add_source(mem_with(&[("maps/arena.bsp", b"bsp")], &[]));
    // the existence check's own lowercase fallback finds the asset, and
    // the candidate is returned as built, not lowercased
    let found = loader.find_in_paths("ARENA.BSP", &["maps/".to_string()]);
    assert_eq!(found, Some("maps/ARENA.BSP".to_string()));
}

#[test]
fn find_in_paths_cleans_candidates() {
    let root = scratch_root();
    let mut loader = loader_at(root.path());
    loader.add_source(mem_with(&[("models/a.mdl", b"a")], &[]));
    let found = loader.find_in_paths("a.mdl", &["models/extra/../".to_string()]);
    assert_eq!(found, Some("models/a.mdl".to_string()));
}

#[test]
fn end_to_end_directory_loader() {
    let root = scratch_root();
    let models = root.path().join("tf").join("models");
    fs_err::create_dir_all(&models).unwrap();
    fs_err::write(models.join("a.mdl"), b"model bytes").unwrap();
    let loader = loader_at(root.path());
    assert_eq!(loader.load("models/a.mdl").unwrap(), Some(b"model bytes".to_vec()));
    assert!(loader.has("models/a.mdl").unwrap());
    assert_eq!(loader.load("models/missing.mdl").unwrap(), None);
}

#[test]
fn read_outcomes_map_exactly() {
    assert_eq!(map_read_outcome(FileRead::Data(b"x".to_vec())).unwrap(), Some(b"x".to_vec()));
    assert_eq!(map_read_outcome(FileRead::Missing).unwrap(), None);
    let denied = std::io::Error::new(std::io::ErrorKind::PermissionDenied, "denied");
    assert!(matches!(map_read_outcome(FileRead::Failed(denied)), Err(LoaderError::Io(_))));
}

#[test]
fn unreadable_present_path_is_an_io_error_not_a_miss() {
    let root = scratch_root();
    fs_err::create_dir_all(root.path().join("tf").join("somedir")).unwrap();
    let loader = loader_at(root.path());
    // the path exists but cannot be read as a file: not a miss, an I/O error
    assert!(loader.has("somedir").unwrap());
    assert!(matches!(loader.load("somedir"), Err(LoaderError::Io(_))));
}

#[test]
fn construction_fails_without_content_directories() {
    let root = tempfile::tempdir().unwrap();
    // no `tf`/`hl2` to scan: the directory-scan step's error propagates
    let built = Loader::with_tf2_dir(root.path().to_str().unwrap());
    assert!(matches!(built, Err(LoaderError::Io(_))));
}

#[test]
fn cloned_loader_shares_sources() {
    let root = scratch_root();
    let mut loader = loader_at(root.path());
    loader.add_source(mem_with(&[("x.bin", b"x")], &[]));
    let copy = loader.clone();
    assert_eq!(copy.load("x.bin").unwrap(), Some(b"x".to_vec()));
}
