use tf_asset_loader::clean_path;

#[test]
fn test_clean_path() {
    assert_eq!("foo/bar", clean_path("foo/bar"));
    assert_eq!("foo/bar", clean_path("foo/asd/../bar"));
    assert_eq!("../bar", clean_path("../bar"));
}

#[test]
fn clean_path_collapses_multiple_updirs() {
    assert_eq!("bar", clean_path("foo/asd/../../bar"));
    assert_eq!("foo/baz", clean_path("foo/asd/../qux/../baz"));
}

#[test]
fn clean_path_stops_at_synthetic_root() {
    // the upward references that would climb above the root vanish
    assert_eq!("bar", clean_path("foo/../../bar"));
    assert_eq!("b", clean_path("a/../../../b"));
}

#[test]
fn clean_path_keeps_unframed_updirs() {
    // no `/../` substring, so the fast path leaves these untouched
    assert_eq!("..", clean_path(".."));
    assert_eq!("foo/..", clean_path("foo/.."));
    assert_eq!("..foo/bar", clean_path("..foo/bar"));
}

#[test]
fn clean_path_drops_empty_and_dot_segments_when_resolving() {
    assert_eq!("foo/bar", clean_path("foo//asd/../bar"));
    assert_eq!("foo/bar", clean_path("./foo/asd/../bar"));
    assert_eq!("", clean_path("foo/../"));
}
