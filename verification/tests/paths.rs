use dirsum::path::normalize_path;

#[test]
fn plain_relative_path_is_unchanged() {
    assert_eq!(normalize_path("a/b/c"), "a/b/c");
}

#[test]
fn doubled_and_trailing_separators_vanish() {
    assert_eq!(normalize_path("a//b"), "a/b");
    assert_eq!(normalize_path("a/b/"), "a/b");
    assert_eq!(normalize_path("a///b///"), "a/b");
}

#[test]
fn interior_dot_segments_vanish() {
    assert_eq!(normalize_path("a/./b"), "a/b");
    assert_eq!(normalize_path("a/b/."), "a/b");
}

#[test]
fn leading_dot_is_kept() {
    assert_eq!(normalize_path("./a"), "./a");
    assert_eq!(normalize_path("."), ".");
    assert_eq!(normalize_path("./."), ".");
}

#[test]
fn parent_segments_are_kept() {
    assert_eq!(normalize_path("../a"), "../a");
    assert_eq!(normalize_path("a/../b"), "a/../b");
}

#[test]
fn single_root_is_unchanged() {
    assert_eq!(normalize_path("/"), "/");
    assert_eq!(normalize_path("//"), "/");
}

#[test]
fn rooted_path_keeps_root_component() {
    // The root is itself a component, so the rejoin shows it before the
    // separator of the first name.
    assert_eq!(normalize_path("/tmp/x"), "//tmp/x");
    assert_eq!(normalize_path("//tmp//x/"), "//tmp/x");
}

#[test]
fn empty_path_stays_empty() {
    assert_eq!(normalize_path(""), "");
}

#[test]
fn normalize_is_idempotent_on_samples() {
    let samples = [
        "", "/", "//", ".", "./", "./a", "a//b/", "/tmp/x", "a/./b", "..", "a/../b", "caf\u{e9}/b",
    ];
    for s in samples {
        let once = normalize_path(s);
        let twice = normalize_path(&once);
        assert_eq!(twice, once);
    }
}
