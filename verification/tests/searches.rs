use dirsum::search::{contains_pattern, lines_of, matching_lines};

#[test]
fn contains_pattern_basics() {
    assert!(contains_pattern("hello world", "world"));
    assert!(contains_pattern("hello", "hello"));
    assert!(contains_pattern("hello", ""));
    assert!(contains_pattern("", ""));
    assert!(!contains_pattern("", "x"));
    assert!(!contains_pattern("hello", "world"));
    assert!(!contains_pattern("ab", "abc"));
}

#[test]
fn lines_split_like_the_platform_writes_them() {
    assert_eq!(lines_of(""), Vec::<String>::new());
    assert_eq!(lines_of("a"), vec!["a"]);
    assert_eq!(lines_of("a\nb"), vec!["a", "b"]);
    assert_eq!(lines_of("a\nb\n"), vec!["a", "b"]);
    assert_eq!(lines_of("a\n\nb"), vec!["a", "", "b"]);
    assert_eq!(lines_of("a\r\nb\r\n"), vec!["a", "b"]);
    // A carriage return not followed by a newline stays.
    assert_eq!(lines_of("a\rb"), vec!["a\rb"]);
    assert_eq!(lines_of("\n"), vec![""]);
}

#[test]
fn matching_lines_filters_in_order() {
    let content = "alpha\nbeta\ngamma\nalphabet\n";
    assert_eq!(matching_lines(content, "alpha"), vec!["alpha", "alphabet"]);
    assert_eq!(matching_lines(content, "mm"), vec!["gamma"]);
    assert_eq!(matching_lines(content, "zz"), Vec::<String>::new());
}

#[test]
fn empty_pattern_matches_every_line() {
    assert_eq!(matching_lines("a\nb\nc", ""), vec!["a", "b", "c"]);
}
