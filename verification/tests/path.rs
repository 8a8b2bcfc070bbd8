use hdfs_common::normalize;
use hdfs_common::HdfsError;
use hdfs_common::PathAbs;

const MAX_NAME_LEN: usize = 255;
const MAX_PATH_LEN: usize = 4096;

fn assert_ok(input: &str, expected: &str) {
    let p = PathAbs::try_from(input).unwrap();
    assert_eq!(p.as_str(), expected);
    assert_eq!(p.to_display_string(), expected);
    assert_eq!(normalize(input).unwrap(), expected);
}

fn assert_err_reason(input: &str, expected_reason: &str) {
    match PathAbs::try_from(input) {
        Err(HdfsError::InvalidPath { path, reason }) => {
            assert_eq!(path, input);
            assert_eq!(reason, expected_reason);
        }
        other => panic!("expected InvalidPath error, got: {:?}", other),
    }
}

#[test]
fn normalize_basics() {
    assert_ok("/", "/");
    assert_ok("/a/b", "/a/b");
    assert_ok("/a//b///c/", "/a/b/c");
    assert_ok("/a/./b/.//c", "/a/b/c");
    assert_ok("/a/b/../c", "/a/c");
    assert_ok("/../a", "/a");
    assert_ok("/a/../../..", "/");
}

#[test]
fn rejects_relativ_and_bad_chars() {
    assert_err_reason("a/b", "must be absolut");
    assert_err_reason("", "must be absolut");
    assert_err_reason("/a/\u{1}", "control character not allowed");
}

#[test]
fn segment_and_path_length_limits() {
    let too_long_seg = "a".repeat(MAX_NAME_LEN + 1);
    let input = format!("/{too_long_seg}");
    assert_err_reason(&input, "segement too long");

    let repeats = MAX_PATH_LEN / 2 + 16;
    let input = format!(
        "/{}",
        std::iter::repeat("a/").take(repeats).collect::<String>()
    );
    assert_err_reason(&input, "path too long");
}

#[test]
fn name_and_is_root_helpers() {
    let root = PathAbs::try_from("/").unwrap();
    assert!(root.is_root());
    assert_eq!(root.name(), "/");

    let p = PathAbs::try_from("/a/b").unwrap();
    assert!(!p.is_root());
    assert_eq!(p.name(), "b");

    let single = PathAbs::try_from("/a").unwrap();
    assert_eq!(single.name(), "a");
}

#[test]
fn asref_and_deref_work_like_str() {
    let p = PathAbs::try_from("/x/y").unwrap();

    fn takes_str<S: AsRef<str>>(s: S) -> usize {
        s.as_ref().len()
    }
    assert_eq!(takes_str(p.as_str()), 4);
    assert_eq!(takes_str(p.to_display_string()), 4);

    fn starts_with_slash(s: &str) -> bool {
        s.starts_with('/')
    }
    assert!(starts_with_slash(p.as_str()));
}

#[test]
fn normalize_is_idempotent() {
    let s = "/a//b/../c/./d/";
    let n1 = normalize(s).unwrap();
    let n2 = normalize(&n1).unwrap();
    assert_eq!(n1, n2);
}

#[test]
fn normalize_collapses_dots_and_slashes() {
    // The double dot pops `b`, the single dot and empty segments vanish.
    assert_eq!(normalize("/a//b/../c/./d/").unwrap(), "/a/c/d");
}

#[test]
fn rejection_order_is_fixed() {
    // A relative input is reported as relative even with other defects.
    match normalize("a/\u{1}b") {
        Err(HdfsError::InvalidPath { reason, .. }) => assert_eq!(reason, "must be absolut"),
        other => panic!("expected InvalidPath error, got: {:?}", other),
    }
    // A control character is reported before any segment defect.
    let long_seg = "a".repeat(MAX_NAME_LEN + 1);
    let input = format!("/\u{1}/{long_seg}");
    match normalize(&input) {
        Err(HdfsError::InvalidPath { reason, .. }) => {
            assert_eq!(reason, "control character not allowed")
        }
        other => panic!("expected InvalidPath error, got: {:?}", other),
    }
}

#[test]
fn boundary_lengths_are_accepted() {
    // A segment of exactly the limit passes.
    let seg = "a".repeat(MAX_NAME_LEN);
    let input = format!("/{seg}");
    assert_eq!(normalize(&input).unwrap(), input);
    // Multi-byte characters count by bytes: 128 two-byte characters fill
    // a 256-byte segment, one over the limit.
    let wide = "\u{e9}".repeat(128);
    let input = format!("/{wide}");
    assert_err_reason(&input, "segement too long");
}

#[test]
fn root_collapses_above_root() {
    assert_eq!(normalize("/..").unwrap(), "/");
    assert_eq!(normalize("//").unwrap(), "/");
    assert_eq!(normalize("/./.").unwrap(), "/");
}
