use rusttyobject::api::{validate_bucket_name, validate_path, BAD_REQUEST};
use rusttyobject::text::utf8_len_exceeds;

#[test]
fn bucket_names_accept_safe_single_segments() {
    assert_eq!(
        validate_bucket_name(" product-images ".into()).unwrap(),
        "product-images"
    );
    assert_eq!(
        validate_bucket_name("user_uploads".into()).unwrap(),
        "user_uploads"
    );
}

#[test]
fn bucket_names_reject_paths_and_reserved_names() {
    for name in ["", "root", ".hidden", "one/two", "../bucket", "a?b"] {
        assert!(
            validate_bucket_name(name.into()).is_err(),
            "accepted invalid bucket: {name}"
        );
    }
}

#[test]
fn paths_reject_traversal() {
    assert!(validate_path("bucket/../secret".into()).is_err());
    assert_eq!(
        validate_path("bucket/file.txt".into()).unwrap(),
        "bucket/file.txt"
    );
}

#[test]
fn paths_are_trimmed_and_use_forward_slashes() {
    assert_eq!(validate_path("  /a\\b/c.txt/ ".into()).unwrap(), "a/b/c.txt");
    assert_eq!(validate_path("\u{3000}x".into()).unwrap(), "x");
}

#[test]
fn paths_reject_empty_and_dot_segments() {
    for path in ["", "   ", "/", "a//b", "./a", "a/.", "..", "\\a\\"] {
        let err = validate_path(path.into()).unwrap_err();
        assert_eq!(err.status, BAD_REQUEST);
        assert_eq!(
            err.message,
            "File paths must be relative and cannot contain . or .. segments"
        );
    }
    assert_eq!(validate_path("a/.b/..c".into()).unwrap(), "a/.b/..c");
}

#[test]
fn bucket_name_errors_say_why() {
    let shape = validate_bucket_name("one/two".into()).unwrap_err();
    assert_eq!(shape.status, 400);
    assert_eq!(
        shape.message,
        "Bucket names must be one non-empty path segment, up to 100 characters, and cannot start with a dot or use 'root'"
    );
    let chars = validate_bucket_name("a?b".into()).unwrap_err();
    assert_eq!(
        chars.message,
        "Bucket names may contain only letters, numbers, spaces, hyphens, and underscores"
    );
}

#[test]
fn bucket_names_are_limited_to_100_bytes() {
    let hundred = "a".repeat(100);
    assert_eq!(validate_bucket_name(hundred.clone()).unwrap(), hundred);
    assert!(validate_bucket_name("a".repeat(101)).is_err());
    // 50 two-byte characters are 100 bytes but fail the character check.
    let accented = "\u{e9}".repeat(50);
    assert_eq!(
        validate_bucket_name(accented).unwrap_err().message,
        "Bucket names may contain only letters, numbers, spaces, hyphens, and underscores"
    );
    // 51 two-byte characters are over 100 bytes: the shape check refuses them first.
    assert!(validate_bucket_name("\u{e9}".repeat(51))
        .unwrap_err()
        .message
        .starts_with("Bucket names must be one"));
}

#[test]
fn bucket_names_allow_spaces_hyphens_underscores() {
    assert_eq!(validate_bucket_name("/My Bucket-1_x/".into()).unwrap(), "My Bucket-1_x");
    assert!(validate_bucket_name("..".into()).is_err());
    assert!(validate_bucket_name("\\x".into()).is_err());
}

#[test]
fn byte_lengths_compare_with_any_limit() {
    assert!(utf8_len_exceeds("\u{e9}\u{e9}", 3));
    assert!(!utf8_len_exceeds("\u{e9}\u{e9}", 4));
    assert!(!utf8_len_exceeds("abc", usize::MAX));
    assert!(utf8_len_exceeds("a", 0));
    assert!(!utf8_len_exceeds("", 0));
    assert!(utf8_len_exceeds("\u{1f600}", 3));
}

#[test]
fn checked_paths_and_names_pass_again_unchanged() {
    for raw in ["/docs/a.txt/", " a\\b ", "x/y/z", "one\\two"] {
        let once = validate_path(raw.to_string()).unwrap();
        assert_eq!(validate_path(once.clone()).unwrap(), once);
    }
    for raw in [" photos ", "/my bucket/", "a_b-c"] {
        let once = validate_bucket_name(raw.to_string()).unwrap();
        assert_eq!(validate_bucket_name(once.clone()).unwrap(), once);
    }
}
