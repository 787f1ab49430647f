use sausage::{bytes_eq, join_path, mtime_max, parse_input_path, ModTime};

fn parse(s: &str) -> (Vec<u8>, Option<Vec<u8>>) {
    parse_input_path(&s.as_bytes().to_vec())
}

#[test]
fn input_without_colon_has_no_mount() {
    assert_eq!(parse("a/b"), (b"a/b".to_vec(), None));
    assert_eq!(parse(""), (b"".to_vec(), None));
}

#[test]
fn input_with_colon_splits_path_and_mount() {
    assert_eq!(parse("a:b"), (b"a".to_vec(), Some(b"b".to_vec())));
    assert_eq!(parse(":m"), (b"".to_vec(), Some(b"m".to_vec())));
    assert_eq!(parse("a:"), (b"a".to_vec(), Some(b"".to_vec())));
}

#[test]
fn text_after_a_second_colon_is_ignored() {
    assert_eq!(parse("a:b:c"), (b"a".to_vec(), Some(b"b".to_vec())));
    assert_eq!(parse("x::"), (b"x".to_vec(), Some(b"".to_vec())));
}

#[test]
fn byte_helpers_behave() {
    assert!(bytes_eq(&b"abc".to_vec(), &b"abc".to_vec()));
    assert!(!bytes_eq(&b"abc".to_vec(), &b"abd".to_vec()));
    assert!(!bytes_eq(&b"abc".to_vec(), &b"ab".to_vec()));
    assert_eq!(join_path(&b"/r".to_vec(), &b"x".to_vec()), b"/r/x".to_vec());
}

#[test]
fn mtime_order_is_seconds_then_nanoseconds() {
    let a = ModTime { sec: 5, nano: 900 };
    let b = ModTime { sec: 6, nano: 0 };
    let c = ModTime { sec: 6, nano: 1 };
    assert_eq!(mtime_max(a, b), b);
    assert_eq!(mtime_max(c, b), c);
    assert_eq!(mtime_max(a, a), a);
}
