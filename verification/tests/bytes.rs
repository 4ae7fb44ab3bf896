use docs_mount::bytes::{append, begins_with, copy_of, find_first, join, same_bytes};

#[test]
fn copy_holds_the_same_bytes() {
    assert_eq!(copy_of(b"abc"), b"abc".to_vec());
    assert_eq!(copy_of(b""), Vec::<u8>::new());
}

#[test]
fn append_puts_the_bytes_behind() {
    let mut out = b"ab".to_vec();
    append(&mut out, b"cd");
    append(&mut out, b"");
    assert_eq!(out, b"abcd".to_vec());
}

#[test]
fn same_bytes_compares_length_and_content() {
    assert!(same_bytes(b"abc", b"abc"));
    assert!(same_bytes(b"", b""));
    assert!(!same_bytes(b"abc", b"abd"));
    assert!(!same_bytes(b"abc", b"ab"));
    assert!(!same_bytes(b"ab", b"abc"));
}

#[test]
fn begins_with_tests_the_prefix() {
    assert!(begins_with(b"/docs/x", b"/docs/"));
    assert!(begins_with(b"/docs", b""));
    assert!(begins_with(b"/docs", b"/docs"));
    assert!(!begins_with(b"/doc", b"/docs"));
    assert!(!begins_with(b"/dacs/x", b"/docs"));
}

#[test]
fn find_first_gives_the_least_offset() {
    assert_eq!(find_first(b"a{{x}}b{{x}}", b"{{x}}"), Some(1));
    assert_eq!(find_first(b"{{x}}", b"{{x}}"), Some(0));
    assert_eq!(find_first(b"ab{{x}}", b"{{x}}"), Some(2));
    assert_eq!(find_first(b"aaab", b"aab"), Some(1));
}

#[test]
fn find_first_gives_none_where_nothing_stands() {
    assert_eq!(find_first(b"a{{x}b", b"{{x}}"), None);
    assert_eq!(find_first(b"ab", b"abc"), None);
    assert_eq!(find_first(b"", b"a"), None);
}

#[test]
fn find_first_finds_the_empty_needle_at_the_start() {
    assert_eq!(find_first(b"abc", b""), Some(0));
    assert_eq!(find_first(b"", b""), Some(0));
}

#[test]
fn join_puts_the_separator_between_parts() {
    assert_eq!(join(&vec![b"a".to_vec(), b"bc".to_vec(), b"d".to_vec()], b','), b"a,bc,d".to_vec());
    assert_eq!(join(&vec![b"a".to_vec()], b','), b"a".to_vec());
    assert_eq!(join(&Vec::new(), b','), Vec::<u8>::new());
    assert_eq!(join(&vec![Vec::new(), Vec::new()], b'/'), b"/".to_vec());
}
