use docs_mount::error::Error;
use docs_mount::path::{disguised, normalize, strip_leading_slash, strip_trailing_slash, trim_trailing_slashes};

#[test]
fn plain_path_is_kept() {
    assert_eq!(normalize(b"index.html"), Ok(b"index.html".to_vec()));
    assert_eq!(normalize(b"css/site/main.css"), Ok(b"css/site/main.css".to_vec()));
}

#[test]
fn one_leading_slash_is_taken_off() {
    assert_eq!(normalize(b"/index.html"), Ok(b"index.html".to_vec()));
    assert_eq!(normalize(b"/a/b"), Ok(b"a/b".to_vec()));
}

#[test]
fn empty_path_and_root_normalize_to_nothing() {
    assert_eq!(normalize(b""), Ok(Vec::new()));
    assert_eq!(normalize(b"/"), Ok(Vec::new()));
    assert_eq!(normalize(b"."), Ok(Vec::new()));
    assert_eq!(normalize(b"a/.."), Ok(Vec::new()));
}

#[test]
fn dot_and_empty_segments_are_left_out() {
    assert_eq!(normalize(b"a/./b"), Ok(b"a/b".to_vec()));
    assert_eq!(normalize(b"a//b"), Ok(b"a/b".to_vec()));
    assert_eq!(normalize(b"./a"), Ok(b"a".to_vec()));
    assert_eq!(normalize(b"a/b/"), Ok(b"a/b".to_vec()));
    assert_eq!(normalize(b"a/b/."), Ok(b"a/b".to_vec()));
}

#[test]
fn dot_dot_takes_back_the_segment_before() {
    assert_eq!(normalize(b"a/b/../c"), Ok(b"a/c".to_vec()));
    assert_eq!(normalize(b"a/../b"), Ok(b"b".to_vec()));
    assert_eq!(normalize(b"a/b/../../c"), Ok(b"c".to_vec()));
    assert_eq!(normalize(b"/x/../swagger-ui.css"), Ok(b"swagger-ui.css".to_vec()));
}

#[test]
fn three_dots_are_an_ordinary_segment() {
    assert_eq!(normalize(b"..."), Ok(b"...".to_vec()));
    assert_eq!(normalize(b"a/.../b"), Ok(b"a/.../b".to_vec()));
    assert_eq!(normalize(b"..a"), Ok(b"..a".to_vec()));
}

#[test]
fn climbing_above_the_root_is_refused() {
    assert_eq!(normalize(b".."), Err(Error::InvalidPath));
    assert_eq!(normalize(b"../x"), Err(Error::InvalidPath));
    assert_eq!(normalize(b"/../x"), Err(Error::InvalidPath));
    assert_eq!(normalize(b"a/../../x"), Err(Error::InvalidPath));
    assert_eq!(normalize(b"a/../.."), Err(Error::InvalidPath));
    assert_eq!(normalize(b"../../etc/passwd"), Err(Error::InvalidPath));
}

#[test]
fn climbing_back_under_the_root_does_not_mend_the_path() {
    assert_eq!(normalize(b"../a/b"), Err(Error::InvalidPath));
    assert_eq!(normalize(b"a/../../a/index.html"), Err(Error::InvalidPath));
}

#[test]
fn absolute_path_behind_the_first_slash_is_refused() {
    assert_eq!(normalize(b"//etc/passwd"), Err(Error::InvalidPath));
    assert_eq!(normalize(b"//"), Err(Error::InvalidPath));
    assert_eq!(normalize(b"///a"), Err(Error::InvalidPath));
}

#[test]
fn encoded_separators_are_refused() {
    assert_eq!(normalize(b"%2e%2e/x"), Err(Error::InvalidPath));
    assert_eq!(normalize(b"%2E%2E/x"), Err(Error::InvalidPath));
    assert_eq!(normalize(b"..%2f..%2fetc%2fpasswd"), Err(Error::InvalidPath));
    assert_eq!(normalize(b"..%2Fx"), Err(Error::InvalidPath));
    assert_eq!(normalize(b"a%5cb"), Err(Error::InvalidPath));
    assert_eq!(normalize(b"a%5Cb"), Err(Error::InvalidPath));
    assert_eq!(normalize(b"index%2ehtml"), Err(Error::InvalidPath));
    assert_eq!(normalize(b"x/%2e%2e/../index.html"), Err(Error::InvalidPath));
}

#[test]
fn other_percent_signs_are_ordinary_bytes() {
    assert_eq!(normalize(b"100%25.png"), Ok(b"100%25.png".to_vec()));
    assert_eq!(normalize(b"a%2"), Ok(b"a%2".to_vec()));
    assert_eq!(normalize(b"a%"), Ok(b"a%".to_vec()));
    assert_eq!(normalize(b"%2g"), Ok(b"%2g".to_vec()));
    assert_eq!(normalize(b"%5d"), Ok(b"%5d".to_vec()));
}

#[test]
fn disguise_is_found_anywhere_in_the_path() {
    assert!(disguised(b"%2e"));
    assert!(disguised(b"abc%2F"));
    assert!(disguised(b"%5cabc"));
    assert!(!disguised(b""));
    assert!(!disguised(b"%2"));
    assert!(!disguised(b"%25%32%65"));
    assert!(!disguised(b"2e%"));
}

#[test]
fn one_slash_is_stripped_at_either_end() {
    assert_eq!(strip_leading_slash(b"/a"), b"a");
    assert_eq!(strip_leading_slash(b"//a"), b"/a");
    assert_eq!(strip_leading_slash(b"a"), b"a");
    assert_eq!(strip_leading_slash(b""), b"");
    assert_eq!(strip_trailing_slash(b"a/"), b"a");
    assert_eq!(strip_trailing_slash(b"a//"), b"a/");
    assert_eq!(strip_trailing_slash(b"a"), b"a");
    assert_eq!(strip_trailing_slash(b"/"), b"");
    assert_eq!(strip_trailing_slash(b""), b"");
}

#[test]
fn all_trailing_slashes_are_trimmed() {
    assert_eq!(trim_trailing_slashes(b"/docs"), b"/docs");
    assert_eq!(trim_trailing_slashes(b"/docs/"), b"/docs");
    assert_eq!(trim_trailing_slashes(b"/docs///"), b"/docs");
    assert_eq!(trim_trailing_slashes(b"/"), b"");
    assert_eq!(trim_trailing_slashes(b"//"), b"");
    assert_eq!(trim_trailing_slashes(b""), b"");
    assert_eq!(trim_trailing_slashes(b"/a/b/"), b"/a/b");
}
