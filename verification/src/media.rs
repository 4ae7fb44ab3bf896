//! Content types, inferred from the extension of a file name.

use vstd::prelude::*;
use vstd::slice::slice_subrange;

use crate::bytes::{ascii, literal, same_bytes, DOT, SLASH};

verus! {

/// The extension as it is looked up: without the dot it may begin with.
pub open spec fn without_leading_dot(ext: Seq<u8>) -> Seq<u8> {
    if ext.len() > 0 && ext[0] == DOT {
        ext.skip(1)
    } else {
        ext
    }
}

/// The extension, taken without a leading dot, is one that the table lists.
pub open spec fn is_known_extension(ext: Seq<u8>) -> bool {
    let bare = without_leading_dot(ext);
    ||| bare == ascii("html"@)
    ||| bare == ascii("css"@)
    ||| bare == ascii("js"@)
    ||| bare == ascii("json"@)
    ||| bare == ascii("map"@)
    ||| bare == ascii("png"@)
    ||| bare == ascii("svg"@)
    ||| bare == ascii("ico"@)
    ||| bare == ascii("txt"@)
}

/// The content type of files with the extension `ext`, written with or without
/// its dot; `application/octet-stream` for an extension that is not listed.
pub open spec fn content_type_of(ext: Seq<u8>) -> Seq<char> {
    let bare = without_leading_dot(ext);
    if bare == ascii("html"@) {
        "text/html"@
    } else if bare == ascii("css"@) {
        "text/css"@
    } else if bare == ascii("js"@) {
        "text/javascript"@
    } else if bare == ascii("json"@) {
        "application/json"@
    } else if bare == ascii("map"@) {
        "application/json"@
    } else if bare == ascii("png"@) {
        "image/png"@
    } else if bare == ascii("svg"@) {
        "image/svg+xml"@
    } else if bare == ascii("ico"@) {
        "image/x-icon"@
    } else if bare == ascii("txt"@) {
        "text/plain"@
    } else {
        "application/octet-stream"@
    }
}

/// At `k` stands the dot that begins the extension: the last dot of the
/// path, with no slash behind it.
pub open spec fn is_extension_dot(path: Seq<u8>, k: int) -> bool {
    &&& 0 <= k < path.len()
    &&& path[k] == DOT
    &&& forall|j: int| k < j < path.len() ==> path[j] != DOT && path[j] != SLASH
}

/// The extension of the file that a path names, without its dot; empty where
/// the file name holds no dot.
pub open spec fn extension_of(path: Seq<u8>) -> Seq<u8> {
    if exists|k: int| is_extension_dot(path, k) {
        path.skip((choose|k: int| is_extension_dot(path, k)) + 1)
    } else {
        Seq::empty()
    }
}

/// The content type of the file that a path names.
pub open spec fn content_type_of_path(path: Seq<u8>) -> Seq<char> {
    content_type_of(extension_of(path))
}

/// The content type for an extension, written with or without its dot.
/// An extension that the table does not list gives `application/octet-stream`.
pub fn content_type_for(extension: &[u8]) -> (r: &'static str)
    ensures
        r@ == content_type_of(extension@),
        !is_known_extension(extension@) ==> r@ == "application/octet-stream"@,
{
    proof {
        reveal_strlit("html");
        reveal_strlit("css");
        reveal_strlit("js");
        reveal_strlit("json");
        reveal_strlit("map");
        reveal_strlit("png");
        reveal_strlit("svg");
        reveal_strlit("ico");
        reveal_strlit("txt");
    }
    let bare = if extension.len() > 0 && extension[0] == DOT {
        slice_subrange(extension, 1, extension.len())
    } else {
        extension
    };
    if same_bytes(bare, literal("html")) {
        "text/html"
    } else if same_bytes(bare, literal("css")) {
        "text/css"
    } else if same_bytes(bare, literal("js")) {
        "text/javascript"
    } else if same_bytes(bare, literal("json")) {
        "application/json"
    } else if same_bytes(bare, literal("map")) {
        "application/json"
    } else if same_bytes(bare, literal("png")) {
        "image/png"
    } else if same_bytes(bare, literal("svg")) {
        "image/svg+xml"
    } else if same_bytes(bare, literal("ico")) {
        "image/x-icon"
    } else if same_bytes(bare, literal("txt")) {
        "text/plain"
    } else {
        "application/octet-stream"
    }
}

/// The extension of the file that a path names, without its dot.
pub fn extension(path: &[u8]) -> (r: &[u8])
    ensures
        r@ == extension_of(path@),
{
    let mut i: usize = path.len();
    while i > 0
        invariant
            i <= path.len(),
            forall|j: int| i <= j < path.len() ==> path@[j] != DOT && path@[j] != SLASH,
        decreases i,
    {
        let b = path[i - 1];
        if b == DOT {
            assert(is_extension_dot(path@, i - 1));
            return slice_subrange(path, i, path.len());
        }
        if b == SLASH {
            assert(forall|k: int| !is_extension_dot(path@, k));
            return slice_subrange(path, 0, 0);
        }
        i -= 1;
    }
    assert(forall|k: int| !is_extension_dot(path@, k));
    slice_subrange(path, 0, 0)
}

/// The content type of the file that a path names.
pub fn content_type_of_file(path: &[u8]) -> (r: &'static str)
    ensures
        r@ == content_type_of_path(path@),
{
    content_type_for(extension(path))
}

} // verus!
