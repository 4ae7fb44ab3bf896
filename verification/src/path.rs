//! Paths of assets: how a requested path is brought into the form under which
//! the bundle files its assets, and which paths are refused.

use vstd::prelude::*;
use vstd::slice::slice_subrange;

use crate::bytes::{join, joined, views, DOT, PERCENT, SLASH};
use crate::error::Error;

verus! {

/// The segments of a path: the runs of bytes between its slashes.
pub open spec fn segments(p: Seq<u8>) -> Seq<Seq<u8>>
    decreases p.len(),
{
    if p.len() == 0 {
        seq![Seq::<u8>::empty()]
    } else if p.last() == SLASH {
        segments(p.drop_last()).push(Seq::<u8>::empty())
    } else {
        let before = segments(p.drop_last());
        before.drop_last().push(before.last().push(p.last()))
    }
}

/// A segment that names the directory it stands in: the empty one and `.`.
pub open spec fn is_current(seg: Seq<u8>) -> bool {
    seg.len() == 0 || seg == seq![DOT]
}

/// The segment `..`, which names the directory above.
pub open spec fn is_parent(seg: Seq<u8>) -> bool {
    seg == seq![DOT, DOT]
}

/// The segments kept after one more segment was followed from `kept`;
/// `None` where it leads above the root.
pub open spec fn descend(kept: Seq<Seq<u8>>, seg: Seq<u8>) -> Option<Seq<Seq<u8>>> {
    if is_current(seg) {
        Some(kept)
    } else if is_parent(seg) {
        if kept.len() == 0 {
            None
        } else {
            Some(kept.drop_last())
        }
    } else {
        Some(kept.push(seg))
    }
}

/// The segments that remain when `segs` are followed from the root in turn;
/// `None` where they lead above the root at any point.
pub open spec fn collapse(segs: Seq<Seq<u8>>) -> Option<Seq<Seq<u8>>>
    decreases segs.len(),
{
    if segs.len() == 0 {
        Some(Seq::empty())
    } else {
        match collapse(segs.drop_last()) {
            None => None,
            Some(kept) => descend(kept, segs.last()),
        }
    }
}

/// The two hexadecimal digits `hi` and `lo` encode a dot (`2e`), a slash
/// (`2f`) or a backslash (`5c`), in either case of the letter.
pub open spec fn encodes_separator(hi: u8, lo: u8) -> bool {
    ||| hi == 0x32 && (lo == 0x65 || lo == 0x45 || lo == 0x66 || lo == 0x46)
    ||| hi == 0x35 && (lo == 0x63 || lo == 0x43)
}

/// At `at` stands a percent-encoded dot, slash or backslash.
pub open spec fn hides_separator(p: Seq<u8>, at: int) -> bool {
    &&& 0 <= at
    &&& at + 2 < p.len()
    &&& p[at] == PERCENT
    &&& encodes_separator(p[at + 1], p[at + 2])
}

/// The path holds a percent-encoded dot, slash or backslash.
pub open spec fn is_disguised(p: Seq<u8>) -> bool {
    exists|at: int| hides_separator(p, at)
}

/// The path without the slash it begins with, if it begins with one.
pub open spec fn without_leading_slash(p: Seq<u8>) -> Seq<u8> {
    if p.len() > 0 && p[0] == SLASH {
        p.skip(1)
    } else {
        p
    }
}

/// The path without the slash it ends with, if it ends with one.
pub open spec fn without_trailing_slash(p: Seq<u8>) -> Seq<u8> {
    if p.len() > 0 && p.last() == SLASH {
        p.drop_last()
    } else {
        p
    }
}

/// The path without the slashes it ends with, however many.
pub open spec fn without_trailing_slashes(p: Seq<u8>) -> Seq<u8>
    decreases p.len(),
{
    if p.len() > 0 && p.last() == SLASH {
        without_trailing_slashes(p.drop_last())
    } else {
        p
    }
}

/// The path is absolute even after the slash it begins with was taken off.
pub open spec fn is_absolute(p: Seq<u8>) -> bool {
    without_leading_slash(p).len() > 0 && without_leading_slash(p)[0] == SLASH
}

/// The form under which the bundle files the asset that `p` asks for:
/// one leading slash taken off, empty segments and `.` left out, each `..`
/// taking back the segment before it. `None` where the path is disguised,
/// absolute, or leads above the root.
pub open spec fn normalized(p: Seq<u8>) -> Option<Seq<u8>> {
    if is_disguised(p) || is_absolute(p) {
        None
    } else {
        match collapse(segments(without_leading_slash(p))) {
            None => None,
            Some(kept) => Some(joined(kept, SLASH)),
        }
    }
}

/// The path without its leading slash.
pub fn strip_leading_slash(p: &[u8]) -> (r: &[u8])
    ensures
        r@ == without_leading_slash(p@),
{
    if p.len() > 0 && p[0] == SLASH {
        let r = slice_subrange(p, 1, p.len());
        r
    } else {
        p
    }
}

/// The path without its trailing slash.
pub fn strip_trailing_slash(p: &[u8]) -> (r: &[u8])
    ensures
        r@ == without_trailing_slash(p@),
{
    if p.len() > 0 && p[p.len() - 1] == SLASH {
        let r = slice_subrange(p, 0, p.len() - 1);
        r
    } else {
        p
    }
}

/// The path without its trailing slashes.
pub fn trim_trailing_slashes(p: &[u8]) -> (r: &[u8])
    ensures
        r@ == without_trailing_slashes(p@),
{
    let mut n: usize = p.len();
    assert(p@.take(n as int) =~= p@);
    while n > 0 && p[n - 1] == SLASH
        invariant
            n <= p.len(),
            without_trailing_slashes(p@) == without_trailing_slashes(p@.take(n as int)),
        decreases n,
    {
        assert(p@.take(n as int).drop_last() =~= p@.take(n - 1));
        n -= 1;
    }
    let r = slice_subrange(p, 0, n);
    r
}

/// What is left when the trailing slashes are taken off ends in no slash.
pub proof fn lemma_no_trailing_slash_left(p: Seq<u8>)
    ensures
        without_trailing_slash(without_trailing_slashes(p)) == without_trailing_slashes(p),
        without_trailing_slashes(p).len() > 0 ==> without_trailing_slashes(p).last() != SLASH,
    decreases p.len(),
{
    if p.len() > 0 && p.last() == SLASH {
        lemma_no_trailing_slash_left(p.drop_last());
    }
}

/// Whether the path holds a percent-encoded dot, slash or backslash.
pub fn disguised(p: &[u8]) -> (r: bool)
    ensures
        r == is_disguised(p@),
{
    if p.len() < 3 {
        return false;
    }
    let mut at: usize = 0;
    while at + 2 < p.len()
        invariant
            at + 2 <= p.len(),
            forall|j: int| j < at ==> !hides_separator(p@, j),
        decreases p.len() - at,
    {
        if p[at] == PERCENT {
            let hi = p[at + 1];
            let lo = p[at + 2];
            let dot_or_slash = hi == 0x32 && (lo == 0x65 || lo == 0x45 || lo == 0x66 || lo == 0x46);
            let backslash = hi == 0x35 && (lo == 0x63 || lo == 0x43);
            if dot_or_slash || backslash {
                assert(hides_separator(p@, at as int));
                return true;
            }
        }
        at += 1;
    }
    false
}

/// Follows one segment from `kept`; says whether it stayed under the root.
fn follow(kept: &mut Vec<Vec<u8>>, seg: Vec<u8>) -> (under: bool)
    ensures
        match descend(views(old(kept)@), seg@) {
            Some(k) => under && views(final(kept)@) == k,
            None => !under && final(kept)@ == old(kept)@,
        },
{
    if seg.len() == 0 {
        true
    } else if seg.len() == 1 && seg[0] == DOT {
        assert(seg@ =~= seq![DOT]);
        true
    } else if seg.len() == 2 && seg[0] == DOT && seg[1] == DOT {
        assert(seg@ =~= seq![DOT, DOT]);
        if kept.len() == 0 {
            false
        } else {
            kept.pop();
            true
        }
    } else {
        assert(seg@ != seq![DOT] && seg@ != seq![DOT, DOT]);
        kept.push(seg);
        true
    }
}

/// Brings a requested path into the form under which assets are filed.
///
/// Fails with `InvalidPath` where the path holds a percent-encoded dot, slash
/// or backslash, is absolute after its first slash, or leads above the root.
pub fn normalize(path: &[u8]) -> (r: Result<Vec<u8>, Error>)
    ensures
        match r {
            Ok(n) => normalized(path@) == Some(n@),
            Err(e) => e == Error::InvalidPath && normalized(path@) is None,
        },
{
    if disguised(path) {
        return Err(Error::InvalidPath);
    }
    let rel = strip_leading_slash(path);
    if rel.len() > 0 && rel[0] == SLASH {
        return Err(Error::InvalidPath);
    }
    let mut kept: Vec<Vec<u8>> = Vec::new();
    let mut cur: Vec<u8> = Vec::new();
    let mut under: bool = true;
    let ghost mut done: Seq<Seq<u8>> = Seq::empty();
    let mut i: usize = 0;
    while i < rel.len()
        invariant
            i <= rel.len(),
            segments(rel@.take(i as int)) == done.push(cur@),
            under ==> collapse(done) == Some(views(kept@)),
            !under ==> collapse(done) is None,
        decreases rel.len() - i,
    {
        let b = rel[i];
        assert(rel@.take(i + 1).drop_last() =~= rel@.take(i as int));
        if b == SLASH {
            let seg = cur;
            cur = Vec::new();
            assert(done.push(seg@).drop_last() =~= done);
            if under {
                under = follow(&mut kept, seg);
            }
            proof {
                done = done.push(seg@);
            }
        } else {
            cur.push(b);
        }
        i += 1;
    }
    assert(rel@.take(rel@.len() as int) =~= rel@);
    assert(done.push(cur@).drop_last() =~= done);
    if under {
        under = follow(&mut kept, cur);
    }
    if under {
        Ok(join(&kept, SLASH))
    } else {
        Err(Error::InvalidPath)
    }
}

/// A segment that names a file or a directory: not empty, neither `.` nor
/// `..`, and without a slash.
pub open spec fn is_ordinary(seg: Seq<u8>) -> bool {
    !is_current(seg) && !is_parent(seg) && !seg.contains(SLASH)
}

/// Each of `parts` is an ordinary segment.
pub open spec fn all_ordinary(parts: Seq<Seq<u8>>) -> bool {
    forall|k: int| 0 <= k < parts.len() ==> is_ordinary(#[trigger] parts[k])
}

/// A path has at least one segment, and no segment holds a slash.
pub proof fn lemma_segments_hold_no_slash(p: Seq<u8>)
    ensures
        segments(p).len() >= 1,
        forall|k: int| 0 <= k < segments(p).len() ==> !(#[trigger] segments(p)[k]).contains(SLASH),
    decreases p.len(),
{
    if p.len() > 0 {
        lemma_segments_hold_no_slash(p.drop_last());
        let before = segments(p.drop_last());
        if p.last() != SLASH {
            let grown = before.last().push(p.last());
            assert(!grown.contains(SLASH)) by {
                if grown.contains(SLASH) {
                    let j = choose|j: int| 0 <= j < grown.len() && grown[j] == SLASH;
                    assert(before.last()[j] == SLASH);
                }
            }
        }
    }
}

/// What remains of segments without slashes are ordinary segments.
pub proof fn lemma_collapse_keeps_ordinary(segs: Seq<Seq<u8>>)
    requires
        forall|k: int| 0 <= k < segs.len() ==> !(#[trigger] segs[k]).contains(SLASH),
    ensures
        collapse(segs) matches Some(kept) ==> all_ordinary(kept),
    decreases segs.len(),
{
    if segs.len() > 0 {
        lemma_collapse_keeps_ordinary(segs.drop_last());
    }
}

/// A path made of ordinary segments neither begins nor ends with a slash.
pub proof fn lemma_joined_ordinary(parts: Seq<Seq<u8>>)
    requires
        all_ordinary(parts),
        parts.len() > 0,
    ensures
        joined(parts, SLASH).len() > 0,
        joined(parts, SLASH)[0] != SLASH,
        joined(parts, SLASH).last() != SLASH,
    decreases parts.len(),
{
    let last = parts.last();
    assert(is_ordinary(last));
    assert(last[0] != SLASH && last.last() != SLASH);
    if parts.len() > 1 {
        lemma_joined_ordinary(parts.drop_last());
    }
}

/// What normalization accepts stays under the root: the normalized path is
/// made of ordinary segments, so it is relative, names no directory above,
/// and ends in no slash.
pub proof fn lemma_normalized_stays_under_root(p: Seq<u8>)
    ensures
        normalized(p) matches Some(filed) ==> {
            &&& exists|parts: Seq<Seq<u8>>| all_ordinary(parts) && filed == #[trigger] joined(parts, SLASH)
            &&& filed.len() > 0 ==> filed[0] != SLASH && filed.last() != SLASH
        },
{
    if normalized(p) is Some {
        let rel = without_leading_slash(p);
        lemma_segments_hold_no_slash(rel);
        lemma_collapse_keeps_ordinary(segments(rel));
        let kept = collapse(segments(rel))->Some_0;
        if kept.len() > 0 {
            lemma_joined_ordinary(kept);
        }
    }
}

/// A path that climbs above the root, is absolute after its first slash, or
/// hides a separator behind a percent sign has no normalized form.
pub proof fn lemma_traversal_has_no_normalized_form(p: Seq<u8>)
    requires
        is_disguised(p) || is_absolute(p) || collapse(segments(without_leading_slash(p))) is None,
    ensures
        normalized(p) is None,
{
}

} // verus!
