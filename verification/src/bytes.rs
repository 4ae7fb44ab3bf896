//! Byte strings: the form in which paths, names and documents travel.

use vstd::prelude::*;
use vstd::slice::slice_to_vec;
use vstd::string::*;

verus! {

/// The byte `/`.
pub const SLASH: u8 = 0x2f;

/// The byte `.`.
pub const DOT: u8 = 0x2e;

/// The byte `%`.
pub const PERCENT: u8 = 0x25;

/// The byte `,`.
pub const COMMA: u8 = 0x2c;

/// The byte `"`.
pub const QUOTE: u8 = 0x22;

/// The byte `\`.
pub const BACKSLASH: u8 = 0x5c;

/// The bytes of a sequence of ASCII characters.
pub open spec fn ascii(s: Seq<char>) -> Seq<u8> {
    Seq::new(s.len(), |i: int| s[i] as u8)
}

/// `needle` stands in `hay` at offset `at`.
pub open spec fn occurs_at(hay: Seq<u8>, needle: Seq<u8>, at: int) -> bool {
    &&& 0 <= at
    &&& at + needle.len() <= hay.len()
    &&& hay.subrange(at, at + needle.len()) == needle
}

/// The least offset at which `needle` stands in `hay`, if it stands anywhere.
#[verifier::opaque]
pub open spec fn first_occurrence(hay: Seq<u8>, needle: Seq<u8>) -> Option<int> {
    if exists|at: int| occurs_at(hay, needle, at) {
        Some(choose|at: int| occurs_at(hay, needle, at) && forall|j: int| j < at ==> !occurs_at(hay, needle, j))
    } else {
        None
    }
}

/// The byte strings that a sequence of vectors holds.
pub open spec fn views(s: Seq<Vec<u8>>) -> Seq<Seq<u8>> {
    s.map_values(|v: Vec<u8>| v@)
}

/// The byte string made of `parts`, with `sep` between each two.
pub open spec fn joined(parts: Seq<Seq<u8>>, sep: u8) -> Seq<u8>
    decreases parts.len(),
{
    if parts.len() == 0 {
        Seq::empty()
    } else if parts.len() == 1 {
        parts[0]
    } else {
        joined(parts.drop_last(), sep) + seq![sep] + parts.last()
    }
}

/// The offset at which the `i`-th of `parts` begins once they are joined.
pub open spec fn part_offset(parts: Seq<Seq<u8>>, i: int) -> int
    decreases i,
{
    if i <= 0 {
        0
    } else {
        part_offset(parts, i - 1) + parts[i - 1].len() + 1
    }
}

/// The bytes of an ASCII string literal.
pub(crate) fn literal(s: &'static str) -> (r: &'static [u8])
    requires
        is_ascii(s),
    ensures
        r@ == ascii(s@),
{
    broadcast use is_ascii_spec_bytes;

    s.as_bytes()
}

/// A fresh vector holding the bytes of `s`.
pub fn copy_of(s: &[u8]) -> (r: Vec<u8>)
    ensures
        r@ == s@,
{
    slice_to_vec(s)
}

/// Appends the bytes of `more` to `out`.
pub fn append(out: &mut Vec<u8>, more: &[u8])
    ensures
        final(out)@ == old(out)@ + more@,
{
    out.extend_from_slice(more);
}

/// Joins `parts`, with `sep` between each two.
pub fn join(parts: &Vec<Vec<u8>>, sep: u8) -> (r: Vec<u8>)
    ensures
        r@ == joined(views(parts@), sep),
{
    let mut out: Vec<u8> = Vec::new();
    let mut k: usize = 0;
    while k < parts.len()
        invariant
            k <= parts.len(),
            out@ == joined(views(parts@).take(k as int), sep),
        decreases parts.len() - k,
    {
        if k > 0 {
            out.push(sep);
        }
        append(&mut out, parts[k].as_slice());
        assert(views(parts@).take(k + 1).drop_last() =~= views(parts@).take(k as int));
        k += 1;
    }
    assert(views(parts@).take(parts@.len() as int) =~= views(parts@));
    out
}

/// Whether two byte strings hold the same bytes.
pub fn same_bytes(a: &[u8], b: &[u8]) -> (r: bool)
    ensures
        r == (a@ == b@),
{
    if a.len() != b.len() {
        return false;
    }
    let mut i: usize = 0;
    while i < a.len()
        invariant
            i <= a.len(),
            a.len() == b.len(),
            forall|j: int| 0 <= j < i ==> a@[j] == b@[j],
        decreases a.len() - i,
    {
        if a[i] != b[i] {
            return false;
        }
        i += 1;
    }
    assert(a@ =~= b@);
    true
}

/// Whether `s` begins with `prefix`.
pub fn begins_with(s: &[u8], prefix: &[u8]) -> (r: bool)
    ensures
        r == prefix@.is_prefix_of(s@),
{
    if prefix.len() > s.len() {
        return false;
    }
    let mut i: usize = 0;
    while i < prefix.len()
        invariant
            i <= prefix.len() <= s.len(),
            forall|j: int| 0 <= j < i ==> s@[j] == prefix@[j],
        decreases prefix.len() - i,
    {
        if s[i] != prefix[i] {
            return false;
        }
        i += 1;
    }
    true
}

/// Whether `needle` stands in `hay` at offset `at`.
fn stands_at(hay: &[u8], needle: &[u8], at: usize) -> (r: bool)
    requires
        at + needle@.len() <= hay@.len(),
    ensures
        r == occurs_at(hay@, needle@, at as int),
{
    let mut i: usize = 0;
    while i < needle.len()
        invariant
            i <= needle.len(),
            at + needle.len() <= hay.len(),
            forall|j: int| 0 <= j < i ==> hay@[at + j] == needle@[j],
        decreases needle.len() - i,
    {
        if hay[at + i] != needle[i] {
            return false;
        }
        i += 1;
    }
    assert(hay@.subrange(at as int, at + needle@.len()) =~= needle@);
    true
}

/// Finds the first place at which `needle` stands in `hay`.
pub fn find_first(hay: &[u8], needle: &[u8]) -> (r: Option<usize>)
    ensures
        match r {
            Some(at) => first_occurrence(hay@, needle@) == Some(at as int),
            None => first_occurrence(hay@, needle@) is None,
        },
        r matches Some(at) ==> occurs_at(hay@, needle@, at as int),
{
    if needle.len() > hay.len() {
        proof {
            lemma_no_occurrence(hay@, needle@);
        }
        return None;
    }
    let last: usize = hay.len() - needle.len();
    let mut at: usize = 0;
    loop
        invariant
            at <= last,
            last == hay@.len() - needle@.len(),
            forall|j: int| j < at ==> !occurs_at(hay@, needle@, j),
        decreases last - at,
    {
        if stands_at(hay, needle, at) {
            proof {
                lemma_first_occurrence(hay@, needle@, at as int);
            }
            return Some(at);
        }
        if at == last {
            proof {
                lemma_no_occurrence(hay@, needle@);
            }
            return None;
        }
        at += 1;
    }
}

/// The first occurrence is the one before which there is none.
pub proof fn lemma_first_occurrence(hay: Seq<u8>, needle: Seq<u8>, at: int)
    requires
        occurs_at(hay, needle, at),
        forall|j: int| j < at ==> !occurs_at(hay, needle, j),
    ensures
        first_occurrence(hay, needle) == Some(at),
{
    reveal(first_occurrence);
    let found = choose|k: int| occurs_at(hay, needle, k) && forall|j: int| j < k ==> !occurs_at(hay, needle, j);
    assert(found == at);
}

/// Where `needle` stands nowhere in `hay`, there is no first occurrence.
pub proof fn lemma_no_occurrence(hay: Seq<u8>, needle: Seq<u8>)
    requires
        forall|at: int| !occurs_at(hay, needle, at),
    ensures
        first_occurrence(hay, needle) is None,
{
    reveal(first_occurrence);
}

/// The first occurrence is an occurrence, and none comes before it.
pub proof fn lemma_first_occurrence_is_first(hay: Seq<u8>, needle: Seq<u8>)
    ensures
        first_occurrence(hay, needle) matches Some(at) ==> occurs_at(hay, needle, at) && forall|j: int|
            j < at ==> !occurs_at(hay, needle, j),
        first_occurrence(hay, needle) is None ==> forall|at: int| !occurs_at(hay, needle, at),
{
    reveal(first_occurrence);
    if exists|at: int| occurs_at(hay, needle, at) {
        let w = choose|at: int| occurs_at(hay, needle, at);
        lemma_least_occurrence(hay, needle, w);
    }
}

/// Where `needle` stands at `at`, it stands at a least offset.
proof fn lemma_least_occurrence(hay: Seq<u8>, needle: Seq<u8>, at: int)
    requires
        occurs_at(hay, needle, at),
    ensures
        exists|k: int| occurs_at(hay, needle, k) && forall|j: int| j < k ==> !occurs_at(hay, needle, j),
    decreases at,
{
    if exists|j: int| j < at && occurs_at(hay, needle, j) {
        let j = choose|j: int| j < at && occurs_at(hay, needle, j);
        lemma_least_occurrence(hay, needle, j);
    }
}

/// What stands in a byte string still stands there when more follows.
pub proof fn lemma_occurs_with_more_behind(hay: Seq<u8>, more: Seq<u8>, needle: Seq<u8>, at: int)
    requires
        occurs_at(hay, needle, at),
    ensures
        occurs_at(hay + more, needle, at),
{
    assert((hay + more).subrange(at, at + needle.len()) =~= hay.subrange(at, at + needle.len()));
}

/// What stands in a byte string stands as much further on as is put before it.
pub proof fn lemma_occurs_with_more_before(before: Seq<u8>, hay: Seq<u8>, needle: Seq<u8>, at: int)
    requires
        occurs_at(hay, needle, at),
    ensures
        occurs_at(before + hay, needle, before.len() + at),
{
    assert((before + hay).subrange(before.len() + at, before.len() + at + needle.len()) =~= hay.subrange(
        at,
        at + needle.len(),
    ));
}

/// Where a part begins depends on the parts before it alone.
pub proof fn lemma_part_offset_of_prefix(parts: Seq<Seq<u8>>, n: int, i: int)
    requires
        0 <= i <= n <= parts.len(),
    ensures
        part_offset(parts.take(n), i) == part_offset(parts, i),
    decreases i,
{
    if i > 0 {
        lemma_part_offset_of_prefix(parts, n, i - 1);
    }
}

/// Joined parts are made of the parts and the separators between them
/// alone: each part stands at its offset, in the order of the parts, and
/// the last one ends the whole.
pub proof fn lemma_joined_holds_part(parts: Seq<Seq<u8>>, sep: u8, i: int)
    requires
        0 <= i < parts.len(),
    ensures
        occurs_at(joined(parts, sep), parts[i], part_offset(parts, i)),
        joined(parts, sep).len() == part_offset(parts, parts.len() - 1) + parts.last().len(),
    decreases parts.len(),
{
    if parts.len() == 1 {
        assert(parts[0].subrange(0, parts[0].len() as int) =~= parts[0]);
    } else {
        let n = parts.len() as int;
        let init = parts.drop_last();
        assert(init =~= parts.take(n - 1));
        lemma_joined_holds_part(init, sep, n - 2);
        lemma_part_offset_of_prefix(parts, n - 1, n - 2);
        if i == n - 1 {
            assert(parts[i].subrange(0, parts[i].len() as int) =~= parts[i]);
            lemma_occurs_with_more_before(joined(init, sep) + seq![sep], parts.last(), parts[i], 0);
        } else {
            lemma_joined_holds_part(init, sep, i);
            lemma_part_offset_of_prefix(parts, n - 1, i);
            let rest = seq![sep] + parts.last();
            lemma_occurs_with_more_behind(joined(init, sep), rest, parts[i], part_offset(parts, i));
            assert(joined(init, sep) + rest =~= joined(parts, sep));
        }
    }
}

} // verus!
