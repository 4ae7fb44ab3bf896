//! The asset bundle: the files of the viewer, each filed under its relative
//! path. It is filled once, before the first request, and only read afterwards.

use vstd::prelude::*;

use crate::bytes::{copy_of, same_bytes};
use crate::error::Error;
use crate::media::{content_type_of_file, content_type_of_path};
use crate::path::{normalize, normalized};

verus! {

/// One file of the bundle.
#[derive(Debug, PartialEq, Eq)]
pub struct AssetEntry {
    /// The relative path it is filed under: segments with a slash between
    /// them, none before the first.
    pub path: Vec<u8>,
    /// Its content.
    pub bytes: Vec<u8>,
    /// The content type, inferred from the extension of the path.
    pub content_type: &'static str,
}

/// The files of the viewer, found by their path.
#[derive(Debug)]
pub struct AssetStore {
    entries: Vec<AssetEntry>,
}

/// The `i`-th of `entries` is filed under `path`.
spec fn filed_at(entries: Seq<AssetEntry>, i: int, path: Seq<u8>) -> bool {
    0 <= i < entries.len() && entries[i].path@ == path
}

/// A path under which an asset can be filed: not empty, and in the form that
/// `normalized` gives.
pub open spec fn is_asset_path(path: Seq<u8>) -> bool {
    path.len() > 0 && normalized(path) == Some(path)
}

/// Every asset is filed under an asset path.
pub open spec fn valid_assets(assets: Map<Seq<u8>, Seq<u8>>) -> bool {
    forall|path: Seq<u8>| assets.contains_key(path) ==> is_asset_path(path)
}

/// The content of each of `entries`, by its path.
spec fn filed(entries: Seq<AssetEntry>) -> Map<Seq<u8>, Seq<u8>> {
    Map::new(
        |path: Seq<u8>| exists|i: int| filed_at(entries, i, path),
        |path: Seq<u8>| entries[choose|i: int| filed_at(entries, i, path)].bytes@,
    )
}

/// No two of `entries` are filed under one path.
spec fn distinct_paths(entries: Seq<AssetEntry>) -> bool {
    forall|i: int, j: int|
        0 <= i < j < entries.len() ==> (#[trigger] entries[i]).path@ != (#[trigger] entries[j]).path@
}

impl View for AssetStore {
    type V = Map<Seq<u8>, Seq<u8>>;

    /// The content of each asset, by its path.
    closed spec fn view(&self) -> Map<Seq<u8>, Seq<u8>> {
        filed(self.entries@)
    }
}

impl AssetStore {
    /// Every asset is filed under an asset path, no two under the same, each
    /// with the content type of its path.
    pub closed spec fn wf(&self) -> bool {
        &&& forall|i: int| 0 <= i < self.entries@.len() ==> is_asset_path(#[trigger] self.entries@[i].path@)
        &&& forall|i: int|
            0 <= i < self.entries@.len() ==> (#[trigger] self.entries@[i]).content_type@ == content_type_of_path(
                self.entries@[i].path@,
            )
        &&& distinct_paths(self.entries@)
    }

    /// Every asset of a store is filed under an asset path.
    pub proof fn lemma_paths_are_asset_paths(&self)
        requires
            self.wf(),
        ensures
            valid_assets(self@),
    {
        assert forall|path: Seq<u8>| self@.contains_key(path) implies is_asset_path(path) by {
            let i = choose|i: int| filed_at(self.entries@, i, path);
            assert(is_asset_path(self.entries@[i].path@));
        }
    }

    /// A store without assets.
    pub fn new() -> (r: Self)
        ensures
            r.wf(),
            r@ == Map::<Seq<u8>, Seq<u8>>::empty(),
    {
        let r = AssetStore { entries: Vec::new() };
        assert(r@ =~= Map::<Seq<u8>, Seq<u8>>::empty());
        r
    }

    /// The number of assets.
    pub fn len(&self) -> (r: usize)
        requires
            self.wf(),
        ensures
            r == self@.dom().len(),
            self@.dom().finite(),
    {
        proof {
            self.lemma_count(self.entries@.len() as int);
            assert(self.paths_before(self.entries@.len() as int) =~= self@.dom());
        }
        self.entries.len()
    }

    /// The paths of the first `n` entries.
    spec fn paths_before(&self, n: int) -> Set<Seq<u8>> {
        Set::new(|path: Seq<u8>| exists|i: int| filed_at(self.entries@, i, path) && i < n)
    }

    /// The first `n` entries are filed under `n` paths.
    proof fn lemma_count(&self, n: int)
        requires
            self.wf(),
            0 <= n <= self.entries@.len(),
        ensures
            self.paths_before(n).finite(),
            self.paths_before(n).len() == n,
        decreases n,
    {
        if n == 0 {
            assert(self.paths_before(0) =~= Set::<Seq<u8>>::empty());
        } else {
            self.lemma_count(n - 1);
            let last = self.entries@[n - 1].path@;
            assert(filed_at(self.entries@, n - 1, last));
            assert(self.paths_before(n) =~= self.paths_before(n - 1).insert(last));
        }
    }

    /// The place of the asset filed under `path`.
    fn find(&self, path: &[u8]) -> (r: Option<usize>)
        ensures
            match r {
                Some(i) => filed_at(self.entries@, i as int, path@),
                None => forall|i: int| !filed_at(self.entries@, i, path@),
            },
    {
        let mut i: usize = 0;
        while i < self.entries.len()
            invariant
                i <= self.entries@.len(),
                forall|j: int| j < i ==> !filed_at(self.entries@, j, path@),
            decreases self.entries@.len() - i,
        {
            if same_bytes(self.entries[i].path.as_slice(), path) {
                return Some(i);
            }
            i += 1;
        }
        None
    }

    /// Files `bytes` under `path`, in place of what was filed there before.
    ///
    /// Fails with `InvalidPath`, and changes nothing, where `path` is not an
    /// asset path.
    pub fn insert(&mut self, path: &[u8], bytes: Vec<u8>) -> (r: Result<(), Error>)
        requires
            old(self).wf(),
        ensures
            final(self).wf(),
            is_asset_path(path@) ==> r == Ok::<(), Error>(()) && final(self)@ == old(self)@.insert(path@, bytes@),
            !is_asset_path(path@) ==> r == Err::<(), Error>(Error::InvalidPath) && final(self)@ == old(self)@,
    {
        if path.len() == 0 {
            return Err(Error::InvalidPath);
        }
        match normalize(path) {
            Err(_) => {
                return Err(Error::InvalidPath);
            },
            Ok(n) => {
                if !same_bytes(n.as_slice(), path) {
                    return Err(Error::InvalidPath);
                }
            },
        }
        let entry = AssetEntry { path: copy_of(path), bytes, content_type: content_type_of_file(path) };
        match self.find(path) {
            Some(i) => {
                proof {
                    lemma_filed_replace(self.entries@, i as int, entry);
                }
                self.entries[i] = entry;
            },
            None => {
                proof {
                    lemma_filed_push(self.entries@, entry);
                }
                self.entries.push(entry);
            },
        }
        Ok(())
    }

    /// The asset filed under exactly `path`.
    pub fn get(&self, path: &[u8]) -> (r: Option<&AssetEntry>)
        requires
            self.wf(),
        ensures
            match r {
                Some(entry) => {
                    &&& self@.contains_key(path@)
                    &&& entry.path@ == path@
                    &&& entry.bytes@ == self@[path@]
                    &&& entry.content_type@ == content_type_of_path(path@)
                },
                None => !self@.contains_key(path@),
            },
    {
        match self.find(path) {
            Some(i) => {
                proof {
                    lemma_filed_entry(self.entries@, i as int);
                }
                Some(&self.entries[i])
            },
            None => None,
        }
    }

    /// The asset that a requested path asks for.
    ///
    /// The path is normalized first. Fails with `InvalidPath` where it is
    /// disguised, absolute, or leads above the root of the bundle.
    pub fn lookup(&self, path: &[u8]) -> (r: Result<Option<&AssetEntry>, Error>)
        requires
            self.wf(),
        ensures
            match normalized(path@) {
                None => r == Err::<Option<&AssetEntry>, Error>(Error::InvalidPath),
                Some(filed) => r matches Ok(found) && match found {
                    Some(entry) => {
                        &&& self@.contains_key(filed)
                        &&& entry.path@ == filed
                        &&& entry.bytes@ == self@[filed]
                        &&& entry.content_type@ == content_type_of_path(filed)
                    },
                    None => !self@.contains_key(filed),
                },
            },
    {
        match normalize(path) {
            Err(_) => Err(Error::InvalidPath),
            Ok(filed) => Ok(self.get(filed.as_slice())),
        }
    }
}

/// Among entries with distinct paths, the content filed under the path of
/// an entry is that of the entry.
proof fn lemma_filed_entry(entries: Seq<AssetEntry>, i: int)
    requires
        distinct_paths(entries),
        0 <= i < entries.len(),
    ensures
        filed(entries).contains_key(entries[i].path@),
        filed(entries)[entries[i].path@] == entries[i].bytes@,
{
    let path = entries[i].path@;
    assert(filed_at(entries, i, path));
    let k = choose|k: int| filed_at(entries, k, path);
    assert(k == i);
}

/// An entry put in place of one with its path files its content under that
/// path and leaves the rest as it was.
proof fn lemma_filed_replace(entries: Seq<AssetEntry>, i: int, entry: AssetEntry)
    requires
        distinct_paths(entries),
        filed_at(entries, i, entry.path@),
    ensures
        distinct_paths(entries.update(i, entry)),
        filed(entries.update(i, entry)) == filed(entries).insert(entry.path@, entry.bytes@),
{
    let after = entries.update(i, entry);
    let expected = filed(entries).insert(entry.path@, entry.bytes@);
    assert(distinct_paths(after)) by {
        assert forall|a: int| 0 <= a < after.len() implies (#[trigger] after[a]).path@ == entries[a].path@ by {}
    }
    assert forall|q: Seq<u8>| #[trigger] filed(after).contains_key(q) == expected.contains_key(q) by {
        if filed(after).contains_key(q) {
            let k = choose|k: int| filed_at(after, k, q);
            assert(filed_at(entries, k, q));
        }
        if filed(entries).contains_key(q) {
            let k = choose|k: int| filed_at(entries, k, q);
            assert(filed_at(after, k, q));
        }
    }
    assert forall|q: Seq<u8>| #[trigger] filed(after).contains_key(q) implies filed(after)[q] == expected[q] by {
        let k = choose|k: int| filed_at(after, k, q);
        lemma_filed_entry(after, k);
        if q != entry.path@ {
            lemma_filed_entry(entries, k);
        } else {
            lemma_filed_entry(after, i);
        }
    }
    assert(filed(after) =~= expected);
}

/// An entry put behind entries that do not have its path files its content
/// under that path and leaves the rest as it was.
proof fn lemma_filed_push(entries: Seq<AssetEntry>, entry: AssetEntry)
    requires
        distinct_paths(entries),
        forall|i: int| !filed_at(entries, i, entry.path@),
    ensures
        distinct_paths(entries.push(entry)),
        filed(entries.push(entry)) == filed(entries).insert(entry.path@, entry.bytes@),
{
    let after = entries.push(entry);
    let expected = filed(entries).insert(entry.path@, entry.bytes@);
    let n = entries.len() as int;
    assert(distinct_paths(after)) by {
        assert forall|a: int| 0 <= a < n implies (#[trigger] after[a]).path@ != entry.path@ by {
            assert(!filed_at(entries, a, entry.path@));
        }
    }
    assert(filed_at(after, n, entry.path@));
    assert forall|q: Seq<u8>| #[trigger] filed(after).contains_key(q) == expected.contains_key(q) by {
        if filed(after).contains_key(q) {
            let k = choose|k: int| filed_at(after, k, q);
            if k < n {
                assert(filed_at(entries, k, q));
            }
        }
        if filed(entries).contains_key(q) {
            let k = choose|k: int| filed_at(entries, k, q);
            assert(filed_at(after, k, q));
        }
    }
    assert forall|q: Seq<u8>| #[trigger] filed(after).contains_key(q) implies filed(after)[q] == expected[q] by {
        let k = choose|k: int| filed_at(after, k, q);
        lemma_filed_entry(after, k);
        if k < n {
            assert(filed_at(entries, k, q));
            lemma_filed_entry(entries, k);
        }
    }
    assert(filed(after) =~= expected);
}

} // verus!
