//! The registry of specifications: what the viewer can display, by name and
//! in the order of registration.

use vstd::prelude::*;

use crate::bytes::{copy_of, same_bytes};
use crate::error::Error;

verus! {

/// What a specification source holds.
#[derive(Debug, PartialEq, Eq)]
pub enum SpecPayload {
    /// The document itself, serialized.
    Inline(Vec<u8>),
    /// The URL from which the viewer fetches the document.
    Reference(Vec<u8>),
}

/// A payload, as contracts speak of it.
pub enum PayloadView {
    Inline(Seq<u8>),
    Reference(Seq<u8>),
}

/// A named specification.
#[derive(Debug, PartialEq, Eq)]
pub struct SpecSource {
    /// The name under which the viewer lists it.
    pub name: Vec<u8>,
    /// The document, or where to fetch it.
    pub payload: SpecPayload,
}

/// A source, as contracts speak of it.
pub struct SourceView {
    pub name: Seq<u8>,
    pub payload: PayloadView,
}

impl View for SpecPayload {
    type V = PayloadView;

    open spec fn view(&self) -> PayloadView {
        match self {
            SpecPayload::Inline(document) => PayloadView::Inline(document@),
            SpecPayload::Reference(url) => PayloadView::Reference(url@),
        }
    }
}

impl View for SpecSource {
    type V = SourceView;

    open spec fn view(&self) -> SourceView {
        SourceView { name: self.name@, payload: self.payload@ }
    }
}

impl Clone for SpecPayload {
    fn clone(&self) -> (r: Self)
        ensures
            r@ == self@,
    {
        match self {
            SpecPayload::Inline(document) => SpecPayload::Inline(copy_of(document.as_slice())),
            SpecPayload::Reference(url) => SpecPayload::Reference(copy_of(url.as_slice())),
        }
    }
}

impl Clone for SpecSource {
    fn clone(&self) -> (r: Self)
        ensures
            r@ == self@,
    {
        SpecSource { name: copy_of(self.name.as_slice()), payload: self.payload.clone() }
    }
}

/// The sources that a sequence of exec values stands for.
pub open spec fn source_views(sources: Seq<SpecSource>) -> Seq<SourceView> {
    sources.map_values(|source: SpecSource| source@)
}

/// The `i`-th of `sources` has the name `name`.
pub open spec fn named_at(sources: Seq<SourceView>, i: int, name: Seq<u8>) -> bool {
    0 <= i < sources.len() && sources[i].name == name
}

/// One of `sources` has the name `name`.
pub open spec fn has_name(sources: Seq<SourceView>, name: Seq<u8>) -> bool {
    exists|i: int| named_at(sources, i, name)
}

/// The place of the source named `name`, where there is one.
pub open spec fn index_of(sources: Seq<SourceView>, name: Seq<u8>) -> int {
    choose|i: int| named_at(sources, i, name)
}

/// No two of `sources` share a name, and no name is empty.
pub open spec fn valid_sources(sources: Seq<SourceView>) -> bool {
    &&& forall|i: int| 0 <= i < sources.len() ==> (#[trigger] sources[i]).name.len() > 0
    &&& forall|i: int, j: int| 0 <= i < j < sources.len() ==> (#[trigger] sources[i]).name != (#[trigger] sources[j]).name
}

/// The sources after `source` was registered: it takes the place of the one
/// that had its name, or comes last where none had.
pub open spec fn registered(sources: Seq<SourceView>, source: SourceView) -> Seq<SourceView> {
    if has_name(sources, source.name) {
        sources.update(index_of(sources, source.name), source)
    } else {
        sources.push(source)
    }
}

/// What a registry hands over when it is finalized.
#[derive(Debug, PartialEq, Eq)]
pub struct FinalizedSpecs {
    /// The sources, in the order of registration.
    pub sources: Vec<SpecSource>,
    /// The name of the source registered first; none where the registry is empty.
    pub default_name: Option<Vec<u8>>,
}

/// The specifications registered so far.
#[derive(Debug)]
pub struct SpecRegistry {
    sources: Vec<SpecSource>,
    finalized: bool,
}

impl View for SpecRegistry {
    type V = Seq<SourceView>;

    /// The sources, in the order of registration.
    closed spec fn view(&self) -> Seq<SourceView> {
        source_views(self.sources@)
    }
}

impl SpecRegistry {
    /// The registry was finalized and takes no further source.
    pub closed spec fn is_finalized(&self) -> bool {
        self.finalized
    }

    /// No two sources share a name, and no name is empty.
    pub open spec fn wf(&self) -> bool {
        valid_sources(self@)
    }

    /// A registry without sources, open for registration.
    pub fn new() -> (r: Self)
        ensures
            r.wf(),
            r@ == Seq::<SourceView>::empty(),
            !r.is_finalized(),
    {
        let r = SpecRegistry { sources: Vec::new(), finalized: false };
        r
    }

    /// The number of sources.
    pub fn len(&self) -> (r: usize)
        ensures
            r == self@.len(),
    {
        self.sources.len()
    }

    /// The place of the source named `name`.
    fn find(&self, name: &[u8]) -> (r: Option<usize>)
        ensures
            match r {
                Some(i) => named_at(self@, i as int, name@),
                None => !has_name(self@, name@),
            },
    {
        let mut i: usize = 0;
        while i < self.sources.len()
            invariant
                i <= self.sources@.len(),
                forall|j: int| j < i ==> !named_at(self@, j, name@),
            decreases self.sources@.len() - i,
        {
            if same_bytes(self.sources[i].name.as_slice(), name) {
                return Some(i);
            }
            i += 1;
        }
        None
    }

    /// Whether a source is registered under `name`.
    pub fn contains(&self, name: &[u8]) -> (r: bool)
        ensures
            r == has_name(self@, name@),
    {
        self.find(name).is_some()
    }

    /// Registers `payload` under `name`. A source that had this name is
    /// overwritten where it stands; a new name comes last.
    ///
    /// Fails with `AlreadyFinalized` once the registry is finalized, and with
    /// `InvalidName` where the name is empty; the registry is then unchanged.
    pub fn add(&mut self, name: Vec<u8>, payload: SpecPayload) -> (r: Result<(), Error>)
        requires
            old(self).wf(),
        ensures
            final(self).wf(),
            final(self).is_finalized() == old(self).is_finalized(),
            old(self).is_finalized() ==> r == Err::<(), Error>(Error::AlreadyFinalized) && final(self)@ == old(self)@,
            !old(self).is_finalized() && name@.len() == 0 ==> r == Err::<(), Error>(Error::InvalidName) && final(self)@
                == old(self)@,
            !old(self).is_finalized() && name@.len() > 0 ==> r == Ok::<(), Error>(()) && final(self)@ == registered(
                old(self)@,
                SourceView { name: name@, payload: payload@ },
            ),
    {
        if self.finalized {
            return Err(Error::AlreadyFinalized);
        }
        if name.len() == 0 {
            return Err(Error::InvalidName);
        }
        let ghost added = SourceView { name: name@, payload: payload@ };
        proof {
            lemma_registered_valid(self@, added);
        }
        match self.find(name.as_slice()) {
            Some(i) => {
                proof {
                    lemma_index_of(self@, i as int, name@);
                }
                self.sources[i] = SpecSource { name, payload };
                assert(self@ =~= old(self)@.update(i as int, added));
            },
            None => {
                self.sources.push(SpecSource { name, payload });
                assert(self@ =~= old(self)@.push(added));
            },
        }
        Ok(())
    }

    /// Closes the registry and hands over its sources, in the order of
    /// registration, with the name of the first as the default.
    pub fn finalize(&mut self) -> (r: FinalizedSpecs)
        ensures
            final(self)@ == old(self)@,
            final(self).is_finalized(),
            source_views(r.sources@) == old(self)@,
            old(self)@.len() == 0 ==> r.default_name is None,
            old(self)@.len() > 0 ==> (r.default_name matches Some(name) && name@ == old(self)@[0].name),
    {
        self.finalized = true;
        let mut sources: Vec<SpecSource> = Vec::new();
        let mut i: usize = 0;
        while i < self.sources.len()
            invariant
                i <= self.sources@.len(),
                source_views(sources@) == self@.take(i as int),
            decreases self.sources@.len() - i,
        {
            sources.push(self.sources[i].clone());
            proof {
                assert(self@.take(i + 1) =~= self@.take(i as int).push(self@[i as int]));
            }
            i += 1;
        }
        let default_name = if self.sources.len() > 0 {
            Some(copy_of(self.sources[0].name.as_slice()))
        } else {
            None
        };
        FinalizedSpecs { sources, default_name }
    }
}

/// In valid sources, a source is where its name is.
pub proof fn lemma_index_of(sources: Seq<SourceView>, i: int, name: Seq<u8>)
    requires
        valid_sources(sources),
        named_at(sources, i, name),
    ensures
        has_name(sources, name),
        index_of(sources, name) == i,
{
    let k = index_of(sources, name);
    assert(named_at(sources, k, name));
    assert(k == i);
}

/// Registration keeps the sources valid, and the source registered is then
/// found under its name.
pub proof fn lemma_registered_valid(sources: Seq<SourceView>, source: SourceView)
    requires
        valid_sources(sources),
        source.name.len() > 0,
    ensures
        valid_sources(registered(sources, source)),
        has_name(registered(sources, source), source.name),
        registered(sources, source)[index_of(registered(sources, source), source.name)] == source,
{
    let after = registered(sources, source);
    if has_name(sources, source.name) {
        let at = index_of(sources, source.name);
        assert(named_at(sources, at, source.name));
        assert forall|i: int| 0 <= i < after.len() implies (#[trigger] after[i]).name == sources[i].name by {}
        assert(named_at(after, at, source.name));
        lemma_index_of(after, at, source.name);
    } else {
        let at = sources.len() as int;
        assert forall|i: int| 0 <= i < at implies (#[trigger] after[i]).name != source.name by {
            assert(!named_at(sources, i, source.name));
        }
        assert(named_at(after, at, source.name));
        lemma_index_of(after, at, source.name);
    }
}

/// Last write wins: where two sources are registered under one name, one
/// after the other, exactly one entry has that name and it is the second
/// source; the second registration leaves the number of entries as it was,
/// and the outcome is what registering the second alone would have given.
pub proof fn lemma_last_write_wins(sources: Seq<SourceView>, first: SourceView, second: SourceView)
    requires
        valid_sources(sources),
        first.name == second.name,
        first.name.len() > 0,
    ensures
        ({
            let once = registered(sources, first);
            let twice = registered(once, second);
            &&& twice.len() == once.len()
            &&& has_name(twice, second.name)
            &&& twice[index_of(twice, second.name)] == second
            &&& forall|i: int, j: int|
                named_at(twice, i, second.name) && named_at(twice, j, second.name) ==> i == j
            &&& twice == registered(sources, second)
        }),
{
    let once = registered(sources, first);
    let twice = registered(once, second);
    lemma_registered_valid(sources, first);
    lemma_registered_valid(once, second);
    assert forall|i: int, j: int| named_at(twice, i, second.name) && named_at(twice, j, second.name) implies i == j by {
        lemma_index_of(twice, i, second.name);
        lemma_index_of(twice, j, second.name);
    }
    let at = if has_name(sources, first.name) {
        index_of(sources, first.name)
    } else {
        sources.len() as int
    };
    assert(named_at(once, at, second.name));
    lemma_index_of(once, at, second.name);
    assert(twice =~= registered(sources, second));
}

} // verus!
