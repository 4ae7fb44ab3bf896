//! The resolver: what a request below the mount prefix is answered with.
//! Resolution reads configuration and bundle and changes neither.

use vstd::prelude::*;
use vstd::slice::slice_subrange;

use crate::assets::{AssetEntry, AssetStore};
use crate::bytes::{append, ascii, copy_of, find_first, first_occurrence, literal, same_bytes, SLASH};
use crate::config::{ConfigView, RuntimeConfig};
use crate::error::Error;
use crate::initializer::initializer;
use crate::media::content_type_of_path;
use crate::path::{normalized, strip_leading_slash, strip_trailing_slash, without_leading_slash, without_trailing_slash};
use crate::registry::{
    has_name, index_of, lemma_index_of, named_at, source_views, valid_sources, PayloadView, SourceView, SpecPayload,
};

verus! {

/// The answer to a request.
#[derive(Debug, PartialEq, Eq)]
pub enum ResolvedResponse {
    /// Content, with its content type.
    Asset(Vec<u8>, &'static str),
    /// Nothing is filed under the requested path.
    NotFound,
    /// The request is to be repeated at the given path.
    Redirect(Vec<u8>),
}

/// An answer, as contracts speak of it.
pub enum ResponseView {
    Asset(Seq<u8>, Seq<char>),
    NotFound,
    Redirect(Seq<u8>),
}

impl View for ResolvedResponse {
    type V = ResponseView;

    open spec fn view(&self) -> ResponseView {
        match self {
            ResolvedResponse::Asset(bytes, content_type) => ResponseView::Asset(bytes@, content_type@),
            ResolvedResponse::NotFound => ResponseView::NotFound,
            ResolvedResponse::Redirect(target) => ResponseView::Redirect(target@),
        }
    }
}

/// The outcome of a resolution, as contracts speak of it.
pub open spec fn outcome_view(outcome: Result<ResolvedResponse, Error>) -> Result<ResponseView, Error> {
    match outcome {
        Ok(response) => Ok(response@),
        Err(e) => Err(e),
    }
}

/// The path under which the bundle files the index document.
pub open spec fn index_document() -> Seq<u8> {
    ascii("index.html"@)
}

/// The token in the index document that the initializer takes the place of.
pub open spec fn placeholder() -> Seq<u8> {
    ascii("{{config}}"@)
}

/// The content type of a specification document.
pub open spec fn document_type() -> Seq<char> {
    "application/json"@
}

/// The document with `snippet` in place of the first placeholder; `None`
/// where the document holds no placeholder.
pub open spec fn substituted(document: Seq<u8>, snippet: Seq<u8>) -> Option<Seq<u8>> {
    match first_occurrence(document, placeholder()) {
        Some(at) => Some(document.take(at) + snippet + document.skip(at + placeholder().len())),
        None => None,
    }
}

/// The inline document registered under `name`; `None` where nothing is
/// registered under it, or a reference is.
pub open spec fn inline_document(sources: Seq<SourceView>, name: Seq<u8>) -> Option<Seq<u8>> {
    if has_name(sources, name) {
        match sources[index_of(sources, name)].payload {
            PayloadView::Inline(document) => Some(document),
            PayloadView::Reference(_) => None,
        }
    } else {
        None
    }
}

/// What is served for the asset filed under `filed`: the index document with
/// the initializer in place of the placeholder, any other asset as it is.
pub open spec fn served(config: ConfigView, assets: Map<Seq<u8>, Seq<u8>>, filed: Seq<u8>) -> Result<
    ResponseView,
    Error,
> {
    if !assets.contains_key(filed) {
        Ok(ResponseView::NotFound)
    } else if filed == index_document() {
        match substituted(assets[filed], initializer(config)) {
            Some(content) => Ok(ResponseView::Asset(content, content_type_of_path(filed))),
            None => Err(Error::BundleCorrupt),
        }
    } else {
        Ok(ResponseView::Asset(assets[filed], content_type_of_path(filed)))
    }
}

/// The sub-path asks for the index document: it is empty or a single slash.
pub open spec fn is_index_request(sub_path: Seq<u8>) -> bool {
    sub_path.len() == 0 || sub_path == seq![SLASH]
}

/// The sub-path is the mount prefix itself, without the slash that the
/// viewer's relative links need.
pub open spec fn is_bare_prefix(config: ConfigView, sub_path: Seq<u8>) -> bool {
    config.prefix.len() > 0 && sub_path == config.prefix
}

/// The answer to a request for `sub_path`.
///
/// The bare mount prefix is redirected to the prefix with a slash. The empty
/// sub-path and the single slash are answered with the index document. The
/// name of an inline specification, with or without a leading slash, is
/// answered with its document. Every other sub-path is looked up in the
/// bundle, without its trailing slash; one that the bundle refuses or does
/// not hold is not found.
pub open spec fn resolved(config: ConfigView, assets: Map<Seq<u8>, Seq<u8>>, sub_path: Seq<u8>) -> Result<
    ResponseView,
    Error,
> {
    if is_bare_prefix(config, sub_path) {
        Ok(ResponseView::Redirect(config.prefix + seq![SLASH]))
    } else if is_index_request(sub_path) {
        served(config, assets, index_document())
    } else if inline_document(config.sources, without_leading_slash(sub_path)) is Some {
        Ok(
            ResponseView::Asset(
                inline_document(config.sources, without_leading_slash(sub_path))->Some_0,
                document_type(),
            ),
        )
    } else {
        match normalized(without_trailing_slash(sub_path)) {
            None => Ok(ResponseView::NotFound),
            Some(filed) => served(config, assets, filed),
        }
    }
}

/// The path under which the bundle files the index document.
pub fn index_path() -> (r: &'static [u8])
    ensures
        r@ == index_document(),
{
    proof {
        reveal_strlit("index.html");
    }
    literal("index.html")
}

/// The token that the initializer takes the place of.
pub fn placeholder_token() -> (r: &'static [u8])
    ensures
        r@ == placeholder(),
{
    proof {
        reveal_strlit("{{config}}");
    }
    literal("{{config}}")
}

/// Puts `snippet` in place of the first placeholder of `document`.
pub fn substitute(document: &[u8], snippet: &[u8]) -> (r: Option<Vec<u8>>)
    ensures
        match r {
            Some(content) => substituted(document@, snippet@) == Some(content@),
            None => substituted(document@, snippet@) is None,
        },
{
    let token = placeholder_token();
    match find_first(document, token) {
        None => None,
        Some(at) => {
            let end: usize = document.len();
            let mut out: Vec<u8> = Vec::new();
            let before = slice_subrange(document, 0, at);
            let after = slice_subrange(document, at + token.len(), end);
            append(&mut out, before);
            append(&mut out, snippet);
            append(&mut out, after);
            assert(before@ =~= document@.take(at as int));
            assert(after@ =~= document@.skip(at + placeholder().len()));
            Some(out)
        },
    }
}

impl RuntimeConfig {
    /// The inline document registered under `name`.
    pub fn inline_document(&self, name: &[u8]) -> (r: Option<&Vec<u8>>)
        requires
            self.wf(),
        ensures
            match r {
                Some(document) => inline_document(self@.sources, name@) == Some(document@),
                None => inline_document(self@.sources, name@) is None,
            },
    {
        let sources = self.sources();
        let mut i: usize = 0;
        while i < sources.len()
            invariant
                i <= sources@.len(),
                source_views(sources@) == self@.sources,
                valid_sources(self@.sources),
                forall|j: int| j < i ==> !named_at(self@.sources, j, name@),
            decreases sources@.len() - i,
        {
            if same_bytes(sources[i].name.as_slice(), name) {
                proof {
                    lemma_index_of(self@.sources, i as int, name@);
                }
                return match &sources[i].payload {
                    SpecPayload::Inline(document) => Some(document),
                    SpecPayload::Reference(_) => None,
                };
            }
            i += 1;
        }
        None
    }

    /// What is served for an asset of the bundle.
    fn serve(&self, entry: &AssetEntry, Ghost(assets): Ghost<Map<Seq<u8>, Seq<u8>>>) -> (r: Result<
        ResolvedResponse,
        Error,
    >)
        requires
            assets.contains_key(entry.path@),
            assets[entry.path@] == entry.bytes@,
            entry.content_type@ == content_type_of_path(entry.path@),
        ensures
            outcome_view(r) == served(self@, assets, entry.path@),
    {
        if same_bytes(entry.path.as_slice(), index_path()) {
            let snippet = self.render_initializer();
            match substitute(entry.bytes.as_slice(), snippet.as_slice()) {
                Some(content) => Ok(ResolvedResponse::Asset(content, entry.content_type)),
                None => Err(Error::BundleCorrupt),
            }
        } else {
            Ok(ResolvedResponse::Asset(copy_of(entry.bytes.as_slice()), entry.content_type))
        }
    }
}

/// Answers the request for `sub_path`, the part of the request path below
/// the mount prefix.
///
/// Fails with `BundleCorrupt` where the index document is asked for and the
/// one in the bundle holds no placeholder.
pub fn resolve(sub_path: &[u8], config: &RuntimeConfig, assets: &AssetStore) -> (r: Result<ResolvedResponse, Error>)
    requires
        config.wf(),
        assets.wf(),
    ensures
        outcome_view(r) == resolved(config@, assets@, sub_path@),
{
    let prefix = config.prefix();
    if prefix.len() > 0 && same_bytes(sub_path, prefix) {
        let mut target = copy_of(prefix);
        target.push(SLASH);
        assert(target@ =~= config@.prefix + seq![SLASH]);
        return Ok(ResolvedResponse::Redirect(target));
    }
    if sub_path.len() == 0 || (sub_path.len() == 1 && sub_path[0] == SLASH) {
        assert(sub_path@.len() == 1 ==> sub_path@ =~= seq![SLASH]);
        return match assets.get(index_path()) {
            Some(entry) => config.serve(entry, Ghost(assets@)),
            None => Ok(ResolvedResponse::NotFound),
        };
    }
    assert(seq![SLASH].len() == 1 && seq![SLASH][0] == SLASH);
    if let Some(document) = config.inline_document(strip_leading_slash(sub_path)) {
        return Ok(ResolvedResponse::Asset(copy_of(document.as_slice()), "application/json"));
    }
    match assets.lookup(strip_trailing_slash(sub_path)) {
        Err(_) => Ok(ResolvedResponse::NotFound),
        Ok(None) => Ok(ResolvedResponse::NotFound),
        Ok(Some(entry)) => config.serve(entry, Ghost(assets@)),
    }
}

} // verus!
