//! Mounting: what a host framework needs in order to route requests to the
//! resolver, and how an answer of the resolver reads as an HTTP response.
//! No framework is named here; the host binds these values to its own router.

use vstd::prelude::*;
use vstd::slice::slice_subrange;
use vstd::utf8::encode_utf8;

use crate::assets::AssetStore;
use crate::bytes::{begins_with, copy_of, same_bytes, SLASH};
use crate::config::{url_of, ConfigView, RuntimeConfig};
use crate::error::Error;
use crate::registry::{source_views, PayloadView, SourceView, SpecPayload};
use crate::resolver::{outcome_view, resolve, resolved, ResolvedResponse, ResponseView};

verus! {

/// The request paths that the host routes to the resolver, besides every
/// path that begins with `with_slash`.
#[derive(Debug, PartialEq, Eq)]
pub struct MountRoutes {
    /// The mount prefix itself.
    pub bare: Vec<u8>,
    /// The mount prefix with a slash.
    pub with_slash: Vec<u8>,
}

/// A route that the host serves itself: an inline specification under its URL.
#[derive(Debug, PartialEq, Eq)]
pub struct SpecEndpoint {
    /// The path of the route.
    pub url: Vec<u8>,
    /// The document to answer with, as `application/json`.
    pub document: Vec<u8>,
}

/// An endpoint, as contracts speak of it.
pub struct EndpointView {
    pub url: Seq<u8>,
    pub document: Seq<u8>,
}

impl View for SpecEndpoint {
    type V = EndpointView;

    open spec fn view(&self) -> EndpointView {
        EndpointView { url: self.url@, document: self.document@ }
    }
}

/// The endpoints that a sequence of exec values stands for.
pub open spec fn endpoint_views(endpoints: Seq<SpecEndpoint>) -> Seq<EndpointView> {
    endpoints.map_values(|endpoint: SpecEndpoint| endpoint@)
}

/// The endpoints of the inline specifications among `sources`, in their
/// order; a reference has none.
pub open spec fn endpoints_of(prefix: Seq<u8>, sources: Seq<SourceView>) -> Seq<EndpointView>
    decreases sources.len(),
{
    if sources.len() == 0 {
        Seq::empty()
    } else {
        let before = endpoints_of(prefix, sources.drop_last());
        match sources.last().payload {
            PayloadView::Inline(document) => before.push(
                EndpointView { url: url_of(prefix, sources.last()), document },
            ),
            PayloadView::Reference(_) => before,
        }
    }
}

/// An HTTP response: status, the headers that matter, and the body.
#[derive(Debug, PartialEq, Eq)]
pub struct HttpReply {
    /// The status code.
    pub status: u16,
    /// The value of `Content-Type`, where the response has a body.
    pub content_type: Option<&'static str>,
    /// The value of `Location`, where the response redirects.
    pub location: Option<Vec<u8>>,
    /// The body.
    pub body: Vec<u8>,
}

/// A response, as contracts speak of it.
pub struct ReplyView {
    pub status: int,
    pub content_type: Option<Seq<char>>,
    pub location: Option<Seq<u8>>,
    pub body: Seq<u8>,
}

impl View for HttpReply {
    type V = ReplyView;

    open spec fn view(&self) -> ReplyView {
        ReplyView {
            status: self.status as int,
            content_type: match self.content_type {
                Some(content_type) => Some(content_type@),
                None => None,
            },
            location: match self.location {
                Some(target) => Some(target@),
                None => None,
            },
            body: self.body@,
        }
    }
}

/// The response that an outcome of the resolver reads as: content with 200
/// and its content type; a missing asset with 404 and no body; a redirect
/// with 301 and its target; a failure with 500 and its description.
pub open spec fn reply_for(outcome: Result<ResponseView, Error>) -> ReplyView {
    match outcome {
        Ok(ResponseView::Asset(bytes, content_type)) => ReplyView {
            status: 200,
            content_type: Some(content_type),
            location: None,
            body: bytes,
        },
        Ok(ResponseView::NotFound) => ReplyView { status: 404, content_type: None, location: None, body: Seq::empty() },
        Ok(ResponseView::Redirect(target)) => ReplyView {
            status: 301,
            content_type: None,
            location: Some(target),
            body: Seq::empty(),
        },
        Err(e) => ReplyView {
            status: 500,
            content_type: Some("text/plain; charset=utf-8"@),
            location: None,
            body: encode_utf8(e.text_of()),
        },
    }
}

/// The sub-path that a request path stands for: the prefix itself for the
/// bare prefix, what follows the prefix and a slash for a path below it;
/// `None` for a path that is not under the mount.
pub open spec fn sub_path_of(prefix: Seq<u8>, request: Seq<u8>) -> Option<Seq<u8>> {
    if request == prefix {
        Some(prefix)
    } else if (prefix + seq![SLASH]).is_prefix_of(request) {
        Some(request.skip(prefix.len() + 1 as int))
    } else {
        None
    }
}

/// The outcome for a request path: that of its sub-path, and not found for a
/// path that is not under the mount.
pub open spec fn routed(config: ConfigView, assets: Map<Seq<u8>, Seq<u8>>, request: Seq<u8>) -> Result<
    ResponseView,
    Error,
> {
    match sub_path_of(config.prefix, request) {
        Some(sub_path) => resolved(config, assets, sub_path),
        None => Ok(ResponseView::NotFound),
    }
}

/// Reads an outcome of the resolver as an HTTP response.
pub fn respond(outcome: Result<ResolvedResponse, Error>) -> (r: HttpReply)
    ensures
        r@ == reply_for(outcome_view(outcome)),
{
    match outcome {
        Ok(ResolvedResponse::Asset(bytes, content_type)) => HttpReply {
            status: 200,
            content_type: Some(content_type),
            location: None,
            body: bytes,
        },
        Ok(ResolvedResponse::NotFound) => HttpReply { status: 404, content_type: None, location: None, body: Vec::new() },
        Ok(ResolvedResponse::Redirect(target)) => HttpReply {
            status: 301,
            content_type: None,
            location: Some(target),
            body: Vec::new(),
        },
        Err(e) => HttpReply {
            status: 500,
            content_type: Some("text/plain; charset=utf-8"),
            location: None,
            body: copy_of(e.message().as_bytes()),
        },
    }
}

impl RuntimeConfig {
    /// The request paths to route to the resolver.
    pub fn routes(&self) -> (r: MountRoutes)
        ensures
            r.bare@ == self@.prefix,
            r.with_slash@ == self@.prefix + seq![SLASH],
    {
        let bare = copy_of(self.prefix());
        let mut with_slash = copy_of(self.prefix());
        with_slash.push(SLASH);
        MountRoutes { bare, with_slash }
    }

    /// The routes that the host serves itself: one for each inline
    /// specification, in the order of registration.
    pub fn spec_endpoints(&self) -> (r: Vec<SpecEndpoint>)
        ensures
            endpoint_views(r@) == endpoints_of(self@.prefix, self@.sources),
    {
        let sources = self.sources();
        let mut endpoints: Vec<SpecEndpoint> = Vec::new();
        let mut i: usize = 0;
        while i < sources.len()
            invariant
                i <= sources@.len(),
                source_views(sources@) == self@.sources,
                endpoint_views(endpoints@) == endpoints_of(self@.prefix, self@.sources.take(i as int)),
            decreases sources@.len() - i,
        {
            assert(self@.sources.take(i + 1).drop_last() =~= self@.sources.take(i as int));
            if let SpecPayload::Inline(document) = &sources[i].payload {
                endpoints.push(SpecEndpoint { url: self.url(i), document: copy_of(document.as_slice()) });
            }
            i += 1;
        }
        assert(self@.sources.take(self@.sources.len() as int) =~= self@.sources);
        endpoints
    }

    /// The sub-path that a request path stands for.
    pub fn sub_path<'a>(&'a self, request_path: &'a [u8]) -> (r: Option<&'a [u8]>)
        ensures
            match r {
                Some(sub_path) => sub_path_of(self@.prefix, request_path@) == Some(sub_path@),
                None => sub_path_of(self@.prefix, request_path@) is None,
            },
    {
        let prefix = self.prefix();
        if same_bytes(request_path, prefix) {
            return Some(prefix);
        }
        let ghost with_slash = self@.prefix + seq![SLASH];
        if request_path.len() > prefix.len() && begins_with(request_path, prefix) && request_path[prefix.len()] == SLASH {
            let tail = slice_subrange(request_path, prefix.len() + 1, request_path.len());
            assert(request_path@.subrange(0, with_slash.len() as int) =~= with_slash);
            Some(tail)
        } else {
            proof {
                if with_slash.is_prefix_of(request_path@) {
                    let head = request_path@.subrange(0, with_slash.len() as int);
                    assert(head[self@.prefix.len() as int] == SLASH);
                    assert(head.subrange(0, self@.prefix.len() as int) =~= self@.prefix);
                    assert(request_path@.subrange(0, self@.prefix.len() as int) =~= self@.prefix);
                }
            }
            None
        }
    }
}

/// Answers the request for `request_path`, the path as the client sent it.
pub fn handle(request_path: &[u8], config: &RuntimeConfig, assets: &AssetStore) -> (r: HttpReply)
    requires
        config.wf(),
        assets.wf(),
    ensures
        r@ == reply_for(routed(config@, assets@, request_path@)),
{
    match config.sub_path(request_path) {
        Some(sub_path) => respond(resolve(sub_path, config, assets)),
        None => respond(Ok(ResolvedResponse::NotFound)),
    }
}

} // verus!
