//! What holds of every request, proved from the definitions of the resolver.

use vstd::prelude::*;

use crate::assets::{is_asset_path, valid_assets};
use crate::bytes::{
    ascii, first_occurrence, joined, lemma_first_occurrence_is_first, lemma_joined_holds_part,
    lemma_occurs_with_more_before, lemma_occurs_with_more_behind, occurs_at, part_offset, COMMA, SLASH,
};
use crate::config::{links_of, url_of, valid_config, ConfigView};
use crate::error::Error;
use crate::initializer::{initializer, link_entries, link_json, links_json, members, quoted};
use crate::media::{content_type_of, content_type_of_path, is_known_extension};
use crate::mount::{routed, sub_path_of};
use crate::path::{
    collapse, is_absolute, is_disguised, lemma_normalized_stays_under_root, normalized, segments, without_leading_slash,
    without_trailing_slash,
};
use crate::registry::lemma_index_of;
use crate::resolver::{
    document_type, index_document, inline_document, is_bare_prefix, is_index_request, placeholder, resolved, substituted,
    ResponseView,
};

verus! {

/// The bare mount prefix is redirected to the prefix with a slash, whether
/// it comes as a sub-path or as the request path.
pub proof fn lemma_bare_prefix_is_redirected(config: ConfigView, assets: Map<Seq<u8>, Seq<u8>>)
    requires
        valid_config(config),
        config.prefix.len() > 0,
    ensures
        resolved(config, assets, config.prefix) == Ok::<ResponseView, Error>(
            ResponseView::Redirect(config.prefix + seq![SLASH]),
        ),
        routed(config, assets, config.prefix) == Ok::<ResponseView, Error>(
            ResponseView::Redirect(config.prefix + seq![SLASH]),
        ),
{
}

/// Nothing but the bare mount prefix is redirected.
pub proof fn lemma_only_bare_prefix_is_redirected(
    config: ConfigView,
    assets: Map<Seq<u8>, Seq<u8>>,
    sub_path: Seq<u8>,
)
    ensures
        resolved(config, assets, sub_path) matches Ok(ResponseView::Redirect(_)) ==> is_bare_prefix(config, sub_path),
{
}

/// A path that ends in a slash is never redirected, as a sub-path or as
/// the request path; so the request for the mount prefix with its slash is
/// not.
pub proof fn lemma_slash_is_never_redirected(config: ConfigView, assets: Map<Seq<u8>, Seq<u8>>, path: Seq<u8>)
    requires
        valid_config(config),
        path.len() > 0,
        path.last() == SLASH,
    ensures
        !(resolved(config, assets, path) matches Ok(ResponseView::Redirect(_))),
        !(routed(config, assets, path) matches Ok(ResponseView::Redirect(_))),
        !(routed(config, assets, config.prefix + seq![SLASH]) matches Ok(ResponseView::Redirect(_))),
{
    // the prefix ends in no slash, so a path that ends in one is not the prefix
    assert(path != config.prefix);
    if sub_path_of(config.prefix, path) is Some {
        // what follows the prefix is empty or ends in the same slash
        let sub_path = sub_path_of(config.prefix, path)->Some_0;
        assert(sub_path.len() > 0 ==> sub_path.last() == path.last());
    }
    // the prefix with its slash stands for the empty sub-path
    let with_slash = config.prefix + seq![SLASH];
    assert(with_slash.skip(config.prefix.len() + 1 as int) =~= Seq::<u8>::empty());
    assert(sub_path_of(config.prefix, with_slash) == Some(Seq::<u8>::empty()));
}

/// The URL that the index document lists for an inline specification is
/// answered with the document of that specification. This holds of every
/// name that does not begin with a slash and is not the mount prefix itself.
pub proof fn lemma_listed_url_is_answered(config: ConfigView, assets: Map<Seq<u8>, Seq<u8>>, i: int)
    requires
        valid_config(config),
        0 <= i < config.sources.len(),
        config.sources[i].payload is Inline,
        config.sources[i].name[0] != SLASH,
        !is_bare_prefix(config, config.sources[i].name),
    ensures
        routed(config, assets, url_of(config.prefix, config.sources[i])) == Ok::<ResponseView, Error>(
            ResponseView::Asset(config.sources[i].payload->Inline_0, document_type()),
        ),
{
    let name = config.sources[i].name;
    let with_slash = config.prefix + seq![SLASH];
    let url = url_of(config.prefix, config.sources[i]);
    assert(url =~= with_slash + name);
    assert(url.subrange(0, with_slash.len() as int) =~= with_slash);
    assert(url.skip(config.prefix.len() + 1 as int) =~= name);
    assert(sub_path_of(config.prefix, url) == Some(name));
    assert(seq![SLASH][0] == SLASH);
    assert(!is_index_request(name));
    lemma_index_of(config.sources, i, name);
}

/// An asset of the bundle is served as it is filed: the request for its
/// path is answered with its bytes and with the content type of its
/// extension. This holds of every asset but the index document, which is
/// rewritten, and but a path that the mount prefix or the name of an inline
/// specification claims first.
pub proof fn lemma_asset_is_served_unchanged(config: ConfigView, assets: Map<Seq<u8>, Seq<u8>>, path: Seq<u8>)
    requires
        valid_config(config),
        valid_assets(assets),
        assets.contains_key(path),
        path != index_document(),
        !is_bare_prefix(config, path),
        inline_document(config.sources, path) is None,
    ensures
        normalized(path) == Some(path),
        resolved(config, assets, path) == Ok::<ResponseView, Error>(
            ResponseView::Asset(assets[path], content_type_of_path(path)),
        ),
{
    assert(is_asset_path(path));
    lemma_normalized_stays_under_root(path);
    assert(path[0] != SLASH && path.last() != SLASH);
    assert(seq![SLASH][0] == SLASH);
    assert(!is_index_request(path));
    assert(without_leading_slash(path) == path);
    assert(without_trailing_slash(path) == path);
}

/// An extension that the table does not list has the content type
/// `application/octet-stream`.
pub proof fn lemma_unknown_extension_is_octet_stream(extension: Seq<u8>)
    requires
        !is_known_extension(extension),
    ensures
        content_type_of(extension) == "application/octet-stream"@,
{
}

/// A traversal attempt is never served from the bundle. A sub-path that,
/// without its trailing slash, climbs above the root, is absolute after its
/// first slash, or hides a dot, slash or backslash behind a percent sign has
/// no normalized form, so the bundle refuses it as an invalid path, and the
/// request is answered as not found. The mount prefix and the names of
/// inline specifications are answered before the bundle is asked.
pub proof fn lemma_traversal_is_not_found(config: ConfigView, assets: Map<Seq<u8>, Seq<u8>>, sub_path: Seq<u8>)
    requires
        ({
            let path = without_trailing_slash(sub_path);
            is_disguised(path) || is_absolute(path) || collapse(segments(without_leading_slash(path))) is None
        }),
        !is_bare_prefix(config, sub_path),
        inline_document(config.sources, without_leading_slash(sub_path)) is None,
    ensures
        normalized(without_trailing_slash(sub_path)) is None,
        resolved(config, assets, sub_path) == Ok::<ResponseView, Error>(ResponseView::NotFound),
{
    if is_index_request(sub_path) {
        // the index request is no traversal: what is left of it is the empty path
        let path = without_trailing_slash(sub_path);
        assert(path =~= Seq::<u8>::empty());
        assert(segments(path) =~= seq![Seq::<u8>::empty()]);
        assert(collapse(segments(path).drop_last()) == Some(Seq::<Seq<u8>>::empty()));
        assert(collapse(segments(path)) is Some);
    }
}

/// Whatever the bundle is asked for is asked under a path that stays under
/// its root, and the answer holds what the bundle files under that path:
/// the bytes as they are, or, for the index document, with the initializer
/// in place of the placeholder.
pub proof fn lemma_assets_come_from_the_bundle(config: ConfigView, assets: Map<Seq<u8>, Seq<u8>>, sub_path: Seq<u8>)
    requires
        valid_assets(assets),
        !is_bare_prefix(config, sub_path),
        !is_index_request(sub_path),
        inline_document(config.sources, without_leading_slash(sub_path)) is None,
    ensures
        resolved(config, assets, sub_path) matches Ok(ResponseView::Asset(bytes, _)) ==> {
            &&& normalized(without_trailing_slash(sub_path)) matches Some(filed)
            &&& assets.contains_key(filed)
            &&& is_asset_path(filed)
            &&& bytes == assets[filed] || (filed == index_document() && substituted(assets[filed], initializer(config))
                == Some(bytes))
        },
{
}

/// The resolver fails in one way only: the index document of the bundle
/// holds no placeholder.
pub proof fn lemma_resolver_fails_on_corrupt_bundle_only(
    config: ConfigView,
    assets: Map<Seq<u8>, Seq<u8>>,
    sub_path: Seq<u8>,
)
    ensures
        resolved(config, assets, sub_path) matches Err(e) ==> {
            &&& e == Error::BundleCorrupt
            &&& assets.contains_key(index_document())
            &&& first_occurrence(assets[index_document()], placeholder()) is None
        },
{
}

/// The index document lists every registered specification once, in the
/// order of registration.
///
/// Where the index document of the bundle holds the placeholder, the
/// request for the index is answered with that document, the initializer
/// standing in place of the first placeholder. The list of specifications
/// begins nine bytes into the initializer. It is made of one entry for each
/// registered specification and the commas between them: the `i`-th entry
/// stands at the offset of the `i`-th part, so the entries follow each other
/// as the registrations did, and the last entry ends the list. The entry of
/// a specification holds its name and its URL as JSON strings, the name
/// eight bytes in and the URL seven bytes behind the name.
pub proof fn lemma_index_lists_every_specification(config: ConfigView, assets: Map<Seq<u8>, Seq<u8>>, i: int)
    requires
        valid_config(config),
        assets.contains_key(index_document()),
        first_occurrence(assets[index_document()], placeholder()) is Some,
        0 <= i < config.sources.len(),
    ensures
        ({
            let template = assets[index_document()];
            let at = first_occurrence(template, placeholder())->Some_0;
            let content = template.take(at) + initializer(config) + template.skip(at + placeholder().len());
            let entries = link_entries(links_of(config));
            let list = joined(entries, COMMA);
            let name = quoted(config.sources[i].name);
            let url = quoted(url_of(config.prefix, config.sources[i]));
            &&& resolved(config, assets, Seq::empty()) == Ok::<ResponseView, Error>(
                ResponseView::Asset(content, content_type_of_path(index_document())),
            )
            &&& occurs_at(content, list, at + 9)
            &&& entries.len() == config.sources.len()
            &&& occurs_at(list, entries[i], part_offset(entries, i))
            &&& list.len() == part_offset(entries, entries.len() - 1) + entries.last().len()
            &&& occurs_at(entries[i], name, 8)
            &&& occurs_at(entries[i], url, 8 + name.len() as int + 7)
        }),
{
    reveal_strlit("{");
    reveal_strlit("}");
    reveal_strlit("[");
    reveal_strlit("]");
    reveal_strlit("\"urls\":");
    reveal_strlit("{\"name\":");
    reveal_strlit(",\"url\":");
    let template = assets[index_document()];
    let at = first_occurrence(template, placeholder())->Some_0;
    let entries = link_entries(links_of(config));
    let list = joined(entries, COMMA);
    let name = quoted(config.sources[i].name);
    let url = quoted(url_of(config.prefix, config.sources[i]));
    lemma_joined_holds_part(entries, COMMA, i);

    // the entry holds name and URL
    let entry = entries[i];
    assert(entry == link_json(config.sources[i].name, url_of(config.prefix, config.sources[i])));
    let name_len = name.len() as int;
    let url_len = url.len() as int;
    let list_len = list.len() as int;
    assert(entry.subrange(8, 8 + name_len) =~= name);
    assert(entry.subrange(8 + name_len + 7, 8 + name_len + 7 + url_len) =~= url);

    // the list stands in the first member, the first member in the initializer
    let first = members(config)[0];
    assert(first == ascii("\"urls\":"@) + links_json(links_of(config)));
    assert(first.subrange(8, 8 + list_len) =~= list);
    assert(occurs_at(first, list, 8));
    lemma_joined_holds_part(members(config), COMMA, 0);
    let body = joined(members(config), COMMA);
    assert(occurs_at(body, first, 0));
    assert(body.subrange(8, 8 + list_len) =~= body.subrange(0, first.len() as int).subrange(8, 8 + list_len));
    assert(first.subrange(0, first.len() as int) =~= first);
    assert(occurs_at(body, list, 8));
    lemma_occurs_with_more_before(ascii("{"@), body, list, 8);
    lemma_occurs_with_more_behind(ascii("{"@) + body, ascii("}"@), list, 9);
    assert(occurs_at(initializer(config), list, 9));
    lemma_occurs_with_more_before(template.take(at), initializer(config), list, 9);
    lemma_first_occurrence_is_first(template, placeholder());
    assert(template.take(at).len() == at);
    lemma_occurs_with_more_behind(
        template.take(at) + initializer(config),
        template.skip(at + placeholder().len()),
        list,
        at + 9,
    );
}

} // verus!
