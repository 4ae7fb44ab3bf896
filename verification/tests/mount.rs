use docs_mount::assets::AssetStore;
use docs_mount::config::{ConfigOptions, RuntimeConfig};
use docs_mount::error::Error;
use docs_mount::mount::{handle, respond, HttpReply, MountRoutes, SpecEndpoint};
use docs_mount::registry::{SpecPayload, SpecRegistry};
use docs_mount::resolver::ResolvedResponse;

fn mounted_config() -> RuntimeConfig {
    let mut registry = SpecRegistry::new();
    registry.add(b"v1".to_vec(), SpecPayload::Inline(b"docA".to_vec())).unwrap();
    registry.add(b"v2".to_vec(), SpecPayload::Inline(b"docB".to_vec())).unwrap();
    RuntimeConfig::new(&mut registry, ConfigOptions::new(b"/docs".to_vec())).unwrap()
}

fn mounted_bundle() -> AssetStore {
    let mut assets = AssetStore::new();
    assets.insert(b"index.html", b"<html>{{config}}</html>".to_vec()).unwrap();
    assets.insert(b"swagger-ui.css", b"body{}".to_vec()).unwrap();
    assets
}

fn not_found() -> HttpReply {
    HttpReply { status: 404, content_type: None, location: None, body: Vec::new() }
}

#[test]
fn routes_are_the_prefix_bare_and_with_slash() {
    assert_eq!(mounted_config().routes(), MountRoutes { bare: b"/docs".to_vec(), with_slash: b"/docs/".to_vec() });
}

#[test]
fn routes_of_a_root_mount() {
    let mut registry = SpecRegistry::new();
    registry.add(b"v1".to_vec(), SpecPayload::Inline(b"docA".to_vec())).unwrap();
    let config = RuntimeConfig::new(&mut registry, ConfigOptions::new(b"/".to_vec())).unwrap();
    assert_eq!(config.routes(), MountRoutes { bare: Vec::new(), with_slash: b"/".to_vec() });
}

#[test]
fn endpoints_are_the_inline_specifications() {
    let mut registry = SpecRegistry::new();
    registry.add(b"v1".to_vec(), SpecPayload::Inline(b"docA".to_vec())).unwrap();
    registry.add(b"ext".to_vec(), SpecPayload::Reference(b"https://example.org/api.json".to_vec())).unwrap();
    registry.add(b"v2".to_vec(), SpecPayload::Inline(b"docB".to_vec())).unwrap();
    let config = RuntimeConfig::new(&mut registry, ConfigOptions::new(b"/docs/".to_vec())).unwrap();
    assert_eq!(
        config.spec_endpoints(),
        vec![
            SpecEndpoint { url: b"/docs/v1".to_vec(), document: b"docA".to_vec() },
            SpecEndpoint { url: b"/docs/v2".to_vec(), document: b"docB".to_vec() },
        ]
    );
}

#[test]
fn references_alone_give_no_endpoint() {
    let mut registry = SpecRegistry::new();
    registry.add(b"ext".to_vec(), SpecPayload::Reference(b"https://example.org/api.json".to_vec())).unwrap();
    let config = RuntimeConfig::new(&mut registry, ConfigOptions::new(b"/docs".to_vec())).unwrap();
    assert_eq!(config.spec_endpoints(), Vec::<SpecEndpoint>::new());
}

#[test]
fn sub_path_is_what_follows_prefix_and_slash() {
    let config = mounted_config();
    assert_eq!(config.sub_path(b"/docs/swagger-ui.css"), Some(&b"swagger-ui.css"[..]));
    assert_eq!(config.sub_path(b"/docs/"), Some(&b""[..]));
    assert_eq!(config.sub_path(b"/docs//x"), Some(&b"/x"[..]));
    assert_eq!(config.sub_path(b"/docs/a/b/"), Some(&b"a/b/"[..]));
}

#[test]
fn sub_path_of_the_bare_prefix_is_the_prefix() {
    assert_eq!(mounted_config().sub_path(b"/docs"), Some(&b"/docs"[..]));
}

#[test]
fn path_outside_the_mount_has_no_sub_path() {
    let config = mounted_config();
    assert_eq!(config.sub_path(b"/other"), None);
    assert_eq!(config.sub_path(b"/docsx"), None);
    assert_eq!(config.sub_path(b"/doc"), None);
    assert_eq!(config.sub_path(b""), None);
    assert_eq!(config.sub_path(b"/"), None);
}

#[test]
fn asset_reads_as_200_with_content_type_and_bytes() {
    assert_eq!(
        respond(Ok(ResolvedResponse::Asset(b"body{}".to_vec(), "text/css"))),
        HttpReply { status: 200, content_type: Some("text/css"), location: None, body: b"body{}".to_vec() }
    );
}

#[test]
fn not_found_reads_as_404_without_body() {
    assert_eq!(respond(Ok(ResolvedResponse::NotFound)), not_found());
}

#[test]
fn redirect_reads_as_301_with_location() {
    assert_eq!(
        respond(Ok(ResolvedResponse::Redirect(b"/docs/".to_vec()))),
        HttpReply { status: 301, content_type: None, location: Some(b"/docs/".to_vec()), body: Vec::new() }
    );
}

#[test]
fn failure_reads_as_500_with_its_message() {
    assert_eq!(
        respond(Err(Error::BundleCorrupt)),
        HttpReply {
            status: 500,
            content_type: Some("text/plain; charset=utf-8"),
            location: None,
            body: b"the index document of the asset bundle has no placeholder".to_vec(),
        }
    );
    assert_eq!(
        respond(Err(Error::InvalidPath)),
        HttpReply {
            status: 500,
            content_type: Some("text/plain; charset=utf-8"),
            location: None,
            body: b"the path leaves the asset bundle".to_vec(),
        }
    );
}

#[test]
fn end_to_end_scenario() {
    let config = mounted_config();
    let assets = mounted_bundle();

    assert_eq!(
        handle(b"/docs", &config, &assets),
        HttpReply { status: 301, content_type: None, location: Some(b"/docs/".to_vec()), body: Vec::new() }
    );

    let index = handle(b"/docs/", &config, &assets);
    assert_eq!(index.status, 200);
    assert_eq!(index.content_type, Some("text/html"));
    let body = String::from_utf8(index.body).unwrap();
    assert!(body.contains("{\"name\":\"v1\",\"url\":\"/docs/v1\"}"));
    assert!(body.contains("{\"name\":\"v2\",\"url\":\"/docs/v2\"}"));
    assert_eq!(
        body,
        "<html>{\"urls\":[{\"name\":\"v1\",\"url\":\"/docs/v1\"},{\"name\":\"v2\",\"url\":\"/docs/v2\"}],\"urls.primaryName\":\"v1\",\"dom_id\":\"#swagger-ui\",\"deepLinking\":true,\"layout\":\"StandaloneLayout\"}</html>"
    );

    assert_eq!(
        handle(b"/docs/swagger-ui.css", &config, &assets),
        HttpReply { status: 200, content_type: Some("text/css"), location: None, body: b"body{}".to_vec() }
    );
    assert_eq!(handle(b"/docs/../../etc/passwd", &config, &assets), not_found());
    assert_eq!(handle(b"/docs/nonexistent.png", &config, &assets), not_found());
}

#[test]
fn specification_is_answered_under_its_url() {
    assert_eq!(
        handle(b"/docs/v2", &mounted_config(), &mounted_bundle()),
        HttpReply { status: 200, content_type: Some("application/json"), location: None, body: b"docB".to_vec() }
    );
}

#[test]
fn request_outside_the_mount_is_not_found() {
    let config = mounted_config();
    let assets = mounted_bundle();
    assert_eq!(handle(b"/other/swagger-ui.css", &config, &assets), not_found());
    assert_eq!(handle(b"/docsswagger-ui.css", &config, &assets), not_found());
    assert_eq!(handle(b"/", &config, &assets), not_found());
}

#[test]
fn corrupt_bundle_is_answered_with_500() {
    let mut assets = AssetStore::new();
    assets.insert(b"index.html", b"<html></html>".to_vec()).unwrap();
    let reply = handle(b"/docs/", &mounted_config(), &assets);
    assert_eq!(reply.status, 500);
    assert_eq!(reply.body, b"the index document of the asset bundle has no placeholder".to_vec());
    assert_eq!(handle(b"/docs/swagger-ui.css", &mounted_config(), &assets), not_found());
}

#[test]
fn encoded_traversal_in_a_request_is_not_found() {
    let config = mounted_config();
    let assets = mounted_bundle();
    assert_eq!(handle(b"/docs/%2e%2e/%2e%2e/etc/passwd", &config, &assets), not_found());
    assert_eq!(handle(b"/docs/..%2f..%2fetc%2fpasswd", &config, &assets), not_found());
    assert_eq!(handle(b"/docs//etc/passwd", &config, &assets), not_found());
}
