use docs_mount::config::{ConfigOptions, RuntimeConfig, SpecLink};
use docs_mount::error::Error;
use docs_mount::registry::{SpecPayload, SpecRegistry, SpecSource};
use docs_mount::settings::{default_presentation, overlay, put_setting, Setting};

fn setting(key: &[u8], value: &[u8]) -> Setting {
    Setting { key: key.to_vec(), value: value.to_vec() }
}

fn registry_of_two() -> SpecRegistry {
    let mut registry = SpecRegistry::new();
    registry.add(b"v1".to_vec(), SpecPayload::Inline(b"docA".to_vec())).unwrap();
    registry.add(b"v2".to_vec(), SpecPayload::Reference(b"https://example.org/v2.json".to_vec())).unwrap();
    registry
}

#[test]
fn options_builder_fills_the_fields() {
    let options = ConfigOptions::new(b"/docs".to_vec())
        .with_default_spec(b"v2".to_vec())
        .with_presentation(b"layout".to_vec(), b"\"BaseLayout\"".to_vec())
        .with_presentation(b"filter".to_vec(), b"true".to_vec())
        .with_oauth(b"clientId".to_vec(), b"\"abc\"".to_vec());
    assert_eq!(
        options,
        ConfigOptions {
            mount_prefix: b"/docs".to_vec(),
            default_spec_name: Some(b"v2".to_vec()),
            presentation: vec![setting(b"layout", b"\"BaseLayout\""), setting(b"filter", b"true")],
            oauth: vec![setting(b"clientId", b"\"abc\"")],
        }
    );
}

#[test]
fn new_options_choose_nothing() {
    assert_eq!(
        ConfigOptions::new(b"/x".to_vec()),
        ConfigOptions { mount_prefix: b"/x".to_vec(), default_spec_name: None, presentation: Vec::new(), oauth: Vec::new() }
    );
}

#[test]
fn empty_registry_is_refused() {
    let mut registry = SpecRegistry::new();
    let r = RuntimeConfig::new(&mut registry, ConfigOptions::new(b"/docs".to_vec()));
    assert_eq!(r.err(), Some(Error::EmptyRegistry));
}

#[test]
fn empty_registry_is_refused_whatever_the_default() {
    let mut registry = SpecRegistry::new();
    let options = ConfigOptions::new(b"/docs".to_vec()).with_default_spec(b"v1".to_vec());
    assert_eq!(RuntimeConfig::new(&mut registry, options).err(), Some(Error::EmptyRegistry));
}

#[test]
fn unknown_default_is_refused() {
    let mut registry = registry_of_two();
    let options = ConfigOptions::new(b"/docs".to_vec()).with_default_spec(b"v3".to_vec());
    assert_eq!(RuntimeConfig::new(&mut registry, options).err(), Some(Error::UnknownDefaultSpec));
}

#[test]
fn refused_configuration_leaves_the_registry_open() {
    let mut registry = registry_of_two();
    let options = ConfigOptions::new(b"/docs".to_vec()).with_default_spec(b"v3".to_vec());
    assert!(RuntimeConfig::new(&mut registry, options).is_err());
    assert_eq!(registry.add(b"v3".to_vec(), SpecPayload::Inline(b"docC".to_vec())), Ok(()));
    let options = ConfigOptions::new(b"/docs".to_vec()).with_default_spec(b"v3".to_vec());
    let config = RuntimeConfig::new(&mut registry, options).unwrap();
    assert_eq!(config.default_spec_name(), b"v3");
}

#[test]
fn built_configuration_finalizes_the_registry() {
    let mut registry = registry_of_two();
    let config = RuntimeConfig::new(&mut registry, ConfigOptions::new(b"/docs".to_vec()));
    assert!(config.is_ok());
    assert_eq!(registry.add(b"v3".to_vec(), SpecPayload::Inline(b"docC".to_vec())), Err(Error::AlreadyFinalized));
    assert_eq!(registry.len(), 2);
}

#[test]
fn first_source_is_the_default_where_none_is_named() {
    let mut registry = registry_of_two();
    let config = RuntimeConfig::new(&mut registry, ConfigOptions::new(b"/docs".to_vec())).unwrap();
    assert_eq!(config.default_spec_name(), b"v1");
}

#[test]
fn named_default_is_taken_where_it_is_registered() {
    let mut registry = registry_of_two();
    let options = ConfigOptions::new(b"/docs".to_vec()).with_default_spec(b"v2".to_vec());
    let config = RuntimeConfig::new(&mut registry, options).unwrap();
    assert_eq!(config.default_spec_name(), b"v2");
}

#[test]
fn trailing_slashes_of_the_prefix_are_stripped() {
    for (given, expected) in [
        (&b"/docs"[..], &b"/docs"[..]),
        (&b"/docs/"[..], &b"/docs"[..]),
        (&b"/docs///"[..], &b"/docs"[..]),
        (&b"/api/docs/"[..], &b"/api/docs"[..]),
        (&b"/"[..], &b""[..]),
        (&b""[..], &b""[..]),
    ] {
        let mut registry = registry_of_two();
        let config = RuntimeConfig::new(&mut registry, ConfigOptions::new(given.to_vec())).unwrap();
        assert_eq!(config.prefix(), expected);
    }
}

#[test]
fn configuration_holds_the_sources_in_order() {
    let mut registry = registry_of_two();
    let config = RuntimeConfig::new(&mut registry, ConfigOptions::new(b"/docs".to_vec())).unwrap();
    assert_eq!(
        config.sources(),
        &vec![
            SpecSource { name: b"v1".to_vec(), payload: SpecPayload::Inline(b"docA".to_vec()) },
            SpecSource { name: b"v2".to_vec(), payload: SpecPayload::Reference(b"https://example.org/v2.json".to_vec()) },
        ]
    );
}

#[test]
fn url_of_inline_source_lies_below_the_prefix() {
    let mut registry = registry_of_two();
    let config = RuntimeConfig::new(&mut registry, ConfigOptions::new(b"/docs/".to_vec())).unwrap();
    assert_eq!(config.links()[0], SpecLink { name: b"v1".to_vec(), url: b"/docs/v1".to_vec() });
}

#[test]
fn url_of_reference_is_the_reference() {
    let mut registry = registry_of_two();
    let config = RuntimeConfig::new(&mut registry, ConfigOptions::new(b"/docs/".to_vec())).unwrap();
    assert_eq!(config.links()[1], SpecLink { name: b"v2".to_vec(), url: b"https://example.org/v2.json".to_vec() });
}

#[test]
fn links_follow_the_order_of_registration() {
    let mut registry = SpecRegistry::new();
    registry.add(b"b".to_vec(), SpecPayload::Inline(b"1".to_vec())).unwrap();
    registry.add(b"a".to_vec(), SpecPayload::Inline(b"2".to_vec())).unwrap();
    registry.add(b"b".to_vec(), SpecPayload::Inline(b"3".to_vec())).unwrap();
    let config = RuntimeConfig::new(&mut registry, ConfigOptions::new(b"/".to_vec())).unwrap();
    assert_eq!(
        config.links(),
        vec![
            SpecLink { name: b"b".to_vec(), url: b"/b".to_vec() },
            SpecLink { name: b"a".to_vec(), url: b"/a".to_vec() },
        ]
    );
}

#[test]
fn configuration_and_bundle_can_be_shared_between_threads() {
    fn shared<T: Send + Sync>() {}
    shared::<RuntimeConfig>();
    shared::<docs_mount::assets::AssetStore>();
}

#[test]
fn builtin_options_stand_where_the_host_sets_none() {
    let mut registry = registry_of_two();
    let config = RuntimeConfig::new(&mut registry, ConfigOptions::new(b"/docs".to_vec())).unwrap();
    assert_eq!(
        config.presentation(),
        &vec![
            setting(b"dom_id", b"\"#swagger-ui\""),
            setting(b"deepLinking", b"true"),
            setting(b"layout", b"\"StandaloneLayout\""),
        ]
    );
    assert_eq!(config.oauth(), &Vec::<Setting>::new());
    assert_eq!(default_presentation(), config.presentation().clone());
}

#[test]
fn explicit_option_overrides_the_builtin_one_in_its_place() {
    let mut registry = registry_of_two();
    let options = ConfigOptions::new(b"/docs".to_vec())
        .with_presentation(b"deepLinking".to_vec(), b"false".to_vec())
        .with_presentation(b"theme".to_vec(), b"\"dark\"".to_vec());
    let config = RuntimeConfig::new(&mut registry, options).unwrap();
    assert_eq!(
        config.presentation(),
        &vec![
            setting(b"dom_id", b"\"#swagger-ui\""),
            setting(b"deepLinking", b"false"),
            setting(b"layout", b"\"StandaloneLayout\""),
            setting(b"theme", b"\"dark\""),
        ]
    );
}

#[test]
fn later_option_overrides_an_earlier_one_with_its_key() {
    let mut registry = registry_of_two();
    let options = ConfigOptions::new(b"/docs".to_vec())
        .with_presentation(b"theme".to_vec(), b"\"dark\"".to_vec())
        .with_presentation(b"filter".to_vec(), b"true".to_vec())
        .with_presentation(b"theme".to_vec(), b"\"light\"".to_vec())
        .with_oauth(b"clientId".to_vec(), b"\"a\"".to_vec())
        .with_oauth(b"clientId".to_vec(), b"\"b\"".to_vec());
    let config = RuntimeConfig::new(&mut registry, options).unwrap();
    assert_eq!(
        config.presentation(),
        &vec![
            setting(b"dom_id", b"\"#swagger-ui\""),
            setting(b"deepLinking", b"true"),
            setting(b"layout", b"\"StandaloneLayout\""),
            setting(b"theme", b"\"light\""),
            setting(b"filter", b"true"),
        ]
    );
    assert_eq!(config.oauth(), &vec![setting(b"clientId", b"\"b\"")]);
}

#[test]
fn put_setting_replaces_or_appends() {
    let mut settings = vec![setting(b"a", b"1"), setting(b"b", b"2")];
    put_setting(&mut settings, setting(b"a", b"3"));
    assert_eq!(settings, vec![setting(b"a", b"3"), setting(b"b", b"2")]);
    put_setting(&mut settings, setting(b"c", b"4"));
    assert_eq!(settings, vec![setting(b"a", b"3"), setting(b"b", b"2"), setting(b"c", b"4")]);
}

#[test]
fn overlay_puts_each_setting_in_turn() {
    let base = vec![setting(b"a", b"1"), setting(b"b", b"2")];
    let over = vec![setting(b"c", b"3"), setting(b"b", b"4"), setting(b"c", b"5")];
    assert_eq!(overlay(base, &over), vec![setting(b"a", b"1"), setting(b"b", b"4"), setting(b"c", b"5")]);
    assert_eq!(overlay(Vec::new(), &Vec::new()), Vec::<Setting>::new());
    assert_eq!(overlay(vec![setting(b"a", b"1")], &Vec::new()), vec![setting(b"a", b"1")]);
}
