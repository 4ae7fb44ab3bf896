//! The runtime configuration: the snapshot of registry and options that every
//! request is answered from. It is built once, at start-up, and never changed.

use vstd::prelude::*;

use crate::bytes::{append, copy_of, SLASH};
use crate::error::Error;
use crate::path::{lemma_no_trailing_slash_left, trim_trailing_slashes, without_trailing_slashes};
use crate::registry::{
    has_name, named_at, source_views, valid_sources, PayloadView, SourceView, SpecPayload, SpecRegistry, SpecSource,
};
use crate::settings::{
    builtin_presentation, default_presentation, distinct_keys, lemma_builtin_distinct, lemma_overlaid_distinct, overlaid,
    overlay, setting_views, Setting, SettingView,
};

verus! {

/// What the host chooses when it mounts the viewer.
#[derive(Debug, PartialEq, Eq)]
pub struct ConfigOptions {
    /// The URL path under which the viewer is mounted.
    pub mount_prefix: Vec<u8>,
    /// The specification that the viewer opens with; the first registered
    /// one where none is named.
    pub default_spec_name: Option<Vec<u8>>,
    /// Theme and layout options, laid over the built-in ones.
    pub presentation: Vec<Setting>,
    /// Options of the authorization dialogue.
    pub oauth: Vec<Setting>,
}

/// The options, as contracts speak of them.
pub struct OptionsView {
    pub mount_prefix: Seq<u8>,
    pub default_spec_name: Option<Seq<u8>>,
    pub presentation: Seq<SettingView>,
    pub oauth: Seq<SettingView>,
}

impl View for ConfigOptions {
    type V = OptionsView;

    open spec fn view(&self) -> OptionsView {
        OptionsView {
            mount_prefix: self.mount_prefix@,
            default_spec_name: match self.default_spec_name {
                Some(name) => Some(name@),
                None => None,
            },
            presentation: setting_views(self.presentation@),
            oauth: setting_views(self.oauth@),
        }
    }
}

impl ConfigOptions {
    /// Options for a viewer mounted under `mount_prefix`, with nothing else
    /// chosen.
    pub fn new(mount_prefix: Vec<u8>) -> (r: Self)
        ensures
            r@ == (OptionsView {
                mount_prefix: mount_prefix@,
                default_spec_name: None,
                presentation: Seq::empty(),
                oauth: Seq::empty(),
            }),
    {
        let r = ConfigOptions { mount_prefix, default_spec_name: None, presentation: Vec::new(), oauth: Vec::new() };
        assert(r@.oauth =~= Seq::<SettingView>::empty());
        r
    }

    /// Names the specification that the viewer opens with.
    pub fn with_default_spec(self, name: Vec<u8>) -> (r: Self)
        ensures
            r@ == (OptionsView { default_spec_name: Some(name@), ..self@ }),
    {
        ConfigOptions {
            mount_prefix: self.mount_prefix,
            default_spec_name: Some(name),
            presentation: self.presentation,
            oauth: self.oauth,
        }
    }

    /// Adds an option of the viewer, behind those given so far.
    pub fn with_presentation(self, key: Vec<u8>, value: Vec<u8>) -> (r: Self)
        ensures
            r@ == (OptionsView {
                presentation: self@.presentation.push(SettingView { key: key@, value: value@ }),
                ..self@
            }),
    {
        let mut presentation = self.presentation;
        presentation.push(Setting { key, value });
        let r = ConfigOptions {
            mount_prefix: self.mount_prefix,
            default_spec_name: self.default_spec_name,
            presentation,
            oauth: self.oauth,
        };
        assert(r@.presentation =~= self@.presentation.push(SettingView { key: key@, value: value@ }));
        r
    }

    /// Adds an option of the authorization dialogue, behind those given so far.
    pub fn with_oauth(self, key: Vec<u8>, value: Vec<u8>) -> (r: Self)
        ensures
            r@ == (OptionsView { oauth: self@.oauth.push(SettingView { key: key@, value: value@ }), ..self@ }),
    {
        let mut oauth = self.oauth;
        oauth.push(Setting { key, value });
        let r = ConfigOptions {
            mount_prefix: self.mount_prefix,
            default_spec_name: self.default_spec_name,
            presentation: self.presentation,
            oauth,
        };
        assert(r@.oauth =~= self@.oauth.push(SettingView { key: key@, value: value@ }));
        r
    }
}

/// The configuration, as contracts speak of it.
pub struct ConfigView {
    /// The mount prefix, without a trailing slash.
    pub prefix: Seq<u8>,
    /// The specifications, in the order of registration.
    pub sources: Seq<SourceView>,
    /// The name of the specification that the viewer opens with.
    pub default_name: Seq<u8>,
    /// The options of the viewer: the built-in ones with the host's laid over.
    pub presentation: Seq<SettingView>,
    /// The options of the authorization dialogue.
    pub oauth: Seq<SettingView>,
}

/// What makes a configuration usable: the prefix ends in no slash, there is a
/// specification, names and keys are distinct, and the default is registered.
pub open spec fn valid_config(c: ConfigView) -> bool {
    &&& c.prefix.len() > 0 ==> c.prefix.last() != SLASH
    &&& c.sources.len() > 0
    &&& valid_sources(c.sources)
    &&& has_name(c.sources, c.default_name)
    &&& distinct_keys(c.presentation)
    &&& distinct_keys(c.oauth)
}

/// The configuration that registry and options give, or the reason why they
/// give none.
pub open spec fn built(sources: Seq<SourceView>, options: OptionsView) -> Result<ConfigView, Error> {
    if sources.len() == 0 {
        Err(Error::EmptyRegistry)
    } else if options.default_spec_name is Some && !has_name(sources, options.default_spec_name->Some_0) {
        Err(Error::UnknownDefaultSpec)
    } else {
        Ok(
            ConfigView {
                prefix: without_trailing_slashes(options.mount_prefix),
                sources,
                default_name: match options.default_spec_name {
                    Some(name) => name,
                    None => sources[0].name,
                },
                presentation: overlaid(builtin_presentation(), options.presentation),
                oauth: overlaid(Seq::empty(), options.oauth),
            },
        )
    }
}

/// The URL under which the viewer fetches a specification: below the mount
/// prefix, by its name, for an inline document; the given URL for a reference.
pub open spec fn url_of(prefix: Seq<u8>, source: SourceView) -> Seq<u8> {
    match source.payload {
        PayloadView::Inline(_) => prefix + seq![SLASH] + source.name,
        PayloadView::Reference(url) => url,
    }
}

/// A specification as the viewer lists it: its name, and the URL under
/// which the viewer fetches it.
#[derive(Debug, PartialEq, Eq)]
pub struct SpecLink {
    /// The name of the specification.
    pub name: Vec<u8>,
    /// The URL of its document.
    pub url: Vec<u8>,
}

/// A link, as contracts speak of it.
pub struct LinkView {
    pub name: Seq<u8>,
    pub url: Seq<u8>,
}

impl View for SpecLink {
    type V = LinkView;

    open spec fn view(&self) -> LinkView {
        LinkView { name: self.name@, url: self.url@ }
    }
}

/// The links that a sequence of exec values stands for.
pub open spec fn link_views(links: Seq<SpecLink>) -> Seq<LinkView> {
    links.map_values(|link: SpecLink| link@)
}

/// The links of a configuration: one for each specification, in the order
/// of registration.
pub open spec fn links_of(config: ConfigView) -> Seq<LinkView> {
    Seq::new(
        config.sources.len(),
        |i: int| LinkView { name: config.sources[i].name, url: url_of(config.prefix, config.sources[i]) },
    )
}

/// The immutable snapshot that requests are answered from.
#[derive(Debug)]
pub struct RuntimeConfig {
    prefix: Vec<u8>,
    sources: Vec<SpecSource>,
    default_name: Vec<u8>,
    presentation: Vec<Setting>,
    oauth: Vec<Setting>,
}

impl View for RuntimeConfig {
    type V = ConfigView;

    closed spec fn view(&self) -> ConfigView {
        ConfigView {
            prefix: self.prefix@,
            sources: source_views(self.sources@),
            default_name: self.default_name@,
            presentation: setting_views(self.presentation@),
            oauth: setting_views(self.oauth@),
        }
    }
}

impl RuntimeConfig {
    /// The configuration is usable.
    pub open spec fn wf(&self) -> bool {
        valid_config(self@)
    }

    /// Validates registry and options and freezes them into a configuration.
    /// On success the registry is finalized.
    ///
    /// Fails with `EmptyRegistry` where nothing is registered, and with
    /// `UnknownDefaultSpec` where the options name a default that is not
    /// registered; the registry is then left as it was.
    pub fn new(registry: &mut SpecRegistry, options: ConfigOptions) -> (r: Result<RuntimeConfig, Error>)
        requires
            old(registry).wf(),
        ensures
            final(registry)@ == old(registry)@,
            match built(old(registry)@, options@) {
                Ok(config) => r matches Ok(c) && c@ == config && c.wf() && final(registry).is_finalized(),
                Err(e) => r matches Err(x) && x == e && final(registry).is_finalized() == old(registry).is_finalized(),
            },
    {
        if registry.len() == 0 {
            return Err(Error::EmptyRegistry);
        }
        if let Some(name) = &options.default_spec_name {
            if !registry.contains(name.as_slice()) {
                return Err(Error::UnknownDefaultSpec);
            }
        }
        let finalized = registry.finalize();
        let default_name = match options.default_spec_name {
            Some(name) => name,
            None => match finalized.default_name {
                Some(first) => first,
                None => Vec::new(),
            },
        };
        let prefix = copy_of(trim_trailing_slashes(options.mount_prefix.as_slice()));
        let presentation = overlay(default_presentation(), &options.presentation);
        let empty: Vec<Setting> = Vec::new();
        assert(setting_views(empty@) =~= Seq::<SettingView>::empty());
        let oauth = overlay(empty, &options.oauth);
        let config = RuntimeConfig { prefix, sources: finalized.sources, default_name, presentation, oauth };
        proof {
            lemma_built_valid(old(registry)@, options@);
        }
        Ok(config)
    }

    /// The mount prefix, without a trailing slash.
    pub fn prefix(&self) -> (r: &[u8])
        ensures
            r@ == self@.prefix,
    {
        self.prefix.as_slice()
    }

    /// The name of the specification that the viewer opens with.
    pub fn default_spec_name(&self) -> (r: &[u8])
        ensures
            r@ == self@.default_name,
    {
        self.default_name.as_slice()
    }

    /// The specifications, in the order of registration.
    pub fn sources(&self) -> (r: &Vec<SpecSource>)
        ensures
            source_views(r@) == self@.sources,
    {
        &self.sources
    }

    /// The options of the viewer.
    pub fn presentation(&self) -> (r: &Vec<Setting>)
        ensures
            setting_views(r@) == self@.presentation,
    {
        &self.presentation
    }

    /// The options of the authorization dialogue.
    pub fn oauth(&self) -> (r: &Vec<Setting>)
        ensures
            setting_views(r@) == self@.oauth,
    {
        &self.oauth
    }

    /// The URL under which the viewer fetches the `i`-th specification.
    pub(crate) fn url(&self, i: usize) -> (r: Vec<u8>)
        requires
            i < self@.sources.len(),
        ensures
            r@ == url_of(self@.prefix, self@.sources[i as int]),
    {
        let source = &self.sources[i];
        match &source.payload {
            SpecPayload::Inline(_) => {
                let mut url = copy_of(self.prefix.as_slice());
                url.push(SLASH);
                append(&mut url, source.name.as_slice());
                url
            },
            SpecPayload::Reference(url) => copy_of(url.as_slice()),
        }
    }

    /// The specifications as the viewer lists them, each with its name and
    /// its URL, in the order of registration.
    pub fn links(&self) -> (r: Vec<SpecLink>)
        ensures
            link_views(r@) == links_of(self@),
    {
        let mut links: Vec<SpecLink> = Vec::new();
        let mut i: usize = 0;
        while i < self.sources.len()
            invariant
                i <= self.sources@.len(),
                link_views(links@) == links_of(self@).take(i as int),
            decreases self.sources@.len() - i,
        {
            let link = SpecLink { name: copy_of(self.sources[i].name.as_slice()), url: self.url(i) };
            let ghost before = links@;
            links.push(link);
            assert(link_views(links@) =~= link_views(before).push(link@));
            assert(links_of(self@).take(i + 1) =~= links_of(self@).take(i as int).push(link@));
            i += 1;
        }
        assert(links_of(self@).take(self@.sources.len() as int) =~= links_of(self@));
        links
    }
}

/// What valid sources and any options give, where they give a
/// configuration, is a valid one.
pub proof fn lemma_built_valid(sources: Seq<SourceView>, options: OptionsView)
    requires
        valid_sources(sources),
    ensures
        built(sources, options) matches Ok(config) ==> valid_config(config),
{
    if built(sources, options) is Ok {
        let config = built(sources, options)->Ok_0;
        lemma_no_trailing_slash_left(options.mount_prefix);
        lemma_builtin_distinct();
        lemma_overlaid_distinct(builtin_presentation(), options.presentation);
        lemma_overlaid_distinct(Seq::empty(), options.oauth);
        if options.default_spec_name is None {
            assert(named_at(sources, 0, sources[0].name));
        }
    }
}

/// An empty registry gives no configuration, whatever the options: the
/// failure is `EmptyRegistry`.
pub proof fn lemma_empty_registry_refused(options: OptionsView)
    ensures
        built(Seq::empty(), options) == Err::<ConfigView, Error>(Error::EmptyRegistry),
{
}

/// A default that names no registered specification gives no
/// configuration: the failure is `UnknownDefaultSpec`, where anything is
/// registered at all.
pub proof fn lemma_unknown_default_refused(sources: Seq<SourceView>, options: OptionsView, name: Seq<u8>)
    requires
        sources.len() > 0,
        options.default_spec_name == Some(name),
        !has_name(sources, name),
    ensures
        built(sources, options) == Err::<ConfigView, Error>(Error::UnknownDefaultSpec),
{
}

} // verus!
