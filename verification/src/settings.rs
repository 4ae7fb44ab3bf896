//! Presentation options: pairs of a key and a value that the resolver hands
//! to the viewer without reading them.

use vstd::prelude::*;

use crate::bytes::{ascii, copy_of, literal, same_bytes};

verus! {

/// An option of the viewer.
#[derive(Debug, PartialEq, Eq)]
pub struct Setting {
    /// The name of the option.
    pub key: Vec<u8>,
    /// Its value, as it is to stand in the index document.
    pub value: Vec<u8>,
}

/// A setting, as contracts speak of it.
pub struct SettingView {
    pub key: Seq<u8>,
    pub value: Seq<u8>,
}

impl View for Setting {
    type V = SettingView;

    open spec fn view(&self) -> SettingView {
        SettingView { key: self.key@, value: self.value@ }
    }
}

impl Clone for Setting {
    fn clone(&self) -> (r: Self)
        ensures
            r@ == self@,
    {
        Setting { key: copy_of(self.key.as_slice()), value: copy_of(self.value.as_slice()) }
    }
}

/// The settings that a sequence of exec values stands for.
pub open spec fn setting_views(settings: Seq<Setting>) -> Seq<SettingView> {
    settings.map_values(|setting: Setting| setting@)
}

/// The `i`-th of `settings` has the key `key`.
pub open spec fn keyed_at(settings: Seq<SettingView>, i: int, key: Seq<u8>) -> bool {
    0 <= i < settings.len() && settings[i].key == key
}

/// One of `settings` has the key `key`.
pub open spec fn has_key(settings: Seq<SettingView>, key: Seq<u8>) -> bool {
    exists|i: int| keyed_at(settings, i, key)
}

/// The place of the setting with the key `key`, where there is one.
pub open spec fn key_index(settings: Seq<SettingView>, key: Seq<u8>) -> int {
    choose|i: int| keyed_at(settings, i, key)
}

/// No two of `settings` share a key.
pub open spec fn distinct_keys(settings: Seq<SettingView>) -> bool {
    forall|i: int, j: int| 0 <= i < j < settings.len() ==> (#[trigger] settings[i]).key != (#[trigger] settings[j]).key
}

/// The settings after `setting` was put: it takes the place of the one that
/// had its key, or comes last where none had.
pub open spec fn put(settings: Seq<SettingView>, setting: SettingView) -> Seq<SettingView> {
    if has_key(settings, setting.key) {
        settings.update(key_index(settings, setting.key), setting)
    } else {
        settings.push(setting)
    }
}

/// `base` with each of `over` put in turn: a value of `over` stands in place
/// of the value that `base` had for its key, and a later one in place of an
/// earlier one.
pub open spec fn overlaid(base: Seq<SettingView>, over: Seq<SettingView>) -> Seq<SettingView>
    decreases over.len(),
{
    if over.len() == 0 {
        base
    } else {
        put(overlaid(base, over.drop_last()), over.last())
    }
}

/// The options that the viewer gets where the host sets none.
pub open spec fn builtin_presentation() -> Seq<SettingView> {
    seq![
        SettingView { key: ascii("dom_id"@), value: ascii("\"#swagger-ui\""@) },
        SettingView { key: ascii("deepLinking"@), value: ascii("true"@) },
        SettingView { key: ascii("layout"@), value: ascii("\"StandaloneLayout\""@) },
    ]
}

/// In settings with distinct keys, a setting is where its key is.
pub proof fn lemma_key_index(settings: Seq<SettingView>, i: int, key: Seq<u8>)
    requires
        distinct_keys(settings),
        keyed_at(settings, i, key),
    ensures
        has_key(settings, key),
        key_index(settings, key) == i,
{
    let k = key_index(settings, key);
    assert(keyed_at(settings, k, key));
    assert(k == i);
}

/// Putting a setting keeps the keys distinct, and the setting is then found
/// under its key.
pub proof fn lemma_put_distinct(settings: Seq<SettingView>, setting: SettingView)
    requires
        distinct_keys(settings),
    ensures
        distinct_keys(put(settings, setting)),
        has_key(put(settings, setting), setting.key),
        put(settings, setting)[key_index(put(settings, setting), setting.key)] == setting,
{
    let after = put(settings, setting);
    if has_key(settings, setting.key) {
        let at = key_index(settings, setting.key);
        assert(keyed_at(settings, at, setting.key));
        assert forall|i: int| 0 <= i < after.len() implies (#[trigger] after[i]).key == settings[i].key by {}
        assert(keyed_at(after, at, setting.key));
        lemma_key_index(after, at, setting.key);
    } else {
        let at = settings.len() as int;
        assert forall|i: int| 0 <= i < at implies (#[trigger] after[i]).key != setting.key by {
            assert(!keyed_at(settings, i, setting.key));
        }
        assert(keyed_at(after, at, setting.key));
        lemma_key_index(after, at, setting.key);
    }
}

/// An overlay on settings with distinct keys has distinct keys.
pub proof fn lemma_overlaid_distinct(base: Seq<SettingView>, over: Seq<SettingView>)
    requires
        distinct_keys(base),
    ensures
        distinct_keys(overlaid(base, over)),
    decreases over.len(),
{
    if over.len() > 0 {
        lemma_overlaid_distinct(base, over.drop_last());
        lemma_put_distinct(overlaid(base, over.drop_last()), over.last());
    }
}

/// The place of the setting with the key `key`.
fn find_key(settings: &Vec<Setting>, key: &[u8]) -> (r: Option<usize>)
    ensures
        match r {
            Some(i) => keyed_at(setting_views(settings@), i as int, key@),
            None => !has_key(setting_views(settings@), key@),
        },
{
    let mut i: usize = 0;
    while i < settings.len()
        invariant
            i <= settings@.len(),
            forall|j: int| j < i ==> !keyed_at(setting_views(settings@), j, key@),
        decreases settings@.len() - i,
    {
        if same_bytes(settings[i].key.as_slice(), key) {
            return Some(i);
        }
        i += 1;
    }
    None
}

/// Puts a setting: in place of the one that has its key, or last.
pub fn put_setting(settings: &mut Vec<Setting>, setting: Setting)
    requires
        distinct_keys(setting_views(old(settings)@)),
    ensures
        setting_views(final(settings)@) == put(setting_views(old(settings)@), setting@),
        distinct_keys(setting_views(final(settings)@)),
{
    proof {
        lemma_put_distinct(setting_views(settings@), setting@);
    }
    match find_key(settings, setting.key.as_slice()) {
        Some(i) => {
            proof {
                lemma_key_index(setting_views(settings@), i as int, setting.key@);
            }
            settings[i] = setting;
            assert(setting_views(settings@) =~= setting_views(old(settings)@).update(i as int, setting@));
        },
        None => {
            settings.push(setting);
        },
    }
}

/// Lays `over` on `base`: each setting of `over` is put in turn.
pub fn overlay(base: Vec<Setting>, over: &Vec<Setting>) -> (r: Vec<Setting>)
    requires
        distinct_keys(setting_views(base@)),
    ensures
        setting_views(r@) == overlaid(setting_views(base@), setting_views(over@)),
        distinct_keys(setting_views(r@)),
{
    let mut merged = base;
    let mut i: usize = 0;
    while i < over.len()
        invariant
            i <= over@.len(),
            distinct_keys(setting_views(merged@)),
            setting_views(merged@) == overlaid(setting_views(base@), setting_views(over@).take(i as int)),
        decreases over@.len() - i,
    {
        assert(setting_views(over@).take(i + 1).drop_last() =~= setting_views(over@).take(i as int));
        put_setting(&mut merged, over[i].clone());
        i += 1;
    }
    assert(setting_views(over@).take(over@.len() as int) =~= setting_views(over@));
    merged
}

/// The options that the viewer gets where the host sets none.
pub fn default_presentation() -> (r: Vec<Setting>)
    ensures
        setting_views(r@) == builtin_presentation(),
        distinct_keys(setting_views(r@)),
{
    proof {
        reveal_strlit("dom_id");
        reveal_strlit("\"#swagger-ui\"");
        reveal_strlit("deepLinking");
        reveal_strlit("true");
        reveal_strlit("layout");
        reveal_strlit("\"StandaloneLayout\"");
    }
    let mut r: Vec<Setting> = Vec::new();
    r.push(Setting { key: copy_of(literal("dom_id")), value: copy_of(literal("\"#swagger-ui\"")) });
    r.push(Setting { key: copy_of(literal("deepLinking")), value: copy_of(literal("true")) });
    r.push(Setting { key: copy_of(literal("layout")), value: copy_of(literal("\"StandaloneLayout\"")) });
    proof {
        lemma_builtin_distinct();
    }
    r
}

/// The built-in options have distinct keys.
pub proof fn lemma_builtin_distinct()
    ensures
        distinct_keys(builtin_presentation()),
{
    reveal_strlit("dom_id");
    reveal_strlit("deepLinking");
    reveal_strlit("layout");
    let b = builtin_presentation();
    assert(b[0].key.len() == 6 && b[1].key.len() == 11 && b[2].key.len() == 6);
    assert(b[0].key[0] == 0x64 && b[2].key[0] == 0x6c);
}

} // verus!
