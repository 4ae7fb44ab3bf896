//! The initializer: the JSON object that takes the place of the placeholder
//! in the index document and tells the viewer what to display.

use vstd::prelude::*;

use crate::bytes::{append, ascii, join, joined, literal, views, BACKSLASH, COMMA, QUOTE};
use crate::config::{link_views, links_of, ConfigView, LinkView, RuntimeConfig};
use crate::settings::{setting_views, Setting, SettingView};

verus! {

/// The digit that stands for `n` in lower-case hexadecimal.
pub open spec fn hex_digit(n: int) -> u8 {
    if n < 10 {
        (0x30 + n) as u8
    } else {
        (0x61 + n - 10) as u8
    }
}

/// How one byte stands inside a JSON string: quote, backslash and control
/// bytes escaped, every other byte as it is.
pub open spec fn escaped_byte(b: u8) -> Seq<u8> {
    if b == QUOTE {
        seq![BACKSLASH, QUOTE]
    } else if b == BACKSLASH {
        seq![BACKSLASH, BACKSLASH]
    } else if b == 0x08 {
        seq![BACKSLASH, 0x62u8]
    } else if b == 0x09 {
        seq![BACKSLASH, 0x74u8]
    } else if b == 0x0a {
        seq![BACKSLASH, 0x6eu8]
    } else if b == 0x0c {
        seq![BACKSLASH, 0x66u8]
    } else if b == 0x0d {
        seq![BACKSLASH, 0x72u8]
    } else if b < 0x20 {
        seq![BACKSLASH, 0x75u8, 0x30u8, 0x30u8, hex_digit(b as int / 16), hex_digit(b as int % 16)]
    } else {
        seq![b]
    }
}

/// How a byte string stands inside a JSON string.
pub open spec fn escaped(s: Seq<u8>) -> Seq<u8>
    decreases s.len(),
{
    if s.len() == 0 {
        Seq::empty()
    } else {
        escaped(s.drop_last()) + escaped_byte(s.last())
    }
}

/// The JSON string that holds `s`.
pub open spec fn quoted(s: Seq<u8>) -> Seq<u8> {
    seq![QUOTE] + escaped(s) + seq![QUOTE]
}

/// The entry that lists a specification: its name and its URL.
pub open spec fn link_json(name: Seq<u8>, url: Seq<u8>) -> Seq<u8> {
    ascii("{\"name\":"@) + quoted(name) + ascii(",\"url\":"@) + quoted(url) + ascii("}"@)
}

/// The entries of links, one for each, in their order.
pub open spec fn link_entries(links: Seq<LinkView>) -> Seq<Seq<u8>> {
    Seq::new(links.len(), |i: int| link_json(links[i].name, links[i].url))
}

/// The list of the specifications: the entries between brackets, with a
/// comma between each two.
pub open spec fn links_json(links: Seq<LinkView>) -> Seq<u8> {
    ascii("["@) + joined(link_entries(links), COMMA) + ascii("]"@)
}

/// A setting as a member of an object: the key as a string, a colon, and the
/// value as it was given.
pub open spec fn setting_json(setting: SettingView) -> Seq<u8> {
    quoted(setting.key) + ascii(":"@) + setting.value
}

/// The members that settings give, one for each, in their order.
pub open spec fn setting_members(settings: Seq<SettingView>) -> Seq<Seq<u8>> {
    Seq::new(settings.len(), |i: int| setting_json(settings[i]))
}

/// The members of the initializer: the list of specifications, the one to
/// open with, each option of the viewer, and the options of the
/// authorization dialogue where there are any.
pub open spec fn members(config: ConfigView) -> Seq<Seq<u8>> {
    seq![
        ascii("\"urls\":"@) + links_json(links_of(config)),
        ascii("\"urls.primaryName\":"@) + quoted(config.default_name),
    ] + setting_members(config.presentation) + if config.oauth.len() > 0 {
        seq![ascii("\"oauth\":{"@) + joined(setting_members(config.oauth), COMMA) + ascii("}"@)]
    } else {
        Seq::empty()
    }
}

/// The initializer of a configuration.
pub open spec fn initializer(config: ConfigView) -> Seq<u8> {
    ascii("{"@) + joined(members(config), COMMA) + ascii("}"@)
}

/// The digit for a number below sixteen.
fn digit(n: u8) -> (r: u8)
    requires
        n < 16,
    ensures
        r == hex_digit(n as int),
{
    if n < 10 {
        0x30 + n
    } else {
        0x61 + (n - 10)
    }
}

/// Appends one byte as it stands inside a JSON string.
fn escape_byte(out: &mut Vec<u8>, b: u8)
    ensures
        final(out)@ == old(out)@ + escaped_byte(b),
{
    if b == QUOTE || b == BACKSLASH {
        out.push(BACKSLASH);
        out.push(b);
    } else if b == 0x08 {
        out.push(BACKSLASH);
        out.push(0x62);
    } else if b == 0x09 {
        out.push(BACKSLASH);
        out.push(0x74);
    } else if b == 0x0a {
        out.push(BACKSLASH);
        out.push(0x6e);
    } else if b == 0x0c {
        out.push(BACKSLASH);
        out.push(0x66);
    } else if b == 0x0d {
        out.push(BACKSLASH);
        out.push(0x72);
    } else if b < 0x20 {
        out.push(BACKSLASH);
        out.push(0x75);
        out.push(0x30);
        out.push(0x30);
        out.push(digit(b / 16));
        out.push(digit(b % 16));
    } else {
        out.push(b);
    }
}

/// Appends `s` as a JSON string, between quotes.
pub fn quote(out: &mut Vec<u8>, s: &[u8])
    ensures
        final(out)@ == old(out)@ + quoted(s@),
{
    out.push(QUOTE);
    let mut i: usize = 0;
    while i < s.len()
        invariant
            i <= s.len(),
            out@ == old(out)@ + seq![QUOTE] + escaped(s@.take(i as int)),
        decreases s.len() - i,
    {
        assert(s@.take(i + 1).drop_last() =~= s@.take(i as int));
        escape_byte(out, s[i]);
        i += 1;
    }
    assert(s@.take(s@.len() as int) =~= s@);
    out.push(QUOTE);
}

/// The entry that lists a specification under `name` at `url`.
pub fn render_link(name: &[u8], url: &[u8]) -> (r: Vec<u8>)
    ensures
        r@ == link_json(name@, url@),
{
    proof {
        reveal_strlit("{\"name\":");
        reveal_strlit(",\"url\":");
        reveal_strlit("}");
    }
    let mut out: Vec<u8> = Vec::new();
    append(&mut out, literal("{\"name\":"));
    quote(&mut out, name);
    append(&mut out, literal(",\"url\":"));
    quote(&mut out, url);
    append(&mut out, literal("}"));
    out
}

/// The member that a setting gives.
pub fn render_setting(setting: &Setting) -> (r: Vec<u8>)
    ensures
        r@ == setting_json(setting@),
{
    proof {
        reveal_strlit(":");
    }
    let mut out: Vec<u8> = Vec::new();
    quote(&mut out, setting.key.as_slice());
    append(&mut out, literal(":"));
    append(&mut out, setting.value.as_slice());
    out
}

/// Appends the member of each setting to `out`.
fn render_settings(out: &mut Vec<Vec<u8>>, settings: &Vec<Setting>)
    ensures
        views(final(out)@) == views(old(out)@) + setting_members(setting_views(settings@)),
{
    let mut i: usize = 0;
    while i < settings.len()
        invariant
            i <= settings@.len(),
            views(out@) == views(old(out)@) + setting_members(setting_views(settings@)).take(i as int),
        decreases settings@.len() - i,
    {
        let member = render_setting(&settings[i]);
        let ghost before = out@;
        out.push(member);
        assert(views(out@) =~= views(before).push(member@));
        i += 1;
    }
}

impl RuntimeConfig {
    /// The list of the specifications, for the viewer: each with its name
    /// and its URL, in the order of registration.
    pub fn render_links(&self) -> (r: Vec<u8>)
        ensures
            r@ == links_json(links_of(self@)),
    {
        proof {
            reveal_strlit("[");
            reveal_strlit("]");
        }
        let links = self.links();
        let ghost all = link_entries(links_of(self@));
        let mut entries: Vec<Vec<u8>> = Vec::new();
        let mut i: usize = 0;
        while i < links.len()
            invariant
                i <= links@.len(),
                link_views(links@) == links_of(self@),
                all == link_entries(links_of(self@)),
                views(entries@) == all.take(i as int),
            decreases links@.len() - i,
        {
            let entry = render_link(links[i].name.as_slice(), links[i].url.as_slice());
            entries.push(entry);
            assert(link_views(links@)[i as int] == links@[i as int]@);
            assert(all.take(i + 1) =~= all.take(i as int).push(all[i as int]));
            i += 1;
        }
        assert(all.take(all.len() as int) =~= all);
        let mut out: Vec<u8> = Vec::new();
        append(&mut out, literal("["));
        append(&mut out, join(&entries, COMMA).as_slice());
        append(&mut out, literal("]"));
        out
    }

    /// The initializer: what stands in the index document in place of the
    /// placeholder.
    pub fn render_initializer(&self) -> (r: Vec<u8>)
        ensures
            r@ == initializer(self@),
    {
        proof {
            reveal_strlit("\"urls\":");
            reveal_strlit("\"urls.primaryName\":");
            reveal_strlit("\"oauth\":{");
            reveal_strlit("{");
            reveal_strlit("}");
        }
        let mut parts: Vec<Vec<u8>> = Vec::new();
        let mut urls: Vec<u8> = Vec::new();
        append(&mut urls, literal("\"urls\":"));
        append(&mut urls, self.render_links().as_slice());
        parts.push(urls);
        let mut primary: Vec<u8> = Vec::new();
        append(&mut primary, literal("\"urls.primaryName\":"));
        quote(&mut primary, self.default_spec_name());
        parts.push(primary);
        let ghost head = seq![
            ascii("\"urls\":"@) + links_json(links_of(self@)),
            ascii("\"urls.primaryName\":"@) + quoted(self@.default_name),
        ];
        render_settings(&mut parts, self.presentation());
        let ghost body = head + setting_members(self@.presentation);
        assert(views(parts@) =~= body);
        if self.oauth().len() > 0 {
            let mut inner: Vec<Vec<u8>> = Vec::new();
            render_settings(&mut inner, self.oauth());
            let mut oauth: Vec<u8> = Vec::new();
            append(&mut oauth, literal("\"oauth\":{"));
            append(&mut oauth, join(&inner, COMMA).as_slice());
            append(&mut oauth, literal("}"));
            parts.push(oauth);
        }
        assert(views(parts@) =~= members(self@));
        let mut out: Vec<u8> = Vec::new();
        append(&mut out, literal("{"));
        append(&mut out, join(&parts, COMMA).as_slice());
        append(&mut out, literal("}"));
        out
    }
}

} // verus!
