//! User configuration: `~/.config/remtui/config.toml` (XDG): a few tables,
//! read leniently, with a default file.

use vstd::prelude::*;

use crate::text::{
    chars_of, dec_signed, decimal_signed, slice_chars, string_of, string_views, trim, trim_chars,
    trim_str,
};
use crate::todos::drop_hashes;

verus! {

pub const APP_NAME: &'static str = "remtui";

pub const DEFAULT_TOML: &'static str = r#"# remtui configuration.

[keys]
# Key profile: "default", or "vim" for extra vim motions (gg, ctrl+d/u/f/b,
# ":" for the command palette, "o" to add a reminder). The --vim flag and
# the REMTUI_KEYS environment variable override this setting.
profile = "default"
# Per-binding overrides by binding id (see the README for the id list).
# An override replaces the binding's keys entirely; comma-separate to keep
# several, e.g.:
# "reminder.add" = "a,n"

[bear]
# Triage the open todos in your Bear notes from remtui (the `b` key). Off by
# default; needs bearcli, which ships inside Bear.app.
enabled = false
# Reminders list that triaged todos are added to; "" means the list shown
# when you press `b`.
list = ""
# remctl due phrase applied to every added todo.
due = "today"
# Only look at notes under these tags; [] means every note with an open todo.
tags = []
# Path to the bearcli binary; "" means $REMTUI_BEARCLI, else bearcli on PATH.
bearcli = ""
"#;

/// A TOML value as the configuration reads it. A float keeps its printed
/// form and whether it is non-zero, which is all that is read of it.
#[derive(Debug)]
pub enum TomlValue {
    Str(String),
    Int(i64),
    Float { text: String, nonzero: bool },
    Bool(bool),
    Datetime,
    Array(Vec<TomlValue>),
    Table(Vec<(String, TomlValue)>),
}

/// The `[bear]` section.
#[derive(Debug, Clone, PartialEq, Eq)]
pub struct BearConfig {
    pub enabled: bool,
    pub list: String,
    pub due: String,
    pub tags: Vec<String>,
    pub bearcli: String,
}

/// The `[bear]` defaults: off, no list, due today, every tag, bearcli from PATH.
pub open spec fn bear_defaults(b: BearConfig) -> bool {
    &&& !b.enabled
    &&& b.list@ == Seq::<char>::empty()
    &&& b.due@ == "today"@
    &&& b.tags@.len() == 0
    &&& b.bearcli@ == Seq::<char>::empty()
}

impl Default for BearConfig {
    fn default() -> (r: Self)
        ensures
            bear_defaults(r),
    {
        BearConfig {
            enabled: false,
            list: String::new(),
            due: string_of(chars_of("today").as_slice()),
            tags: Vec::new(),
            bearcli: String::new(),
        }
    }
}

#[derive(Debug, Clone, PartialEq, Eq)]
pub struct Config {
    pub profile: String,
    /// Per-binding key overrides: (binding id, comma-separated key names).
    pub overrides: Vec<(String, String)>,
    pub bear: BearConfig,
}

/// The defaults: the default profile, no overrides, the `[bear]` defaults.
pub open spec fn config_defaults(c: Config) -> bool {
    &&& c.profile@ == "default"@
    &&& c.overrides@.len() == 0
    &&& bear_defaults(c.bear)
}

impl Default for Config {
    fn default() -> (r: Self)
        ensures
            config_defaults(r),
    {
        Config {
            profile: string_of(chars_of("default").as_slice()),
            overrides: Vec::new(),
            bear: BearConfig::default(),
        }
    }
}

/// The value under `key` in a table's entries.
pub open spec fn table_get(t: Seq<(String, TomlValue)>, key: Seq<char>) -> Option<TomlValue>
    decreases t.len(),
{
    if t.len() == 0 {
        None
    } else if t[0].0@ == key {
        Some(t[0].1)
    } else {
        table_get(t.drop_first(), key)
    }
}

/// A value as text: strings as they are, numbers and booleans as printed,
/// anything else empty.
pub open spec fn toml_text(v: Option<TomlValue>) -> Seq<char> {
    match v {
        Some(TomlValue::Str(s)) => s@,
        Some(TomlValue::Int(i)) => dec_signed(i as int),
        Some(TomlValue::Float { text, nonzero }) => text@,
        Some(TomlValue::Bool(b)) => if b {
            "true"@
        } else {
            "false"@
        },
        _ => Seq::empty(),
    }
}

/// Python's `bool(value)`.
pub open spec fn toml_truthy(v: Option<TomlValue>) -> bool {
    match v {
        Some(TomlValue::Bool(b)) => b,
        Some(TomlValue::Int(i)) => i != 0,
        Some(TomlValue::Float { text, nonzero }) => nonzero,
        Some(TomlValue::Str(s)) => s@.len() > 0,
        Some(TomlValue::Array(a)) => a@.len() > 0,
        Some(TomlValue::Table(t)) => t@.len() > 0,
        Some(TomlValue::Datetime) => true,
        None => false,
    }
}

/// `s` without its trailing `#` markers.
pub open spec fn drop_trailing_hashes(s: Seq<char>) -> Seq<char>
    decreases s.len(),
{
    if s.len() > 0 && s.last() == '#' {
        drop_trailing_hashes(s.drop_last())
    } else {
        s
    }
}

/// A tag as configured: its text trimmed, then `#` stripped from both ends.
pub open spec fn tag_text(v: TomlValue) -> Seq<char> {
    drop_trailing_hashes(drop_hashes(trim(toml_text(Some(v)))))
}

/// The tags that are not empty once cleaned, in order.
pub open spec fn clean_tags(raw: Seq<TomlValue>) -> Seq<Seq<char>>
    decreases raw.len(),
{
    if raw.len() == 0 {
        Seq::empty()
    } else {
        let r = clean_tags(raw.drop_last());
        let t = tag_text(raw.last());
        if t.len() > 0 {
            r.push(t)
        } else {
            r
        }
    }
}

/// The raw tag values: one string, or the items of an array, or none.
pub open spec fn raw_tags(v: Option<TomlValue>) -> Seq<TomlValue> {
    match v {
        Some(TomlValue::Str(s)) => seq![TomlValue::Str(s)],
        Some(TomlValue::Array(a)) => a@,
        _ => Seq::empty(),
    }
}

/// `b` is the `[bear]` section read from `section`.
pub open spec fn bear_from(section: Option<TomlValue>, b: BearConfig) -> bool {
    match section {
        Some(TomlValue::Table(t)) => {
            let due = trim(toml_text(table_get(t@, "due"@)));
            &&& b.enabled == toml_truthy(table_get(t@, "enabled"@))
            &&& b.list@ == toml_text(table_get(t@, "list"@))
            &&& b.due@ == (if due.len() == 0 {
                "today"@
            } else {
                due
            })
            &&& string_views(b.tags@) == clean_tags(raw_tags(table_get(t@, "tags"@)))
            &&& b.bearcli@ == toml_text(table_get(t@, "bearcli"@))
        },
        _ => bear_defaults(b),
    }
}

/// The overrides of a `[keys]` table: every string entry but `profile`, in order.
pub open spec fn key_overrides(t: Seq<(String, TomlValue)>) -> Seq<(Seq<char>, Seq<char>)>
    decreases t.len(),
{
    if t.len() == 0 {
        Seq::empty()
    } else {
        let r = key_overrides(t.drop_last());
        let (k, v) = t.last();
        match v {
            TomlValue::Str(s) => if k@ != "profile"@ {
                r.push((k@, s@))
            } else {
                r
            },
            _ => r,
        }
    }
}

/// The plain values of the overrides.
pub open spec fn override_views(o: Seq<(String, String)>) -> Seq<(Seq<char>, Seq<char>)> {
    o.map_values(|p: (String, String)| (p.0@, p.1@))
}

/// `c` is the configuration a parsed document gives; an unparsed one gives
/// the defaults.
pub open spec fn config_from_doc(doc: Option<Vec<(String, TomlValue)>>, c: Config) -> bool {
    match doc {
        None => config_defaults(c),
        Some(d) => {
            &&& match table_get(d@, "keys"@) {
                Some(TomlValue::Table(k)) => {
                    &&& c.profile@ == (match table_get(k@, "profile"@) {
                        Some(v) => toml_text(Some(v)),
                        None => "default"@,
                    })
                    &&& override_views(c.overrides@) == key_overrides(k@)
                },
                _ => c.profile@ == "default"@ && c.overrides@.len() == 0,
            }
            &&& bear_from(table_get(d@, "bear"@), c.bear)
        },
    }
}

fn get<'a>(t: &'a Vec<(String, TomlValue)>, key: &str) -> (r: Option<&'a TomlValue>)
    ensures
        match r {
            Some(v) => table_get(t@, key@) == Some(*v),
            None => table_get(t@, key@) is None,
        },
{
    let mut i: usize = 0;
    assert(t@.skip(0) =~= t@);
    while i < t.len()
        invariant
            i <= t@.len(),
            table_get(t@, key@) == table_get(t@.skip(i as int), key@),
        decreases t.len() - i,
    {
        assert(t@.skip(i as int).drop_first() =~= t@.skip(i + 1));
        if crate::models::same_str(t[i].0.as_str(), key) {
            return Some(&t[i].1);
        }
        i += 1;
    }
    None
}

fn text(value: Option<&TomlValue>) -> (r: String)
    ensures
        r@ == toml_text(crate::json::deref_opt(value)),
{
    match value {
        Some(TomlValue::Str(s)) => string_of(chars_of(s.as_str()).as_slice()),
        Some(TomlValue::Int(i)) => string_of(decimal_signed(*i).as_slice()),
        Some(TomlValue::Float { text, nonzero }) => string_of(chars_of(text.as_str()).as_slice()),
        Some(TomlValue::Bool(b)) => if *b {
            string_of(chars_of("true").as_slice())
        } else {
            string_of(chars_of("false").as_slice())
        },
        _ => String::new(),
    }
}

/// Python `bool(value)`.
fn truthy(value: Option<&TomlValue>) -> (r: bool)
    ensures
        r == toml_truthy(crate::json::deref_opt(value)),
{
    match value {
        Some(TomlValue::Bool(b)) => *b,
        Some(TomlValue::Int(i)) => *i != 0,
        Some(TomlValue::Float { text, nonzero }) => *nonzero,
        Some(TomlValue::Str(s)) => !s.as_str().is_empty(),
        Some(TomlValue::Array(a)) => a.len() > 0,
        Some(TomlValue::Table(t)) => t.len() > 0,
        Some(TomlValue::Datetime) => true,
        None => false,
    }
}

fn clean_tag(v: &TomlValue) -> (r: String)
    ensures
        r@ == tag_text(*v),
{
    let t = text(Some(v));
    let tv = chars_of(t.as_str());
    let tt = trim_chars(tv.as_slice());
    let mut lo: usize = 0;
    assert(tt@.skip(0) =~= tt@);
    while lo < tt.len() && tt[lo] == '#'
        invariant
            lo <= tt@.len(),
            drop_hashes(tt@) == drop_hashes(tt@.skip(lo as int)),
        decreases tt.len() - lo,
    {
        assert(tt@.skip(lo as int).drop_first() =~= tt@.skip(lo + 1));
        lo += 1;
    }
    let mid = slice_chars(tt.as_slice(), lo, tt.len());
    assert(mid@ =~= tt@.skip(lo as int));
    let mut hi: usize = mid.len();
    assert(mid@.take(hi as int) =~= mid@);
    while hi > 0 && mid[hi - 1] == '#'
        invariant
            hi <= mid@.len(),
            drop_trailing_hashes(mid@) == drop_trailing_hashes(mid@.take(hi as int)),
        decreases hi,
    {
        assert(mid@.take(hi as int).drop_last() =~= mid@.take(hi - 1));
        hi -= 1;
    }
    let out = slice_chars(mid.as_slice(), 0, hi);
    string_of(out.as_slice())
}

fn clean_all(raw: &Vec<TomlValue>) -> (tags: Vec<String>)
    ensures
        string_views(tags@) == clean_tags(raw@),
{
    let mut tags: Vec<String> = Vec::new();
    let mut i: usize = 0;
    while i < raw.len()
        invariant
            i <= raw@.len(),
            string_views(tags@) == clean_tags(raw@.take(i as int)),
        decreases raw.len() - i,
    {
        let t = clean_tag(&raw[i]);
        proof {
            assert(raw@.take(i + 1).drop_last() =~= raw@.take(i as int));
        }
        if !t.as_str().is_empty() {
            let ghost before = string_views(tags@);
            tags.push(t);
            assert(string_views(tags@) =~= before.push(tag_text(raw@[i as int])));
        }
        i += 1;
    }
    assert(raw@.take(raw@.len() as int) =~= raw@);
    tags
}

fn parse_bear(section: Option<&TomlValue>) -> (r: BearConfig)
    ensures
        bear_from(crate::json::deref_opt(section), r),
{
    let table = match section {
        Some(TomlValue::Table(t)) => t,
        _ => {
            return BearConfig::default();
        },
    };
    let tag_value = get(table, "tags");
    let tags: Vec<String> = match tag_value {
        Some(TomlValue::Str(_)) => {
            let t = clean_tag(tag_value.unwrap());
            let mut one: Vec<String> = Vec::new();
            if !t.as_str().is_empty() {
                one.push(t);
            }
            proof {
                let raw = raw_tags(crate::json::deref_opt(tag_value));
                assert(raw.len() == 1);
                assert(raw.last() == *tag_value.unwrap());
                assert(raw.drop_last() =~= Seq::<TomlValue>::empty());
                assert(clean_tags(raw.drop_last()) =~= Seq::<Seq<char>>::empty());
                assert(string_views(one@) =~= clean_tags(raw));
            }
            one
        },
        Some(TomlValue::Array(a)) => clean_all(a),
        _ => Vec::new(),
    };
    assert(string_views(tags@) == clean_tags(raw_tags(table_get(table@, "tags"@))));
    let due_text = text(get(table, "due"));
    let due = trim_str(due_text.as_str());
    BearConfig {
        enabled: truthy(get(table, "enabled")),
        list: text(get(table, "list")),
        due: if due.as_str().is_empty() {
            string_of(chars_of("today").as_slice())
        } else {
            due
        },
        tags,
        bearcli: text(get(table, "bearcli")),
    }
}

fn keys_section(k: &Vec<(String, TomlValue)>) -> (r: Vec<(String, String)>)
    ensures
        override_views(r@) == key_overrides(k@),
{
    let mut out: Vec<(String, String)> = Vec::new();
    let mut i: usize = 0;
    while i < k.len()
        invariant
            i <= k@.len(),
            override_views(out@) == key_overrides(k@.take(i as int)),
        decreases k.len() - i,
    {
        proof {
            assert(k@.take(i + 1).drop_last() =~= k@.take(i as int));
            assert(k@.take(i + 1).last() == k@[i as int]);
        }
        let (name, value) = (&k[i].0, &k[i].1);
        match value {
            TomlValue::Str(v) => {
                proof {
                    reveal_strlit("profile");
                }
                if !crate::models::same_str(name.as_str(), "profile") {
                    let ghost before = override_views(out@);
                    out.push((string_of(chars_of(name.as_str()).as_slice()), string_of(chars_of(v.as_str()).as_slice())));
                    assert(override_views(out@) =~= before.push((name@, v@)));
                }
            },
            _ => {},
        }
        i += 1;
    }
    assert(k@.take(k@.len() as int) =~= k@);
    out
}

/// The configuration a parsed document gives: `[keys]` for the profile and
/// the overrides, `[bear]` for the Bear settings; a missing or malformed
/// table gives its defaults, and no document at all gives every default.
pub fn config_from(doc: Option<&Vec<(String, TomlValue)>>) -> (c: Config)
    ensures
        config_from_doc(crate::json::deref_opt(doc), c),
{
    let d = match doc {
        None => {
            return Config::default();
        },
        Some(d) => d,
    };
    let (profile, overrides) = match get(d, "keys") {
        Some(TomlValue::Table(keys)) => {
            let profile = match get(keys, "profile") {
                Some(v) => text(Some(v)),
                None => string_of(chars_of("default").as_slice()),
            };
            (profile, keys_section(keys))
        },
        _ => (string_of(chars_of("default").as_slice()), Vec::new()),
    };
    Config { profile, overrides, bear: parse_bear(get(d, "bear")) }
}

#[verifier::external_type_specification]
#[verifier::external_body]
pub struct ExTomlValue(toml::Value);

/// What `str::parse::<toml::Table>` gives for a document: its top-level
/// entries in the table's key order, or None when the text is not TOML.
pub uninterp spec fn toml_parsed(source: Seq<char>) -> Option<Vec<(String, TomlValue)>>;

/// One parsed TOML value as the library's value, variant for variant; a
/// float keeps its printed form and whether it is zero.
#[verifier::external_body]
fn converted(v: &toml::Value) -> TomlValue {
    match v {
        toml::Value::String(s) => TomlValue::Str(s.clone()),
        toml::Value::Integer(i) => TomlValue::Int(*i),
        toml::Value::Float(f) => TomlValue::Float {
            text: f.to_string(),
            nonzero: f.classify() != std::num::FpCategory::Zero,
        },
        toml::Value::Boolean(b) => TomlValue::Bool(*b),
        toml::Value::Datetime(_) => TomlValue::Datetime,
        toml::Value::Array(a) => TomlValue::Array(a.iter().map(converted).collect()),
        toml::Value::Table(t) => TomlValue::Table(t.iter().map(|(k, v)| (k.clone(), converted(v))).collect()),
    }
}

/// `str::parse::<toml::Table>` on a configuration document.
#[verifier::external_body]
fn toml_document(source: &str) -> (r: Option<Vec<(String, TomlValue)>>)
    ensures
        r == toml_parsed(source@),
{
    source.parse::<toml::Table>().ok().map(|t| t.iter().map(|(k, v)| (k.clone(), converted(v))).collect())
}

/// Parse a config document; anything malformed falls back to defaults.
pub fn parse(source: &str) -> (c: Config)
    ensures
        config_from_doc(toml_parsed(source@), c),
{
    let doc = toml_document(source);
    match doc {
        Some(d) => config_from(Some(&d)),
        None => config_from(None),
    }
}

} // verus!
