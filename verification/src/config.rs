//! The formatter's settings, and how a settings text gives them.
//!
//! A settings text is a TOML document. Two of its top-level keys count:
//! `tab-spaces`, the string `tabs` or a number of spaces, and `max-width`.
//! The document is read by the `toml` crate; which settings its entries
//! give is decided here.

use vstd::prelude::*;
use vstd::string::StringExecFns;

verus! {

/// `toml::map::Map`, the table that `toml` reads a document into. Nothing
/// is known of a table but what `table_entries` names.
#[verifier::external_type_specification]
#[verifier::external_body]
#[verifier::reject_recursive_types(K)]
#[verifier::reject_recursive_types(V)]
pub struct ExTomlMap<K, V>(toml::map::Map<K, V>);

/// `toml::Value`, a value of a table. It is only carried inside a table.
#[verifier::external_type_specification]
#[verifier::external_body]
pub struct ExTomlValue(toml::Value);

/// The document that `toml` reads from a text, as its top-level entries;
/// `None` where the text is not a TOML document.
pub uninterp spec fn toml_document(text: Seq<char>) -> Option<Map<Seq<char>, SettingView>>;

/// The entries of a table, by key.
pub uninterp spec fn table_entries(table: toml::map::Map<String, toml::Value>) -> Map<
    Seq<char>,
    SettingView,
>;

/// `toml::from_str`, read as a table. The result is a function of the text
/// alone: `None` where `toml` rejects the text, else the table whose
/// entries are those of the document.
#[verifier::external_body]
fn parse_table(text: &str) -> (r: Option<toml::map::Map<String, toml::Value>>)
    ensures
        match r {
            Some(table) => toml_document(text@) == Some(table_entries(table)),
            None => toml_document(text@) is None,
        },
{
    toml::from_str::<toml::map::Map<String, toml::Value>>(text).ok()
}

/// `toml::map::Map::get`. The result is the entry of the table under
/// `key`: `Missing` where the table has no such key, an integer or a string
/// as the table holds it, `Other` for a value of another type.
#[verifier::external_body]
fn table_get(table: &toml::map::Map<String, toml::Value>, key: &str) -> (r: Setting)
    ensures
        r@ == entry(table_entries(*table), key@),
{
    match table.get(key) {
        None => Setting::Missing,
        Some(toml::Value::Integer(n)) => Setting::Integer(*n),
        Some(toml::Value::String(s)) => Setting::Text(s.clone()),
        Some(toml::Value::Float(_)) => Setting::Other,
        Some(toml::Value::Boolean(_)) => Setting::Other,
        Some(toml::Value::Datetime(_)) => Setting::Other,
        Some(toml::Value::Array(_)) => Setting::Other,
        Some(toml::Value::Table(_)) => Setting::Other,
    }
}

/// What one level of indentation is made of.
#[derive(Clone, Copy, Debug, PartialEq, Eq, Structural)]
pub enum TabSpaces {
    /// That many spaces.
    Spaces(u8),
    /// One tab character.
    Tabs,
}

/// The settings of one run. They are resolved once and only read after.
#[derive(Clone, Copy, Debug, PartialEq, Eq, Structural)]
pub struct Config {
    pub tab_spaces: TabSpaces,
    /// The width that a line should keep to. It is kept for the stability
    /// of the settings file; the renderer does not consult it.
    pub max_width: u16,
}

/// `n` spaces.
pub open spec fn spaces(n: nat) -> Seq<char> {
    Seq::new(n, |i: int| ' ')
}

/// The characters of one level of indentation.
pub open spec fn unit_text(t: TabSpaces) -> Seq<char> {
    match t {
        TabSpaces::Spaces(n) => spaces(n as nat),
        TabSpaces::Tabs => seq!['\t'],
    }
}

/// The settings that hold where none are given: tabs, and a width of 100.
pub open spec fn default_config() -> Config {
    Config { tab_spaces: TabSpaces::Tabs, max_width: 100 }
}

/// What a settings text holds under one key.
#[derive(Debug)]
pub enum Setting {
    /// The key is not there.
    Missing,
    /// An integer.
    Integer(i64),
    /// A string.
    Text(String),
    /// A value of any other type.
    Other,
}

/// What a `Setting` stands for.
pub enum SettingView {
    Missing,
    Integer(int),
    Text(Seq<char>),
    Other,
}

impl View for Setting {
    type V = SettingView;

    open spec fn view(&self) -> SettingView {
        match self {
            Setting::Missing => SettingView::Missing,
            Setting::Integer(n) => SettingView::Integer(*n as int),
            Setting::Text(t) => SettingView::Text(t@),
            Setting::Other => SettingView::Other,
        }
    }
}

/// The indentation that the setting `tab-spaces` asks for: tabs where it
/// is missing or the string `tabs`, that many spaces where it is an integer
/// from 1 to 255. Anything else is malformed.
pub open spec fn tab_spaces_of(s: SettingView) -> Option<TabSpaces> {
    match s {
        SettingView::Missing => Some(TabSpaces::Tabs),
        SettingView::Integer(n) => if 1 <= n <= 255 {
            Some(TabSpaces::Spaces(n as u8))
        } else {
            None
        },
        SettingView::Text(t) => if t == "tabs"@ {
            Some(TabSpaces::Tabs)
        } else {
            None
        },
        SettingView::Other => None,
    }
}

/// The width that the setting `max-width` asks for: 100 where it is
/// missing, else an integer from 0 to 65535. Anything else is malformed.
pub open spec fn max_width_of(s: SettingView) -> Option<u16> {
    match s {
        SettingView::Missing => Some(100u16),
        SettingView::Integer(n) => if 0 <= n <= 65535 {
            Some(n as u16)
        } else {
            None
        },
        SettingView::Text(t) => None,
        SettingView::Other => None,
    }
}

/// The settings that the two entries of a settings text give, where
/// neither is malformed.
pub open spec fn settings_config(tab_spaces: SettingView, max_width: SettingView) -> Option<
    Config,
> {
    match (tab_spaces_of(tab_spaces), max_width_of(max_width)) {
        (Some(t), Some(w)) => Some(Config { tab_spaces: t, max_width: w }),
        _ => None,
    }
}

/// The entry of a document under `key`.
pub open spec fn entry(doc: Map<Seq<char>, SettingView>, key: Seq<char>) -> SettingView {
    if doc.contains_key(key) {
        doc[key]
    } else {
        SettingView::Missing
    }
}

/// The settings that a document gives, where neither entry is malformed.
pub open spec fn document_config(doc: Map<Seq<char>, SettingView>) -> Option<Config> {
    settings_config(entry(doc, "tab-spaces"@), entry(doc, "max-width"@))
}

/// The settings that a text gives: those of its document, where it is one
/// and neither entry is malformed.
pub open spec fn text_config(text: Seq<char>) -> Option<Config> {
    match toml_document(text) {
        Some(doc) => document_config(doc),
        None => None,
    }
}

impl Default for Config {
    fn default() -> (r: Config)
        ensures
            r == default_config(),
    {
        Config { tab_spaces: TabSpaces::Tabs, max_width: 100 }
    }
}

impl Config {
    /// An indentation of spaces has at least one of them.
    pub open spec fn wf(&self) -> bool {
        self.tab_spaces != TabSpaces::Spaces(0)
    }

    /// The characters of one level of indentation.
    pub open spec fn unit(&self) -> Seq<char> {
        unit_text(self.tab_spaces)
    }

    /// The settings that two entries of a settings text give, or `None`
    /// where one of them is malformed.
    pub fn from_settings(tab_spaces: &Setting, max_width: &Setting) -> (r: Option<Config>)
        ensures
            r == settings_config(tab_spaces@, max_width@),
            r matches Some(c) ==> c.wf(),
    {
        let tabs = match tab_spaces {
            Setting::Missing => TabSpaces::Tabs,
            Setting::Integer(n) => {
                if *n < 1 || *n > 255 {
                    return None;
                }
                TabSpaces::Spaces(*n as u8)
            },
            Setting::Text(t) => {
                if *t != String::from_str("tabs") {
                    return None;
                }
                TabSpaces::Tabs
            },
            Setting::Other => {
                return None;
            },
        };
        let width: u16 = match max_width {
            Setting::Missing => 100u16,
            Setting::Integer(n) => {
                if *n < 0 || *n > 65535 {
                    return None;
                }
                *n as u16
            },
            Setting::Text(_) => {
                return None;
            },
            Setting::Other => {
                return None;
            },
        };
        Some(Config { tab_spaces: tabs, max_width: width })
    }

    /// The settings that a settings text gives, or `None` where the text is
    /// not a document or one of the two entries is malformed. Other keys
    /// are not looked at.
    pub fn parse(text: &str) -> (r: Option<Config>)
        ensures
            r == text_config(text@),
            r matches Some(c) ==> c.wf(),
    {
        match parse_table(text) {
            None => None,
            Some(table) => {
                let tab_spaces = table_get(&table, "tab-spaces");
                let max_width = table_get(&table, "max-width");
                Config::from_settings(&tab_spaces, &max_width)
            },
        }
    }

    /// The settings that a settings text gives; the defaults where it gives
    /// none.
    pub fn resolve(text: &str) -> (r: Config)
        ensures
            r == match text_config(text@) {
                Some(c) => c,
                None => default_config(),
            },
            r.wf(),
    {
        match Config::parse(text) {
            Some(c) => c,
            None => Config::default(),
        }
    }

    /// One level of indentation, as text.
    pub fn indent(&self) -> (r: String)
        ensures
            r@ == self.unit(),
    {
        match self.tab_spaces {
            TabSpaces::Spaces(n) => {
                let mut r = String::new();
                let mut i: u8 = 0;
                while i < n
                    invariant
                        i <= n,
                        r@ == spaces(i as nat),
                    decreases n - i,
                {
                    r.append(" ");
                    proof {
                        reveal_strlit(" ");
                        assert(r@ =~= spaces((i + 1) as nat));
                    }
                    i += 1;
                }
                r
            },
            TabSpaces::Tabs => {
                let r = String::from_str("\t");
                proof {
                    reveal_strlit("\t");
                    assert(r@ =~= seq!['\t']);
                }
                r
            },
        }
    }
}

} // verus!
