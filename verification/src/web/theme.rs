//! The colour theme of the web front-end.
use vstd::prelude::*;
use crate::text::{lit, pairs_map, pairs_view};
use crate::theme::{parse_toml, pick, pick_of, toml_entries};

verus! {

/// The colours of the web front-end.
#[derive(Clone, Debug)]
pub struct ThemeColors {
    pub accent: String,
    pub background: String,
    pub foreground: String,
    pub lighter_bg: String,
    pub dark_bg: String,
    pub muted: String,
    pub green: String,
    pub red: String,
    pub yellow: String,
    pub blue: String,
    pub cyan: String,
}

/// The text of a [`ThemeColors`].
pub struct ColorsView {
    pub accent: Seq<char>,
    pub background: Seq<char>,
    pub foreground: Seq<char>,
    pub lighter_bg: Seq<char>,
    pub dark_bg: Seq<char>,
    pub muted: Seq<char>,
    pub green: Seq<char>,
    pub red: Seq<char>,
    pub yellow: Seq<char>,
    pub blue: Seq<char>,
    pub cyan: Seq<char>,
}

impl DeepView for ThemeColors {
    type V = ColorsView;

    open spec fn deep_view(&self) -> ColorsView {
        ColorsView {
            accent: self.accent@,
            background: self.background@,
            foreground: self.foreground@,
            lighter_bg: self.lighter_bg@,
            dark_bg: self.dark_bg@,
            muted: self.muted@,
            green: self.green@,
            red: self.red@,
            yellow: self.yellow@,
            blue: self.blue@,
            cyan: self.cyan@,
        }
    }
}

/// The colours that a file gives, each falling back to the default.
pub open spec fn colors_from(entries: Map<Seq<char>, Seq<char>>) -> ColorsView {
    ColorsView {
        accent: pick(entries, "accent"@, "#6b8b80"@),
        background: pick(entries, "background"@, "#0D100E"@),
        foreground: pick(entries, "foreground"@, "#B1C2B1"@),
        lighter_bg: pick(entries, "lighter_bg"@, "#252826"@),
        dark_bg: pick(entries, "dark_bg"@, "#0a0c0b"@),
        muted: pick(entries, "muted"@, "#646a66"@),
        green: pick(entries, "green"@, "#b8cdb2"@),
        red: pick(entries, "red"@, "#9a9b82"@),
        yellow: pick(entries, "yellow"@, "#e9fdd9"@),
        blue: pick(entries, "blue"@, "#6b8b80"@),
        cyan: pick(entries, "cyan"@, "#c2e9cc"@),
    }
}

impl Default for ThemeColors {
    /// The colours used where there is no theme file.
    fn default() -> (t: ThemeColors)
        ensures
            t.deep_view() == colors_from(Map::empty()),
    {
        ThemeColors {
            accent: lit("#6b8b80"),
            background: lit("#0D100E"),
            foreground: lit("#B1C2B1"),
            lighter_bg: lit("#252826"),
            dark_bg: lit("#0a0c0b"),
            muted: lit("#646a66"),
            green: lit("#b8cdb2"),
            red: lit("#9a9b82"),
            yellow: lit("#e9fdd9"),
            blue: lit("#6b8b80"),
            cyan: lit("#c2e9cc"),
        }
    }
}

/// The entries of a theme file, as (key, value) pairs in the order read.
pub fn parse_toml_colors(content: &str) -> (pairs: Vec<(Vec<char>, Vec<char>)>)
    ensures
        pairs_map(pairs_view(pairs@)) == toml_entries(content@),
{
    parse_toml(content)
}

/// The colours of the file whose text is `content`; the defaults where the
/// file could not be read.
pub fn load_theme(content: Option<&str>) -> (t: ThemeColors)
    ensures
        t.deep_view() == match content {
            Some(c) => colors_from(toml_entries(c@)),
            None => colors_from(Map::empty()),
        },
{
    match content {
        None => ThemeColors::default(),
        Some(c) => {
            let pairs = parse_toml_colors(c);
            ThemeColors {
                accent: pick_of(&pairs, "accent", "#6b8b80"),
                background: pick_of(&pairs, "background", "#0D100E"),
                foreground: pick_of(&pairs, "foreground", "#B1C2B1"),
                lighter_bg: pick_of(&pairs, "lighter_bg", "#252826"),
                dark_bg: pick_of(&pairs, "dark_bg", "#0a0c0b"),
                muted: pick_of(&pairs, "muted", "#646a66"),
                green: pick_of(&pairs, "green", "#b8cdb2"),
                red: pick_of(&pairs, "red", "#9a9b82"),
                yellow: pick_of(&pairs, "yellow", "#e9fdd9"),
                blue: pick_of(&pairs, "blue", "#6b8b80"),
                cyan: pick_of(&pairs, "cyan", "#c2e9cc"),
            }
        },
    }
}


/// Each colour is the value that the entries give for the key of its name,
/// and its default where they give none.
pub proof fn law_web_colours(e: Map<Seq<char>, Seq<char>>)
    ensures
        colors_from(e).accent == (if e.contains_key("accent"@) { e["accent"@] } else { "#6b8b80"@ }),
        colors_from(e).background == (if e.contains_key("background"@) { e["background"@] } else { "#0D100E"@ }),
        colors_from(e).foreground == (if e.contains_key("foreground"@) { e["foreground"@] } else { "#B1C2B1"@ }),
        colors_from(e).lighter_bg == (if e.contains_key("lighter_bg"@) { e["lighter_bg"@] } else { "#252826"@ }),
        colors_from(e).dark_bg == (if e.contains_key("dark_bg"@) { e["dark_bg"@] } else { "#0a0c0b"@ }),
        colors_from(e).muted == (if e.contains_key("muted"@) { e["muted"@] } else { "#646a66"@ }),
        colors_from(e).green == (if e.contains_key("green"@) { e["green"@] } else { "#b8cdb2"@ }),
        colors_from(e).red == (if e.contains_key("red"@) { e["red"@] } else { "#9a9b82"@ }),
        colors_from(e).yellow == (if e.contains_key("yellow"@) { e["yellow"@] } else { "#e9fdd9"@ }),
        colors_from(e).blue == (if e.contains_key("blue"@) { e["blue"@] } else { "#6b8b80"@ }),
        colors_from(e).cyan == (if e.contains_key("cyan"@) { e["cyan"@] } else { "#c2e9cc"@ }),
{
}

} // verus!
