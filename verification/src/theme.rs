//! The colour theme: read from a small TOML file of `key = "value"` lines.
use vstd::prelude::*;
use crate::text::{
    chars_of, find_chars, find_from, lemma_find_from_bounds, lines, lines_of, lit, lookup,
    lemma_pairs_map_last, pairs_map, pairs_view, push_str, seqs, slice_of, string_of, trim,
    trim_chars, is_ws, trim_start, trim_end,
};

verus! {

/// The text without leading and trailing double quotes.
pub open spec fn strip_quotes_start(s: Seq<char>) -> Seq<char>
    decreases s.len(),
{
    if s.len() > 0 && s[0] == '"' {
        strip_quotes_start(s.drop_first())
    } else {
        s
    }
}

/// The text without trailing double quotes.
pub open spec fn strip_quotes_end(s: Seq<char>) -> Seq<char>
    decreases s.len(),
{
    if s.len() > 0 && s.last() == '"' {
        strip_quotes_end(s.drop_last())
    } else {
        s
    }
}

/// The text without leading and trailing double quotes, as
/// `str::trim_matches('"')` gives it.
pub open spec fn strip_quotes(s: Seq<char>) -> Seq<char> {
    strip_quotes_end(strip_quotes_start(s))
}

proof fn lemma_strip_start_at(s: Seq<char>, i: int)
    requires
        0 <= i <= s.len(),
        forall|k: int| 0 <= k < i ==> #[trigger] s[k] == '"',
        i == s.len() || s[i] != '"',
    ensures
        strip_quotes_start(s) == s.subrange(i, s.len() as int),
    decreases i,
{
    if i == 0 {
        assert(s.subrange(0, s.len() as int) =~= s);
    } else {
        let t = s.drop_first();
        assert forall|k: int| 0 <= k < i - 1 implies #[trigger] t[k] == '"' by {
            assert(t[k] == s[k + 1]);
        }
        lemma_strip_start_at(t, i - 1);
        assert(t.subrange(i - 1, t.len() as int) =~= s.subrange(i, s.len() as int));
    }
}

proof fn lemma_strip_end_at(s: Seq<char>, j: int)
    requires
        0 <= j <= s.len(),
        forall|k: int| j <= k < s.len() ==> #[trigger] s[k] == '"',
        j == 0 || s[j - 1] != '"',
    ensures
        strip_quotes_end(s) == s.subrange(0, j),
    decreases s.len() - j,
{
    if j == s.len() {
        assert(s.subrange(0, j) =~= s);
    } else {
        let t = s.drop_last();
        assert forall|k: int| j <= k < t.len() implies #[trigger] t[k] == '"' by {
            assert(t[k] == s[k]);
        }
        lemma_strip_end_at(t, j);
        assert(t.subrange(0, j) =~= s.subrange(0, j));
    }
}

fn strip_quotes_chars(s: &[char]) -> (v: Vec<char>)
    ensures
        v@ == strip_quotes(s@),
{
    let n = s.len();
    let mut i: usize = 0;
    while i < n && s[i] == '"'
        invariant
            i <= n == s@.len(),
            forall|k: int| 0 <= k < i ==> #[trigger] s@[k] == '"',
        decreases n - i,
    {
        i += 1;
    }
    proof {
        lemma_strip_start_at(s@, i as int);
    }
    let mut j: usize = n;
    while j > i && s[j - 1] == '"'
        invariant
            i <= j <= n == s@.len(),
            forall|k: int| j <= k < n ==> #[trigger] s@[k] == '"',
        decreases j,
    {
        j -= 1;
    }
    let ghost t = s@.subrange(i as int, n as int);
    proof {
        assert forall|k: int| j - i <= k < t.len() implies #[trigger] t[k] == '"' by {
            assert(t[k] == s@[k + i]);
        }
        if j > i {
            assert(t[j - i - 1] == s@[j - 1]);
        }
        lemma_strip_end_at(t, j - i);
        assert(t.subrange(0, j - i) =~= s@.subrange(i as int, j as int));
    }
    slice_of(s, i, j)
}

/// The key and value of one line of the theme file: none for a blank line,
/// a comment (`#` first), a line without `=`, or an empty value. The key is
/// trimmed; the value is trimmed and loses its surrounding quotes.
pub open spec fn toml_entry(line: Seq<char>) -> Option<(Seq<char>, Seq<char>)> {
    let l = trim(line);
    if l.len() == 0 || l[0] == '#' {
        None
    } else {
        let j = find_from(l, seq!['='], 0);
        if j < 0 {
            None
        } else {
            let key = trim(l.take(j));
            let value = strip_quotes(trim(l.skip(j + 1)));
            if value.len() == 0 {
                None
            } else {
                Some((key, value))
            }
        }
    }
}

/// The entries of a theme file, keyed by name; a later line wins.
pub open spec fn toml_entries(content: Seq<char>) -> Map<Seq<char>, Seq<char>> {
    pairs_map(lines(content).filter_map(|l: Seq<char>| toml_entry(l)))
}

fn toml_entry_of(line: &[char]) -> (e: Option<(Vec<char>, Vec<char>)>)
    ensures
        match (e, toml_entry(line@)) {
            (Some(a), Some(b)) => a.0@ == b.0 && a.1@ == b.1,
            (None, None) => true,
            _ => false,
        },
{
    let l = trim_chars(line);
    if l.len() == 0 || l[0] == '#' {
        return None;
    }
    let eq = vec!['='];
    assert(eq@ =~= seq!['=']);
    match find_chars(l.as_slice(), eq.as_slice()) {
        None => None,
        Some(j) => {
            proof {
                lemma_find_from_bounds(l@, seq!['='], 0);
            }
            let raw_key = slice_of(l.as_slice(), 0, j);
            let raw_value = slice_of(l.as_slice(), j + 1, l.len());
            assert(raw_key@ =~= l@.take(j as int));
            assert(raw_value@ =~= l@.skip(j + 1));
            let key = trim_chars(raw_key.as_slice());
            let tv = trim_chars(raw_value.as_slice());
            let value = strip_quotes_chars(tv.as_slice());
            if value.len() == 0 {
                None
            } else {
                Some((key, value))
            }
        },
    }
}

/// The entries of a theme file, as (key, value) pairs in the order read.
pub fn parse_toml(content: &str) -> (pairs: Vec<(Vec<char>, Vec<char>)>)
    ensures
        pairs_map(pairs_view(pairs@)) == toml_entries(content@),
{
    let cc = chars_of(content);
    let ls = lines_of(cc.as_slice());
    let ghost lv = seqs(ls@);
    let ghost f = |l: Seq<char>| toml_entry(l);
    let mut pairs: Vec<(Vec<char>, Vec<char>)> = Vec::new();
    let mut i: usize = 0;
    while i < ls.len()
        invariant
            lv == seqs(ls@),
            lv == lines(content@),
            f == (|l: Seq<char>| toml_entry(l)),
            i <= ls@.len(),
            pairs_view(pairs@) == lv.take(i as int).filter_map(f),
        decreases ls@.len() - i,
    {
        proof {
            lv.lemma_filter_map_take_succ(f, i as int);
        }
        match toml_entry_of(ls[i].as_slice()) {
            Some(e) => {
                let ghost before = pairs_view(pairs@);
                let ghost ev = (e.0@, e.1@);
                pairs.push(e);
                assert(pairs_view(pairs@) =~= before + seq![ev]);
            },
            None => {},
        }
        i += 1;
    }
    assert(lv.take(lv.len() as int) =~= lv);
    pairs
}

/// The value of `key`, or `fallback` where the file does not give one.
pub open spec fn pick(entries: Map<Seq<char>, Seq<char>>, key: Seq<char>, fallback: Seq<char>) -> Seq<char> {
    if entries.contains_key(key) {
        entries[key]
    } else {
        fallback
    }
}

/// The value of `key` among `pairs`, or `fallback`.
pub fn pick_of(pairs: &Vec<(Vec<char>, Vec<char>)>, key: &str, fallback: &str) -> (s: String)
    ensures
        s@ == pick(pairs_map(pairs_view(pairs@)), key@, fallback@),
{
    let k = chars_of(key);
    match lookup(pairs, k.as_slice()) {
        Some(v) => string_of(v.as_slice()),
        None => lit(fallback),
    }
}

/// The colours of the panel.
#[derive(Clone, Debug)]
pub struct Theme {
    pub accent: String,
    pub background: String,
    pub foreground: String,
    pub surface: String,
    pub surface2: String,
    pub muted: String,
    pub green: String,
    pub red: String,
}

/// The text of a [`Theme`].
pub struct ThemeView {
    pub accent: Seq<char>,
    pub background: Seq<char>,
    pub foreground: Seq<char>,
    pub surface: Seq<char>,
    pub surface2: Seq<char>,
    pub muted: Seq<char>,
    pub green: Seq<char>,
    pub red: Seq<char>,
}

impl DeepView for Theme {
    type V = ThemeView;

    open spec fn deep_view(&self) -> ThemeView {
        ThemeView {
            accent: self.accent@,
            background: self.background@,
            foreground: self.foreground@,
            surface: self.surface@,
            surface2: self.surface2@,
            muted: self.muted@,
            green: self.green@,
            red: self.red@,
        }
    }
}

/// The theme that a file gives, each colour falling back to the default.
pub open spec fn theme_from(entries: Map<Seq<char>, Seq<char>>) -> ThemeView {
    ThemeView {
        accent: pick(entries, "accent"@, "#6b8b80"@),
        background: pick(entries, "background"@, "#0D100E"@),
        foreground: pick(entries, "foreground"@, "#B1C2B1"@),
        surface: pick(entries, "lighter_bg"@, "#252826"@),
        surface2: pick(entries, "dark_bg"@, "#0a0c0b"@),
        muted: pick(entries, "muted"@, "#646a66"@),
        green: pick(entries, "green"@, "#b8cdb2"@),
        red: pick(entries, "red"@, "#9a9b82"@),
    }
}

impl Default for Theme {
    /// The colours used where there is no theme file.
    fn default() -> (t: Theme)
        ensures
            t.deep_view() == theme_from(Map::empty()),
    {
        Theme {
            accent: lit("#6b8b80"),
            background: lit("#0D100E"),
            foreground: lit("#B1C2B1"),
            surface: lit("#252826"),
            surface2: lit("#0a0c0b"),
            muted: lit("#646a66"),
            green: lit("#b8cdb2"),
            red: lit("#9a9b82"),
        }
    }
}

/// The theme of the file whose text is `content`; the default theme where
/// the file could not be read.
pub fn load_theme(content: Option<&str>) -> (t: Theme)
    ensures
        t.deep_view() == match content {
            Some(c) => theme_from(toml_entries(c@)),
            None => theme_from(Map::empty()),
        },
{
    match content {
        None => Theme::default(),
        Some(c) => {
            let pairs = parse_toml(c);
            Theme {
                accent: pick_of(&pairs, "accent", "#6b8b80"),
                background: pick_of(&pairs, "background", "#0D100E"),
                foreground: pick_of(&pairs, "foreground", "#B1C2B1"),
                surface: pick_of(&pairs, "lighter_bg", "#252826"),
                surface2: pick_of(&pairs, "dark_bg", "#0a0c0b"),
                muted: pick_of(&pairs, "muted", "#646a66"),
                green: pick_of(&pairs, "green", "#b8cdb2"),
                red: pick_of(&pairs, "red", "#9a9b82"),
            }
        },
    }
}

/// The style sheet that the window is drawn with: the theme's colours set
/// into a fixed template.
pub open spec fn theme_css(t: ThemeView) -> Seq<char> {
    "\n            window {\n                background-color: "@
        + t.background
        + ";\n                color: "@
        + t.foreground
        + ";\n            }\n            .sidebar {\n                background-color: "@
        + t.surface2
        + ";\n                border-right: 1px solid alpha("@
        + t.foreground
        + ", 0.08);\n            }\n            .content-card {\n                background-color: alpha("@
        + t.surface
        + ", 0.92);\n                border-radius: 16px;\n                padding: 16px;\n            }\n            .muted {\n                color: "@
        + t.muted
        + ";\n                opacity: 0.95;\n            }\n            .status-pill {\n                background-color: alpha("@
        + t.green
        + ", 0.22);\n                color: "@
        + t.foreground
        + ";\n                border-radius: 999px;\n                padding: 4px 10px;\n            }\n            .network-row:hover {\n                background-color: alpha("@
        + t.accent
        + ", 0.12);\n            }\n            .accent-button {\n                background: "@
        + t.accent
        + ";\n                color: "@
        + t.background
        + ";\n                border-radius: 12px;\n                padding: 8px 14px;\n            }\n            .error-banner {\n                background-color: alpha("@
        + t.red
        + ", 0.18);\n                color: "@
        + t.foreground
        + ";\n                border-radius: 12px;\n                padding: 10px 12px;\n            }\n            "@
}

impl Theme {
    /// The style sheet that the window is drawn with.
    pub fn css(&self) -> (s: String)
        ensures
            s@ == theme_css(self.deep_view()),
    {
        let mut v = chars_of("\n            window {\n                background-color: ");
        push_str(&mut v, self.background.as_str());
        push_str(&mut v, ";\n                color: ");
        push_str(&mut v, self.foreground.as_str());
        push_str(&mut v, ";\n            }\n            .sidebar {\n                background-color: ");
        push_str(&mut v, self.surface2.as_str());
        push_str(&mut v, ";\n                border-right: 1px solid alpha(");
        push_str(&mut v, self.foreground.as_str());
        push_str(&mut v, ", 0.08);\n            }\n            .content-card {\n                background-color: alpha(");
        push_str(&mut v, self.surface.as_str());
        push_str(&mut v, ", 0.92);\n                border-radius: 16px;\n                padding: 16px;\n            }\n            .muted {\n                color: ");
        push_str(&mut v, self.muted.as_str());
        push_str(&mut v, ";\n                opacity: 0.95;\n            }\n            .status-pill {\n                background-color: alpha(");
        push_str(&mut v, self.green.as_str());
        push_str(&mut v, ", 0.22);\n                color: ");
        push_str(&mut v, self.foreground.as_str());
        push_str(&mut v, ";\n                border-radius: 999px;\n                padding: 4px 10px;\n            }\n            .network-row:hover {\n                background-color: alpha(");
        push_str(&mut v, self.accent.as_str());
        push_str(&mut v, ", 0.12);\n            }\n            .accent-button {\n                background: ");
        push_str(&mut v, self.accent.as_str());
        push_str(&mut v, ";\n                color: ");
        push_str(&mut v, self.background.as_str());
        push_str(&mut v, ";\n                border-radius: 12px;\n                padding: 8px 14px;\n            }\n            .error-banner {\n                background-color: alpha(");
        push_str(&mut v, self.red.as_str());
        push_str(&mut v, ", 0.18);\n                color: ");
        push_str(&mut v, self.foreground.as_str());
        push_str(&mut v, ";\n                border-radius: 12px;\n                padding: 10px 12px;\n            }\n            ");
        string_of(v.as_slice())
    }
}


/// The entries of a theme file, key and value, in the order of its lines.
pub open spec fn file_entries(content: Seq<char>) -> Seq<(Seq<char>, Seq<char>)> {
    lines(content).filter_map(|l: Seq<char>| toml_entry(l))
}

/// A theme file gives a key exactly when one of its lines sets it; it gives
/// the value of the last line that sets it, and never an empty value.
pub proof fn law_theme_file_key(content: Seq<char>, k: Seq<char>)
    ensures
        toml_entries(content).contains_key(k) <==> exists|i: int|
            0 <= i < file_entries(content).len() && (#[trigger] file_entries(content)[i]).0 == k,
        forall|i: int|
            0 <= i < file_entries(content).len() && (#[trigger] file_entries(content)[i]).0 == k && (forall|j: int|
                i < j < file_entries(content).len() ==> file_entries(content)[j].0 != k)
                ==> toml_entries(content)[k] == file_entries(content)[i].1,
        toml_entries(content).contains_key(k) ==> toml_entries(content)[k].len() > 0,
{
    let f = |l: Seq<char>| toml_entry(l);
    let fe = file_entries(content);
    assert(toml_entries(content) == pairs_map(fe));
    lemma_pairs_map_last(fe, k);
    if toml_entries(content).contains_key(k) {
        let i = choose|i: int| 0 <= i < fe.len() && (#[trigger] fe[i]).0 == k && pairs_map(fe)[k] == fe[i].1;
        assert(fe.contains(fe[i]));
        lines(content).lemma_filter_map_contains(f, fe[i]);
        let t = choose|t: Seq<char>| #[trigger] lines(content).contains(t) && f(t) == Some(fe[i]);
        assert(toml_entry(t) == Some(fe[i]));
    }
}

/// Each colour of the theme is the value that the entries give for its key
/// (`lighter_bg` for the surface, `dark_bg` for the second surface), and its
/// default where they give none.
pub proof fn law_theme_colours(e: Map<Seq<char>, Seq<char>>)
    ensures
        theme_from(e).accent == (if e.contains_key("accent"@) { e["accent"@] } else { "#6b8b80"@ }),
        theme_from(e).background == (if e.contains_key("background"@) { e["background"@] } else { "#0D100E"@ }),
        theme_from(e).foreground == (if e.contains_key("foreground"@) { e["foreground"@] } else { "#B1C2B1"@ }),
        theme_from(e).surface == (if e.contains_key("lighter_bg"@) { e["lighter_bg"@] } else { "#252826"@ }),
        theme_from(e).surface2 == (if e.contains_key("dark_bg"@) { e["dark_bg"@] } else { "#0a0c0b"@ }),
        theme_from(e).muted == (if e.contains_key("muted"@) { e["muted"@] } else { "#646a66"@ }),
        theme_from(e).green == (if e.contains_key("green"@) { e["green"@] } else { "#b8cdb2"@ }),
        theme_from(e).red == (if e.contains_key("red"@) { e["red"@] } else { "#9a9b82"@ }),
{
}


proof fn lemma_trim_unchanged(s: Seq<char>)
    requires
        s.len() > 0,
        !is_ws(s[0]),
        !is_ws(s.last()),
    ensures
        trim(s) == s,
{
    assert(trim_start(s) == s);
    assert(trim_end(s) == s);
}

proof fn lemma_find_equals(k: Seq<char>, v: Seq<char>, i: int)
    requires
        0 <= i <= k.len(),
        forall|m: int| 0 <= m < k.len() ==> k[m] != '=',
    ensures
        find_from(k + seq!['='] + v, seq!['='], i) == k.len(),
    decreases k.len() - i,
{
    let l = k + seq!['='] + v;
    if i < k.len() {
        assert(l.subrange(i, i + 1)[0] == k[i]);
        lemma_find_equals(k, v, i + 1);
    } else {
        assert(l.subrange(i, i + 1) =~= seq!['=']);
    }
}

/// A line `key=value`, or `key="value"`, where the key holds no `=`, does not
/// start with `#` and neither starts nor ends with white space, and the value
/// is not empty and neither starts nor ends with white space or a double
/// quote, sets the key to the value.
pub proof fn law_theme_line(k: Seq<char>, v: Seq<char>)
    requires
        k.len() > 0,
        !is_ws(k[0]),
        !is_ws(k.last()),
        k[0] != '#',
        forall|m: int| 0 <= m < k.len() ==> k[m] != '=',
        v.len() > 0,
        !is_ws(v[0]),
        !is_ws(v.last()),
        v[0] != '"',
        v.last() != '"',
    ensures
        toml_entry(k + seq!['='] + v) == Some((k, v)),
        toml_entry(k + seq!['='] + (seq!['"'] + v + seq!['"'])) == Some((k, v)),
{
    lemma_trim_unchanged(k);
    lemma_trim_unchanged(v);
    assert(strip_quotes_start(v) == v);
    assert(strip_quotes_end(v) == v);
    let l = k + seq!['='] + v;
    assert(l[0] == k[0] && l.last() == v.last());
    lemma_trim_unchanged(l);
    lemma_find_equals(k, v, 0);
    assert(l.take(k.len() as int) =~= k);
    assert(l.skip(k.len() as int + 1) =~= v);
    let q = seq!['"'] + v + seq!['"'];
    let l2 = k + seq!['='] + q;
    assert(l2[0] == k[0] && l2.last() == '"');
    assert(!is_ws('"'));
    lemma_trim_unchanged(l2);
    lemma_trim_unchanged(q);
    lemma_find_equals(k, q, 0);
    assert(l2.take(k.len() as int) =~= k);
    assert(l2.skip(k.len() as int + 1) =~= q);
    assert(q.drop_first() =~= v + seq!['"']);
    assert(strip_quotes_start(q) == strip_quotes_start(v + seq!['"']));
    assert(strip_quotes_start(v + seq!['"']) == v + seq!['"']) by {
        assert((v + seq!['"'])[0] == v[0]);
    }
    assert((v + seq!['"']).drop_last() =~= v);
    assert(strip_quotes_end(v + seq!['"']) == strip_quotes_end(v));
}

} // verus!
