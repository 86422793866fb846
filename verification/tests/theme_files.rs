use netman_h::theme::{load_theme, parse_toml, pick_of, Theme};
use netman_h::web::theme::{load_theme as load_colors, parse_toml_colors, ThemeColors};

fn text(v: &[char]) -> String {
    v.iter().collect()
}

#[test]
fn entries_are_read_from_key_value_lines() {
    let pairs = parse_toml("# colours\n\naccent = \"#112233\"\n  background=#000000  \nempty = \"\"\nno equals sign\nname = \"a=b\"\n");
    let read: Vec<(String, String)> = pairs.iter().map(|(k, v)| (text(k), text(v))).collect();
    assert_eq!(
        read,
        vec![
            ("accent".to_string(), "#112233".to_string()),
            ("background".to_string(), "#000000".to_string()),
            ("name".to_string(), "a=b".to_string()),
        ]
    );
}

#[test]
fn the_last_entry_of_a_key_wins() {
    let pairs = parse_toml("accent = \"#111111\"\naccent = \"#222222\"\n");
    assert_eq!(pick_of(&pairs, "accent", "#ffffff"), "#222222");
    assert_eq!(pick_of(&pairs, "muted", "#ffffff"), "#ffffff");
}

#[test]
fn quotes_are_stripped_from_both_ends() {
    let pairs = parse_toml("red = \"\"#abcdef\"\"\r\n");
    assert_eq!(pick_of(&pairs, "red", "x"), "#abcdef");
}

#[test]
fn a_missing_file_gives_the_default_theme() {
    let t = load_theme(None);
    let d = Theme::default();
    assert_eq!(t.accent, "#6b8b80");
    assert_eq!(t.background, "#0D100E");
    assert_eq!(t.foreground, "#B1C2B1");
    assert_eq!(t.surface, "#252826");
    assert_eq!(t.surface2, "#0a0c0b");
    assert_eq!(t.muted, "#646a66");
    assert_eq!(t.green, "#b8cdb2");
    assert_eq!(t.red, "#9a9b82");
    assert_eq!(d.accent, t.accent);
    assert_eq!(d.red, t.red);
}

#[test]
fn a_file_overrides_some_colours() {
    let t = load_theme(Some("accent = \"#010203\"\nlighter_bg = \"#333333\"\ndark_bg = '#444444'\nsurface = \"#999999\"\n"));
    assert_eq!(t.accent, "#010203");
    assert_eq!(t.surface, "#333333");
    assert_eq!(t.surface2, "'#444444'");
    assert_eq!(t.background, "#0D100E");
}

#[test]
fn the_web_colours_have_their_own_defaults() {
    let c = load_colors(None);
    let d = ThemeColors::default();
    assert_eq!(c.accent, "#6b8b80");
    assert_eq!(c.lighter_bg, "#252826");
    assert_eq!(c.dark_bg, "#0a0c0b");
    assert_eq!(c.yellow, "#e9fdd9");
    assert_eq!(c.blue, "#6b8b80");
    assert_eq!(c.cyan, "#c2e9cc");
    assert_eq!(d.cyan, c.cyan);
}

#[test]
fn the_web_colours_read_a_file() {
    let c = load_colors(Some("yellow = \"#ffff00\"\nblue=#0000ff\n"));
    assert_eq!(c.yellow, "#ffff00");
    assert_eq!(c.blue, "#0000ff");
    assert_eq!(c.red, "#9a9b82");
    let pairs = parse_toml_colors("# only a comment\n");
    assert!(pairs.is_empty());
}

#[test]
fn the_style_sheet_carries_the_colours() {
    let t = load_theme(Some("accent = \"#abcdef\"\nbackground = \"#101010\"\n"));
    let css = t.css();
    assert!(css.starts_with("\n            window {\n                background-color: #101010;\n                color: #B1C2B1;\n"));
    assert!(css.contains(".accent-button {\n                background: #abcdef;\n                color: #101010;\n"));
    assert!(css.contains("border-right: 1px solid alpha(#B1C2B1, 0.08);"));
    assert!(css.contains(".error-banner {\n                background-color: alpha(#9a9b82, 0.18);"));
    assert_eq!(css.matches('{').count(), 8);
    assert_eq!(css.matches('}').count(), 8);
}
