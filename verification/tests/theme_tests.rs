use mist::config::Config;
use mist::mode::Mode;
use mist::theme::{Color, Modifier, Style, Theme};

#[test]
fn themes_resolve_by_name() {
    let one = Theme::from_name("one-dark").unwrap();
    assert_eq!(one.background.bg, Some(Color::rgb(0x28, 0x2C, 0x34)));
    let alias = Theme::from_name("onedark").unwrap();
    assert_eq!(alias.text.fg, Some(Color::rgb(0xAB, 0xB2, 0xBF)));
    let gruv = Theme::from_name("gruvbox").unwrap();
    assert_eq!(gruv.selection.bg, Some(Color::rgb(0x66, 0x5C, 0x54)));
    let mocha = Theme::from_name("catppuccin_mocha").unwrap();
    assert_eq!(mocha.cursor.bg, Some(Color::rgb(0xF5, 0xE0, 0xDC)));
    assert_eq!(mocha.cursor.fg, Some(Color::rgb(0x1E, 0x1E, 0x2E)));
    assert!(Theme::from_name("catppuccin-mocha").is_some());
}

#[test]
fn unknown_theme_name_is_none() {
    assert!(Theme::from_name("nord").is_none());
    assert!(Theme::from_name("").is_none());
    assert!(Theme::from_name("gruvbox ").is_none());
    assert!(Theme::from_name("Gruvbox").is_none());
}

#[test]
fn default_theme_is_one_dark() {
    let d = Theme::default();
    let one = Theme::one_dark();
    assert_eq!(d.background, one.background);
    assert_eq!(d.text, one.text);
    assert_eq!(d.cursor, one.cursor);
    assert_eq!(d.selection, one.selection);
}

#[test]
fn style_builders_set_one_channel() {
    let c = Color::rgb(1, 2, 3);
    let s = Style::new().fg(c);
    assert_eq!(s.fg, Some(c));
    assert_eq!(s.bg, None);
    assert_eq!(s.modifiers, Modifier::empty());
    let t = s.bg(Color::rgb(4, 5, 6));
    assert_eq!(t.fg, Some(c));
    assert_eq!(t.bg, Some(Color::rgb(4, 5, 6)));
    assert_eq!(Style::default(), Style::new());
}

#[test]
fn modifiers_add_up() {
    let both = Modifier::bold().union(Modifier::italic());
    assert!(both.contains(Modifier::bold()));
    assert!(both.contains(Modifier::italic()));
    assert!(!Modifier::bold().contains(Modifier::italic()));
    assert!(Modifier::empty().contains(Modifier::empty()));
    assert_eq!(Modifier::default(), Modifier::empty());
}

#[test]
fn config_starts_with_nord_and_collects_keys() {
    let mut c = Config::default();
    c.set_theme("gruvbox".to_string());
    c.add_key("normal".to_string(), "x".to_string(), "yank".to_string());
    let shown = format!("{:?}", c);
    assert!(shown.contains("gruvbox"));
    assert!(shown.contains("yank"));
    let fresh = format!("{:?}", Config::default());
    assert!(fresh.contains("nord"));
}

#[test]
fn modes_compare() {
    assert_ne!(Mode::Normal, Mode::Insert);
    assert_eq!(Mode::Select, Mode::Select);
}
