use imp_tui::config::ThinkingLevel;
use imp_tui::theme::{parse_hex, Color, Theme, ThemeOverrides};

#[test]
fn parse_hex_valid() {
    assert_eq!(parse_hex("#ff0000"), Some(Color::Rgb(255, 0, 0)));
    assert_eq!(parse_hex("00ff00"), Some(Color::Rgb(0, 255, 0)));
    assert_eq!(parse_hex("#151820"), Some(Color::Rgb(0x15, 0x18, 0x20)));
}

#[test]
fn parse_hex_invalid() {
    assert_eq!(parse_hex("nope"), None);
    assert_eq!(parse_hex("#fff"), None);
    assert_eq!(parse_hex(""), None);
}

#[test]
fn parse_hex_edge_cases() {
    assert_eq!(parse_hex("#ABCDEF"), Some(Color::Rgb(0xab, 0xcd, 0xef)));
    assert_eq!(parse_hex("+f+f+f"), Some(Color::Rgb(15, 15, 15)));
    assert_eq!(parse_hex("##fffff"), None);
    assert_eq!(parse_hex("gg0000"), None);
    assert_eq!(parse_hex("éé00"), None);
}

#[test]
fn default_theme_is_dungeon() {
    let t = Theme::default();
    assert_eq!(t.accent, Color::Rgb(0xc0, 0xa1, 0x70));
    assert_eq!(t.bg, Color::Rgb(0x14, 0x12, 0x10));
    assert_eq!(t.error, Color::Rgb(0xce, 0x5b, 0x47));
}

#[test]
fn overrides_apply() {
    let mut t = Theme::default();
    let overrides = ThemeOverrides {
        accent: Some("#ff0000".into()),
        ..Default::default()
    };
    t.apply_overrides(&overrides);
    assert_eq!(t.accent, Color::Rgb(255, 0, 0));
    assert_eq!(t.user_prefix, Color::Rgb(0xc0, 0xa1, 0x70));
}

#[test]
fn invalid_overrides_are_ignored() {
    let mut t = Theme::default();
    let overrides = ThemeOverrides {
        bg: Some("red".into()),
        code_bg: Some("#010203".into()),
        ..Default::default()
    };
    t.apply_overrides(&overrides);
    assert_eq!(t.bg, Color::Rgb(0x14, 0x12, 0x10));
    assert_eq!(t.code_bg, Color::Rgb(1, 2, 3));
}

#[test]
fn named_themes() {
    let default = Theme::named("default");
    assert_eq!(default.accent, Color::Rgb(0xc0, 0xa1, 0x70));

    let light = Theme::named("light");
    assert_eq!(light.bg, Color::Rgb(0xf5, 0xf0, 0xe8));

    let unknown = Theme::named("nonexistent");
    assert_eq!(unknown.accent, Color::Rgb(0xc0, 0xa1, 0x70));
}

#[test]
fn thinking_border_heats_up() {
    let t = Theme::default();
    assert_eq!(t.thinking_border_color(ThinkingLevel::Off), t.border);
    assert_eq!(t.thinking_border_color(ThinkingLevel::Medium), t.accent);
    assert_eq!(t.thinking_border_color(ThinkingLevel::High), Color::Rgb(0xce, 0x5b, 0x47));
}
