use grimoire::theme::{load_theme, parse_hex, Color, Theme, ThemeConfig, UiConfig};

fn ui() -> UiConfig {
    UiConfig {
        text: None,
        text_dim: None,
        text_muted: None,
        author: None,
        highlight: None,
        link: None,
        date: None,
        border: None,
        selection: None,
        popup_bg: None,
        popup_border: None,
        normal_bg: None,
        insert_bg: None,
        status_fg: None,
    }
}

#[test]
fn no_configured_theme_uses_terminal_colors() {
    assert_eq!(load_theme(None), Theme::terminal());
}

#[test]
fn selected_theme_resolves_palette_names() {
    let mut roles = ui();
    roles.text = Some("foreground".to_string());
    roles.highlight = Some("accent".to_string());
    roles.author = Some("missing".to_string());
    let config = ThemeConfig {
        colors: vec![
            ("foreground".to_string(), "#123456".to_string()),
            ("accent".to_string(), "#abcdef".to_string()),
        ],
        ui: Some(roles),
    };
    let theme = load_theme(Some(config));
    assert_eq!(theme.text, Color::Rgb(0x12, 0x34, 0x56));
    assert_eq!(theme.highlight, Color::Rgb(0xab, 0xcd, 0xef));
    assert_eq!(theme.author, Color::Reset);
}

#[test]
fn hex_colors() {
    assert_eq!(parse_hex("#FFffFF"), Some(Color::Rgb(255, 255, 255)));
    assert_eq!(parse_hex("#+f0000"), Some(Color::Rgb(15, 0, 0)));
    assert_eq!(parse_hex("123456"), None);
    assert_eq!(parse_hex("#12345"), None);
    assert_eq!(parse_hex("#12345g"), None);
}
