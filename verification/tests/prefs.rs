use mdedit::color::{parse_border_color, parse_color, CssColor};
use mdedit::modes::ThemeMode;
use mdedit::prefs::{config_font_prefs, note_font_prefs, note_theme_colors, ui_theme_colors};

const GREY: (u8, u8, u8, Option<u8>) = (160, 160, 160, None);

#[test]
fn note_theme_fields_map_to_colours_with_grey_fallback() {
    let prefs = r##"{"noteThemeLight": {"noteH1Color": "#ff0000", "noteH4Color": "#00ff0080",
        "noteLinkColor": "#abc", "noteQuoteTextColor": "blue",
        "noteLinkUnderline": "none", "noteCodeStyle": "mac"}}"##;
    let c = note_theme_colors(prefs, ThemeMode::Light).unwrap().unwrap();
    assert_eq!(c.headings[0], (255, 0, 0, None));
    assert_eq!(c.headings[1], GREY);
    assert_eq!(c.headings[3], (0, 255, 0, Some(0x80)));
    assert_eq!(c.headings[4], c.headings[3]);
    assert_eq!(c.headings[5], c.headings[3]);
    assert_eq!(c.link, (0xaa, 0xbb, 0xcc, None));
    assert_eq!(c.quote_text, GREY);
    assert!(!c.link_underline);
    assert_eq!(c.code_style, "mac");
    let auto = note_theme_colors(prefs, ThemeMode::Auto).unwrap().unwrap();
    assert_eq!(auto.link, c.link);
    assert!(note_theme_colors(prefs, ThemeMode::Dark).unwrap().is_none());
    assert!(note_theme_colors("not json", ThemeMode::Light).unwrap().is_none());
    let bare = note_theme_colors(r#"{"noteThemeDark": {}}"#, ThemeMode::Dark).unwrap().unwrap();
    assert!(bare.link_underline);
    assert_eq!(bare.code_style, "");
}

#[test]
fn a_colour_cut_inside_a_character_is_an_error() {
    let prefs = r##"{"noteThemeLight": {"noteH2Color": "#€"}}"##;
    assert_eq!(note_theme_colors(prefs, ThemeMode::Light).err(), Some("#€".to_string()));
    let ui = r##"{"themeDark": {"tableBgColor": "#€"}}"##;
    assert_eq!(ui_theme_colors(Some(ui), ThemeMode::Dark).err(), Some("#€".to_string()));
}

#[test]
fn interface_colours_come_from_the_preferences_or_the_palette() {
    let none = ui_theme_colors(None, ThemeMode::Dark).unwrap();
    assert_eq!(none.menu_bg, (0x00, 0x2B, 0x36, None));
    let missing = ui_theme_colors(Some(r#"{"themeLight": {}}"#), ThemeMode::Dark).unwrap();
    assert_eq!(missing.menu_bg, (0x00, 0x2B, 0x36, None));
    let prefs = r##"{"themeDark": {"appBgColor": "#010203", "tableEvenRowBgColor": "#0a0b0c0d"}}"##;
    let c = ui_theme_colors(Some(prefs), ThemeMode::Dark).unwrap();
    assert_eq!(c.menu_bg, (1, 2, 3, None));
    assert_eq!(c.table_even_row_bg, (10, 11, 12, Some(13)));
    assert_eq!(c.text_color, GREY);
}

#[test]
fn font_preferences_take_the_string_names_and_the_bold_flag() {
    let prefs = r#"{"note": {"fontFamily": ["A", 1, "B"], "fontBold": "bold"},
        "config": {"defaultFontFamily": "X", "defaultFontBold": "normal"}}"#;
    let n = note_font_prefs(prefs);
    assert_eq!(n.family, vec!["A".to_string(), "B".to_string()]);
    assert!(n.bold);
    let c = config_font_prefs(prefs);
    assert!(c.family.is_empty());
    assert!(!c.bold);
    assert!(note_font_prefs("{").family.is_empty());
}

#[test]
fn rgba_alpha_must_read_as_a_number() {
    assert!(parse_color("rgba(1,2,3, abc)").is_none());
    assert!(matches!(parse_color("rgba(1,2,3,.5)"), Some(CssColor::Rgba(1, 2, 3, _))));
    assert!(matches!(parse_color("rgba(1,2,3,1e-1)"), Some(CssColor::Rgba(1, 2, 3, _))));
    assert!(matches!(parse_color("rgba(1,2,3, -INF)"), Some(CssColor::Rgba(1, 2, 3, _))));
    assert!(parse_color("rgba(1,2,3,1e)").is_none());
    assert!(parse_color("rgba(1,2,3,.)").is_none());
    assert!(parse_color("rgba(1,2,3,1.2.3)").is_none());
    match parse_border_color("1px solid rgba(1,2,3,x) #010203") {
        Some(CssColor::Rgb(r, g, b)) => assert_eq!((r, g, b), (1, 2, 3)),
        _ => panic!("expected the hex colour"),
    }
}
