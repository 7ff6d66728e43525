use mdedit::color::{parse_color, CssColor};
use mdedit::css::parse_css;
use mdedit::editor::{split_blocks, BlockKind};
use mdedit::modes::ThemeMode;
use mdedit::palette::{extra_palette, note_palette, ui_palette};
use mdedit::sheet::sheet_colors;

fn rgb(c: Option<CssColor>) -> Option<(u8, u8, u8)> {
    match c {
        Some(CssColor::Rgb(r, g, b)) => Some((r, g, b)),
        _ => None,
    }
}

#[test]
fn eight_digit_hex_colours_carry_their_alpha() {
    match parse_color("#11223344") {
        Some(CssColor::HexAlpha(r, g, b, a)) => assert_eq!((r, g, b, a), (0x11, 0x22, 0x33, 0x44)),
        _ => panic!("expected a colour with alpha"),
    }
    assert_eq!(rgb(parse_color("#abc")), Some((0xaa, 0xbb, 0xcc)));
    assert!(parse_color("#1122334").is_none());
    assert!(parse_color("#112233zz").is_none());
}

#[test]
fn heading_levels_stop_at_six_however_many_hashes() {
    for n in [1usize, 3, 6, 7, 255, 256, 257, 300] {
        let line = format!("{} t", "#".repeat(n));
        let blocks = split_blocks(&line);
        assert_eq!(blocks.len(), 1);
        match blocks[0].kind {
            BlockKind::Heading(l) => assert_eq!(l as usize, n.min(6)),
            _ => panic!("expected a heading"),
        }
    }
}

#[test]
fn the_interface_palette_follows_the_theme_mode() {
    let dark = ui_palette(ThemeMode::Dark);
    assert_eq!(dark.menu_bg, (0x00, 0x2B, 0x36));
    assert_eq!(dark.content_term_bg, (0, 0, 0));
    let light = ui_palette(ThemeMode::Light);
    assert_eq!(light.menu_bg, (0xF5, 0xF5, 0xF5));
    assert_eq!(light.content_bg, (0xFF, 0xFF, 0xFF));
    let auto = ui_palette(ThemeMode::Auto);
    assert_eq!(auto.text_active_color, light.text_active_color);
    assert_eq!(auto.table_even_row_bg, (0xF9, 0xF9, 0xF9));
}

#[test]
fn sheet_colours_come_from_their_rules() {
    let css = ".vditor-reset { color: #333333; background-color: rgb(1, 2, 3); }\n\
               .vditor-reset h1 { border-bottom: 1px solid #eeeeee; }\n\
               .vditor-reset pre { background-color: #11223344; }\n\
               .vditor-reset a { color: red; }";
    let rules = parse_css(css);
    let c = sheet_colors(&rules);
    assert_eq!(rgb(c.text), Some((0x33, 0x33, 0x33)));
    assert_eq!(rgb(c.background), Some((1, 2, 3)));
    assert_eq!(rgb(c.h1_border), Some((0xee, 0xee, 0xee)));
    assert!(c.h2_border.is_none());
    assert!(matches!(c.pre_background, Some(CssColor::HexAlpha(0x11, 0x22, 0x33, 0x44))));
    assert!(c.pre_text.is_none());
    assert!(c.link.is_none());
    assert!(c.hr.is_none());
    assert!(c.th_text.is_none());
}

#[test]
fn the_note_and_extra_palettes_follow_the_mode() {
    let light = note_palette(false);
    assert_eq!(light.background, (249, 249, 245));
    assert_eq!(light.link, (91, 164, 229));
    let dark = note_palette(true);
    assert_eq!(dark.text, (205, 214, 244));
    assert_eq!(dark.rule, (88, 91, 112));
    assert_eq!(extra_palette(ThemeMode::Dark).edit_disabled_color, (0xFF, 0xFF, 0xFF, 0x61));
    assert_eq!(extra_palette(ThemeMode::Dark).info_title_btn_hover_bg_color, (0, 0, 0, 0));
    assert_eq!(extra_palette(ThemeMode::Auto).active_color, (0x00, 0x7A, 0xCC, 0xFF));
}
