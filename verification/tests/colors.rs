use mdedit::color::{parse_border_color, parse_color, parse_hex_color, parse_u8, CssColor};
use mdedit::text::chars_of;

fn rgb(c: Option<CssColor>) -> Option<(u8, u8, u8)> {
    match c {
        Some(CssColor::Rgb(r, g, b)) => Some((r, g, b)),
        _ => None,
    }
}

#[test]
fn hex_colors() {
    assert_eq!(rgb(parse_color("#fff")), Some((255, 255, 255)));
    assert_eq!(rgb(parse_color("#2995d9")), Some((0x29, 0x95, 0xd9)));
    assert_eq!(rgb(parse_color("  #A0b ")), Some((0xAA, 0x00, 0xbb)));
    assert!(parse_color("#ab").is_none());
    assert!(parse_color("#abcd").is_none());
    assert!(parse_color("#ggg").is_none());
}

#[test]
fn hex_pairs_accept_a_plus_sign_as_from_str_radix_does() {
    assert_eq!(rgb(parse_color("#+a+b+c")), Some((10, 11, 12)));
}

#[test]
fn rgb_and_rgba_colors() {
    assert_eq!(rgb(parse_color(" rgb(1, 2, 3) ")), Some((1, 2, 3)));
    assert!(parse_color("rgb(1,2)").is_none());
    assert!(parse_color("rgb(256,0,0)").is_none());
    assert!(parse_color("rgb(1,2,3").is_none());
    match parse_color("rgba(10,20,30, 0.5)") {
        Some(CssColor::Rgba(r, g, b, a)) => {
            assert_eq!((r, g, b), (10, 20, 30));
            assert_eq!(a, "0.5");
        }
        _ => panic!("expected an rgba colour"),
    }
    assert!(parse_color("red").is_none());
}

#[test]
fn decimal_and_hex_bytes() {
    assert_eq!(parse_u8(&chars_of("255"), 10), Some(255));
    assert_eq!(parse_u8(&chars_of("256"), 10), None);
    assert_eq!(parse_u8(&chars_of("+7"), 10), Some(7));
    assert_eq!(parse_u8(&chars_of("+"), 10), None);
    assert_eq!(parse_u8(&chars_of(""), 10), None);
    assert_eq!(parse_u8(&chars_of("007"), 10), Some(7));
    assert_eq!(parse_u8(&chars_of("ff"), 16), Some(255));
    assert_eq!(parse_u8(&chars_of("-1"), 10), None);
}

#[test]
fn border_color_is_the_first_colour_word() {
    assert_eq!(rgb(parse_border_color("0.2rem solid #2995d9")), Some((0x29, 0x95, 0xd9)));
    assert_eq!(rgb(parse_border_color("1px rgb(1,2,3) #000")), Some((1, 2, 3)));
    assert!(parse_border_color("none").is_none());
    assert!(parse_border_color("").is_none());
}

#[test]
fn preference_colors_with_alpha() {
    assert_eq!(parse_hex_color("#102030"), Some((0x10, 0x20, 0x30, None)));
    assert_eq!(parse_hex_color(" #abc"), Some((0xaa, 0xbb, 0xcc, None)));
    assert_eq!(parse_hex_color("#10203040"), Some((0x10, 0x20, 0x30, Some(0x40))));
    assert_eq!(parse_hex_color("#1020304"), None);
    assert_eq!(parse_hex_color("102030"), None);
    assert_eq!(parse_hex_color("#1020304g"), None);
}
