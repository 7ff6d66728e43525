use mdedit::fonts::{font_file_names, font_file_prefix, is_font_file_for};

#[test]
fn known_families_map_to_their_file_prefixes() {
    assert_eq!(font_file_prefix("Microsoft YaHei"), "msyh");
    assert_eq!(font_file_prefix("microsoft yahei"), "msyh");
    assert_eq!(font_file_prefix("LXGW WenKai Mono"), "LXGWWenKaiMono");
    assert_eq!(font_file_prefix("SIMSUN"), "simsun");
    assert_eq!(font_file_prefix("Fira Code"), "FiraCode");
    assert_eq!(font_file_prefix(""), "");
}

#[test]
fn exact_font_file_names_come_in_extension_order() {
    assert_eq!(font_file_names("msyh"), vec!["msyh.ttf".to_string(), "msyh.ttc".to_string(), "msyh.otf".to_string()]);
}

#[test]
fn font_files_match_by_lowercase_prefix_and_extension() {
    assert!(is_font_file_for("MSYH.TTC", "msyh"));
    assert!(is_font_file_for("msyhbd.ttf", "msyh"));
    assert!(is_font_file_for("FiraCode-Regular.otf", "Fira Code"));
    assert!(!is_font_file_for("msyh.fon", "msyh"));
    assert!(!is_font_file_for("simsun.ttc", "msyh"));
}
