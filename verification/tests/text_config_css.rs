use mdedit::config::parse_ini;
use mdedit::css::{find_rule, get_prop, parse_css, parse_properties, read_until, remove_comments, skip_whitespace_and_comments};
use mdedit::table::Table;
use mdedit::text::{chars_of, replace_literal, split_char, split_lines};

fn s(v: &[char]) -> String {
    v.iter().collect()
}

fn get<'a>(t: &'a Table<String>, k: &str) -> Option<&'a String> {
    t.get(k)
}

#[test]
fn split_lines_drops_terminators() {
    let cs = chars_of("a\r\nb\n\nc\n");
    let ls: Vec<String> = split_lines(&cs).iter().map(|l| s(l)).collect();
    assert_eq!(ls, vec!["a".to_string(), "b".to_string(), "".to_string(), "c".to_string()]);
}

#[test]
fn split_char_keeps_empty_pieces() {
    let cs = chars_of("a;;b;");
    let ps: Vec<String> = split_char(&cs, ';').iter().map(|p| s(p)).collect();
    assert_eq!(ps, vec!["a", "", "b", ""]);
}

#[test]
fn replace_literal_is_left_to_right() {
    let out = replace_literal(&chars_of("aaaa"), &chars_of("aa"), &chars_of("b"));
    assert_eq!(s(&out), "bb");
    let out = replace_literal(&chars_of("x!importanty"), &chars_of("!important"), &[]);
    assert_eq!(s(&out), "xy");
}

#[test]
fn ini_lines_are_read_trimmed_and_later_wins() {
    let t = parse_ini("a = 1\n# comment\n\nb=2=3\nnoeq\n a=4 \n");
    assert_eq!(t.len(), 2);
    assert_eq!(get(&t, "a").unwrap(), "4");
    assert_eq!(get(&t, "b").unwrap(), "2=3");
    assert!(get(&t, "noeq").is_none());
}

#[test]
fn ini_reads_saved_settings() {
    let t = parse_ini("window_x=10\nmaximized=true\ntheme=dark\nedit_mode=raw");
    assert_eq!(get(&t, "maximized").unwrap(), "true");
    assert_eq!(get(&t, "theme").unwrap(), "dark");
    assert_eq!(get(&t, "edit_mode").unwrap(), "raw");
    assert_eq!(get(&t, "window_x").unwrap(), "10");
}

#[test]
fn comments_are_removed() {
    assert_eq!(remove_comments("a/* x */b/* unclosed"), "ab");
    assert_eq!(remove_comments("a / b * c"), "a / b * c");
}

#[test]
fn properties_are_lowercased_and_cleaned() {
    let p = parse_properties("Color: Red !important; /* c */ padding : 2px;;bad;:x");
    assert_eq!(p.len(), 2);
    assert_eq!(get(&p, "color").unwrap(), "Red");
    assert_eq!(get(&p, "padding").unwrap(), "2px");
}

#[test]
fn skipping_blanks_and_reading_up_to_a_delimiter() {
    let cs = chars_of("  /* x */ a{b}");
    assert_eq!(skip_whitespace_and_comments(&cs, 0), 10);
    let (text, next) = read_until(&cs, 10, '{');
    assert_eq!(s(&text), "a");
    assert_eq!(next, 12);
    let (body, end) = read_until(&cs, 12, '}');
    assert_eq!(s(&body), "b");
    assert_eq!(end, 14);
}

#[test]
fn css_rules_merge_by_selector() {
    let rules = parse_css(".a { color: red; } /* c */ .a { background-color: #fff } h1{border-bottom: 1px solid #eee}");
    assert_eq!(rules.len(), 2);
    assert_eq!(get_prop(&rules, ".a", "color").unwrap(), "red");
    assert_eq!(get_prop(&rules, ".a", "background-color").unwrap(), "#fff");
    assert_eq!(get_prop(&rules, "h1", "border-bottom").unwrap(), "1px solid #eee");
    assert!(get_prop(&rules, "h2", "color").is_none());
    assert!(get_prop(&rules, ".a", "margin").is_none());
}

#[test]
fn css_stops_at_an_empty_selector() {
    let rules = parse_css("p { color: blue } { color: red } q { color: green }");
    assert_eq!(rules.len(), 1);
    assert_eq!(get_prop(&rules, "p", "color").unwrap(), "blue");
}

#[test]
fn find_rule_prefers_exact_then_shortest() {
    let rules = parse_css(".vditor-reset h1 { color: red } h1 { color: blue } .x pre { color: green }");
    let r = find_rule(&rules, "h1").unwrap();
    assert_eq!(get(&r.properties, "color").unwrap(), "blue");
    let r = find_rule(&rules, "1").unwrap();
    assert_eq!(get(&r.properties, "color").unwrap(), "blue");
    let r = find_rule(&rules, "pre").unwrap();
    assert_eq!(get(&r.properties, "color").unwrap(), "green");
    assert!(find_rule(&rules, "table").is_none());
}
