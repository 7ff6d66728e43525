use mdedit::cli::{file_argument, option_position, option_value};

fn args(v: &[&str]) -> Vec<String> {
    v.iter().map(|s| s.to_string()).collect()
}

#[test]
fn the_file_argument_skips_options_and_their_values() {
    assert_eq!(file_argument(&args(&["mdedit", "notes.md"])), Some(1));
    assert_eq!(file_argument(&args(&["mdedit", "--setpos", "3840,222", "a.md"])), Some(3));
    assert_eq!(file_argument(&args(&["mdedit", "--reset", "b.md"])), Some(2));
    assert_eq!(file_argument(&args(&["mdedit", "--debug-theme", "dark"])), None);
    assert_eq!(file_argument(&args(&["mdedit", "--setpos", "--reset", "c.md"])), Some(3));
    assert_eq!(file_argument(&args(&["mdedit"])), None);
    assert_eq!(file_argument(&args(&["mdedit", "-x"])), Some(1));
}

#[test]
fn option_values_follow_the_first_occurrence() {
    let a = args(&["mdedit", "--setpos", "10,20", "--setpos", "1,2"]);
    assert_eq!(option_position(&a, "--setpos"), Some(1));
    assert_eq!(option_value(&a, "--setpos"), Some(2));
    assert_eq!(option_position(&a, "--reset"), None);
    let b = args(&["mdedit", "--debug-theme"]);
    assert_eq!(option_position(&b, "--debug-theme"), Some(1));
    assert_eq!(option_value(&b, "--debug-theme"), None);
}
