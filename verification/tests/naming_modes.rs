use mdedit::modes::{EditMode, ThemeMode};
use mdedit::naming::{name_parts, new_file_name, new_folder_name, paste_name};

fn names(v: &[&str]) -> Vec<String> {
    v.iter().map(|s| s.to_string()).collect()
}

#[test]
fn new_file_names_count_up() {
    assert_eq!(new_file_name(&names(&[])), (0, "新建文件.md".to_string()));
    assert_eq!(new_file_name(&names(&["新建文件.md", "新建文件1.md"])), (2, "新建文件2.md".to_string()));
    assert_eq!(new_file_name(&names(&["新建文件1.md"])), (0, "新建文件.md".to_string()));
}

#[test]
fn a_free_name_is_found_however_many_are_taken() {
    let mut taken = vec!["新建文件.md".to_string()];
    for k in 1..=5 {
        taken.push(format!("新建文件{}.md", k));
    }
    assert_eq!(new_file_name(&taken), (6, "新建文件6.md".to_string()));
    let taken = names(&["x(1)", "x", "x(2)"]);
    assert_eq!(paste_name("x", false, &taken), (3, "x(3)".to_string()));
}

#[test]
fn new_folder_names_count_up() {
    assert_eq!(new_folder_name(&names(&["新建文件夹"])), (1, "新建文件夹1".to_string()));
}

#[test]
fn paste_names_avoid_clashes() {
    assert_eq!(paste_name("a.md", false, &names(&["a.md"])).1, "a(1).md");
    assert_eq!(paste_name("a.md", true, &names(&["a.md"])).1, "a.md");
    assert_eq!(paste_name("b.md", false, &names(&["a.md"])).1, "b.md");
    assert_eq!(paste_name(".bashrc", false, &names(&[".bashrc"])).1, ".bashrc(1)");
    assert_eq!(paste_name("a.tar.gz", false, &names(&["a.tar.gz", "a.tar(1).gz"])).1, "a.tar(2).gz");
    assert_eq!(paste_name("dir", false, &names(&["dir"])).1, "dir(1)");
}

#[test]
fn file_stems_and_extensions() {
    assert_eq!(name_parts("a.b.c"), ("a.b".to_string(), Some("c".to_string())));
    assert_eq!(name_parts("noext"), ("noext".to_string(), None));
    assert_eq!(name_parts("a."), ("a".to_string(), Some("".to_string())));
    assert_eq!(name_parts(".bashrc"), (".bashrc".to_string(), None));
    assert_eq!(name_parts(".."), ("..".to_string(), None));
}

#[test]
fn theme_and_mode_names() {
    assert!(ThemeMode::from_name("dark") == ThemeMode::Dark);
    assert!(ThemeMode::from_name("auto") == ThemeMode::Auto);
    assert!(ThemeMode::from_name("light") == ThemeMode::Light);
    assert!(ThemeMode::from_name("") == ThemeMode::Light);
    assert_eq!(ThemeMode::Dark.name(), "dark");
    for m in [ThemeMode::Light, ThemeMode::Dark, ThemeMode::Auto] {
        assert!(ThemeMode::from_name(&m.name()) == m);
    }
    assert!(EditMode::from_name("raw") == EditMode::Raw);
    assert!(EditMode::from_name("preview") == EditMode::Preview);
    assert!(EditMode::from_name("x") == EditMode::Preview);
    for m in [EditMode::Raw, EditMode::Preview] {
        assert!(EditMode::from_name(&m.name()) == m);
        assert!(m.toggled().toggled() == m);
    }
}

#[test]
fn effective_theme() {
    assert!(ThemeMode::Auto.effective(true) == ThemeMode::Dark);
    assert!(ThemeMode::Auto.effective(false) == ThemeMode::Light);
    assert!(ThemeMode::Light.effective(true) == ThemeMode::Light);
    assert!(ThemeMode::Dark.effective(false) == ThemeMode::Dark);
}
