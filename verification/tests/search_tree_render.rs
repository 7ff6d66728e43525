use mdedit::file_tree::{empty_area_action, row_action, DirEntryInfo, FileNode, FileTreeAction, FileTreeState, MenuEntry};
use mdedit::renderer::{blocks_from_events, parse_blocks, Block, MdEvent};
use mdedit::search::{find_matches, line_match_label, SearchBarState, SearchTreeState};

fn file(name: &str, path: &str, content: Option<&str>) -> DirEntryInfo {
    DirEntryInfo {
        name: name.to_string(),
        path: path.to_string(),
        is_dir: false,
        children: Vec::new(),
        content: content.map(|c| c.to_string()),
    }
}

fn dir(name: &str, path: &str, children: Vec<DirEntryInfo>) -> DirEntryInfo {
    DirEntryInfo { name: name.to_string(), path: path.to_string(), is_dir: true, children, content: None }
}

fn sample() -> DirEntryInfo {
    dir("notes", "/n", vec![
        file("b10.md", "/n/b10.md", Some("alpha\nBeta line\n")),
        file("b2.md", "/n/b2.md", Some("nothing")),
        dir("sub", "/n/sub", vec![file("a.markdown", "/n/sub/a.markdown", Some("beta"))]),
        file("c.txt", "/n/c.txt", Some("beta")),
        file(".hidden.md", "/n/.hidden.md", Some("beta")),
        dir("markdown-theme", "/n/markdown-theme", vec![]),
    ])
}

fn rows(st: &FileTreeState) -> Vec<(usize, String)> {
    st.flat_items().iter().map(|r| (r.depth, r.name.clone())).collect()
}

#[test]
fn file_nodes_sort_folders_first_in_natural_order() {
    let node = FileNode::from_dir(&sample());
    let names: Vec<String> = node.children.iter().map(|c| c.name.clone()).collect();
    assert_eq!(names, vec!["sub", "b2.md", "b10.md"]);
    assert!(!node.expanded);
    assert_eq!(node.children[0].children[0].name, "a.markdown");
}

#[test]
fn tree_rows_follow_expansion() {
    let mut st = FileTreeState::new();
    st.set_data_dir(&sample());
    assert_eq!(st.data_dir.as_deref(), Some("/n"));
    assert_eq!(rows(&st), vec![(0, "notes".to_string())]);
    st.toggle_expand(0);
    assert_eq!(rows(&st), vec![(0, "notes".to_string()), (1, "sub".to_string()), (1, "b2.md".to_string()), (1, "b10.md".to_string())]);
    st.expand_all();
    assert_eq!(rows(&st).len(), 5);
    assert_eq!(rows(&st)[2], (2, "a.markdown".to_string()));
    st.collapse_all();
    assert_eq!(rows(&st), vec![(0, "notes".to_string())]);
    st.toggle_expand(7);
    assert_eq!(rows(&st).len(), 1);
}

#[test]
fn toggling_a_folder_twice_restores_the_rows() {
    let mut st = FileTreeState::new();
    st.set_data_dir(&sample());
    st.toggle_expand(0);
    let before = rows(&st);
    st.toggle_expand(1);
    assert_eq!(rows(&st).len(), 5);
    assert_eq!(rows(&st)[..2], before[..2]);
    st.toggle_expand(1);
    assert_eq!(rows(&st), before);
    st.expand_all();
    st.collapse_all();
    let collapsed = rows(&st);
    st.collapse_all();
    assert_eq!(rows(&st), collapsed);
}

#[test]
fn clicking_rows_selects_and_opens_files() {
    let mut st = FileTreeState::new();
    st.set_data_dir(&sample());
    st.toggle_expand(0);
    assert_eq!(st.click_row(1), None);
    assert_eq!(st.selected_path.as_deref(), Some("/n/sub"));
    assert_eq!(st.click_row(2), Some("/n/b2.md".to_string()));
    assert_eq!(st.selected_path.as_deref(), Some("/n/b2.md"));
    assert_eq!(st.click_row(99), None);
    st.set_clipboard("/n/b2.md".to_string(), false, true);
    assert!(st.clipboard_is_cut);
    assert_eq!(st.clipboard_path.as_deref(), Some("/n/b2.md"));
}

fn code(a: FileTreeAction) -> (u8, String) {
    match a {
        FileTreeAction::Idle => (0, String::new()),
        FileTreeAction::NewFile(p) => (1, p),
        FileTreeAction::NewFolder(p) => (2, p),
        FileTreeAction::Delete(p) => (3, p),
        FileTreeAction::Rename(p) => (4, p),
        FileTreeAction::Refresh => (5, String::new()),
        FileTreeAction::Cut(p) => (6, p),
        FileTreeAction::Copy(p) => (7, p),
        FileTreeAction::Paste(p) => (8, p),
        FileTreeAction::ImportMarkdown(p) => (9, p),
        FileTreeAction::SearchContent => (10, String::new()),
        FileTreeAction::OpenAiChat => (11, String::new()),
    }
}

#[test]
fn context_menu_actions() {
    assert_eq!(code(row_action(MenuEntry::NewFile, true, "/n/sub", Some("/n"))), (1, "/n/sub".to_string()));
    assert_eq!(code(row_action(MenuEntry::NewFile, false, "/n/a.md", Some("/n"))), (1, "/n".to_string()));
    assert_eq!(code(row_action(MenuEntry::Paste, false, "/a.md", None)), (0, String::new()));
    assert_eq!(code(row_action(MenuEntry::Delete, false, "/n/a.md", Some("/n"))), (3, "/n/a.md".to_string()));
    assert_eq!(code(row_action(MenuEntry::Cut, true, "/n/sub", Some("/n"))), (6, "/n/sub".to_string()));
    assert_eq!(code(row_action(MenuEntry::SearchContent, true, "/n", None)), (10, String::new()));
    assert_eq!(code(empty_area_action(MenuEntry::NewFolder, Some("/n"))), (2, "/n".to_string()));
    assert_eq!(code(empty_area_action(MenuEntry::NewFolder, None)), (0, String::new()));
    assert_eq!(code(empty_area_action(MenuEntry::Refresh, None)), (5, String::new()));
}

#[test]
fn search_bar_matches() {
    assert_eq!(find_matches("Hello hello HELLO", "hello", false, false), vec![(0, 5), (6, 11), (12, 17)]);
    assert_eq!(find_matches("Hello hello HELLO", "hello", true, false), vec![(6, 11)]);
    assert_eq!(find_matches("cat concat cat", "cat", true, true), vec![(0, 3), (11, 14)]);
    assert_eq!(find_matches("a.b axb", "a.b", true, false), vec![(0, 3)]);
}

#[test]
fn search_bar_navigation_and_replacing() {
    let mut bar = SearchBarState::new();
    bar.query = "ab".to_string();
    bar.count_matches("ab Ab ab");
    assert_eq!(bar.total_matches, 3);
    bar.next_match();
    bar.next_match();
    assert_eq!(bar.current_match, 2);
    bar.next_match();
    assert_eq!(bar.current_match, 0);
    bar.prev_match();
    assert_eq!(bar.current_match, 2);
    bar.replace_text = "X".to_string();
    assert_eq!(bar.replace_current("ab Ab ab").unwrap(), "ab Ab X");
    bar.current_match = 7;
    assert_eq!(bar.replace_current("ab Ab ab").unwrap(), "ab Ab X");
    assert_eq!(bar.replace_all("ab Ab ab").unwrap(), "X X X");
    bar.case_sensitive = true;
    assert_eq!(bar.replace_all("ab Ab ab").unwrap(), "X Ab X");
    assert!(bar.replace_all("zzz").is_none());
    bar.query = String::new();
    assert!(bar.replace_current("ab").is_none());
    bar.count_matches("ab");
    assert_eq!(bar.total_matches, 0);
}

#[test]
fn search_labels() {
    assert_eq!(line_match_label(0, "abc"), "1: abc");
    let long = "x".repeat(70);
    assert_eq!(line_match_label(4, &long), format!("5: {}...", "x".repeat(60)));
    let wide = format!("a{}", "中".repeat(20));
    assert_eq!(line_match_label(0, &wide), format!("1: a{}...", "中".repeat(19)));
    assert_eq!(line_match_label(1, &"x".repeat(60)), format!("2: {}", "x".repeat(60)));
}

#[test]
fn search_panel_finds_lines_in_markdown_files() {
    let mut st = SearchTreeState::new();
    st.search("beta", &vec![sample()]);
    assert!(!st.searching);
    let found: Vec<(String, Vec<usize>)> = st
        .results
        .iter()
        .map(|r| (r.file_path.clone(), r.lines.iter().map(|l| l.line_number).collect()))
        .collect();
    assert_eq!(found, vec![("/n/b10.md".to_string(), vec![1]), ("/n/sub/a.markdown".to_string(), vec![0])]);
    st.search("", &vec![sample()]);
    assert!(st.results.is_empty());
}

fn block_names(v: Vec<Block>) -> Vec<String> {
    v.into_iter()
        .map(|b| match b {
            Block::Heading { level, text } => format!("h{}:{}", level, text),
            Block::Paragraph { text } => format!("p:{}", text),
            Block::CodeBlock { lang, code } => format!("code:{}:{}", lang, code),
            Block::Quote { text } => format!("quote:{}", text),
            Block::List { ordered, items } => format!("list:{}:{}", ordered, items.join("|")),
            Block::Rule => "rule".to_string(),
        })
        .collect()
}

#[test]
fn blocks_from_an_event_stream() {
    let events = vec![
        MdEvent::StartHeading(2),
        MdEvent::Text("T".to_string()),
        MdEvent::EndHeading,
        MdEvent::StartParagraph,
        MdEvent::Text("a".to_string()),
        MdEvent::Code("c".to_string()),
        MdEvent::SoftBreak,
        MdEvent::Text("b".to_string()),
        MdEvent::EndParagraph,
        MdEvent::StartList(Some(1)),
        MdEvent::StartItem,
        MdEvent::Text("x".to_string()),
        MdEvent::EndItem,
        MdEvent::EndList,
        MdEvent::StartCodeBlock(None),
        MdEvent::Text("k\n".to_string()),
        MdEvent::EndCodeBlock,
        MdEvent::Other,
        MdEvent::Rule,
    ];
    assert_eq!(block_names(blocks_from_events(&events)), vec![
        "h2:T", "p:a`c`\nb", "list:true:x", "code::k\n", "rule",
    ]);
}

#[test]
fn blocks_of_markdown() {
    let v = block_names(parse_blocks("# Title\n\nSome *text*.\n\n```rs\ncode\n```\n\n---\n\n- a\n- b\n"));
    assert_eq!(v, vec!["h1:Title", "p:Some text.", "code:rs:code\n", "rule", "list:false:a|b"]);
}

#[test]
fn toggling_the_search_bar_clears_it_when_shown() {
    let mut bar = SearchBarState::new();
    bar.query = "old".to_string();
    bar.total_matches = 3;
    bar.toggle_visible();
    assert!(bar.visible);
    assert_eq!(bar.query, "");
    assert_eq!(bar.total_matches, 0);
    bar.query = "kept".to_string();
    bar.toggle_visible();
    assert!(!bar.visible);
    assert_eq!(bar.query, "kept");
}
