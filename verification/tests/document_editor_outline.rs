use std::cmp::Ordering;
use std::path::PathBuf;
use mdedit::document::buffer::Buffer;
use mdedit::document::history::{EditOp, History};
use mdedit::document::Document;
use mdedit::editor::{is_table_separator, split_blocks, BlockKind};
use mdedit::natord::natord_compare;
use mdedit::outline::{extract_outline, NumberFormat, OutlineItem, OutlineState};

fn op(offset: usize, old: &str, new: &str) -> EditOp {
    EditOp { offset, old_text: old.to_string(), new_text: new.to_string() }
}

#[test]
fn buffer_edits_by_byte_offsets() {
    let mut b = Buffer::new("héllo world".to_string());
    assert_eq!(b.len(), 12);
    assert_eq!(b.slice(0, 3), "hé");
    b.replace(7, 5, "there");
    assert_eq!(b.as_str(), "héllo there");
    b.replace(0, 0, ">");
    assert_eq!(b.as_str(), ">héllo there");
    b.as_mut_string().push('!');
    assert_eq!(b.as_str(), ">héllo there!");
}

#[test]
fn history_moves_edits_between_stacks() {
    let mut h = History::new();
    assert!(h.undo().is_none());
    assert!(h.pop_redo().is_none());
    h.push(op(0, "a", "b"));
    h.push(op(1, "c", "d"));
    // Peeking at the last edit also records its reverse for redo.
    assert_eq!(h.undo().unwrap().offset, 1);
    let undone = h.pop_undo().unwrap();
    assert_eq!(undone.new_text, "d");
    let redone = h.pop_redo().unwrap();
    assert_eq!(redone.old_text, "d");
    assert_eq!(redone.new_text, "c");
    let redone = h.pop_redo().unwrap();
    assert_eq!(redone.offset, 1);
    assert!(h.pop_redo().is_none());
    // A new edit clears what could be redone.
    assert!(h.pop_undo().is_some());
    h.push(op(5, "x", "y"));
    assert!(h.pop_redo().is_none());
    assert_eq!(h.pop_undo().unwrap().offset, 5);
}

#[test]
fn document_edits_are_recorded() {
    let mut d = Document::from_file(PathBuf::from("n.md"), "abc".to_string());
    assert!(!d.modified);
    d.apply_edit(1, 1, "XY");
    assert_eq!(d.content(), "aXYc");
    assert!(d.modified);
    let last = d.history.undo().unwrap();
    assert_eq!(last.offset, 1);
    assert_eq!(last.old_text, "b");
    assert_eq!(last.new_text, "XY");
    let fresh = Document::new();
    assert_eq!(fresh.content(), "");
    assert!(fresh.path.is_none());
}

fn kinds(content: &str) -> Vec<(usize, usize, String)> {
    split_blocks(content)
        .into_iter()
        .map(|b| {
            let k = match b.kind {
                BlockKind::Heading(l) => format!("h{}", l),
                BlockKind::Paragraph => "p".to_string(),
                BlockKind::CodeBlock(lang) => format!("code:{}", lang),
                BlockKind::Quote => "quote".to_string(),
                BlockKind::List(o) => format!("list:{}", o),
                BlockKind::Table => "table".to_string(),
                BlockKind::Rule => "rule".to_string(),
                BlockKind::Empty => "empty".to_string(),
            };
            (b.start_line, b.end_line, k)
        })
        .collect()
}

#[test]
fn blocks_of_a_document() {
    let text = "# T\n\npara\nmore\n```rs\ncode\n```\n> q\n> r\n- a\n- b\n1. x\n| a | b |\n|---|---|\n| 1 | 2 |\n---\n####### deep";
    let v = kinds(text);
    assert_eq!(v, vec![
        (0, 0, "h1".to_string()),
        (1, 1, "empty".to_string()),
        (2, 3, "p".to_string()),
        (4, 6, "code:rs".to_string()),
        (7, 8, "quote".to_string()),
        (9, 11, "list:false".to_string()),
        (12, 14, "table".to_string()),
        (15, 15, "rule".to_string()),
        (16, 16, "h6".to_string()),
    ]);
    let blocks = split_blocks("a\nb");
    assert_eq!(blocks[0].source, "a\nb");
}

#[test]
fn unclosed_code_block_runs_to_the_end() {
    assert_eq!(kinds("```\nx\ny"), vec![(0, 2, "code:".to_string())]);
}

#[test]
fn table_separators() {
    assert!(is_table_separator("|---|:--:|"));
    assert!(is_table_separator(" | - | "));
    assert!(!is_table_separator("---"));
    assert!(!is_table_separator("| a |"));
}

fn item(level: u8, title: &str, line: usize) -> OutlineItem {
    OutlineItem { level, title: title.to_string(), line }
}

#[test]
fn outline_skips_code_and_empty_titles() {
    let items = extract_outline("# A\n```\n# not\n```\n  ## B\n#\n####### C\n### D");
    let v: Vec<(u8, String, usize)> = items.into_iter().map(|i| (i.level, i.title, i.line)).collect();
    assert_eq!(v, vec![(1, "A".to_string(), 0), (2, "B".to_string(), 4), (3, "D".to_string(), 7)]);
}

#[test]
fn outline_numbers_and_visibility() {
    let items = vec![item(1, "a", 0), item(2, "b", 1), item(2, "c", 2), item(3, "d", 3), item(1, "e", 4), item(3, "f", 5)];
    let mut st = OutlineState::new();
    assert_eq!(st.generate_number(&items, 3), "");
    st.show_numbers = true;
    assert_eq!(st.generate_number(&items, 3), "1.2.1.");
    assert_eq!(st.generate_number(&items, 4), "2.");
    assert_eq!(st.generate_number(&items, 5), "2.1.");
    st.number_format = NumberFormat::Plain;
    assert_eq!(st.generate_number(&items, 2), "1.2");
    st.number_format = NumberFormat::Comma;
    assert_eq!(st.generate_number(&items, 1), "1.1、");
    st.expand_level = 1;
    assert!(st.is_visible(&items, 0));
    assert!(st.is_visible(&items, 1));
    assert!(!st.is_visible(&items, 3));
    assert!(st.is_visible(&items, 5));
    assert_eq!(st.font_weight(1), 700);
    assert_eq!(st.font_weight(2), 600);
    assert_eq!(st.font_weight(4), 400);
}

#[test]
fn natural_order_of_names() {
    assert_eq!(natord_compare("file2", "file10"), Ordering::Less);
    assert_eq!(natord_compare("File", "file"), Ordering::Equal);
    assert_eq!(natord_compare("a", "ab"), Ordering::Less);
    assert_eq!(natord_compare("b", "a10"), Ordering::Greater);
    assert_eq!(natord_compare("x007", "x7"), Ordering::Equal);
    assert_eq!(natord_compare("", ""), Ordering::Equal);
}
