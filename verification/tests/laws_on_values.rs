use std::cmp::Ordering;
use mdedit::config::parse_ini;
use mdedit::document::Document;
use mdedit::editing::{commit_edit, toggle_format};
use mdedit::editor::split_blocks;
use mdedit::natord::natord_compare;
use mdedit::search::SearchBarState;

#[test]
fn an_edit_and_its_recorded_reverse_restore_the_text() {
    let mut d = Document::new();
    d.apply_edit(0, 0, "héllo wörld");
    let before = d.content().to_string();
    d.apply_edit(7, 5, "there");
    let op = d.history.undo().unwrap();
    let (offset, old_text, new_text) = (op.offset, op.old_text.clone(), op.new_text.clone());
    d.apply_edit(offset, new_text.len(), &old_text);
    assert_eq!(d.content(), before);
}

#[test]
fn undo_then_redo_hands_back_the_reverse_edit() {
    let mut d = Document::new();
    d.apply_edit(0, 0, "abc");
    let undone = d.history.pop_undo().unwrap();
    let redone = d.history.pop_redo().unwrap();
    assert_eq!(redone.offset, undone.offset);
    assert_eq!(redone.old_text, undone.new_text);
    assert_eq!(redone.new_text, undone.old_text);
}

#[test]
fn natural_order_is_reflexive_and_antisymmetric() {
    let names = ["a", "A10", "a2", "b", "10", "9", "x01y", "x1y", "Ärger", ""];
    for a in names {
        assert_eq!(natord_compare(a, a), Ordering::Equal);
        for b in names {
            assert_eq!(natord_compare(b, a), natord_compare(a, b).reverse());
        }
    }
}

#[test]
fn toggling_twice_restores_and_unwraps() {
    for t in ["x", "bold text", "a*b"] {
        for m in ["**", "*", "~~", "`"] {
            if !(t.starts_with(m) && t.ends_with(m) && t.len() > 2 * m.len()) {
                assert_eq!(toggle_format(&toggle_format(t, m), m), t);
            }
        }
    }
    assert_eq!(toggle_format("**x**", "**"), "x");
}

#[test]
fn previous_after_next_returns_to_the_same_match() {
    let mut bar = SearchBarState::new();
    bar.total_matches = 4;
    for start in 0..4 {
        bar.current_match = start;
        bar.next_match();
        bar.prev_match();
        assert_eq!(bar.current_match, start);
        bar.prev_match();
        bar.next_match();
        assert_eq!(bar.current_match, start);
    }
}

#[test]
fn a_written_setting_line_reads_back() {
    let t = parse_ini("theme=dark");
    assert_eq!(t.get("theme").unwrap(), "dark");
    let t = parse_ini("empty=");
    assert_eq!(t.get("empty").unwrap(), "");
}

#[test]
fn a_written_settings_file_reads_back_with_the_last_key_winning() {
    let lines = vec!["window_x=10", "maximized=false", "theme=light", "window_x=20"];
    let t = parse_ini(&lines.join("\n"));
    assert_eq!(t.len(), 3);
    assert_eq!(t.get("window_x").unwrap(), "20");
    assert_eq!(t.get("maximized").unwrap(), "false");
    assert_eq!(t.get("theme").unwrap(), "light");
}

#[test]
fn committing_an_unchanged_block_keeps_the_document() {
    let text = "# T\n\npara\nmore\n- a\n- b";
    for b in split_blocks(text) {
        assert_eq!(commit_edit(text, b.start_line, b.end_line, &b.source), text);
    }
    let crlf = "a\r\nb\n";
    for b in split_blocks(crlf) {
        assert_eq!(commit_edit(crlf, b.start_line, b.end_line, &b.source), "a\nb");
    }
}
