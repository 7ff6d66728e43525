use mdedit::editing::{block_containing, commit_edit, document_stats, edit_for_action, insert_at_line_start, outdent, toggle_format, window_title};
use mdedit::editor::split_blocks;
use mdedit::inline::{parse_inline, InlineKind, InlineSpan};
use mdedit::modes::EditMode;
use mdedit::rich::{code_text, heading_text, list_item_text, list_marker, quote_text, table_rows};
use mdedit::toolbar::{is_action_active, ToolbarAction, ToolbarState};

fn kind_name(k: InlineKind) -> &'static str {
    match k {
        InlineKind::Plain => "plain",
        InlineKind::Bold => "bold",
        InlineKind::Italic => "italic",
        InlineKind::Code => "code",
        InlineKind::Link => "link",
    }
}

fn spans(v: Vec<InlineSpan>) -> Vec<(&'static str, String)> {
    v.into_iter().map(|s| (kind_name(s.kind), s.text)).collect()
}

fn sp(k: &'static str, t: &str) -> (&'static str, String) {
    (k, t.to_string())
}

#[test]
fn toggle_format_wraps_and_unwraps() {
    assert_eq!(toggle_format("bold", "**"), "**bold**");
    assert_eq!(toggle_format("**bold**", "**"), "bold");
    assert_eq!(toggle_format("****", "**"), "********");
    assert_eq!(toggle_format("", "`"), "``");
    assert_eq!(toggle_format(&toggle_format("x", "~~"), "~~"), "x");
}

#[test]
fn line_prefixes_toggle_per_line() {
    assert_eq!(insert_at_line_start("a\n# b", "# "), "# a\nb");
    assert_eq!(insert_at_line_start("one\r\ntwo\n", "> "), "> one\n> two");
    assert_eq!(insert_at_line_start("", "- "), "");
}

#[test]
fn outdent_removes_four_spaces() {
    assert_eq!(outdent("    x"), "x");
    assert_eq!(outdent("  x"), "  x");
    assert_eq!(outdent("        x"), "    x");
}

#[test]
fn toolbar_edits() {
    assert_eq!(edit_for_action(ToolbarAction::CodeBlock, "x", false).unwrap(), "```\nx\n```");
    assert_eq!(edit_for_action(ToolbarAction::HorizontalRule, "x", false).unwrap(), "x\n---\n");
    assert_eq!(edit_for_action(ToolbarAction::Table, "x", true).unwrap(), "x\n|  |  |\n|---|---|\n|  |  |\n");
    assert_eq!(edit_for_action(ToolbarAction::Link, "x", true).unwrap(), "[x](url)");
    assert_eq!(edit_for_action(ToolbarAction::Outdent, "    x", false).unwrap(), "x");
    assert!(edit_for_action(ToolbarAction::Bold, "x", false).is_none());
    assert_eq!(edit_for_action(ToolbarAction::Bold, "x", true).unwrap(), "**x**");
    assert_eq!(edit_for_action(ToolbarAction::Italic, "*x*", true).unwrap(), "x");
    assert_eq!(edit_for_action(ToolbarAction::Strike, "x", true).unwrap(), "~~x~~");
    assert_eq!(edit_for_action(ToolbarAction::InlineCode, "x", true).unwrap(), "`x`");
    assert_eq!(edit_for_action(ToolbarAction::OrderedList, "a\nb", true).unwrap(), "1. a\n1. b");
    assert_eq!(edit_for_action(ToolbarAction::CheckList, "a", true).unwrap(), "- [ ] a");
    assert_eq!(edit_for_action(ToolbarAction::Heading, "# a", true).unwrap(), "a");
    assert_eq!(edit_for_action(ToolbarAction::Indent, "a", true).unwrap(), "    a");
    assert!(edit_for_action(ToolbarAction::Heading, "a", false).is_none());
    assert!(edit_for_action(ToolbarAction::Undo, "a", true).is_none());
    assert!(edit_for_action(ToolbarAction::ToggleMode(EditMode::Raw), "a", true).is_none());
}

#[test]
fn toolbar_active_buttons() {
    let st = ToolbarState { show_outline: true };
    assert!(is_action_active(ToolbarAction::ToggleMode(EditMode::Raw), &st, EditMode::Raw));
    assert!(!is_action_active(ToolbarAction::ToggleMode(EditMode::Preview), &st, EditMode::Raw));
    assert!(is_action_active(ToolbarAction::ToggleOutline, &st, EditMode::Raw));
    assert!(!is_action_active(ToolbarAction::Bold, &st, EditMode::Raw));
}

#[test]
fn commit_edit_replaces_the_block_lines() {
    assert_eq!(commit_edit("a\nb\nc\nd", 1, 2, "X"), "a\nX\nd");
    assert_eq!(commit_edit("a\nb", 5, 6, "X"), "a\nb");
    assert_eq!(commit_edit("a\nb\n", 0, 0, "Z\nY"), "Z\nY\nb");
    assert_eq!(commit_edit("a\nb", 1, 9, "Q"), "a\nQ");
}

#[test]
fn window_titles() {
    assert_eq!(window_title(Some("a.md"), true), "a.md * - mdedit");
    assert_eq!(window_title(Some("a.md"), false), "a.md - mdedit");
    assert_eq!(window_title(None, false), "未命名 - mdedit");
}

#[test]
fn inline_spans_of_mixed_markup() {
    let v = spans(parse_inline("a **b** *c* `d` [e](f) g"));
    assert_eq!(v, vec![
        sp("plain", "a "), sp("bold", "b"), sp("plain", " "), sp("italic", "c"), sp("plain", " "),
        sp("code", "d"), sp("plain", " "), sp("link", "e"), sp("plain", " g"),
    ]);
}

#[test]
fn inline_edge_cases() {
    assert_eq!(spans(parse_inline("[x] y")), vec![sp("plain", "[x] y")]);
    assert_eq!(spans(parse_inline("**a*b**")), vec![sp("bold", "a*b")]);
    assert_eq!(spans(parse_inline("[unclosed")), vec![sp("plain", "[unclosed]")]);
    assert_eq!(spans(parse_inline("")), vec![]);
    assert_eq!(spans(parse_inline("plain text")), vec![sp("plain", "plain text")]);
    assert_eq!(spans(parse_inline("`open")), vec![sp("code", "open")]);
    assert_eq!(spans(parse_inline("****")), vec![sp("bold", "")]);
}

#[test]
fn rendered_block_texts() {
    assert_eq!(heading_text("## Title"), "Title");
    assert_eq!(heading_text("#x"), "x");
    assert_eq!(code_text("```rust\nfn a() {}\nlet x;\n```"), "fn a() {}\nlet x;");
    assert_eq!(code_text("```\nunclosed"), "unclosed");
    assert_eq!(code_text(""), "");
    assert_eq!(quote_text("> a\n>b\nc"), "a\nb\nc");
}

#[test]
fn list_items_and_markers() {
    assert_eq!(list_item_text("1. first", true), "first");
    assert_eq!(list_item_text("12. a. b", true), "a. b");
    assert_eq!(list_item_text("no number", true), "no number");
    assert_eq!(list_item_text("- item", false), "item");
    assert_eq!(list_item_text("*+- x", false), "x");
    assert_eq!(list_marker(0, true), "1.");
    assert_eq!(list_marker(9, true), "10.");
    assert_eq!(list_marker(2, false), "\u{2022}");
}

#[test]
fn table_cells_skip_the_separator() {
    let rows = table_rows("| a | b |\n|---|---|\n| 1 | 2 |");
    assert_eq!(rows, vec![vec!["a".to_string(), "b".to_string()], vec!["1".to_string(), "2".to_string()]]);
    let rows = table_rows("x|y");
    assert_eq!(rows, vec![vec!["x".to_string(), "y".to_string()]]);
}

#[test]
fn blocks_found_by_line_and_document_counts() {
    let blocks = split_blocks("# a\n\npara\nmore");
    assert_eq!(block_containing(&blocks, 0), Some(0));
    assert_eq!(block_containing(&blocks, 3), Some(2));
    assert_eq!(block_containing(&blocks, 9), None);
    assert_eq!(document_stats("héllo\nwörld\n"), (12, 2));
    assert_eq!(document_stats(""), (0, 0));
}
