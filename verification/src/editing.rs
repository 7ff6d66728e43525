//! Edits of the block being edited: inline markers toggled, line prefixes
//! toggled, snippets added; writing an edited block back into the document;
//! the window title.

use vstd::prelude::*;
use crate::text::{
    chars_of, has_prefix, has_suffix, join_lines, lines_of, seqs_of, split_lines, string_of,
    sub_chars,
};
use crate::editor::TextBlock;
use crate::toolbar::ToolbarAction;

verus! {

/// The text with `m` taken off both ends when it begins and ends with `m`
/// and holds more than the two markers; else the text between two `m`s.
pub open spec fn toggled(t: Seq<char>, m: Seq<char>) -> Seq<char> {
    if m.is_prefix_of(t) && m.is_suffix_of(t) && t.len() > 2 * m.len() {
        t.subrange(m.len() as int, t.len() - m.len())
    } else {
        m + t + m
    }
}

/// A line with the prefix `p` taken off when it has it, else put before it.
pub open spec fn prefix_toggled(l: Seq<char>, p: Seq<char>) -> Seq<char> {
    if p.is_prefix_of(l) {
        l.skip(p.len() as int)
    } else {
        p + l
    }
}

/// Every line of the text with the prefix toggled, joined with `'\n'`.
pub open spec fn lines_prefix_toggled(t: Seq<char>, p: Seq<char>) -> Seq<char> {
    join_lines(lines_of(t).map_values(|l: Seq<char>| prefix_toggled(l, p)))
}

/// Four spaces, one level of indentation.
pub open spec fn indent_unit() -> Seq<char> {
    seq![' ', ' ', ' ', ' ']
}

/// The text with one level of indentation taken off its start, if it has
/// one.
pub open spec fn outdented(t: Seq<char>) -> Seq<char> {
    if indent_unit().is_prefix_of(t) {
        t.skip(4)
    } else {
        t
    }
}

/// The text inside a fenced code block: three backticks, a line break,
/// the text, a line break, three backticks.
pub open spec fn fenced(t: Seq<char>) -> Seq<char> {
    seq!['`', '`', '`', '\n'] + t + seq!['\n', '`', '`', '`']
}

/// The text followed by a horizontal rule on a line of its own.
pub open spec fn with_rule(t: Seq<char>) -> Seq<char> {
    t + seq!['\n', '-', '-', '-', '\n']
}

/// The empty two-column table added after the text.
pub open spec fn table_snippet() -> Seq<char> {
    seq!['\n', '|', ' ', ' ', '|', ' ', ' ', '|', '\n', '|', '-', '-', '-', '|', '-', '-', '-', '|', '\n', '|', ' ', ' ', '|', ' ', ' ', '|', '\n']
}

/// The text as the label of a link to `url`.
pub open spec fn as_link(t: Seq<char>) -> Seq<char> {
    seq!['['] + t + seq![']', '(', 'u', 'r', 'l', ')']
}

/// The inline marker a toolbar action toggles, if it toggles one.
pub open spec fn action_marker(a: ToolbarAction) -> Option<Seq<char>> {
    match a {
        ToolbarAction::Bold => Some(seq!['*', '*']),
        ToolbarAction::Italic => Some(seq!['*']),
        ToolbarAction::Strike => Some(seq!['~', '~']),
        ToolbarAction::InlineCode => Some(seq!['`']),
        _ => None,
    }
}

/// The line prefix a toolbar action toggles, if it toggles one.
pub open spec fn action_prefix(a: ToolbarAction) -> Option<Seq<char>> {
    match a {
        ToolbarAction::Heading => Some(seq!['#', ' ']),
        ToolbarAction::Quote => Some(seq!['>', ' ']),
        ToolbarAction::UnorderedList => Some(seq!['-', ' ']),
        ToolbarAction::OrderedList => Some(seq!['1', '.', ' ']),
        ToolbarAction::CheckList => Some(seq!['-', ' ', '[', ' ', ']', ' ']),
        ToolbarAction::Indent => Some(indent_unit()),
        _ => None,
    }
}

/// The new text of the block being edited after a toolbar action, or none
/// when the action does not edit it. Markers and line prefixes apply only
/// while a block is being edited; the snippets always do.
pub open spec fn action_edit(a: ToolbarAction, t: Seq<char>, editing: bool) -> Option<Seq<char>> {
    match a {
        ToolbarAction::CodeBlock => Some(fenced(t)),
        ToolbarAction::HorizontalRule => Some(with_rule(t)),
        ToolbarAction::Table => Some(t + table_snippet()),
        ToolbarAction::Link => Some(as_link(t)),
        ToolbarAction::Outdent => Some(outdented(t)),
        _ => match action_marker(a) {
            Some(m) => if editing {
                Some(toggled(t, m))
            } else {
                None
            },
            None => match action_prefix(a) {
                Some(p) => if editing {
                    Some(lines_prefix_toggled(t, p))
                } else {
                    None
                },
                None => None,
            },
        },
    }
}

/// Toggles an inline marker around the text: `**bold**` becomes `bold`,
/// `bold` becomes `**bold**`.
pub fn toggle_format(text: &str, marker: &str) -> (r: String)
    ensures
        r@ == toggled(text@, marker@),
{
    let t = chars_of(text);
    let m = chars_of(marker);
    if has_prefix(t.as_slice(), m.as_slice()) && has_suffix(t.as_slice(), m.as_slice())
        && t.len() - m.len() > m.len() {
        let inner = sub_chars(t.as_slice(), m.len(), t.len() - m.len());
        string_of(inner.as_slice())
    } else {
        let mut out = m.clone();
        let mut k: usize = 0;
        while k < t.len()
            invariant
                k <= t@.len(),
                out@ == m@ + t@.take(k as int),
            decreases t@.len() - k,
        {
            out.push(t[k]);
            k += 1;
            assert(out@ =~= m@ + t@.take(k as int));
        }
        let mut j: usize = 0;
        while j < m.len()
            invariant
                j <= m@.len(),
                out@ == m@ + t@ + m@.take(j as int),
            decreases m@.len() - j,
        {
            out.push(m[j]);
            j += 1;
            assert(out@ =~= m@ + t@ + m@.take(j as int));
        }
        assert(t@.take(t@.len() as int) =~= t@);
        assert(m@.take(m@.len() as int) =~= m@);
        assert(out@ =~= m@ + t@ + m@);
        string_of(out.as_slice())
    }
}

/// `a` followed by `b`.
pub fn concat_chars(a: &[char], b: &[char]) -> (r: Vec<char>)
    ensures
        r@ == a@ + b@,
{
    let mut out: Vec<char> = Vec::new();
    let mut k: usize = 0;
    while k < a.len()
        invariant
            k <= a@.len(),
            out@ == a@.take(k as int),
        decreases a@.len() - k,
    {
        out.push(a[k]);
        k += 1;
        assert(out@ =~= a@.take(k as int));
    }
    let mut j: usize = 0;
    while j < b.len()
        invariant
            j <= b@.len(),
            out@ == a@ + b@.take(j as int),
        decreases b@.len() - j,
    {
        out.push(b[j]);
        j += 1;
        assert(out@ =~= a@ + b@.take(j as int));
    }
    assert(a@.take(a@.len() as int) =~= a@);
    assert(b@.take(b@.len() as int) =~= b@);
    out
}

/// Lines joined with `'\n'`, as characters.
pub fn join_with_newlines(ls: &Vec<Vec<char>>) -> (r: Vec<char>)
    ensures
        r@ == join_lines(seqs_of(ls@)),
{
    let mut out: Vec<char> = Vec::new();
    let mut i: usize = 0;
    while i < ls.len()
        invariant
            i <= ls@.len(),
            out@ == join_lines(seqs_of(ls@).take(i as int)),
        decreases ls@.len() - i,
    {
        let ghost prev = seqs_of(ls@).take(i as int);
        let ghost next = seqs_of(ls@).take(i + 1);
        assert(next.drop_last() =~= prev);
        assert(next.last() == ls@[i as int]@);
        if i == 0 {
            out = concat_chars(out.as_slice(), ls[i].as_slice());
            assert(out@ =~= next[0]);
        } else {
            let nl = ['\n'];
            let with_nl = concat_chars(out.as_slice(), &nl);
            out = concat_chars(with_nl.as_slice(), ls[i].as_slice());
            assert(nl@ =~= seq!['\n']);
            assert(out@ =~= join_lines(prev) + seq!['\n'] + next.last());
        }
        i += 1;
    }
    assert(seqs_of(ls@).take(ls@.len() as int) =~= seqs_of(ls@));
    out
}

/// Toggles `prefix` at the start of every line: taken off a line that has
/// it, put before a line that has not; the lines are joined with `'\n'`.
pub fn insert_at_line_start(text: &str, prefix: &str) -> (r: String)
    ensures
        r@ == lines_prefix_toggled(text@, prefix@),
{
    let t = chars_of(text);
    let p = chars_of(prefix);
    let lines = split_lines(t.as_slice());
    let mut out: Vec<Vec<char>> = Vec::new();
    let mut i: usize = 0;
    while i < lines.len()
        invariant
            i <= lines@.len(),
            p@ == prefix@,
            seqs_of(lines@) == lines_of(text@),
            seqs_of(out@) == lines_of(text@).take(i as int).map_values(
                |l: Seq<char>| prefix_toggled(l, prefix@),
            ),
        decreases lines@.len() - i,
    {
        let line = &lines[i];
        let ghost old_out = seqs_of(out@);
        let ghost f = |l: Seq<char>| prefix_toggled(l, prefix@);
        assert(line@ == lines_of(text@)[i as int]);
        let new_line = if has_prefix(line.as_slice(), p.as_slice()) {
            sub_chars(line.as_slice(), p.len(), line.len())
        } else {
            concat_chars(p.as_slice(), line.as_slice())
        };
        proof {
            if p@.is_prefix_of(line@) {
                assert(new_line@ =~= line@.skip(p@.len() as int));
            }
        }
        assert(new_line@ == f(line@));
        out.push(new_line);
        assert(seqs_of(out@) =~= old_out.push(f(line@)));
        assert(lines_of(text@).take(i + 1).map_values(f) =~= lines_of(text@).take(i as int).map_values(f).push(f(line@)));
        i += 1;
    }
    assert(lines_of(text@).take(lines@.len() as int) =~= lines_of(text@));
    let joined = join_with_newlines(&out);
    string_of(joined.as_slice())
}

/// The text with four leading spaces taken off, if it begins with them.
pub fn outdent(text: &str) -> (r: String)
    ensures
        r@ == outdented(text@),
{
    let t = chars_of(text);
    let unit = [' ', ' ', ' ', ' '];
    assert(unit@ =~= indent_unit());
    if has_prefix(t.as_slice(), &unit) {
        let rest = sub_chars(t.as_slice(), 4, t.len());
        string_of(rest.as_slice())
    } else {
        string_of(t.as_slice())
    }
}

/// The new text of the block being edited after a toolbar action, or none
/// when the action leaves it alone. `editing` tells whether a block is
/// being edited: the inline markers (bold, italic, strike-through, inline
/// code) and the line prefixes (heading, quote, lists, indentation) apply
/// only then; code block, rule, table, link and outdent always apply.
pub fn edit_for_action(action: ToolbarAction, text: &str, editing: bool) -> (r: Option<String>)
    ensures
        match r {
            Some(s) => action_edit(action, text@, editing) == Some(s@),
            None => action_edit(action, text@, editing) is None,
        },
{
    let t = chars_of(text);
    match action {
        ToolbarAction::CodeBlock => {
            let open = ['`', '`', '`', '\n'];
            let close = ['\n', '`', '`', '`'];
            let a = concat_chars(&open, t.as_slice());
            let b = concat_chars(a.as_slice(), &close);
            assert(b@ =~= fenced(text@));
            Some(string_of(b.as_slice()))
        },
        ToolbarAction::HorizontalRule => {
            let rule = ['\n', '-', '-', '-', '\n'];
            let b = concat_chars(t.as_slice(), &rule);
            assert(b@ =~= with_rule(text@));
            Some(string_of(b.as_slice()))
        },
        ToolbarAction::Table => {
            let snippet = [
                '\n', '|', ' ', ' ', '|', ' ', ' ', '|', '\n', '|', '-', '-', '-', '|', '-', '-', '-',
                '|', '\n', '|', ' ', ' ', '|', ' ', ' ', '|', '\n',
            ];
            assert(snippet@ =~= table_snippet());
            let b = concat_chars(t.as_slice(), &snippet);
            Some(string_of(b.as_slice()))
        },
        ToolbarAction::Link => {
            let open = ['['];
            let close = [']', '(', 'u', 'r', 'l', ')'];
            let a = concat_chars(&open, t.as_slice());
            let b = concat_chars(a.as_slice(), &close);
            assert(b@ =~= as_link(text@));
            Some(string_of(b.as_slice()))
        },
        ToolbarAction::Outdent => Some(outdent(text)),
        ToolbarAction::Bold | ToolbarAction::Italic | ToolbarAction::Strike
        | ToolbarAction::InlineCode => {
            if !editing {
                return None;
            }
            let marker: Vec<char> = match action {
                ToolbarAction::Bold => vec!['*', '*'],
                ToolbarAction::Italic => vec!['*'],
                ToolbarAction::Strike => vec!['~', '~'],
                _ => vec!['`'],
            };
            assert(action_marker(action) == Some(marker@));
            let m = string_of(marker.as_slice());
            Some(toggle_format(text, m.as_str()))
        },
        ToolbarAction::Heading | ToolbarAction::Quote | ToolbarAction::UnorderedList
        | ToolbarAction::OrderedList | ToolbarAction::CheckList | ToolbarAction::Indent => {
            if !editing {
                return None;
            }
            let prefix: Vec<char> = match action {
                ToolbarAction::Heading => vec!['#', ' '],
                ToolbarAction::Quote => vec!['>', ' '],
                ToolbarAction::UnorderedList => vec!['-', ' '],
                ToolbarAction::OrderedList => vec!['1', '.', ' '],
                ToolbarAction::CheckList => vec!['-', ' ', '[', ' ', ']', ' '],
                _ => vec![' ', ' ', ' ', ' '],
            };
            assert(action_prefix(action) == Some(prefix@));
            let p = string_of(prefix.as_slice());
            Some(insert_at_line_start(text, p.as_str()))
        },
        _ => None,
    }
}

/// The lines of a document after the block spanning lines `start..=end`
/// was edited into `t`: the lines before the block, `t`, then the lines
/// after it; the lines unchanged when the block does not begin within them.
pub open spec fn committed_lines(ls: Seq<Seq<char>>, start: int, end: int, t: Seq<char>) -> Seq<
    Seq<char>,
> {
    if start <= end && start < ls.len() {
        ls.take(start) + seq![t] + ls.skip(if end + 1 < ls.len() {
            end + 1
        } else {
            ls.len() as int
        })
    } else {
        ls
    }
}

/// The document text after the block spanning lines `start..=end` was
/// edited into `t`.
pub open spec fn committed(content: Seq<char>, start: int, end: int, t: Seq<char>) -> Seq<char> {
    join_lines(committed_lines(lines_of(content), start, end, t))
}

/// Writes an edited block back: the block spanned lines `start_line` to
/// `end_line` of `content` and now reads `editing_text`. The lines are
/// joined with `'\n'`.
pub fn commit_edit(content: &str, start_line: usize, end_line: usize, editing_text: &str) -> (r:
    String)
    ensures
        r@ == committed(content@, start_line as int, end_line as int, editing_text@),
{
    let cs = chars_of(content);
    let lines = split_lines(cs.as_slice());
    let ghost ls = lines_of(content@);
    let edited = chars_of(editing_text);
    let mut out: Vec<Vec<char>> = Vec::new();
    let mut i: usize = 0;
    while i < lines.len()
        invariant
            i <= lines@.len(),
            seqs_of(lines@) == ls,
            edited@ == editing_text@,
            seqs_of(out@) == committed_lines(ls.take(i as int), start_line as int, end_line as int, editing_text@),
        decreases lines@.len() - i,
    {
        let ghost prev = ls.take(i as int);
        let ghost next = ls.take(i + 1);
        let ghost o = seqs_of(out@);
        assert(next =~= prev.push(ls[i as int]));
        assert(lines@[i as int]@ == ls[i as int]);
        if i < start_line || i > end_line {
            out.push(lines[i].clone());
            proof {
                assert(seqs_of(out@) =~= o.push(ls[i as int]));
                if start_line <= end_line && start_line < prev.len() {
                    let e1 = end_line + 1;
                    assert(i > end_line);
                    assert(committed_lines(prev, start_line as int, end_line as int, editing_text@) =~= prev.take(start_line as int) + seq![editing_text@] + prev.skip(e1));
                    assert(committed_lines(next, start_line as int, end_line as int, editing_text@) =~= next.take(start_line as int) + seq![editing_text@] + next.skip(e1));
                    assert(next.skip(e1) =~= prev.skip(e1).push(ls[i as int]));
                    assert(next.take(start_line as int) =~= prev.take(start_line as int));
                }
            }
        } else if i == start_line {
            out.push(edited.clone());
            proof {
                assert(seqs_of(out@) =~= o.push(editing_text@));
                assert(committed_lines(next, start_line as int, end_line as int, editing_text@) =~= next.take(start_line as int) + seq![editing_text@] + next.skip(next.len() as int));
            }
        } else {
            proof {
                assert(start_line < i <= end_line);
                assert(committed_lines(prev, start_line as int, end_line as int, editing_text@) =~= prev.take(start_line as int) + seq![editing_text@] + prev.skip(prev.len() as int));
                assert(committed_lines(next, start_line as int, end_line as int, editing_text@) =~= next.take(start_line as int) + seq![editing_text@] + next.skip(next.len() as int));
            }
        }
        i += 1;
    }
    assert(ls.take(lines@.len() as int) =~= ls);
    let joined = join_with_newlines(&out);
    string_of(joined.as_slice())
}

/// The index of the first block that spans `line` (where the editor
/// scrolls to and opens for editing).
pub fn block_containing(blocks: &Vec<TextBlock>, line: usize) -> (r: Option<usize>)
    ensures
        match r {
            Some(i) => i < blocks@.len() && blocks@[i as int].start_line <= line <= blocks@[i as int].end_line
                && forall|j: int| 0 <= j < i ==> !((#[trigger] blocks@[j]).start_line <= line <= blocks@[j].end_line),
            None => forall|j: int| 0 <= j < blocks@.len() ==> !((#[trigger] blocks@[j]).start_line <= line
                <= blocks@[j].end_line),
        },
{
    let mut i: usize = 0;
    while i < blocks.len()
        invariant
            i <= blocks@.len(),
            forall|j: int| 0 <= j < i ==> !((#[trigger] blocks@[j]).start_line <= line <= blocks@[j].end_line),
        decreases blocks@.len() - i,
    {
        if blocks[i].start_line <= line && line <= blocks[i].end_line {
            return Some(i);
        }
        i += 1;
    }
    None
}

/// The number of characters and of lines of a text, as the status bar
/// shows them.
pub fn document_stats(content: &str) -> (r: (usize, usize))
    ensures
        r.0 == content@.len(),
        r.1 == lines_of(content@).len(),
{
    let cs = chars_of(content);
    let lines = split_lines(cs.as_slice());
    assert(seqs_of(lines@).len() == lines@.len());
    (cs.len(), lines.len())
}

/// The name shown for a document that has no file.
pub open spec fn untitled() -> Seq<char> {
    seq!['未', '命', '名']
}

/// The window title: the file's name (or the untitled name), ` *` when
/// there are unsaved changes, then ` - mdedit`.
pub open spec fn title_of(file_name: Option<Seq<char>>, modified: bool) -> Seq<char> {
    let name = match file_name {
        Some(n) => n,
        None => untitled(),
    };
    name + (if modified {
        seq![' ', '*']
    } else {
        seq![]
    }) + seq![' ', '-', ' ', 'm', 'd', 'e', 'd', 'i', 't']
}

/// The window title for a document with the given file name.
pub fn window_title(file_name: Option<&str>, modified: bool) -> (r: String)
    ensures
        r@ == title_of(
            match file_name {
                Some(n) => Some(n@),
                None => None,
            },
            modified,
        ),
{
    let name: Vec<char> = match file_name {
        Some(n) => chars_of(n),
        None => vec!['未', '命', '名'],
    };
    let star: Vec<char> = if modified {
        vec![' ', '*']
    } else {
        Vec::new()
    };
    let tail = [' ', '-', ' ', 'm', 'd', 'e', 'd', 'i', 't'];
    let a = concat_chars(name.as_slice(), star.as_slice());
    let b = concat_chars(a.as_slice(), &tail);
    assert(tail@ =~= seq![' ', '-', ' ', 'm', 'd', 'e', 'd', 'i', 't']);
    proof {
        if !modified {
            assert(star@ =~= Seq::<char>::empty());
        } else {
            assert(star@ =~= seq![' ', '*']);
        }
        if file_name is None {
            assert(name@ =~= untitled());
        }
    }
    string_of(b.as_slice())
}

/// Toggling a marker twice gives back a non-empty text that was not
/// already wrapped in it: `bold` → `**bold**` → `bold`.
pub proof fn lemma_toggle_twice(t: Seq<char>, m: Seq<char>)
    requires
        t.len() > 0,
        !(m.is_prefix_of(t) && m.is_suffix_of(t) && t.len() > 2 * m.len()),
    ensures
        toggled(toggled(t, m), m) == t,
{
    let w = m + t + m;
    assert(toggled(t, m) == w);
    assert(m.is_prefix_of(w)) by {
        assert forall|i: int| 0 <= i < m.len() implies w[i] == m[i] by {}
    }
    assert(m.is_suffix_of(w)) by {
        assert forall|i: int| 0 <= i < m.len() implies w[w.len() - m.len() + i] == m[i] by {}
    }
    assert(w.subrange(m.len() as int, w.len() - m.len()) =~= t);
}

/// Toggling a marker on a wrapped text unwraps it: `**bold**` → `bold`.
pub proof fn lemma_toggle_unwraps(u: Seq<char>, m: Seq<char>)
    requires
        u.len() > 0,
    ensures
        toggled(m + u + m, m) == u,
{
    let w = m + u + m;
    assert(m.is_prefix_of(w)) by {
        assert forall|i: int| 0 <= i < m.len() implies w[i] == m[i] by {}
    }
    assert(m.is_suffix_of(w)) by {
        assert forall|i: int| 0 <= i < m.len() implies w[w.len() - m.len() + i] == m[i] by {}
    }
    assert(w.subrange(m.len() as int, w.len() - m.len()) =~= u);
}

/// Joining two runs of lines joins their joins with a line break.
pub proof fn lemma_join_concat(x: Seq<Seq<char>>, y: Seq<Seq<char>>)
    ensures
        join_lines(x + y) == (if x.len() == 0 {
            join_lines(y)
        } else if y.len() == 0 {
            join_lines(x)
        } else {
            join_lines(x) + seq!['\n'] + join_lines(y)
        }),
    decreases y.len(),
{
    if x.len() == 0 {
        assert(x + y =~= y);
    } else if y.len() == 0 {
        assert(x + y =~= x);
    } else {
        let y0 = y.drop_last();
        lemma_join_concat(x, y0);
        assert((x + y).drop_last() =~= x + y0);
        assert((x + y).last() == y.last());
        if y0.len() == 0 {
            assert(x + y0 =~= x);
            assert(join_lines(y) == y[0]);
        } else {
            assert(join_lines(y) == join_lines(y0) + seq!['\n'] + y.last());
        }
    }
}

/// Writing back a block's own text, unchanged, gives the document with its
/// lines joined by `'\n'`: nothing but line endings changes.
pub proof fn lemma_commit_unchanged(content: Seq<char>, start: int, end: int)
    requires
        0 <= start <= end < lines_of(content).len(),
    ensures
        committed(content, start, end, join_lines(lines_of(content).subrange(start, end + 1)))
            == join_lines(lines_of(content)),
{
    let ls = lines_of(content);
    let x = ls.take(start);
    let m = ls.subrange(start, end + 1);
    let y = ls.skip(end + 1);
    let j = join_lines(m);
    assert(committed_lines(ls, start, end, j) =~= x + seq![j] + y);
    assert(ls =~= x + m + y);
    lemma_join_concat(x + seq![j], y);
    lemma_join_concat(x, seq![j]);
    lemma_join_concat(x + m, y);
    lemma_join_concat(x, m);
    assert(join_lines(seq![j]) == j);
}

} // verus!
