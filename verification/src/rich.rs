//! The text a rendered block shows: a heading without its `#`s, a code
//! block between its fences, a quote without its `>`s, list items without
//! their markers, and the cells of a table.

use vstd::prelude::*;
use crate::editing::join_with_newlines;
use crate::outline::{decimal, decimal_of};
use crate::editor::{is_table_sep, is_table_separator};
use crate::text::{
    chars_of, has_prefix, join_lines, lines_of, seqs_of, split_char, split_lines, split_on,
    string_of, sub_chars, trim, trim_bounds, trim_start,
};

verus! {

/// A character removed from the start of a bullet list item.
pub open spec fn is_bullet(c: char) -> bool {
    c == '-' || c == '*' || c == '+'
}

/// The text without its leading `c`s.
pub open spec fn drop_leading(s: Seq<char>, c: char) -> Seq<char>
    decreases s.len(),
{
    if s.len() > 0 && s[0] == c {
        drop_leading(s.drop_first(), c)
    } else {
        s
    }
}

/// The text without its trailing `c`s.
pub open spec fn drop_trailing(s: Seq<char>, c: char) -> Seq<char>
    decreases s.len(),
{
    if s.len() > 0 && s.last() == c {
        drop_trailing(s.drop_last(), c)
    } else {
        s
    }
}

/// The text without its leading bullet characters.
pub open spec fn drop_bullets(s: Seq<char>) -> Seq<char>
    decreases s.len(),
{
    if s.len() > 0 && is_bullet(s[0]) {
        drop_bullets(s.drop_first())
    } else {
        s
    }
}

/// The text of a heading: its leading `#`s and the whitespace after them
/// removed.
pub open spec fn heading_body(source: Seq<char>) -> Seq<char> {
    trim_start(drop_leading(source, '#'))
}

/// Three backticks.
pub open spec fn fence() -> Seq<char> {
    seq!['`', '`', '`']
}

/// The leading lines up to the first that begins with a fence.
pub open spec fn until_fence(ls: Seq<Seq<char>>) -> Seq<Seq<char>>
    decreases ls.len(),
{
    if ls.len() == 0 || fence().is_prefix_of(ls[0]) {
        seq![]
    } else {
        seq![ls[0]] + until_fence(ls.drop_first())
    }
}

/// The lines after the first.
pub open spec fn after_first(ls: Seq<Seq<char>>) -> Seq<Seq<char>> {
    if ls.len() == 0 {
        seq![]
    } else {
        ls.skip(1)
    }
}

/// The code of a fenced block: the lines after the opening fence up to the
/// closing one, joined with `'\n'`.
pub open spec fn code_body(source: Seq<char>) -> Seq<char> {
    join_lines(until_fence(after_first(lines_of(source))))
}

/// A quote line without its `>` and the whitespace after it.
pub open spec fn unquoted(l: Seq<char>) -> Seq<char> {
    trim_start(
        if l.len() > 0 && l[0] == '>' {
            l.drop_first()
        } else {
            l
        },
    )
}

/// The text of a quote: each line unquoted, joined with `'\n'`.
pub open spec fn quote_body(source: Seq<char>) -> Seq<char> {
    join_lines(lines_of(source).map_values(|l: Seq<char>| unquoted(l)))
}

/// The text after the first `". "`, if there is one.
pub open spec fn after_number(l: Seq<char>) -> Option<Seq<char>>
    decreases l.len(),
{
    if l.len() < 2 {
        None
    } else if l[0] == '.' && l[1] == ' ' {
        Some(l.skip(2))
    } else {
        after_number(l.drop_first())
    }
}

/// The text of a list item: after its number for an ordered list (the
/// whole line when it has none), else without its bullets and the
/// whitespace after them.
pub open spec fn item_body(l: Seq<char>, ordered: bool) -> Seq<char> {
    if ordered {
        match after_number(l) {
            Some(t) => t,
            None => l,
        }
    } else {
        trim_start(drop_bullets(l))
    }
}

/// The cells of a table line: trimmed, its outer `|`s removed, split at
/// `|`, each cell trimmed.
pub open spec fn row_cells(l: Seq<char>) -> Seq<Seq<char>> {
    split_on(drop_trailing(drop_leading(trim(l), '|'), '|'), '|').map_values(|c: Seq<char>| trim(c))
}

/// The rows of a table: the cells of each line that is not a separator.
pub open spec fn table_cells(ls: Seq<Seq<char>>) -> Seq<Seq<Seq<char>>>
    decreases ls.len(),
{
    if ls.len() == 0 {
        seq![]
    } else if is_table_sep(ls.last()) {
        table_cells(ls.drop_last())
    } else {
        table_cells(ls.drop_last()).push(row_cells(ls.last()))
    }
}

/// The characters of a vector of strings.
pub open spec fn string_views(v: Seq<String>) -> Seq<Seq<char>> {
    v.map_values(|s: String| s@)
}

/// The characters of each row of strings.
pub open spec fn row_views(v: Seq<Vec<String>>) -> Seq<Seq<Seq<char>>> {
    v.map_values(|r: Vec<String>| string_views(r@))
}

/// Where the leading `c`s of `s` end.
fn leading_end(s: &[char], c: char) -> (r: usize)
    ensures
        r <= s@.len(),
        s@.skip(r as int) == drop_leading(s@, c),
{
    let mut k: usize = 0;
    assert(s@.skip(0) =~= s@);
    while k < s.len() && s[k] == c
        invariant
            k <= s@.len(),
            drop_leading(s@.skip(k as int), c) == drop_leading(s@, c),
        decreases s@.len() - k,
    {
        assert(s@.skip(k as int).drop_first() =~= s@.skip(k + 1));
        k += 1;
    }
    k
}

/// Where the text ends once its trailing `c`s are dropped.
fn trailing_start(s: &[char], c: char) -> (r: usize)
    ensures
        r <= s@.len(),
        s@.take(r as int) == drop_trailing(s@, c),
{
    let mut k: usize = s.len();
    assert(s@.take(k as int) =~= s@);
    while k > 0 && s[k - 1] == c
        invariant
            k <= s@.len(),
            drop_trailing(s@.take(k as int), c) == drop_trailing(s@, c),
        decreases k,
    {
        assert(s@.take(k as int).drop_last() =~= s@.take(k - 1));
        k -= 1;
    }
    k
}

/// The text of a heading block: the leading `#`s and the whitespace after
/// them removed.
pub fn heading_text(source: &str) -> (r: String)
    ensures
        r@ == heading_body(source@),
{
    let s = chars_of(source);
    let k = leading_end(s.as_slice(), '#');
    let rest = sub_chars(s.as_slice(), k, s.len());
    assert(rest@ =~= s@.skip(k as int));
    let (lo, _) = trim_bounds(rest.as_slice());
    let body = sub_chars(rest.as_slice(), lo, rest.len());
    assert(body@ =~= rest@.skip(lo as int));
    string_of(body.as_slice())
}

/// The code of a fenced code block: the lines after the opening fence up
/// to the closing one.
pub fn code_text(source: &str) -> (r: String)
    ensures
        r@ == code_body(source@),
{
    let s = chars_of(source);
    let lines = split_lines(s.as_slice());
    let ghost ls = after_first(lines_of(source@));
    let f = ['`', '`', '`'];
    assert(f@ =~= fence());
    let mut out: Vec<Vec<char>> = Vec::new();
    if lines.len() == 0 {
        assert(until_fence(ls) == Seq::<Seq<char>>::empty());
        let joined = join_with_newlines(&out);
        assert(seqs_of(out@) =~= Seq::<Seq<char>>::empty());
        return string_of(joined.as_slice());
    }
    let mut i: usize = 1;
    while i < lines.len()
        invariant
            1 <= i <= lines@.len(),
            ls == after_first(lines_of(source@)),
            seqs_of(lines@) == lines_of(source@),
            f@ == fence(),
            seqs_of(out@) + until_fence(lines_of(source@).skip(i as int)) == until_fence(ls),
        decreases lines@.len() - i,
    {
        let ghost t = lines_of(source@).skip(i as int);
        assert(t[0] == lines@[i as int]@);
        if has_prefix(lines[i].as_slice(), &f) {
            assert(until_fence(t) == Seq::<Seq<char>>::empty());
            assert(seqs_of(out@) + until_fence(t) =~= seqs_of(out@));
            let joined = join_with_newlines(&out);
            return string_of(joined.as_slice());
        }
        let ghost o = seqs_of(out@);
        out.push(lines[i].clone());
        assert(t.drop_first() =~= lines_of(source@).skip(i + 1));
        assert(seqs_of(out@) + until_fence(lines_of(source@).skip(i + 1)) =~= o + until_fence(t));
        i += 1;
    }
    proof {
        let t = lines_of(source@).skip(i as int);
        assert(t.len() == 0);
        assert(seqs_of(out@) + until_fence(t) =~= seqs_of(out@));
    }
    let joined = join_with_newlines(&out);
    string_of(joined.as_slice())
}

/// The text of a quote block: each line without its `>` and the
/// whitespace after it.
pub fn quote_text(source: &str) -> (r: String)
    ensures
        r@ == quote_body(source@),
{
    let s = chars_of(source);
    let lines = split_lines(s.as_slice());
    let mut out: Vec<Vec<char>> = Vec::new();
    let mut i: usize = 0;
    while i < lines.len()
        invariant
            i <= lines@.len(),
            seqs_of(lines@) == lines_of(source@),
            seqs_of(out@) == lines_of(source@).take(i as int).map_values(|x: Seq<char>| unquoted(x)),
        decreases lines@.len() - i,
    {
        let l = &lines[i];
        assert(l@ == lines_of(source@)[i as int]);
        let start: usize = if l.len() > 0 && l[0] == '>' {
            1
        } else {
            0
        };
        let rest = sub_chars(l.as_slice(), start, l.len());
        let (lo, _) = trim_bounds(rest.as_slice());
        let body = sub_chars(rest.as_slice(), lo, rest.len());
        proof {
            if start == 1 {
                assert(rest@ =~= l@.drop_first());
            } else {
                assert(rest@ =~= l@);
            }
            assert(body@ =~= rest@.skip(lo as int));
            assert(body@ == unquoted(l@));
        }
        let ghost o = seqs_of(out@);
        out.push(body);
        assert(seqs_of(out@) =~= o.push(unquoted(l@)));
        assert(lines_of(source@).take(i + 1).map_values(|x: Seq<char>| unquoted(x)) =~= lines_of(source@).take(i as int).map_values(|x: Seq<char>| unquoted(x)).push(unquoted(l@)));
        i += 1;
    }
    assert(lines_of(source@).take(lines@.len() as int) =~= lines_of(source@));
    let joined = join_with_newlines(&out);
    string_of(joined.as_slice())
}

/// The text of one list item line: for an ordered list, what follows the
/// first `". "` (the whole line when there is none); for a bullet list,
/// the line without its leading `-`, `*`, `+` and the whitespace after.
pub fn list_item_text(line: &str, ordered: bool) -> (r: String)
    ensures
        r@ == item_body(line@, ordered),
{
    let l = chars_of(line);
    if ordered {
        let mut k: usize = 0;
        assert(l@.skip(0) =~= l@);
        while k < l.len() && l.len() - k >= 2
            invariant
                k <= l@.len(),
                l@ == line@,
                ordered,
                after_number(l@.skip(k as int)) == after_number(l@),
            decreases l@.len() - k,
        {
            assert(l@.skip(k as int)[0] == l@[k as int]);
            assert(l@.skip(k as int)[1] == l@[k + 1]);
            if l[k] == '.' && l[k + 1] == ' ' {
                let rest = sub_chars(l.as_slice(), k + 2, l.len());
                assert(rest@ =~= l@.skip(k as int).skip(2));
                assert(l@.skip(k as int).len() >= 2);
                assert(after_number(l@.skip(k as int)) == Some(l@.skip(k as int).skip(2)));
                return string_of(rest.as_slice());
            }
            assert(l@.skip(k as int).drop_first() =~= l@.skip(k + 1));
            k += 1;
        }
        string_of(l.as_slice())
    } else {
        let mut k: usize = 0;
        assert(l@.skip(0) =~= l@);
        while k < l.len() && (l[k] == '-' || l[k] == '*' || l[k] == '+')
            invariant
                k <= l@.len(),
                drop_bullets(l@.skip(k as int)) == drop_bullets(l@),
            decreases l@.len() - k,
        {
            assert(l@.skip(k as int).drop_first() =~= l@.skip(k + 1));
            k += 1;
        }
        let rest = sub_chars(l.as_slice(), k, l.len());
        assert(rest@ =~= l@.skip(k as int));
        let (lo, _) = trim_bounds(rest.as_slice());
        let body = sub_chars(rest.as_slice(), lo, rest.len());
        assert(body@ =~= rest@.skip(lo as int));
        string_of(body.as_slice())
    }
}

/// The marker shown before the `i`-th item (from 0) of a list: its number
/// and a dot for an ordered list, a bullet otherwise.
pub open spec fn item_marker(i: nat, ordered: bool) -> Seq<char> {
    if ordered {
        decimal(i + 1).push('.')
    } else {
        seq!['\u{2022}']
    }
}

/// The marker of the `i`-th item of a list.
pub fn list_marker(i: usize, ordered: bool) -> (r: String)
    requires
        i < usize::MAX,
    ensures
        r@ == item_marker(i as nat, ordered),
{
    if ordered {
        let mut d = decimal_of(i as u64 + 1);
        d.push('.');
        string_of(d.as_slice())
    } else {
        let b = ['\u{2022}'];
        assert(b@ =~= seq!['\u{2022}']);
        string_of(&b)
    }
}

/// The cells of one table line.
fn cells_of(l: &[char]) -> (r: Vec<String>)
    ensures
        string_views(r@) == row_cells(l@),
{
    let (lo, hi) = trim_bounds(l);
    let t = sub_chars(l, lo, hi);
    let a = leading_end(t.as_slice(), '|');
    let u = sub_chars(t.as_slice(), a, t.len());
    assert(u@ =~= t@.skip(a as int));
    let b = trailing_start(u.as_slice(), '|');
    let v = sub_chars(u.as_slice(), 0, b);
    assert(v@ =~= u@.take(b as int));
    let pieces = split_char(v.as_slice(), '|');
    let ghost ps = split_on(v@, '|');
    let mut out: Vec<String> = Vec::new();
    let mut i: usize = 0;
    while i < pieces.len()
        invariant
            i <= pieces@.len(),
            seqs_of(pieces@) == ps,
            string_views(out@) == ps.take(i as int).map_values(|c: Seq<char>| trim(c)),
        decreases pieces@.len() - i,
    {
        let p = &pieces[i];
        assert(p@ == ps[i as int]);
        let (x, y) = trim_bounds(p.as_slice());
        let cell = string_of(sub_chars(p.as_slice(), x, y).as_slice());
        assert(cell@ == trim(p@));
        let ghost o = string_views(out@);
        out.push(cell);
        assert(string_views(out@) =~= o.push(trim(p@)));
        assert(ps.take(i + 1).map_values(|c: Seq<char>| trim(c)) =~= ps.take(i as int).map_values(|c: Seq<char>| trim(c)).push(trim(p@)));
        i += 1;
    }
    assert(ps.take(pieces@.len() as int) =~= ps);
    out
}

/// The rows of a table block, separator lines left out: each line trimmed,
/// its outer `|`s removed, split at `|`, each cell trimmed.
pub fn table_rows(source: &str) -> (r: Vec<Vec<String>>)
    ensures
        row_views(r@) == table_cells(lines_of(source@)),
{
    let s = chars_of(source);
    let lines = split_lines(s.as_slice());
    let ghost ls = lines_of(source@);
    let mut out: Vec<Vec<String>> = Vec::new();
    let mut i: usize = 0;
    assert(ls.take(0) =~= Seq::<Seq<char>>::empty());
    while i < lines.len()
        invariant
            i <= lines@.len(),
            seqs_of(lines@) == ls,
            row_views(out@) == table_cells(ls.take(i as int)),
        decreases lines@.len() - i,
    {
        let l = &lines[i];
        assert(l@ == ls[i as int]);
        let ghost t = ls.take(i + 1);
        assert(t.drop_last() =~= ls.take(i as int));
        assert(t.last() == l@);
        let text = string_of(l.as_slice());
        if !is_table_separator(text.as_str()) {
            let row = cells_of(l.as_slice());
            let ghost o = row_views(out@);
            out.push(row);
            assert(row_views(out@) =~= o.push(row_cells(l@)));
        }
        i += 1;
    }
    assert(ls.take(lines@.len() as int) =~= ls);
    out
}

} // verus!
