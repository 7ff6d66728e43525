//! Splitting Markdown text into blocks: headings, paragraphs, fenced code,
//! quotes, lists, tables, rules and blank lines, each with the lines it spans.

use vstd::prelude::*;
use crate::text::{
    has_char, has_prefix, has_sub, has_substring, is_digit, join_lines, lines_of, seqs_of,
    split_lines, chars_of, string_of, sub_chars, trim, trim_bounds,
};

verus! {

/// The kind of a block. A heading carries its level, a code block the
/// language named after its opening fence, a list whether it is ordered.
pub enum BlockKind {
    Heading(u8),
    Paragraph,
    CodeBlock(String),
    Quote,
    List(bool),
    Table,
    Rule,
    Empty,
}

/// A block: the lines it spans (0-based, inclusive), its Markdown source
/// (those lines joined with `'\n'`) and its kind.
pub struct TextBlock {
    pub start_line: usize,
    pub end_line: usize,
    pub source: String,
    pub kind: BlockKind,
}

/// A block kind as a value.
pub enum KindSpec {
    Heading(u8),
    Paragraph,
    CodeBlock(Seq<char>),
    Quote,
    List(bool),
    Table,
    Rule,
    Empty,
}

/// A block as a value.
pub struct BlockSpec {
    pub start_line: int,
    pub end_line: int,
    pub source: Seq<char>,
    pub kind: KindSpec,
}

impl View for BlockKind {
    type V = KindSpec;

    open spec fn view(&self) -> KindSpec {
        match self {
            BlockKind::Heading(l) => KindSpec::Heading(*l),
            BlockKind::Paragraph => KindSpec::Paragraph,
            BlockKind::CodeBlock(lang) => KindSpec::CodeBlock(lang@),
            BlockKind::Quote => KindSpec::Quote,
            BlockKind::List(o) => KindSpec::List(*o),
            BlockKind::Table => KindSpec::Table,
            BlockKind::Rule => KindSpec::Rule,
            BlockKind::Empty => KindSpec::Empty,
        }
    }
}

impl View for TextBlock {
    type V = BlockSpec;

    open spec fn view(&self) -> BlockSpec {
        BlockSpec {
            start_line: self.start_line as int,
            end_line: self.end_line as int,
            source: self.source@,
            kind: self.kind@,
        }
    }
}

/// The blocks held by a vector, as values.
pub open spec fn block_views(v: Seq<TextBlock>) -> Seq<BlockSpec> {
    v.map_values(|b: TextBlock| b@)
}

/// A line that is empty or all whitespace.
pub open spec fn is_blank(l: Seq<char>) -> bool {
    trim(l).len() == 0
}

/// A line that starts with `#`.
pub open spec fn is_heading_line(l: Seq<char>) -> bool {
    l.len() > 0 && l[0] == '#'
}

/// A line that starts with three backticks.
pub open spec fn is_fence(l: Seq<char>) -> bool {
    seq!['`', '`', '`'].is_prefix_of(l)
}

/// A line that starts with `>`.
pub open spec fn is_quote_line(l: Seq<char>) -> bool {
    l.len() > 0 && l[0] == '>'
}

/// A line that opens a list item: a `-`, `*` or `+` marker followed by a
/// space, or a leading digit on a line that holds `". "`.
pub open spec fn is_list_start(l: Seq<char>) -> bool {
    ||| seq!['-', ' '].is_prefix_of(l)
    ||| seq!['*', ' '].is_prefix_of(l)
    ||| seq!['+', ' '].is_prefix_of(l)
    ||| (l.len() > 2 && is_digit(l[0]) && has_sub(l, seq!['.', ' ']))
}

/// A line that continues a list: an item, or a line indented by two spaces.
pub open spec fn is_list_line(l: Seq<char>) -> bool {
    is_list_start(l) || seq![' ', ' '].is_prefix_of(l)
}

/// A character that may stand in a table separator row.
pub open spec fn is_sep_char(c: char) -> bool {
    c == '|' || c == '-' || c == ':' || c == ' '
}

/// A table separator row such as `|---|:--|`: trimmed, it holds a `|` and
/// nothing but `|`, `-`, `:` and spaces.
pub open spec fn is_table_sep(l: Seq<char>) -> bool {
    trim(l).contains('|') && forall|j: int| 0 <= j < trim(l).len() ==> is_sep_char(
        #[trigger] trim(l)[j],
    )
}

/// A line that is exactly `---`, `***` or `___`.
pub open spec fn is_rule_line(l: Seq<char>) -> bool {
    l == seq!['-', '-', '-'] || l == seq!['*', '*', '*'] || l == seq!['_', '_', '_']
}

/// A line that a paragraph goes on with.
pub open spec fn continues_paragraph(l: Seq<char>) -> bool {
    &&& !is_blank(l)
    &&& !is_heading_line(l)
    &&& !is_fence(l)
    &&& !is_quote_line(l)
    &&& l != seq!['-', '-', '-']
    &&& l != seq!['*', '*', '*']
}

/// The number of `#` that a line starts with.
pub open spec fn hash_run(l: Seq<char>) -> nat
    decreases l.len(),
{
    if l.len() > 0 && l[0] == '#' {
        1 + hash_run(l.drop_first())
    } else {
        0
    }
}

/// The level of a heading line: its count of leading `#`, at most 6.
pub open spec fn heading_level(l: Seq<char>) -> u8 {
    if hash_run(l) < 6 {
        hash_run(l) as u8
    } else {
        6
    }
}

/// A line that begins with `#` is a heading of level 1 to 6.
pub proof fn lemma_heading_level_range(l: Seq<char>)
    requires
        l.len() > 0,
        l[0] == '#',
    ensures
        1 <= heading_level(l) <= 6,
{
}

/// The first index at or after `j` whose line satisfies `stop`, or the
/// number of lines.
pub open spec fn first_from(ls: Seq<Seq<char>>, j: int, stop: spec_fn(Seq<char>) -> bool) -> int
    decreases ls.len() - j,
{
    if j >= ls.len() || j < 0 {
        ls.len() as int
    } else if stop(ls[j]) {
        j
    } else {
        first_from(ls, j + 1, stop)
    }
}

pub proof fn lemma_first_from(ls: Seq<Seq<char>>, j: int, stop: spec_fn(Seq<char>) -> bool)
    requires
        0 <= j <= ls.len(),
    ensures
        j <= first_from(ls, j, stop) <= ls.len(),
        first_from(ls, j, stop) < ls.len() ==> stop(ls[first_from(ls, j, stop)]),
        forall|k: int| j <= k < first_from(ls, j, stop) ==> !stop(#[trigger] ls[k]),
    decreases ls.len() - j,
{
    if j < ls.len() && !stop(ls[j]) {
        lemma_first_from(ls, j + 1, stop);
    }
}

pub open spec fn stop_fence() -> spec_fn(Seq<char>) -> bool {
    |l: Seq<char>| is_fence(l)
}

pub open spec fn stop_quote() -> spec_fn(Seq<char>) -> bool {
    |l: Seq<char>| !is_quote_line(l)
}

pub open spec fn stop_list() -> spec_fn(Seq<char>) -> bool {
    |l: Seq<char>| is_blank(l) || !is_list_line(l)
}

pub open spec fn stop_table() -> spec_fn(Seq<char>) -> bool {
    |l: Seq<char>| !l.contains('|')
}

pub open spec fn stop_paragraph() -> spec_fn(Seq<char>) -> bool {
    |l: Seq<char>| !continues_paragraph(l)
}

/// A line that starts a table: it holds a `|` and the next line is a
/// separator row.
pub open spec fn starts_table(ls: Seq<Seq<char>>, i: int) -> bool {
    ls[i].contains('|') && i + 1 < ls.len() && is_table_sep(ls[i + 1])
}

/// A block spanning lines `a..=b`, its source those lines joined.
pub open spec fn span(ls: Seq<Seq<char>>, a: int, b: int, kind: KindSpec) -> BlockSpec {
    BlockSpec { start_line: a, end_line: b, source: join_lines(ls.subrange(a, b + 1)), kind }
}

/// The blocks of the lines from index `i` on. At each line the first rule
/// that applies decides the block: a blank line; a heading; a fenced code
/// block up to its closing fence (or the last line); a run of quote lines;
/// a list up to a blank line or a line that does not continue it; a table
/// up to the first line without `|`; a rule; otherwise a paragraph up to
/// a line that does not continue it.
pub open spec fn blocks_from(ls: Seq<Seq<char>>, i: int) -> Seq<BlockSpec>
    decreases ls.len() - i,
{
    if i >= ls.len() || i < 0 {
        seq![]
    } else {
        let l = ls[i];
        if is_blank(l) {
            seq![span(ls, i, i, KindSpec::Empty)] + blocks_from(ls, i + 1)
        } else if is_heading_line(l) {
            seq![span(ls, i, i, KindSpec::Heading(heading_level(l)))] + blocks_from(ls, i + 1)
        } else if is_fence(l) {
            let c = first_from(ls, i + 1, stop_fence());
            proof {
                lemma_first_from(ls, i + 1, stop_fence());
            }
            let end = if c < ls.len() { c } else { ls.len() - 1 };
            seq![span(ls, i, end, KindSpec::CodeBlock(trim(l.skip(3))))] + blocks_from(ls, end + 1)
        } else if is_quote_line(l) {
            let e = first_from(ls, i, stop_quote());
            proof {
                lemma_first_from(ls, i, stop_quote());
            }
            seq![span(ls, i, e - 1, KindSpec::Quote)] + blocks_from(ls, e)
        } else if is_list_start(l) {
            let e = first_from(ls, i, stop_list());
            proof {
                lemma_first_from(ls, i, stop_list());
            }
            seq![span(ls, i, e - 1, KindSpec::List(is_digit(l[0])))] + blocks_from(ls, e)
        } else if starts_table(ls, i) {
            let e = first_from(ls, i, stop_table());
            proof {
                lemma_first_from(ls, i, stop_table());
            }
            seq![span(ls, i, e - 1, KindSpec::Table)] + blocks_from(ls, e)
        } else if is_rule_line(l) {
            seq![span(ls, i, i, KindSpec::Rule)] + blocks_from(ls, i + 1)
        } else {
            let e = first_from(ls, i, stop_paragraph());
            proof {
                lemma_first_from(ls, i, stop_paragraph());
            }
            seq![span(ls, i, e - 1, KindSpec::Paragraph)] + blocks_from(ls, e)
        }
    }
}

/// The blocks of a text.
pub open spec fn blocks_of(content: Seq<char>) -> Seq<BlockSpec> {
    blocks_from(lines_of(content), 0)
}

/// The blocks cover lines `i..n` in order, one after the other: each
/// begins where the one before ended, and spans at least its first line.
pub open spec fn tiles(bs: Seq<BlockSpec>, i: int, n: int) -> bool
    decreases bs.len(),
{
    if bs.len() == 0 {
        i == n
    } else {
        &&& bs[0].start_line == i
        &&& i <= bs[0].end_line
        &&& tiles(bs.drop_first(), bs[0].end_line + 1, n)
    }
}

proof fn lemma_first_from_past(ls: Seq<Seq<char>>, i: int, stop: spec_fn(Seq<char>) -> bool)
    requires
        0 <= i < ls.len(),
        !stop(ls[i]),
    ensures
        i < first_from(ls, i, stop) <= ls.len(),
{
    lemma_first_from(ls, i + 1, stop);
}

proof fn lemma_blocks_from_tile(ls: Seq<Seq<char>>, i: int)
    requires
        0 <= i <= ls.len(),
    ensures
        tiles(blocks_from(ls, i), i, ls.len() as int),
    decreases ls.len() - i,
{
    if i < ls.len() {
        let l = ls[i];
        let bs = blocks_from(ls, i);
        let next: int = if is_blank(l) || is_heading_line(l) {
            i + 1
        } else if is_fence(l) {
            lemma_first_from(ls, i + 1, stop_fence());
            let c = first_from(ls, i + 1, stop_fence());
            if c < ls.len() { c + 1 } else { ls.len() as int }
        } else if is_quote_line(l) {
            lemma_first_from_past(ls, i, stop_quote());
            first_from(ls, i, stop_quote())
        } else if is_list_start(l) {
            lemma_first_from_past(ls, i, stop_list());
            first_from(ls, i, stop_list())
        } else if starts_table(ls, i) {
            lemma_first_from_past(ls, i, stop_table());
            first_from(ls, i, stop_table())
        } else if is_rule_line(l) {
            i + 1
        } else {
            assert(continues_paragraph(l));
            lemma_first_from_past(ls, i, stop_paragraph());
            first_from(ls, i, stop_paragraph())
        };
        lemma_blocks_from_tile(ls, next);
        assert(bs.drop_first() =~= blocks_from(ls, next));
        assert(bs[0].start_line == i);
        assert(bs[0].end_line + 1 == next);
    }
}

/// The blocks of a text cover its lines in order, each line in exactly one
/// block: the first begins at line 0, each next one where the one before
/// ended, and the last ends at the last line.
pub proof fn lemma_blocks_tile(content: Seq<char>)
    ensures
        tiles(blocks_of(content), 0, lines_of(content).len() as int),
{
    lemma_blocks_from_tile(lines_of(content), 0);
}

proof fn lemma_list_ordered_from(ls: Seq<Seq<char>>, i: int)
    requires
        0 <= i <= ls.len(),
    ensures
        forall|k: int|
            0 <= k < blocks_from(ls, i).len() ==> ((#[trigger] blocks_from(ls, i)[k]).kind matches KindSpec::List(o)
                ==> {
                let s = blocks_from(ls, i)[k].start_line;
                &&& 0 <= s < ls.len()
                &&& ls[s].len() > 0
                &&& o == is_digit(ls[s][0])
            }),
        forall|k: int|
            0 <= k < blocks_from(ls, i).len() ==> ((#[trigger] blocks_from(ls, i)[k]).kind matches KindSpec::Heading(h)
                ==> {
                let s = blocks_from(ls, i)[k].start_line;
                &&& 0 <= s < ls.len()
                &&& blocks_from(ls, i)[k].end_line == s
                &&& 1 <= h <= 6
                &&& h == (if hash_run(ls[s]) < 6 { hash_run(ls[s]) } else { 6 })
            }),
    decreases ls.len() - i,
{
    if i < ls.len() {
        let l = ls[i];
        let bs = blocks_from(ls, i);
        let next: int = if is_blank(l) || is_heading_line(l) {
            i + 1
        } else if is_fence(l) {
            lemma_first_from(ls, i + 1, stop_fence());
            let c = first_from(ls, i + 1, stop_fence());
            if c < ls.len() { c + 1 } else { ls.len() as int }
        } else if is_quote_line(l) {
            lemma_first_from_past(ls, i, stop_quote());
            first_from(ls, i, stop_quote())
        } else if is_list_start(l) {
            lemma_first_from_past(ls, i, stop_list());
            first_from(ls, i, stop_list())
        } else if starts_table(ls, i) {
            lemma_first_from_past(ls, i, stop_table());
            first_from(ls, i, stop_table())
        } else if is_rule_line(l) {
            i + 1
        } else {
            assert(continues_paragraph(l));
            lemma_first_from_past(ls, i, stop_paragraph());
            first_from(ls, i, stop_paragraph())
        };
        lemma_list_ordered_from(ls, next);
        assert(bs.drop_first() =~= blocks_from(ls, next));
        assert forall|k: int|
            0 <= k < bs.len() implies ((#[trigger] bs[k]).kind matches KindSpec::List(o) ==> {
                let s = bs[k].start_line;
                &&& 0 <= s < ls.len()
                &&& ls[s].len() > 0
                &&& o == is_digit(ls[s][0])
            }) by {
            if k > 0 {
                assert(bs[k] == blocks_from(ls, next)[k - 1]);
            } else {
                assert(bs[0].start_line == i);
            }
        }
        assert forall|k: int|
            0 <= k < bs.len() implies ((#[trigger] bs[k]).kind matches KindSpec::Heading(h) ==> {
                let s = bs[k].start_line;
                &&& 0 <= s < ls.len()
                &&& bs[k].end_line == s
                &&& 1 <= h <= 6
                &&& h == (if hash_run(ls[s]) < 6 { hash_run(ls[s]) } else { 6 })
            }) by {
            if k > 0 {
                assert(bs[k] == blocks_from(ls, next)[k - 1]);
            } else {
                assert(bs[0].start_line == i);
                if bs[0].kind is Heading {
                    assert(is_heading_line(l));
                    lemma_heading_level_range(l);
                }
            }
        }
    }
}

/// A list block is ordered exactly when its first line begins with an
/// ASCII digit: a list whose first item is `1.` is numbered, one whose
/// first item is `-`, `*` or `+` is a bullet list.
pub proof fn lemma_list_ordered(content: Seq<char>)
    ensures
        forall|k: int|
            0 <= k < blocks_of(content).len() ==> ((#[trigger] blocks_of(content)[k]).kind matches KindSpec::List(o)
                ==> {
                let l = lines_of(content)[blocks_of(content)[k].start_line];
                &&& 0 <= blocks_of(content)[k].start_line < lines_of(content).len()
                &&& l.len() > 0
                &&& o == is_digit(l[0])
            }),
{
    lemma_list_ordered_from(lines_of(content), 0);
}

/// A heading block is one line, and its level is the number of `#` that
/// line begins with, at most 6 (so from 1 to 6).
pub proof fn lemma_heading_levels(content: Seq<char>)
    ensures
        forall|k: int|
            0 <= k < blocks_of(content).len() ==> ((#[trigger] blocks_of(content)[k]).kind matches KindSpec::Heading(h)
                ==> {
                let s = blocks_of(content)[k].start_line;
                let l = lines_of(content)[s];
                &&& 0 <= s < lines_of(content).len()
                &&& blocks_of(content)[k].end_line == s
                &&& 1 <= h <= 6
                &&& h == (if hash_run(l) < 6 { hash_run(l) } else { 6 })
            }),
{
    lemma_list_ordered_from(lines_of(content), 0);
}

fn line_is_blank(l: &[char]) -> (r: bool)
    ensures
        r == is_blank(l@),
{
    let (lo, hi) = trim_bounds(l);
    lo == hi
}

fn line_is_fence(l: &[char]) -> (r: bool)
    ensures
        r == is_fence(l@),
{
    let p = ['`', '`', '`'];
    let r = has_prefix(l, &p);
    assert(p@ =~= seq!['`', '`', '`']);
    r
}

fn line_is_list_start(l: &[char]) -> (r: bool)
    ensures
        r == is_list_start(l@),
{
    let p1 = ['-', ' '];
    let p2 = ['*', ' '];
    let p3 = ['+', ' '];
    let dot = ['.', ' '];
    assert(p1@ =~= seq!['-', ' ']);
    assert(p2@ =~= seq!['*', ' ']);
    assert(p3@ =~= seq!['+', ' ']);
    assert(dot@ =~= seq!['.', ' ']);
    has_prefix(l, &p1) || has_prefix(l, &p2) || has_prefix(l, &p3) || (l.len() > 2 && '0'
        <= l[0] && l[0] <= '9' && has_substring(l, &dot))
}

fn line_is_list_line(l: &[char]) -> (r: bool)
    ensures
        r == is_list_line(l@),
{
    let p = [' ', ' '];
    assert(p@ =~= seq![' ', ' ']);
    line_is_list_start(l) || has_prefix(l, &p)
}

/// Whether a line is a Markdown table separator row (such as `|---|---|`).
pub fn is_table_separator(line: &str) -> (r: bool)
    ensures
        r == is_table_sep(line@),
{
    let cs = chars_of(line);
    line_is_table_sep(&cs)
}

fn line_is_table_sep(l: &[char]) -> (r: bool)
    ensures
        r == is_table_sep(l@),
{
    let (lo, hi) = trim_bounds(l);
    let t = sub_chars(l, lo, hi);
    if !has_char(&t, '|') {
        return false;
    }
    let mut k: usize = 0;
    while k < t.len()
        invariant
            k <= t@.len(),
            t@ == trim(l@),
            forall|j: int| 0 <= j < k ==> is_sep_char(#[trigger] t@[j]),
        decreases t@.len() - k,
    {
        let c = t[k];
        if !(c == '|' || c == '-' || c == ':' || c == ' ') {
            return false;
        }
        k += 1;
    }
    true
}

fn line_equals3(l: &[char], c: char) -> (r: bool)
    ensures
        r == (l@ == seq![c, c, c]),
{
    let r = l.len() == 3 && l[0] == c && l[1] == c && l[2] == c;
    if r {
        assert(l@ =~= seq![c, c, c]);
    }
    r
}

fn line_continues_paragraph(l: &[char]) -> (r: bool)
    ensures
        r == continues_paragraph(l@),
{
    !line_is_blank(l) && !(l.len() > 0 && l[0] == '#') && !line_is_fence(l) && !(l.len() > 0
        && l[0] == '>') && !line_equals3(l, '-') && !line_equals3(l, '*')
}

fn heading_level_of(l: &[char]) -> (r: u8)
    ensures
        r == heading_level(l@),
{
    let mut n: usize = 0;
    assert(l@.skip(0) =~= l@);
    while n < 6 && n < l.len() && l[n] == '#'
        invariant
            n <= 6,
            n <= l@.len(),
            hash_run(l@) == n + hash_run(l@.skip(n as int)),
        decreases l@.len() - n,
    {
        assert(l@.skip(n as int).drop_first() =~= l@.skip(n + 1));
        n += 1;
    }
    if n < 6 {
        assert(hash_run(l@.skip(n as int)) == 0);
    }
    n as u8
}

/// The lines `a..b` joined with `'\n'`.
fn join_range(ls: &Vec<Vec<char>>, a: usize, b: usize) -> (r: Vec<char>)
    requires
        a < b <= ls@.len(),
    ensures
        r@ == join_lines(seqs_of(ls@).subrange(a as int, b as int)),
{
    let mut r = sub_chars(&ls[a], 0, ls[a].len());
    assert(seqs_of(ls@).subrange(a as int, a + 1) =~= seq![ls@[a as int]@]);
    let mut k = a + 1;
    while k < b
        invariant
            a < k <= b <= ls@.len(),
            r@ == join_lines(seqs_of(ls@).subrange(a as int, k as int)),
        decreases b - k,
    {
        let ghost before = seqs_of(ls@).subrange(a as int, k as int);
        r.push('\n');
        let line = &ls[k];
        let mut j: usize = 0;
        let ghost base = r@;
        while j < line.len()
            invariant
                j <= line@.len(),
                r@ == base + line@.take(j as int),
            decreases line@.len() - j,
        {
            r.push(line[j]);
            j += 1;
        }
        assert(line@.take(j as int) =~= line@);
        let ghost after = seqs_of(ls@).subrange(a as int, k + 1);
        assert(after.drop_last() =~= before);
        assert(after.last() == line@);
        k += 1;
    }
    r
}

fn block_of(ls: &Vec<Vec<char>>, a: usize, b: usize, kind: BlockKind) -> (r: TextBlock)
    requires
        a <= b < ls@.len(),
    ensures
        r@ == span(seqs_of(ls@), a as int, b as int, kind@),
{
    let _len = ls.len();
    let src = join_range(ls, a, b + 1);
    TextBlock { start_line: a, end_line: b, source: string_of(&src), kind }
}

/// Splits Markdown text into its blocks, in order (see [`blocks_from`]).
#[verifier::rlimit(40)]
pub fn split_blocks(content: &str) -> (r: Vec<TextBlock>)
    ensures
        block_views(r@) == blocks_of(content@),
{
    let cs = chars_of(content);
    let lines = split_lines(&cs);
    let ghost ls = seqs_of(lines@);
    let n = lines.len();
    let mut blocks: Vec<TextBlock> = Vec::new();
    let mut i: usize = 0;
    while i < n
        invariant
            n == lines@.len(),
            ls == seqs_of(lines@),
            ls == lines_of(content@),
            i <= n,
            block_views(blocks@) + blocks_from(ls, i as int) == blocks_from(ls, 0),
        decreases n - i,
    {
        let ghost prev = block_views(blocks@);
        let line = &lines[i];
        assert(line@ == ls[i as int]);
        let next: usize;
        if line_is_blank(line) {
            let b = block_of(&lines, i, i, BlockKind::Empty);
            blocks.push(b);
            next = i + 1;
        } else if line.len() > 0 && line[0] == '#' {
            let lvl = heading_level_of(line);
            let b = block_of(&lines, i, i, BlockKind::Heading(lvl));
            blocks.push(b);
            next = i + 1;
        } else if line_is_fence(line) {
            let tail = sub_chars(line, 3, line.len());
            let (lo, hi) = trim_bounds(&tail);
            let lang_chars = sub_chars(&tail, lo, hi);
            let lang = string_of(&lang_chars);
            let mut c = i + 1;
            while c < n && !line_is_fence(&lines[c])
                invariant
                    i + 1 <= c <= n,
                    n == lines@.len(),
                    ls == seqs_of(lines@),
                    first_from(ls, i + 1, stop_fence()) == first_from(ls, c as int, stop_fence()),
                decreases n - c,
            {
                c += 1;
            }
            let end = if c < n { c } else { c - 1 };
            let b = block_of(&lines, i, end, BlockKind::CodeBlock(lang));
            blocks.push(b);
            next = end + 1;
        } else if line.len() > 0 && line[0] == '>' {
            let mut e = i;
            while e < n && lines[e].len() > 0 && lines[e][0] == '>'
                invariant
                    i <= e <= n,
                    n == lines@.len(),
                    ls == seqs_of(lines@),
                    first_from(ls, i as int, stop_quote()) == first_from(ls, e as int, stop_quote()),
                decreases n - e,
            {
                e += 1;
            }
            let b = block_of(&lines, i, e - 1, BlockKind::Quote);
            blocks.push(b);
            next = e;
        } else if line_is_list_start(line) {
            let ordered = '0' <= line[0] && line[0] <= '9';
            let mut e = i;
            while e < n && !line_is_blank(&lines[e]) && line_is_list_line(&lines[e])
                invariant
                    i <= e <= n,
                    n == lines@.len(),
                    ls == seqs_of(lines@),
                    first_from(ls, i as int, stop_list()) == first_from(ls, e as int, stop_list()),
                decreases n - e,
            {
                e += 1;
            }
            let b = block_of(&lines, i, e - 1, BlockKind::List(ordered));
            blocks.push(b);
            next = e;
        } else if has_char(line, '|') && i + 1 < n && line_is_table_sep(&lines[i + 1]) {
            let mut e = i;
            while e < n && has_char(&lines[e], '|')
                invariant
                    i <= e <= n,
                    n == lines@.len(),
                    ls == seqs_of(lines@),
                    first_from(ls, i as int, stop_table()) == first_from(ls, e as int, stop_table()),
                decreases n - e,
            {
                e += 1;
            }
            let b = block_of(&lines, i, e - 1, BlockKind::Table);
            blocks.push(b);
            next = e;
        } else if line_equals3(line, '-') || line_equals3(line, '*') || line_equals3(line, '_') {
            let b = block_of(&lines, i, i, BlockKind::Rule);
            blocks.push(b);
            next = i + 1;
        } else {
            let mut e = i;
            while e < n && line_continues_paragraph(&lines[e])
                invariant
                    i <= e <= n,
                    n == lines@.len(),
                    ls == seqs_of(lines@),
                    first_from(ls, i as int, stop_paragraph()) == first_from(
                        ls,
                        e as int,
                        stop_paragraph(),
                    ),
                decreases n - e,
            {
                e += 1;
            }
            let b = block_of(&lines, i, e - 1, BlockKind::Paragraph);
            blocks.push(b);
            next = e;
        }
        assert(block_views(blocks@) =~= prev.push(blocks@.last()@));
        assert(block_views(blocks@) + blocks_from(ls, next as int) =~= prev + blocks_from(
            ls,
            i as int,
        ));
        i = next;
    }
    blocks
}

} // verus!
