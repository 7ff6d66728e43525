//! Searching: the search bar over the open document (literal matches,
//! optionally case-sensitive and whole-word), and the search through the
//! Markdown files of the data directory.

use vstd::prelude::*;
use vstd::utf8::encode_utf8;
use crate::bytes::{char_width, is_boundary, lemma_encode_concat, lemma_encode_one};
use vstd::utf8::encode_scalar;
use crate::file_tree::{
    entries_view, entry_is_listed, entry_view, is_listed, is_markdown_name, lemma_entries_view,
    DirEntryInfo, EntryView,
};
use vstd::string::StringExecFns;
use crate::bytes::edited;
use crate::outline::{decimal, decimal_of};
use crate::document::buffer::Buffer;
use crate::text::{chars_of, lines_of, replace_literal, replaced, seqs_of, split_lines, string_of};

verus! {

/// A character that `regex::escape` prefixes with a backslash.
pub open spec fn is_meta(c: char) -> bool {
    ||| c == '\\' || c == '.' || c == '+' || c == '*' || c == '?' || c == '(' || c == ')'
    ||| c == '|' || c == '[' || c == ']' || c == '{' || c == '}' || c == '^' || c == '$'
    ||| c == '#' || c == '&' || c == '-' || c == '~'
}

/// The text with every meta character prefixed by a backslash: a pattern
/// that matches the text literally.
pub open spec fn escaped(s: Seq<char>) -> Seq<char>
    decreases s.len(),
{
    if s.len() == 0 {
        seq![]
    } else {
        (if is_meta(s[0]) {
            seq!['\\', s[0]]
        } else {
            seq![s[0]]
        }) + escaped(s.drop_first())
    }
}

/// `regex::escape`: the text with each regex meta character escaped.
#[verifier::external_body]
fn regex_escape(s: &str) -> (r: String)
    ensures
        r@ == escaped(s@),
{
    regex::escape(s)
}

/// The matches of a regular expression (compiled with the given case
/// sensitivity) in a text: `None` when the pattern does not compile, else
/// the byte ranges of the successive non-overlapping matches.
pub uninterp spec fn regex_match_spans(
    pattern: Seq<char>,
    case_insensitive: bool,
    haystack: Seq<char>,
) -> Option<Seq<(usize, usize)>>;

/// `regex::RegexBuilder::new(pattern).case_insensitive(..).build()`, then
/// `Regex::find_iter` on `haystack`, each match taken as its byte range.
/// What is claimed: the result is a function of the three arguments; when it
/// is `Some`, every range lies within the haystack's bytes with its start at
/// or before its end, both ends on character boundaries, and each range ends
/// at or before the next one starts.
/// Which ranges the regex engine finds is left to `regex_match_spans`.
#[verifier::external_body]
fn regex_find_spans(pattern: &str, case_insensitive: bool, haystack: &str) -> (r: Option<
    Vec<(usize, usize)>,
>)
    ensures
        match r {
            Some(v) => {
                &&& regex_match_spans(pattern@, case_insensitive, haystack@) == Some(v@)
                &&& forall|i: int|
                    0 <= i < v@.len() ==> (#[trigger] v@[i]).0 <= v@[i].1 <= encode_utf8(
                        haystack@,
                    ).len()
                &&& forall|i: int| 0 <= i < v@.len() - 1 ==> (#[trigger] v@[i]).1 <= v@[i + 1].0
                &&& forall|i: int|
                    0 <= i < v@.len() ==> is_boundary(haystack@, (#[trigger] v@[i]).0 as int)
                        && is_boundary(haystack@, v@[i].1 as int)
            },
            None => regex_match_spans(pattern@, case_insensitive, haystack@).is_none(),
        },
{
    let re = regex::RegexBuilder::new(pattern).case_insensitive(case_insensitive).build().ok()?;
    Some(re.find_iter(haystack).map(|m| (m.start(), m.end())).collect())
}

/// What `Regex::replace_all` gives for a pattern compiled with the given
/// case sensitivity: `None` when the pattern does not compile, else the
/// text with every match replaced (the replacement read with `$` group
/// references expanded, as the `regex` crate reads a `&str` replacement).
pub uninterp spec fn regex_replaced(
    pattern: Seq<char>,
    case_insensitive: bool,
    haystack: Seq<char>,
    replacement: Seq<char>,
) -> Option<Seq<char>>;

/// `regex::RegexBuilder::new(pattern).case_insensitive(..).build()`, then
/// `Regex::replace_all(haystack, replacement)`. What is claimed: the result
/// is a function of the four arguments, named `regex_replaced`; which text
/// the engine produces is not stated.
#[verifier::external_body]
fn regex_replace_all(pattern: &str, case_insensitive: bool, haystack: &str, replacement: &str) -> (r:
    Option<String>)
    ensures
        match r {
            Some(t) => regex_replaced(pattern@, case_insensitive, haystack@, replacement@) == Some(t@),
            None => regex_replaced(pattern@, case_insensitive, haystack@, replacement@) is None,
        },
{
    let re = regex::RegexBuilder::new(pattern).case_insensitive(case_insensitive).build().ok()?;
    Some(re.replace_all(haystack, replacement).into_owned())
}

/// The match after `cur` among `total`, from the last back to the first;
/// `cur` itself when there are none.
pub open spec fn next_index(cur: usize, total: usize) -> usize {
    if total > 0 {
        ((cur + 1) % (total as int)) as usize
    } else {
        cur
    }
}

/// The match before `cur` among `total`, from the first back to the last;
/// `cur` itself when there are none.
pub open spec fn prev_index(cur: usize, total: usize) -> usize {
    if total == 0 {
        cur
    } else if cur == 0 {
        (total - 1) as usize
    } else {
        (cur - 1) as usize
    }
}

/// Going to the previous match after the next one comes back to the
/// match one started from.
pub proof fn lemma_prev_after_next(cur: usize, total: usize)
    requires
        cur < total,
    ensures
        prev_index(next_index(cur, total), total) == cur,
{
    if cur + 1 < total {
        assert((cur + 1) % (total as int) == cur + 1) by (nonlinear_arith)
            requires
                0 <= cur + 1 < total,
        ;
    } else {
        assert((cur + 1) % (total as int) == 0) by (nonlinear_arith)
            requires
                cur + 1 == total,
                total > 0,
        ;
    }
}

/// Going to the next match after the previous one comes back to the
/// match one started from.
pub proof fn lemma_next_after_prev(cur: usize, total: usize)
    requires
        cur < total,
    ensures
        next_index(prev_index(cur, total), total) == cur,
{
    let p = prev_index(cur, total);
    if cur == 0 {
        assert(p + 1 == total);
        assert((p + 1) % (total as int) == 0) by (nonlinear_arith)
            requires
                p + 1 == total,
                total > 0,
        ;
    } else {
        assert((p + 1) % (total as int) == p + 1) by (nonlinear_arith)
            requires
                0 <= p + 1 < total,
        ;
    }
}

/// Byte ranges within a text, each with its start at or before its end,
/// both ends on character boundaries, each ending at or before the next
/// one starts.
pub open spec fn spans_valid(text: Seq<char>, v: Seq<(usize, usize)>) -> bool {
    &&& forall|i: int| 0 <= i < v.len() ==> (#[trigger] v[i]).0 <= v[i].1 <= encode_utf8(text).len()
    &&& forall|i: int| 0 <= i < v.len() - 1 ==> (#[trigger] v[i]).1 <= v[i + 1].0
    &&& forall|i: int| 0 <= i < v.len() ==> is_boundary(text, (#[trigger] v[i]).0 as int)
        && is_boundary(text, v[i].1 as int)
}

/// The pattern the search bar compiles: the query escaped, between word
/// boundaries (`\b`) when whole words are asked for.
pub open spec fn bar_pattern(query: Seq<char>, whole_word: bool) -> Seq<char> {
    if whole_word {
        seq!['\\', 'b'] + escaped(query) + seq!['\\', 'b']
    } else {
        escaped(query)
    }
}

/// The byte ranges of the query's matches in the text (none when the
/// pattern does not compile).
pub open spec fn bar_matches(content: Seq<char>, query: Seq<char>, case_sensitive: bool, whole_word: bool) -> Seq<
    (usize, usize),
> {
    match regex_match_spans(bar_pattern(query, whole_word), !case_sensitive, content) {
        Some(v) => v,
        None => seq![],
    }
}

/// The matches of `query` in `content`: literal, case-insensitive unless
/// asked otherwise, whole words only if asked.
pub fn find_matches(content: &str, query: &str, case_sensitive: bool, whole_word: bool) -> (r: Vec<
    (usize, usize),
>)
    ensures
        r@ == bar_matches(content@, query@, case_sensitive, whole_word),
        spans_valid(content@, r@),
{
    let esc = regex_escape(query);
    let pattern = if whole_word {
        let wb = ['\\', 'b'];
        let mut p = string_of(&wb);
        p.append(esc.as_str());
        p.append(string_of(&wb).as_str());
        assert(wb@ =~= seq!['\\', 'b']);
        p
    } else {
        esc
    };
    match regex_find_spans(pattern.as_str(), !case_sensitive, content) {
        Some(v) => v,
        None => Vec::new(),
    }
}

/// The text after "replace" in the search bar: the current match (or the
/// last one, when the current is past the end) replaced; none when the
/// query is empty or has no match.
pub open spec fn replaced_current(
    content: Seq<char>,
    query: Seq<char>,
    case_sensitive: bool,
    whole_word: bool,
    current: usize,
    replacement: Seq<char>,
) -> Option<Seq<char>> {
    let ms = bar_matches(content, query, case_sensitive, whole_word);
    if query.len() == 0 || ms.len() == 0 {
        None
    } else {
        let i = if current < ms.len() {
            current as int
        } else {
            ms.len() - 1
        };
        Some(edited(content, ms[i].0 as int, ms[i].1 - ms[i].0, replacement))
    }
}

/// The text after "replace all" in the search bar: none when the query is
/// empty or has no match; else every occurrence replaced, literally when
/// the search is case-sensitive, else by the case-insensitive regex of the
/// escaped query (the text unchanged if that does not compile).
pub open spec fn replaced_all(
    content: Seq<char>,
    query: Seq<char>,
    case_sensitive: bool,
    whole_word: bool,
    replacement: Seq<char>,
) -> Option<Seq<char>> {
    if query.len() == 0 || bar_matches(content, query, case_sensitive, whole_word).len() == 0 {
        None
    } else if case_sensitive {
        Some(replaced(content, query, replacement))
    } else {
        match regex_replaced(escaped(query), true, content, replacement) {
            Some(t) => Some(t),
            None => Some(content),
        }
    }
}

/// The state of the search bar over the open document.
pub struct SearchBarState {
    pub visible: bool,
    pub query: String,
    pub replace_text: String,
    pub case_sensitive: bool,
    pub whole_word: bool,
    pub show_replace: bool,
    pub current_match: usize,
    pub total_matches: usize,
}

impl SearchBarState {
    /// A hidden bar with an empty query and no matches.
    pub fn new() -> (r: Self)
        ensures
            !r.visible,
            r.query@ == Seq::<char>::empty(),
            r.replace_text@ == Seq::<char>::empty(),
            !r.case_sensitive,
            !r.whole_word,
            !r.show_replace,
            r.current_match == 0,
            r.total_matches == 0,
    {
        Self {
            visible: false,
            query: String::new(),
            replace_text: String::new(),
            case_sensitive: false,
            whole_word: false,
            show_replace: false,
            current_match: 0,
            total_matches: 0,
        }
    }

    /// Records that `total` matches were found: the current match goes back
    /// to the first when it is past the last.
    pub fn set_match_count(&mut self, total: usize)
        ensures
            final(self).total_matches == total,
            final(self).current_match == (if old(self).current_match >= total {
                0
            } else {
                old(self).current_match
            }),
            final(self).query == old(self).query,
            final(self).replace_text == old(self).replace_text,
            final(self).visible == old(self).visible,
            final(self).case_sensitive == old(self).case_sensitive,
            final(self).whole_word == old(self).whole_word,
            final(self).show_replace == old(self).show_replace,
    {
        self.total_matches = total;
        if self.current_match >= self.total_matches {
            self.current_match = 0;
        }
    }

    /// Counts the query's matches in `content`; with an empty query, no
    /// matches and the first match current.
    pub fn count_matches(&mut self, content: &str)
        ensures
            old(self).query@.len() == 0 ==> final(self).total_matches == 0 && final(self).current_match
                == 0,
            old(self).query@.len() > 0 ==> {
                let n = bar_matches(
                    content@,
                    old(self).query@,
                    old(self).case_sensitive,
                    old(self).whole_word,
                ).len();
                &&& final(self).total_matches == n
                &&& final(self).current_match == (if old(self).current_match >= n {
                    0
                } else {
                    old(self).current_match
                })
            },
            final(self).query == old(self).query,
            final(self).replace_text == old(self).replace_text,
            final(self).visible == old(self).visible,
            final(self).case_sensitive == old(self).case_sensitive,
            final(self).whole_word == old(self).whole_word,
            final(self).show_replace == old(self).show_replace,
    {
        if self.query.as_str().is_empty() {
            self.total_matches = 0;
            self.current_match = 0;
            return;
        }
        let matches = find_matches(content, self.query.as_str(), self.case_sensitive, self.whole_word);
        self.set_match_count(matches.len());
    }

    /// Shows or hides the bar; shown again, it starts with an empty query
    /// and no matches.
    pub fn toggle_visible(&mut self)
        ensures
            final(self).visible == !old(self).visible,
            final(self).visible ==> final(self).query@.len() == 0 && final(self).total_matches == 0,
            !final(self).visible ==> final(self).query == old(self).query && final(self).total_matches
                == old(self).total_matches,
            final(self).current_match == old(self).current_match,
            final(self).replace_text == old(self).replace_text,
            final(self).case_sensitive == old(self).case_sensitive,
            final(self).whole_word == old(self).whole_word,
            final(self).show_replace == old(self).show_replace,
    {
        self.visible = !self.visible;
        if self.visible {
            self.query = String::new();
            self.total_matches = 0;
        }
    }

    /// Moves to the next match, from the last back to the first; stays
    /// when there are no matches.
    pub fn next_match(&mut self)
        requires
            old(self).total_matches > 0 ==> old(self).current_match < usize::MAX,
        ensures
            final(self).current_match == next_index(old(self).current_match, old(self).total_matches),
            final(self).total_matches == old(self).total_matches,
            final(self).query == old(self).query,
            final(self).replace_text == old(self).replace_text,
            final(self).visible == old(self).visible,
            final(self).case_sensitive == old(self).case_sensitive,
            final(self).whole_word == old(self).whole_word,
            final(self).show_replace == old(self).show_replace,
    {
        if self.total_matches > 0 {
            self.current_match = (self.current_match + 1) % self.total_matches;
        }
    }

    /// Moves to the previous match, from the first back to the last; stays
    /// when there are no matches.
    pub fn prev_match(&mut self)
        ensures
            final(self).current_match == prev_index(old(self).current_match, old(self).total_matches),
            final(self).total_matches == old(self).total_matches,
            final(self).query == old(self).query,
            final(self).replace_text == old(self).replace_text,
            final(self).visible == old(self).visible,
            final(self).case_sensitive == old(self).case_sensitive,
            final(self).whole_word == old(self).whole_word,
            final(self).show_replace == old(self).show_replace,
    {
        if self.total_matches > 0 {
            self.current_match = if self.current_match == 0 {
                self.total_matches - 1
            } else {
                self.current_match - 1
            };
        }
    }

    /// The document text after replacing the current match with the
    /// replacement text; none when there is nothing to replace.
    pub fn replace_current(&self, content: &str) -> (r: Option<String>)
        ensures
            match r {
                Some(t) => replaced_current(
                    content@,
                    self.query@,
                    self.case_sensitive,
                    self.whole_word,
                    self.current_match,
                    self.replace_text@,
                ) == Some(t@),
                None => replaced_current(
                    content@,
                    self.query@,
                    self.case_sensitive,
                    self.whole_word,
                    self.current_match,
                    self.replace_text@,
                ) is None,
            },
    {
        if self.query.as_str().is_empty() {
            return None;
        }
        let ms = self.matches(content);
        if ms.len() == 0 {
            return None;
        }
        let idx = if self.current_match < ms.len() {
            self.current_match
        } else {
            ms.len() - 1
        };
        let (start, end) = ms[idx];
        let mut buf = Buffer::new(content.to_string());
        buf.replace(start, end - start, self.replace_text.as_str());
        Some(buf.as_str().to_string())
    }

    /// The document text after replacing every match with the replacement
    /// text; none when there is nothing to replace.
    pub fn replace_all(&self, content: &str) -> (r: Option<String>)
        ensures
            match r {
                Some(t) => replaced_all(
                    content@,
                    self.query@,
                    self.case_sensitive,
                    self.whole_word,
                    self.replace_text@,
                ) == Some(t@),
                None => replaced_all(
                    content@,
                    self.query@,
                    self.case_sensitive,
                    self.whole_word,
                    self.replace_text@,
                ) is None,
            },
    {
        if self.query.as_str().is_empty() {
            return None;
        }
        let ms = self.matches(content);
        if ms.len() == 0 {
            return None;
        }
        if self.case_sensitive {
            let c = chars_of(content);
            let q = chars_of(self.query.as_str());
            let rep = chars_of(self.replace_text.as_str());
            let out = replace_literal(c.as_slice(), q.as_slice(), rep.as_slice());
            Some(string_of(out.as_slice()))
        } else {
            let esc = regex_escape(self.query.as_str());
            match regex_replace_all(esc.as_str(), true, content, self.replace_text.as_str()) {
                Some(t) => Some(t),
                None => Some(content.to_string()),
            }
        }
    }

    /// The byte ranges of the query's matches in `content` (none for an
    /// empty query).
    pub fn matches(&self, content: &str) -> (r: Vec<(usize, usize)>)
        ensures
            self.query@.len() == 0 ==> r@.len() == 0,
            self.query@.len() > 0 ==> r@ == bar_matches(
                content@,
                self.query@,
                self.case_sensitive,
                self.whole_word,
            ),
            spans_valid(content@, r@),
    {
        if self.query.as_str().is_empty() {
            return Vec::new();
        }
        find_matches(content, self.query.as_str(), self.case_sensitive, self.whole_word)
    }
}

/// What the search bar asks of the document: nothing, or to go to the
/// previous or next match, to replace the current match or all of them.
pub enum SearchBarAction {
    Idle,
    QueryChanged,
    PrevMatch,
    NextMatch,
    Replace,
    ReplaceAll,
}

/// A line of a file that holds the query: its 0-based number, its text,
/// and the byte range of the first match.
pub struct LineMatch {
    pub line_number: usize,
    pub line_text: String,
    pub match_start: usize,
    pub match_end: usize,
}

/// A matching line as a value.
pub struct LineMatchView {
    pub line_number: int,
    pub line_text: Seq<char>,
    pub match_start: usize,
    pub match_end: usize,
}

impl View for LineMatch {
    type V = LineMatchView;

    open spec fn view(&self) -> LineMatchView {
        LineMatchView {
            line_number: self.line_number as int,
            line_text: self.line_text@,
            match_start: self.match_start,
            match_end: self.match_end,
        }
    }
}

/// The matching lines held by a vector, as values.
pub open spec fn line_match_views(v: Seq<LineMatch>) -> Seq<LineMatchView> {
    v.map_values(|x: LineMatch| x@)
}

/// A file with the lines that hold the query.
pub struct FileSearchResult {
    pub file_path: String,
    pub file_name: String,
    pub lines: Vec<LineMatch>,
}

/// A file's search result as a value.
pub struct FileResultView {
    pub file_path: Seq<char>,
    pub file_name: Seq<char>,
    pub lines: Seq<LineMatchView>,
}

impl View for FileSearchResult {
    type V = FileResultView;

    open spec fn view(&self) -> FileResultView {
        FileResultView {
            file_path: self.file_path@,
            file_name: self.file_name@,
            lines: line_match_views(self.lines@),
        }
    }
}

/// The file results held by a vector, as values.
pub open spec fn file_result_views(v: Seq<FileSearchResult>) -> Seq<FileResultView> {
    v.map_values(|x: FileSearchResult| x@)
}

/// The first case-insensitive literal match of the query in a line.
pub open spec fn first_match(line: Seq<char>, query: Seq<char>) -> Option<(usize, usize)> {
    match regex_match_spans(escaped(query), true, line) {
        Some(v) => if v.len() > 0 {
            Some(v[0])
        } else {
            None
        },
        None => None,
    }
}

/// The lines from index `i` on that hold the query, each with its first
/// match.
pub open spec fn matching_lines(ls: Seq<Seq<char>>, query: Seq<char>, i: int) -> Seq<LineMatchView>
    decreases ls.len() - i,
{
    if i < 0 || i >= ls.len() {
        seq![]
    } else {
        match first_match(ls[i], query) {
            Some(m) => seq![LineMatchView { line_number: i, line_text: ls[i], match_start: m.0, match_end: m.1 }]
                + matching_lines(ls, query, i + 1),
            None => matching_lines(ls, query, i + 1),
        }
    }
}

/// The line holds the query, ignoring case: the escaped query, compiled
/// case-insensitively, matches somewhere in it.
pub open spec fn line_holds(line: Seq<char>, query: Seq<char>) -> bool {
    regex_match_spans(escaped(query), true, line) matches Some(v) && v.len() > 0
}

proof fn lemma_matching_lines_from(ls: Seq<Seq<char>>, query: Seq<char>, i: int)
    requires
        0 <= i <= ls.len(),
    ensures
        ({
            let m = matching_lines(ls, query, i);
            &&& forall|j: int|
                0 <= j < m.len() ==> i <= (#[trigger] m[j]).line_number < ls.len() && m[j].line_text
                    == ls[m[j].line_number] && line_holds(ls[m[j].line_number], query)
                    && first_match(ls[m[j].line_number], query) == Some((m[j].match_start, m[j].match_end))
            &&& forall|a: int, b: int| 0 <= a < b < m.len() ==> (#[trigger] m[a]).line_number < (#[trigger] m[b]).line_number
            &&& forall|k: int|
                i <= k < ls.len() && line_holds(#[trigger] ls[k], query) ==> exists|j: int|
                    0 <= j < m.len() && (#[trigger] m[j]).line_number == k
        }),
    decreases ls.len() - i,
{
    if i < ls.len() {
        lemma_matching_lines_from(ls, query, i + 1);
        let rest = matching_lines(ls, query, i + 1);
        let m = matching_lines(ls, query, i);
        match first_match(ls[i], query) {
            Some(mm) => {
                let x = LineMatchView { line_number: i, line_text: ls[i], match_start: mm.0, match_end: mm.1 };
                assert(m == seq![x] + rest);
                assert forall|j: int| 0 < j < m.len() implies m[j] == rest[j - 1] by {}
                assert forall|a: int, b: int| 0 <= a < b < m.len() implies (#[trigger] m[a]).line_number
                    < (#[trigger] m[b]).line_number by {
                    assert(m[b] == rest[b - 1]);
                    if a > 0 {
                        assert(m[a] == rest[a - 1]);
                    }
                }
                assert forall|k: int|
                    i <= k < ls.len() && line_holds(#[trigger] ls[k], query) implies exists|j: int|
                        0 <= j < m.len() && (#[trigger] m[j]).line_number == k by {
                    if k == i {
                        assert(m[0].line_number == i);
                    } else {
                        let j = choose|j: int| 0 <= j < rest.len() && (#[trigger] rest[j]).line_number == k;
                        assert(m[j + 1] == rest[j]);
                    }
                }
            },
            None => {
                assert(m == rest);
                assert forall|k: int|
                    i <= k < ls.len() && line_holds(#[trigger] ls[k], query) implies exists|j: int|
                        0 <= j < m.len() && (#[trigger] m[j]).line_number == k by {
                    if k == i {
                        assert(false);
                    }
                }
            },
        }
    }
}

/// The matching lines of a text are exactly its lines that hold the
/// query, in order: each entry names a line that holds it, with that
/// line's text and its first match (the first span the regex finds); the line numbers grow; and every line
/// that holds the query has an entry.
pub proof fn lemma_matching_lines(content: Seq<char>, query: Seq<char>)
    ensures
        ({
            let ls = lines_of(content);
            let m = matching_lines(ls, query, 0);
            &&& forall|j: int|
                0 <= j < m.len() ==> 0 <= (#[trigger] m[j]).line_number < ls.len() && m[j].line_text
                    == ls[m[j].line_number] && line_holds(ls[m[j].line_number], query)
                    && first_match(ls[m[j].line_number], query) == Some((m[j].match_start, m[j].match_end))
            &&& forall|a: int, b: int| 0 <= a < b < m.len() ==> (#[trigger] m[a]).line_number < (#[trigger] m[b]).line_number
            &&& forall|k: int|
                0 <= k < ls.len() && line_holds(#[trigger] ls[k], query) ==> exists|j: int|
                    0 <= j < m.len() && (#[trigger] m[j]).line_number == k
        }),
{
    lemma_matching_lines_from(lines_of(content), query, 0);
}

/// The lines of a text that hold the query, ignoring case, each with its
/// first match.
pub fn find_line_matches(content: &str, query: &str) -> (r: Vec<LineMatch>)
    ensures
        line_match_views(r@) == matching_lines(lines_of(content@), query@, 0),
{
    let pattern = regex_escape(query);
    let cs = chars_of(content);
    let lines = split_lines(&cs);
    let ghost ls = seqs_of(lines@);
    let mut out: Vec<LineMatch> = Vec::new();
    let mut i: usize = 0;
    while i < lines.len()
        invariant
            i <= lines@.len(),
            ls == seqs_of(lines@),
            ls == lines_of(content@),
            pattern@ == escaped(query@),
            line_match_views(out@) + matching_lines(ls, query@, i as int) == matching_lines(ls, query@, 0),
        decreases lines@.len() - i,
    {
        let text = string_of(&lines[i]);
        assert(text@ == ls[i as int]);
        let ghost before = line_match_views(out@);
        match regex_find_spans(pattern.as_str(), true, text.as_str()) {
            Some(v) => {
                if v.len() > 0 {
                    let m = LineMatch {
                        line_number: i,
                        line_text: text,
                        match_start: v[0].0,
                        match_end: v[0].1,
                    };
                    out.push(m);
                    assert(line_match_views(out@) =~= before.push(m@));
                }
            },
            None => {},
        }
        i += 1;
    }
    assert(line_match_views(out@) + Seq::<LineMatchView>::empty() =~= line_match_views(out@));
    out
}

/// The results of a search through a listing, entries in listing order:
/// hidden entries and the theme folder are skipped, folders searched
/// through, and each Markdown file whose text was read and has matching
/// lines gives one result.
pub open spec fn search_results(es: Seq<EntryView>, query: Seq<char>) -> Seq<FileResultView>
    decreases es,
{
    if es.len() == 0 {
        seq![]
    } else {
        let e = es[0];
        proof {
            assert(decreases_to!(es => es[0]));
            assert(decreases_to!(es[0] => es[0].children));
        }
        let here = if !is_listed(e) {
            Seq::<FileResultView>::empty()
        } else if e.is_dir {
            search_results(e.children, query)
        } else if is_markdown_name(e.name) && e.content is Some {
            let m = matching_lines(lines_of(e.content->0), query, 0);
            if m.len() > 0 {
                seq![FileResultView { file_path: e.path, file_name: e.name, lines: m }]
            } else {
                seq![]
            }
        } else {
            seq![]
        };
        here + search_results(es.drop_first(), query)
    }
}

fn search_dir(es: &Vec<DirEntryInfo>, query: &str, results: &mut Vec<FileSearchResult>)
    ensures
        file_result_views(final(results)@) == file_result_views(old(results)@) + search_results(
            entries_view(es@),
            query@,
        ),
    decreases es,
{
    let ghost ev = entries_view(es@);
    let ghost start = file_result_views(results@);
    proof {
        lemma_entries_view(es@);
        assert(ev.skip(0) =~= ev);
    }
    let mut i: usize = 0;
    while i < es.len()
        invariant
            i <= es@.len(),
            ev == entries_view(es@),
            ev.len() == es@.len(),
            forall|j: int| 0 <= j < es@.len() ==> #[trigger] ev[j] == entry_view(es@[j]),
            start + search_results(ev, query@) == file_result_views(results@) + search_results(
                ev.skip(i as int),
                query@,
            ),
        decreases es@.len() - i,
    {
        let e = &es[i];
        let ghost before = file_result_views(results@);
        proof {
            assert(ev.skip(i as int)[0] == ev[i as int]);
            assert(ev.skip(i as int).drop_first() =~= ev.skip(i + 1));
            assert(ev[i as int] == entry_view(*e));
        }
        if entry_is_listed(e) {
            if e.is_dir {
                assert(decreases_to!(es => es@[i as int]));
                search_dir(&e.children, query, results);
            } else if crate::file_tree::name_is_markdown(e) {
                match &e.content {
                    Some(c) => {
                        let lines = find_line_matches(c.as_str(), query);
                        if lines.len() > 0 {
                            let r = FileSearchResult {
                                file_path: e.path.clone(),
                                file_name: e.name.clone(),
                                lines,
                            };
                            results.push(r);
                            assert(file_result_views(results@) =~= before.push(r@));
                        }
                    },
                    None => {},
                }
            }
        }
        i += 1;
    }
    assert(ev.skip(i as int) =~= Seq::<EntryView>::empty());
    assert(file_result_views(results@) + Seq::<FileResultView>::empty() =~= file_result_views(
        results@,
    ));
}

/// What one frame of the search panel produced: the file and line to open,
/// if a match was clicked.
pub struct SearchTreeResult {
    pub open_file: Option<(String, usize)>,
}

/// The number of leading characters of `t` whose encoding fits in `n`
/// bytes.
pub open spec fn fit_prefix(t: Seq<char>, n: int) -> int
    decreases t.len(),
{
    if t.len() == 0 {
        0
    } else if encode_scalar(t[0] as u32).len() <= n {
        1 + fit_prefix(t.drop_first(), n - encode_scalar(t[0] as u32).len())
    } else {
        0
    }
}

/// The label of a matching line in the search panel: its number from 1,
/// `": "`, and its text; a text of more than 60 bytes is cut after the
/// last character that ends within its first 60 bytes and followed by
/// `"..."`.
pub open spec fn match_label(line_number: nat, text: Seq<char>) -> Seq<char> {
    let head = decimal(line_number + 1) + seq![':', ' '];
    if encode_utf8(text).len() > 60 {
        head + text.take(fit_prefix(text, 60)) + seq!['.', '.', '.']
    } else {
        head + text
    }
}

/// The label of a matching line.
pub fn line_match_label(line_number: usize, line_text: &str) -> (r: String)
    requires
        line_number < usize::MAX,
    ensures
        r@ == match_label(line_number as nat, line_text@),
{
    let mut out = decimal_of(line_number as u64 + 1);
    out.push(':');
    out.push(' ');
    let tc = chars_of(line_text);
    let ghost t = tc@;
    let mut acc: usize = 0;
    let mut k: usize = 0;
    assert(t.take(0) =~= Seq::<char>::empty());
    assert(t.skip(0) =~= t);
    while k < tc.len() && acc + char_width(tc[k]) <= 60
        invariant
            t == tc@,
            k <= t.len(),
            acc <= 60,
            acc == encode_utf8(t.take(k as int)).len(),
            fit_prefix(t, 60) == k + fit_prefix(t.skip(k as int), 60 - acc),
        decreases t.len() - k,
    {
        let w = char_width(tc[k]);
        proof {
            assert(t.take(k + 1) =~= t.take(k as int) + seq![t[k as int]]);
            lemma_encode_concat(t.take(k as int), seq![t[k as int]]);
            lemma_encode_one(t[k as int]);
            assert(t.skip(k as int).drop_first() =~= t.skip(k + 1));
        }
        acc = acc + w;
        k += 1;
    }
    let ghost o = out@;
    let mut j: usize = 0;
    while j < k
        invariant
            t == tc@,
            k <= t.len(),
            j <= k,
            out@ == o + t.take(j as int),
        decreases k - j,
    {
        out.push(tc[j]);
        j += 1;
        assert(out@ =~= o + t.take(j as int));
    }
    proof {
        assert(t.take(k as int) + t.skip(k as int) =~= t);
        lemma_encode_concat(t.take(k as int), t.skip(k as int));
    }
    if k < tc.len() {
        proof {
            assert(t.skip(k as int)[0] == t[k as int]);
            assert(encode_utf8(t.skip(k as int)) == encode_scalar(t[k as int] as u32) + encode_utf8(
                t.skip(k as int).drop_first(),
            ));
        }
        out.push('.');
        out.push('.');
        out.push('.');
        assert(out@ =~= match_label(line_number as nat, line_text@));
    } else {
        assert(t.take(k as int) =~= t);
        assert(out@ =~= match_label(line_number as nat, line_text@));
    }
    string_of(out.as_slice())
}

/// The state of the search panel: the query and the files found.
pub struct SearchTreeState {
    pub query: String,
    pub results: Vec<FileSearchResult>,
    pub searching: bool,
}

impl SearchTreeState {
    /// An empty query with no results.
    pub fn new() -> (r: Self)
        ensures
            r.query@ == Seq::<char>::empty(),
            r.results@.len() == 0,
            !r.searching,
    {
        Self { query: String::new(), results: Vec::new(), searching: false }
    }

    /// Searches the listing of the data directory for `query`, ignoring
    /// case; an empty query finds nothing.
    pub fn search(&mut self, query: &str, listing: &Vec<DirEntryInfo>)
        ensures
            final(self).query@ == query@,
            query@.len() == 0 ==> final(self).results@.len() == 0,
            query@.len() > 0 ==> file_result_views(final(self).results@) == search_results(
                entries_view(listing@),
                query@,
            ),
            query@.len() == 0 ==> final(self).searching == old(self).searching,
            query@.len() > 0 ==> !final(self).searching,
    {
        self.query = query.to_owned();
        self.results.clear();
        if query.is_empty() {
            return;
        }
        self.searching = true;
        assert(file_result_views(self.results@) =~= Seq::<FileResultView>::empty());
        search_dir(listing, query, &mut self.results);
        assert(Seq::<FileResultView>::empty() + search_results(entries_view(listing@), query@)
            =~= search_results(entries_view(listing@), query@));
        self.searching = false;
    }
}

} // verus!