//! Reading theme style sheets: rules of the form `selector { key: value; }`,
//! with `/* ... */` comments, gathered by selector.

use vstd::prelude::*;
use vstd::utf8::encode_utf8;
use crate::table::{value_views, Table};
use crate::text::{
    char_is_ws, chars_of, find_char, first_index, has_sub, has_substring, is_ws, replace_literal,
    replaced, seqs_of, split_char, split_on, string_of, sub_chars, trim, trim_bounds,
};

verus! {

/// The position just after the `*/` that closes a comment whose text
/// starts at `k`, or the end of the text when it is never closed.
pub open spec fn comment_end(s: Seq<char>, k: int) -> int
    decreases s.len() - k,
{
    if k >= s.len() {
        s.len() as int
    } else if s[k] == '*' && k + 1 < s.len() && s[k + 1] == '/' {
        k + 2
    } else {
        comment_end(s, k + 1)
    }
}

pub proof fn lemma_comment_end_bounds(s: Seq<char>, k: int)
    requires
        0 <= k <= s.len(),
    ensures
        k <= comment_end(s, k) <= s.len(),
    decreases s.len() - k,
{
    if k < s.len() && !(s[k] == '*' && k + 1 < s.len() && s[k + 1] == '/') {
        lemma_comment_end_bounds(s, k + 1);
    }
}

/// `/*` opens a comment at position `i`.
pub open spec fn opens_comment(s: Seq<char>, i: int) -> bool {
    0 <= i && i + 1 < s.len() && s[i] == '/' && s[i + 1] == '*'
}

/// The first position at or after `i` that is neither whitespace nor
/// inside a comment.
pub open spec fn skip_blank(s: Seq<char>, i: int) -> int
    decreases s.len() - i,
{
    if i < 0 || i >= s.len() {
        i
    } else if is_ws(s[i]) {
        skip_blank(s, i + 1)
    } else if opens_comment(s, i) {
        proof {
            lemma_comment_end_bounds(s, i + 2);
        }
        skip_blank(s, comment_end(s, i + 2))
    } else {
        i
    }
}

pub proof fn lemma_skip_blank_bounds(s: Seq<char>, i: int)
    requires
        0 <= i <= s.len(),
    ensures
        i <= skip_blank(s, i) <= s.len(),
    decreases s.len() - i,
{
    if i < s.len() {
        if is_ws(s[i]) {
            lemma_skip_blank_bounds(s, i + 1);
        } else if opens_comment(s, i) {
            lemma_comment_end_bounds(s, i + 2);
            lemma_skip_blank_bounds(s, comment_end(s, i + 2));
        }
    }
}

/// Index of the first `c` at or after `i`, or the length.
pub open spec fn char_end(s: Seq<char>, i: int, c: char) -> int
    decreases s.len() - i,
{
    if i < 0 || i >= s.len() {
        s.len() as int
    } else if s[i] == c {
        i
    } else {
        char_end(s, i + 1, c)
    }
}

pub proof fn lemma_char_end_bounds(s: Seq<char>, i: int, c: char)
    requires
        0 <= i <= s.len(),
    ensures
        i <= char_end(s, i, c) <= s.len(),
        char_end(s, i, c) < s.len() ==> s[char_end(s, i, c)] == c,
        forall|k: int| i <= k < char_end(s, i, c) ==> s[k] != c,
    decreases s.len() - i,
{
    if i < s.len() && s[i] != c {
        lemma_char_end_bounds(s, i + 1, c);
    }
}

/// The position after the `c` that ends the text begun at `i`.
pub open spec fn after_end(s: Seq<char>, i: int, c: char) -> int {
    if char_end(s, i, c) < s.len() {
        char_end(s, i, c) + 1
    } else {
        s.len() as int
    }
}

/// The text from position `i` on with its comments taken out.
pub open spec fn uncommented(s: Seq<char>, i: int) -> Seq<char>
    decreases s.len() - i,
{
    if i < 0 || i >= s.len() {
        seq![]
    } else if opens_comment(s, i) {
        proof {
            lemma_comment_end_bounds(s, i + 2);
        }
        uncommented(s, comment_end(s, i + 2))
    } else {
        seq![s[i]] + uncommented(s, i + 1)
    }
}

/// The marker `!important`.
pub open spec fn important() -> Seq<char> {
    seq!['!', 'i', 'm', 'p', 'o', 'r', 't', 'a', 'n', 't']
}

/// What `str::to_lowercase` returns for a string: each character by its
/// Unicode lowercase mapping, with the final-sigma rule of that function.
pub uninterp spec fn str_lowercase(s: Seq<char>) -> Seq<char>;

/// `str::to_lowercase`. The contract names its result and states nothing
/// more of the Unicode case tables.
#[verifier::external_body]
pub(crate) fn to_lowercase(s: &str) -> (r: String)
    ensures
        r@ == str_lowercase(s@),
{
    s.to_lowercase()
}

/// The key and value of one declaration `key: value`: the key trimmed and
/// lowercased, the value trimmed with `!important` taken out; none for a
/// declaration without `:` or with an empty key.
pub open spec fn decl_entry(d: Seq<char>) -> Option<(Seq<char>, Seq<char>)> {
    let t = trim(d);
    if t.len() == 0 {
        None
    } else {
        match first_index(t, ':') {
            Some(i) => {
                let key = str_lowercase(trim(t.take(i)));
                if key.len() == 0 {
                    None
                } else {
                    Some((key, trim(replaced(trim(t.skip(i + 1)), important(), seq![]))))
                }
            },
            None => None,
        }
    }
}

/// The properties set by the first `n` declarations, a later one
/// overriding an earlier one.
pub open spec fn decls_map(ds: Seq<Seq<char>>, n: int) -> Map<Seq<char>, Seq<char>>
    decreases n,
{
    if n <= 0 {
        Map::empty()
    } else {
        let m = decls_map(ds, n - 1);
        match decl_entry(ds[n - 1]) {
            Some((k, v)) => m.insert(k, v),
            None => m,
        }
    }
}

/// The properties of a declaration block: comments taken out, split at
/// `;`, each declaration read by `decl_entry`.
pub open spec fn css_properties(body: Seq<char>) -> Map<Seq<char>, Seq<char>> {
    let ds = split_on(uncommented(body, 0), ';');
    decls_map(ds, ds.len() as int)
}

/// The end of the comment whose text starts at `k`.
fn skip_comment(s: &[char], k: usize) -> (r: usize)
    requires
        k <= s@.len(),
    ensures
        r == comment_end(s@, k as int),
        k <= r <= s@.len(),
{
    let mut j = k;
    while j < s.len()
        invariant
            k <= j <= s@.len(),
            comment_end(s@, j as int) == comment_end(s@, k as int),
        decreases s@.len() - j,
    {
        if s[j] == '*' && j + 1 < s.len() && s[j + 1] == '/' {
            return j + 2;
        }
        j += 1;
    }
    j
}

/// Skips whitespace and comments from position `i`; returns the first
/// position of anything else, or the end.
pub fn skip_whitespace_and_comments(s: &[char], i: usize) -> (r: usize)
    requires
        i <= s@.len(),
    ensures
        r == skip_blank(s@, i as int),
        i <= r <= s@.len(),
{
    let mut j = i;
    proof {
        lemma_skip_blank_bounds(s@, i as int);
    }
    loop
        invariant
            i <= j <= s@.len(),
            skip_blank(s@, j as int) == skip_blank(s@, i as int),
        decreases s@.len() - j,
    {
        if j < s.len() && char_is_ws(s[j]) {
            j += 1;
        } else if j < s.len() && j + 1 < s.len() && s[j] == '/' && s[j + 1] == '*' {
            j = skip_comment(s, j + 2);
        } else {
            return j;
        }
    }
}

/// Reads from position `i` up to the first `end`; returns the text read
/// and the position after that `end` (or the end of the text).
pub fn read_until(s: &[char], i: usize, end: char) -> (r: (Vec<char>, usize))
    requires
        i <= s@.len(),
    ensures
        r.0@ == s@.subrange(i as int, char_end(s@, i as int, end)),
        r.1 == after_end(s@, i as int, end),
        i <= r.1 <= s@.len(),
{
    proof {
        lemma_char_end_bounds(s@, i as int, end);
    }
    let mut j = i;
    while j < s.len() && s[j] != end
        invariant
            i <= j <= s@.len(),
            char_end(s@, j as int, end) == char_end(s@, i as int, end),
        decreases s@.len() - j,
    {
        j += 1;
    }
    let text = sub_chars(s, i, j);
    if j < s.len() {
        (text, j + 1)
    } else {
        (text, j)
    }
}

/// The characters with their comments taken out.
fn uncomment(s: &[char]) -> (r: Vec<char>)
    ensures
        r@ == uncommented(s@, 0),
{
    let mut out: Vec<char> = Vec::new();
    let mut i: usize = 0;
    while i < s.len()
        invariant
            i <= s@.len(),
            out@ + uncommented(s@, i as int) == uncommented(s@, 0),
        decreases s@.len() - i,
    {
        if i + 1 < s.len() && s[i] == '/' && s[i + 1] == '*' {
            i = skip_comment(s, i + 2);
        } else {
            let ghost o = out@;
            out.push(s[i]);
            assert(out@ + uncommented(s@, i + 1) =~= o + uncommented(s@, i as int));
            i += 1;
        }
    }
    assert(out@ + uncommented(s@, i as int) =~= out@);
    out
}

/// Takes the `/* ... */` comments out of a text; an unclosed comment runs
/// to the end.
pub fn remove_comments(s: &str) -> (r: String)
    ensures
        r@ == uncommented(s@, 0),
{
    let cs = chars_of(s);
    let out = uncomment(cs.as_slice());
    string_of(out.as_slice())
}

/// The entry of one declaration.
fn declaration(d: &[char]) -> (r: Option<(String, String)>)
    ensures
        match r {
            Some((k, v)) => decl_entry(d@) == Some((k@, v@)),
            None => decl_entry(d@) is None,
        },
{
    let (lo, hi) = trim_bounds(d);
    let t = sub_chars(d, lo, hi);
    if t.len() == 0 {
        return None;
    }
    match find_char(t.as_slice(), ':') {
        Some(i) => {
            let before = sub_chars(t.as_slice(), 0, i);
            let after = sub_chars(t.as_slice(), i + 1, t.len());
            assert(before@ =~= t@.take(i as int));
            assert(after@ =~= t@.skip(i + 1));
            let (a, b) = trim_bounds(before.as_slice());
            let k = sub_chars(before.as_slice(), a, b);
            let key = to_lowercase(string_of(k.as_slice()).as_str());
            let ghost kk = key@;
            if key.as_str().is_empty() {
                return None;
            }
            let (c, e) = trim_bounds(after.as_slice());
            let v = sub_chars(after.as_slice(), c, e);
            let pat = vec!['!', 'i', 'm', 'p', 'o', 'r', 't', 'a', 'n', 't'];
            assert(pat@ =~= important());
            let nothing: Vec<char> = Vec::new();
            let w = replace_literal(v.as_slice(), pat.as_slice(), nothing.as_slice());
            let (f, g) = trim_bounds(w.as_slice());
            let val = sub_chars(w.as_slice(), f, g);
            Some((key, string_of(val.as_slice())))
        },
        None => None,
    }
}

/// Parses a declaration block into its properties: comments are taken
/// out, the text is split at `;`, and each `key: value` gives the key
/// trimmed and lowercased and the value trimmed with `!important` removed.
/// Declarations without `:` or with an empty key are skipped; a later one
/// overrides an earlier one.
pub fn parse_properties(body: &str) -> (r: Table<String>)
    ensures
        r.wf(),
        value_views(r.map()) == css_properties(body@),
{
    let cs = chars_of(body);
    let text = uncomment(cs.as_slice());
    let decls = split_char(text.as_slice(), ';');
    let ghost ds = split_on(uncommented(body@, 0), ';');
    let mut props: Table<String> = Table::new();
    let mut i: usize = 0;
    while i < decls.len()
        invariant
            i <= decls@.len(),
            seqs_of(decls@) == ds,
            props.wf(),
            value_views(props.map()) == decls_map(ds, i as int),
        decreases decls@.len() - i,
    {
        assert(decls@[i as int]@ == ds[i as int]);
        match declaration(decls[i].as_slice()) {
            Some((k, v)) => {
                let ghost before = props.map();
                props.insert(k, v);
                proof {
                    assert(value_views(before.insert(k@, v)) =~= value_views(before).insert(k@, v@));
                }
            },
            None => {},
        }
        i += 1;
    }
    props
}

/// The properties gathered under one selector.
pub struct CssRule {
    pub properties: Table<String>,
}

/// A rule's properties as key and value characters.
pub open spec fn rule_view(r: CssRule) -> Map<Seq<char>, Seq<char>> {
    value_views(r.properties.map())
}

/// The rules by selector, each as its properties.
pub open spec fn rules_view(t: Table<CssRule>) -> Map<Seq<char>, Map<Seq<char>, Seq<char>>> {
    t.map().map_values(|r: CssRule| rule_view(r))
}

/// The table and every rule's property table are well formed.
pub open spec fn rules_wf(t: Table<CssRule>) -> bool {
    &&& t.wf()
    &&& forall|k: Seq<char>| #[trigger] t.map().dom().contains(k) ==> t.map()[k].properties.wf()
}

/// A rule for `sel` added to the rules read so far: a selector seen before
/// keeps its properties, with the new ones added over them.
pub open spec fn merge_rule(
    acc: Map<Seq<char>, Map<Seq<char>, Seq<char>>>,
    sel: Seq<char>,
    props: Map<Seq<char>, Seq<char>>,
) -> Map<Seq<char>, Map<Seq<char>, Seq<char>>> {
    if acc.dom().contains(sel) {
        acc.insert(sel, acc[sel].union_prefer_right(props))
    } else {
        acc.insert(sel, props)
    }
}

/// The rules read from position `i` on, added to `acc`: blanks and
/// comments are skipped, the selector runs to `{` and is trimmed, the body
/// runs to `}`; reading stops at an empty selector.
pub open spec fn css_fold(
    s: Seq<char>,
    i: int,
    acc: Map<Seq<char>, Map<Seq<char>, Seq<char>>>,
) -> Map<Seq<char>, Map<Seq<char>, Seq<char>>>
    decreases s.len() - i,
{
    if i < 0 || i >= s.len() {
        acc
    } else {
        let j = skip_blank(s, i);
        let e = char_end(s, j, '{');
        proof {
            lemma_skip_blank_bounds(s, i);
            lemma_char_end_bounds(s, j, '{');
        }
        if e == j {
            acc
        } else {
            let k = after_end(s, j, '{');
            proof {
                lemma_char_end_bounds(s, k, '}');
            }
            let f = char_end(s, k, '}');
            css_fold(
                s,
                after_end(s, k, '}'),
                merge_rule(acc, trim(s.subrange(j, e)), css_properties(s.subrange(k, f))),
            )
        }
    }
}

/// The rules of a whole style sheet.
pub open spec fn css_rules(content: Seq<char>) -> Map<Seq<char>, Map<Seq<char>, Seq<char>>> {
    css_fold(content, 0, Map::empty())
}

/// Adds the rule `sel { props }` to the rules read so far.
fn add_rule(rules: &mut Table<CssRule>, sel: String, props: Table<String>)
    requires
        rules_wf(*old(rules)),
        props.wf(),
    ensures
        rules_wf(*final(rules)),
        rules_view(*final(rules)) == merge_rule(rules_view(*old(rules)), sel@, value_views(props.map())),
{
    let ghost m0 = rules.map();
    match rules.position(sel.as_str()) {
        Some(p) => {
            let empty = CssRule { properties: Table::new() };
            let mut rule = rules.replace_at(p, empty);
            assert(rule == m0[sel@]);
            assert(m0.dom().contains(sel@));
            rule.properties.extend_from(&props);
            let ghost merged = rule;
            rules.replace_at(p, rule);
            proof {
                let m1 = rules.map();
                assert(m1 == m0.insert(sel@, merged));
                assert forall|k: Seq<char>| #[trigger] m1.dom().contains(k) implies m1[k].properties.wf() by {
                    if k != sel@ {
                        assert(m0.dom().contains(k));
                    }
                }
                assert(rules_view(*rules) =~= merge_rule(rules_view(*old(rules)), sel@, value_views(props.map())));
            }
        },
        None => {
            let ghost key = sel@;
            let rule = CssRule { properties: props };
            rules.insert(sel, rule);
            proof {
                let m1 = rules.map();
                assert forall|k: Seq<char>| #[trigger] m1.dom().contains(k) implies m1[k].properties.wf() by {
                    if k != key {
                        assert(m0.dom().contains(k));
                    }
                }
                assert(rules_view(*rules) =~= merge_rule(rules_view(*old(rules)), key, value_views(props.map())));
            }
        },
    }
}

/// Parses a style sheet into its rules by selector. Blanks and comments
/// before a selector are skipped; the selector is the trimmed text up to
/// `{`, its properties those of the text up to `}`. A selector that comes
/// again has its new properties added over the earlier ones. Reading stops
/// at the end or at an empty selector.
pub fn parse_css(content: &str) -> (r: Table<CssRule>)
    ensures
        rules_wf(r),
        rules_view(r) == css_rules(content@),
{
    let s = chars_of(content);
    let mut rules: Table<CssRule> = Table::new();
    assert(rules_view(rules) =~= Map::<Seq<char>, Map<Seq<char>, Seq<char>>>::empty());
    let mut i: usize = 0;
    let mut done = false;
    while !done && i < s.len()
        invariant
            i <= s@.len(),
            s@ == content@,
            rules_wf(rules),
            done ==> rules_view(rules) == css_rules(content@),
            !done ==> css_fold(s@, i as int, rules_view(rules)) == css_rules(content@),
        decreases s@.len() - i + (if done { 0int } else { 1int }),
    {
        let j = skip_whitespace_and_comments(s.as_slice(), i);
        let (selector, k) = read_until(s.as_slice(), j, '{');
        if selector.len() == 0 {
            proof {
                lemma_char_end_bounds(s@, j as int, '{');
                assert(char_end(s@, j as int, '{') == j);
            }
            done = true;
        } else {
            proof {
                lemma_char_end_bounds(s@, j as int, '{');
                lemma_char_end_bounds(s@, k as int, '}');
            }
            let (body, m) = read_until(s.as_slice(), k, '}');
            let (a, b) = trim_bounds(selector.as_slice());
            let sel = string_of(sub_chars(selector.as_slice(), a, b).as_slice());
            let props = parse_properties(string_of(body.as_slice()).as_str());
            add_rule(&mut rules, sel, props);
            i = m;
        }
    }
    rules
}

/// The byte length of a selector, as `str::len` gives it.
pub open spec fn byte_len(k: Seq<char>) -> usize {
    encode_utf8(k).len() as usize
}

/// The value of property `prop` in the rule for `selector`, if both are
/// there.
pub fn get_prop<'a>(rules: &'a Table<CssRule>, selector: &str, prop: &str) -> (r: Option<&'a String>)
    requires
        rules_wf(*rules),
    ensures
        match r {
            Some(v) => rules.map().dom().contains(selector@)
                && rules.map()[selector@].properties.map().dom().contains(prop@)
                && *v == rules.map()[selector@].properties.map()[prop@],
            None => !(rules.map().dom().contains(selector@)
                && rules.map()[selector@].properties.map().dom().contains(prop@)),
        },
{
    match rules.get(selector) {
        Some(rule) => rule.properties.get(prop),
        None => None,
    }
}

/// From entry `i` on, the first of the shortest selectors (in bytes) that
/// contain `needle`, given the best index found before `i`.
pub open spec fn shortest_from(es: Seq<(String, CssRule)>, needle: Seq<char>, i: int, best: Option<int>) -> Option<int>
    decreases es.len() - i,
{
    if i < 0 || i >= es.len() {
        best
    } else if has_sub(es[i].0@, needle) && (match best {
        Some(b) => byte_len(es[i].0@) < byte_len(es[b].0@),
        None => true,
    }) {
        shortest_from(es, needle, i + 1, Some(i))
    } else {
        shortest_from(es, needle, i + 1, best)
    }
}

/// The rule `find_rule` gives for `needle`: that of the exact selector if
/// there is one, else that of the first of the shortest selectors that
/// contain `needle`, in the order the rules were read.
pub open spec fn found_rule(rules: Table<CssRule>, needle: Seq<char>) -> Option<CssRule> {
    if rules.map().dom().contains(needle) {
        Some(rules.map()[needle])
    } else {
        match shortest_from(rules.entries(), needle, 0, None) {
            Some(b) => Some(rules.entries()[b].1),
            None => None,
        }
    }
}

pub proof fn lemma_shortest_bounds(es: Seq<(String, CssRule)>, needle: Seq<char>, i: int, best: Option<int>)
    requires
        0 <= i,
        best matches Some(b) ==> 0 <= b < es.len(),
    ensures
        shortest_from(es, needle, i, best) matches Some(b) ==> 0 <= b < es.len(),
    decreases es.len() - i,
{
    if i < es.len() {
        lemma_shortest_bounds(es, needle, i + 1, Some(i));
        lemma_shortest_bounds(es, needle, i + 1, best);
    }
}

/// The rule found for a selector in well-formed rules has well-formed
/// properties.
pub proof fn lemma_found_rule_wf(rules: Table<CssRule>, needle: Seq<char>)
    requires
        rules_wf(rules),
    ensures
        found_rule(rules, needle) matches Some(r) ==> r.properties.wf(),
{
    if !rules.map().dom().contains(needle) {
        lemma_shortest_bounds(rules.entries(), needle, 0, None);
        if let Some(b) = shortest_from(rules.entries(), needle, 0, None) {
            rules.lemma_entry_in_map(b);
        }
    }
}

/// The rule for `needle`: the rule of that exact selector if there is
/// one, else one of the rules whose selector contains `needle` with the
/// fewest bytes, else none.
pub fn find_rule<'a>(rules: &'a Table<CssRule>, needle: &str) -> (r: Option<&'a CssRule>)
    requires
        rules_wf(*rules),
    ensures
        match r {
            Some(rule) => if rules.map().dom().contains(needle@) {
                *rule == rules.map()[needle@]
            } else {
                exists|i: int|
                    0 <= i < rules.entries().len() && has_sub(#[trigger] rules.entries()[i].0@, needle@)
                        && *rule == rules.entries()[i].1
                        && forall|j: int|
                            0 <= j < rules.entries().len() && has_sub(#[trigger] rules.entries()[j].0@, needle@)
                                ==> byte_len(rules.entries()[i].0@) <= byte_len(rules.entries()[j].0@)
            },
            None => !rules.map().dom().contains(needle@) && forall|j: int|
                0 <= j < rules.entries().len() ==> !has_sub(#[trigger] rules.entries()[j].0@, needle@),
        },
        r matches Some(rule) ==> found_rule(*rules, needle@) == Some(*rule),
        r is None ==> found_rule(*rules, needle@) is None,
{
    if let Some(rule) = rules.get(needle) {
        return Some(rule);
    }
    let pat = chars_of(needle);
    let mut best: Option<usize> = None;
    let mut best_len: usize = 0;
    let mut i: usize = 0;
    while i < rules.len()
        invariant
            i <= rules.entries().len(),
            pat@ == needle@,
            match best {
                Some(b) => b < i && has_sub(rules.entries()[b as int].0@, needle@)
                    && best_len == byte_len(rules.entries()[b as int].0@)
                    && forall|j: int| 0 <= j < i && has_sub(#[trigger] rules.entries()[j].0@, needle@)
                        ==> best_len <= byte_len(rules.entries()[j].0@),
                None => forall|j: int| 0 <= j < i ==> !has_sub(#[trigger] rules.entries()[j].0@, needle@),
            },
            shortest_from(rules.entries(), needle@, 0, None) == shortest_from(
                rules.entries(),
                needle@,
                i as int,
                match best {
                    Some(b) => Some(b as int),
                    None => None,
                },
            ),
        decreases rules.entries().len() - i,
    {
        let (key, _) = rules.entry_at(i);
        let kc = chars_of(key.as_str());
        if has_substring(kc.as_slice(), pat.as_slice()) {
            let n = key.as_str().len();
            match best {
                Some(_) => {
                    if n < best_len {
                        best = Some(i);
                        best_len = n;
                    }
                },
                None => {
                    best = Some(i);
                    best_len = n;
                },
            }
        }
        i += 1;
    }
    match best {
        Some(b) => {
            let (_, rule) = rules.entry_at(b);
            Some(rule)
        },
        None => None,
    }
}

} // verus!
