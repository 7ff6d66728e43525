//! Reading the settings file: `key=value` lines, blank lines and lines
//! that begin with `#` skipped.

use vstd::prelude::*;
use crate::table::{value_views, Table};
use crate::text::{
    chars_of, find_char, first_index, is_ws, join_lines, lemma_first_index_at,
    lemma_lines_of_join, lines_of, plain_line, seqs_of, split_lines, string_of, sub_chars, trim,
    trim_bounds, trim_end, trim_start,
};

verus! {

/// The key and value of one settings line, if it is one: the trimmed line
/// is not empty, does not begin with `#`, holds a `=`; key and value are the
/// trimmed parts before and after the first `=`.
pub open spec fn ini_entry(line: Seq<char>) -> Option<(Seq<char>, Seq<char>)> {
    let t = trim(line);
    if t.len() == 0 || t[0] == '#' {
        None
    } else {
        match first_index(t, '=') {
            Some(i) => Some((trim(t.take(i)), trim(t.skip(i + 1)))),
            None => None,
        }
    }
}

/// The settings held by the first `n` lines, a later line overriding an
/// earlier one with the same key.
pub open spec fn ini_map(ls: Seq<Seq<char>>, n: int) -> Map<Seq<char>, Seq<char>>
    decreases n,
{
    if n <= 0 {
        Map::empty()
    } else {
        let m = ini_map(ls, n - 1);
        match ini_entry(ls[n - 1]) {
            Some((k, v)) => m.insert(k, v),
            None => m,
        }
    }
}

/// The settings of a whole text, as key and value characters.
pub open spec fn ini_settings(content: Seq<char>) -> Map<Seq<char>, Seq<char>> {
    ini_map(lines_of(content), lines_of(content).len() as int)
}

/// The entry of one line, as characters.
fn line_entry(line: &[char]) -> (r: Option<(Vec<char>, Vec<char>)>)
    ensures
        match r {
            Some((k, v)) => ini_entry(line@) == Some((k@, v@)),
            None => ini_entry(line@) is None,
        },
{
    let (lo, hi) = trim_bounds(line);
    let t = sub_chars(line, lo, hi);
    if t.len() == 0 || t[0] == '#' {
        return None;
    }
    match find_char(t.as_slice(), '=') {
        Some(i) => {
            let before = sub_chars(t.as_slice(), 0, i);
            let after = sub_chars(t.as_slice(), i + 1, t.len());
            let (a, b) = trim_bounds(before.as_slice());
            let (c, d) = trim_bounds(after.as_slice());
            let k = sub_chars(before.as_slice(), a, b);
            let v = sub_chars(after.as_slice(), c, d);
            assert(before@ =~= t@.take(i as int));
            assert(after@ =~= t@.skip(i + 1));
            Some((k, v))
        },
        None => None,
    }
}

/// Parses the settings text into a table of keys and values. Each line is
/// trimmed; blank lines and lines that begin with `#` are skipped, as are
/// lines without `=`; the key and value are the trimmed text before and
/// after the first `=`. A later line overrides an earlier one.
pub fn parse_ini(content: &str) -> (r: Table<String>)
    ensures
        r.wf(),
        value_views(r.map()) == ini_settings(content@),
{
    let cs = chars_of(content);
    let lines = split_lines(cs.as_slice());
    let ghost ls = lines_of(content@);
    let mut map: Table<String> = Table::new();
    let mut i: usize = 0;
    while i < lines.len()
        invariant
            i <= lines@.len(),
            seqs_of(lines@) == ls,
            map.wf(),
            value_views(map.map()) == ini_map(ls, i as int),
        decreases lines@.len() - i,
    {
        assert(lines@[i as int]@ == ls[i as int]);
        match line_entry(lines[i].as_slice()) {
            Some((k, v)) => {
                let key = string_of(k.as_slice());
                let value = string_of(v.as_slice());
                let ghost before = map.map();
                map.insert(key, value);
                proof {
                    assert(value_views(before.insert(k@, value)) =~= value_views(before).insert(k@, v@));
                }
            },
            None => {},
        }
        i += 1;
    }
    map
}

/// A line written as `key=value` reads back as that key and value, for a
/// key that is not empty, holds no `=`, does not begin with `#`, and has
/// no whitespace at either end, and a value with none at either end.
pub proof fn lemma_setting_line(k: Seq<char>, v: Seq<char>)
    requires
        k.len() > 0,
        k[0] != '#',
        trim(k) == k,
        trim(v) == v,
        forall|i: int| 0 <= i < k.len() ==> k[i] != '=',
    ensures
        ini_entry(k + seq!['='] + v) == Some((k, v)),
{
    let line = k + seq!['='] + v;
    lemma_trimmed(k);
    lemma_trimmed(v);
    assert(line[0] == k[0]);
    assert(trim_start(line) == line);
    if v.len() == 0 {
        assert(line.last() == '=');
    } else {
        assert(line.last() == v.last());
    }
    assert(trim_end(line) == line);
    lemma_first_index_at(line, '=', k.len() as int);
    assert(line.take(k.len() as int) =~= k);
    assert(line.skip(k.len() as int + 1) =~= v);
}

/// A key that a settings line can carry and read back: not empty, no `=`
/// and no line break in it, not beginning with `#`, and no whitespace at
/// either end.
pub open spec fn setting_key(k: Seq<char>) -> bool {
    &&& k.len() > 0
    &&& k[0] != '#'
    &&& trim(k) == k
    &&& forall|i: int| 0 <= i < k.len() ==> k[i] != '=' && k[i] != '\n'
}

/// A value that a settings line can carry and read back: no line break in
/// it and no whitespace at either end.
pub open spec fn setting_value(v: Seq<char>) -> bool {
    &&& trim(v) == v
    &&& forall|i: int| 0 <= i < v.len() ==> v[i] != '\n'
}

/// The `key=value` lines of the given keys and values, in order.
pub open spec fn setting_lines(ks: Seq<Seq<char>>, vs: Seq<Seq<char>>) -> Seq<Seq<char>> {
    Seq::new(ks.len(), |i: int| ks[i] + seq!['='] + vs[i])
}

/// The first `n` keys bound to their values, a later key overriding an
/// earlier equal one.
pub open spec fn settings_of(ks: Seq<Seq<char>>, vs: Seq<Seq<char>>, n: int) -> Map<
    Seq<char>,
    Seq<char>,
>
    decreases n,
{
    if n <= 0 {
        Map::empty()
    } else {
        settings_of(ks, vs, n - 1).insert(ks[n - 1], vs[n - 1])
    }
}

/// A settings file written as `key=value` lines joined by line breaks reads
/// back as those keys bound to their values, the last of equal keys
/// winning.
pub proof fn lemma_settings_file(ks: Seq<Seq<char>>, vs: Seq<Seq<char>>)
    requires
        ks.len() == vs.len(),
        forall|i: int| 0 <= i < ks.len() ==> setting_key(#[trigger] ks[i]),
        forall|i: int| 0 <= i < vs.len() ==> setting_value(#[trigger] vs[i]),
    ensures
        ini_settings(join_lines(setting_lines(ks, vs))) == settings_of(ks, vs, ks.len() as int),
{
    let ls = setting_lines(ks, vs);
    assert forall|i: int| 0 <= i < ls.len() implies plain_line(#[trigger] ls[i]) by {
        let k = ks[i];
        let v = vs[i];
        assert(setting_key(k));
        assert(setting_value(v));
        let l = k + seq!['='] + v;
        assert(ls[i] == l);
        assert forall|j: int| 0 <= j < l.len() implies l[j] != '\n' by {
            if j < k.len() {
                assert(l[j] == k[j]);
            } else if j > k.len() {
                assert(l[j] == v[j - k.len() - 1]);
            }
        }
        lemma_trimmed(v);
        if v.len() > 0 {
            assert(l.last() == v.last());
        }
    }
    if ls.len() > 0 {
        assert(ls.last().len() > 0);
    }
    lemma_lines_of_join(ls);
    lemma_setting_lines_map(ks, vs, ks.len() as int);
}

proof fn lemma_setting_lines_map(ks: Seq<Seq<char>>, vs: Seq<Seq<char>>, n: int)
    requires
        ks.len() == vs.len(),
        0 <= n <= ks.len(),
        forall|i: int| 0 <= i < ks.len() ==> setting_key(#[trigger] ks[i]),
        forall|i: int| 0 <= i < vs.len() ==> setting_value(#[trigger] vs[i]),
    ensures
        ini_map(setting_lines(ks, vs), n) == settings_of(ks, vs, n),
    decreases n,
{
    if n > 0 {
        lemma_setting_lines_map(ks, vs, n - 1);
        let k = ks[n - 1];
        let v = vs[n - 1];
        assert(setting_key(k));
        assert(setting_value(v));
        lemma_setting_line(k, v);
        assert(setting_lines(ks, vs)[n - 1] == k + seq!['='] + v);
    }
}

proof fn lemma_trim_start_head(s: Seq<char>)
    ensures
        trim_start(s).len() == 0 || !is_ws(trim_start(s)[0]),
    decreases s.len(),
{
    if s.len() > 0 && is_ws(s[0]) {
        lemma_trim_start_head(s.drop_first());
    }
}

proof fn lemma_trim_end_prefix(t: Seq<char>)
    ensures
        trim_end(t).len() <= t.len(),
        trim_end(t) == t.take(trim_end(t).len() as int),
        trim_end(t).len() == 0 || !is_ws(trim_end(t).last()),
    decreases t.len(),
{
    if t.len() > 0 && is_ws(t.last()) {
        lemma_trim_end_prefix(t.drop_last());
        assert(t.drop_last().take(trim_end(t).len() as int) =~= t.take(trim_end(t).len() as int));
    } else {
        assert(t.take(t.len() as int) =~= t);
    }
}

/// A trimmed text neither begins nor ends with whitespace.
proof fn lemma_trimmed(s: Seq<char>)
    ensures
        trim(s).len() == 0 || (!is_ws(trim(s)[0]) && !is_ws(trim(s).last())),
{
    let t = trim_start(s);
    lemma_trim_start_head(s);
    lemma_trim_end_prefix(t);
    if trim(s).len() > 0 {
        assert(trim(s)[0] == t.take(trim(s).len() as int)[0]);
    }
}

} // verus!
