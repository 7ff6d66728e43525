//! Which font files belong to a configured font family: the file-name
//! prefix of the family, the exact file names tried first, and the test
//! that a file found in a fonts folder belongs to the family.

use vstd::prelude::*;
use crate::css::{str_lowercase, to_lowercase};
use crate::editing::concat_chars;
use crate::text::{chars_of, has_prefix, has_suffix, replace_literal, replaced, string_of};

verus! {

/// The code of a character after `char::to_ascii_lowercase`.
pub open spec fn ascii_lower_code(c: char) -> u32 {
    if 'A' <= c && c <= 'Z' {
        (c as u32 + 32) as u32
    } else {
        c as u32
    }
}

/// `str::eq_ignore_ascii_case`: the same characters once ASCII letters
/// are lowercased.
pub open spec fn eq_ascii_nocase(a: Seq<char>, b: Seq<char>) -> bool {
    &&& a.len() == b.len()
    &&& forall|i: int| 0 <= i < a.len() ==> ascii_lower_code(#[trigger] a[i]) == ascii_lower_code(b[i])
}

/// The families whose files are named otherwise than the family: the
/// family, then the file-name prefix.
pub open spec fn known_fonts() -> Seq<(Seq<char>, Seq<char>)> {
    seq![
        ("LXGW WenKai"@, "LXGWWenKai"@),
        ("LXGW WenKai Mono"@, "LXGWWenKaiMono"@),
        ("Microsoft YaHei"@, "msyh"@),
        ("Microsoft YaHei Mono"@, "msyh"@),
        ("SimSun"@, "simsun"@),
        ("SimHei"@, "simhei"@),
        ("PingFang SC"@, "PingFang"@),
        ("Noto Sans CJK SC"@, "NotoSansCJKsc"@),
    ]
}

/// The prefix of the first known family at or after `k` that equals
/// `name` up to ASCII case.
pub open spec fn known_prefix_from(name: Seq<char>, k: int) -> Option<Seq<char>>
    decreases known_fonts().len() - k,
{
    if k < 0 || k >= known_fonts().len() {
        None
    } else if eq_ascii_nocase(name, known_fonts()[k].0) {
        Some(known_fonts()[k].1)
    } else {
        known_prefix_from(name, k + 1)
    }
}

/// The file-name prefix of a family: that of the first known family equal
/// to it up to ASCII case, else the family with its spaces taken out.
pub open spec fn font_prefix(name: Seq<char>) -> Seq<char> {
    match known_prefix_from(name, 0) {
        Some(p) => p,
        None => replaced(name, seq![' '], seq![]),
    }
}

/// The extensions of font files, in the order they are tried.
pub open spec fn font_extensions() -> Seq<Seq<char>> {
    seq![seq!['t', 't', 'f'], seq!['t', 't', 'c'], seq!['o', 't', 'f']]
}

/// A file of a fonts folder belongs to the family of prefix `prefix`: its
/// lowercased name begins with the lowercased prefix (spaces taken out)
/// and ends with `.ttf`, `.ttc` or `.otf`.
pub open spec fn font_file_matches(file_name: Seq<char>, prefix: Seq<char>) -> bool {
    let n = str_lowercase(file_name);
    let p = replaced(str_lowercase(prefix), seq![' '], seq![]);
    &&& p.is_prefix_of(n)
    &&& exists|k: int|
        0 <= k < font_extensions().len() && (seq!['.'] + #[trigger] font_extensions()[k]).is_suffix_of(n)
}

/// Whether two characters are equal once ASCII letters are lowercased.
fn char_eq_ascii_nocase(x: char, y: char) -> (r: bool)
    ensures
        r == (ascii_lower_code(x) == ascii_lower_code(y)),
{
    let a: u32 = if 'A' <= x && x <= 'Z' {
        x as u32 + 32
    } else {
        x as u32
    };
    let b: u32 = if 'A' <= y && y <= 'Z' {
        y as u32 + 32
    } else {
        y as u32
    };
    a == b
}

/// `str::eq_ignore_ascii_case` on characters.
pub(crate) fn eq_ignore_ascii_case(a: &[char], b: &[char]) -> (r: bool)
    ensures
        r == eq_ascii_nocase(a@, b@),
{
    if a.len() != b.len() {
        return false;
    }
    let mut i: usize = 0;
    while i < a.len()
        invariant
            i <= a@.len(),
            a@.len() == b@.len(),
            forall|j: int| 0 <= j < i ==> ascii_lower_code(#[trigger] a@[j]) == ascii_lower_code(b@[j]),
        decreases a@.len() - i,
    {
        if !char_eq_ascii_nocase(a[i], b[i]) {
            return false;
        }
        i += 1;
    }
    true
}

/// The file-name prefix of the font family `name`: the prefix of the first
/// known family equal to it up to ASCII case, else `name` with its spaces
/// taken out.
pub fn font_file_prefix(name: &str) -> (r: String)
    ensures
        r@ == font_prefix(name@),
{
    let table: [(&str, &str); 8] = [
        ("LXGW WenKai", "LXGWWenKai"),
        ("LXGW WenKai Mono", "LXGWWenKaiMono"),
        ("Microsoft YaHei", "msyh"),
        ("Microsoft YaHei Mono", "msyh"),
        ("SimSun", "simsun"),
        ("SimHei", "simhei"),
        ("PingFang SC", "PingFang"),
        ("Noto Sans CJK SC", "NotoSansCJKsc"),
    ];
    let ghost known = known_fonts();
    assert forall|k: int| 0 <= k < 8 implies table@[k].0@ == known[k].0 && table@[k].1@ == known[k].1 by {}
    let n = chars_of(name);
    let mut k: usize = 0;
    while k < 8
        invariant
            k <= 8,
            n@ == name@,
            known == known_fonts(),
            forall|j: int| 0 <= j < 8 ==> table@[j].0@ == known[j].0 && table@[j].1@ == known[j].1,
            known_prefix_from(name@, 0) == known_prefix_from(name@, k as int),
        decreases 8 - k,
    {
        let (family, prefix) = table[k];
        let f = chars_of(family);
        if eq_ignore_ascii_case(n.as_slice(), f.as_slice()) {
            return prefix.to_string();
        }
        k += 1;
    }
    assert(known_prefix_from(name@, 8) is None);
    let space = [' '];
    let nothing: [char; 0] = [];
    assert(space@ =~= seq![' ']);
    assert(nothing@ =~= Seq::<char>::empty());
    let out = replace_literal(n.as_slice(), &space, &nothing);
    string_of(out.as_slice())
}

/// The exact file names tried first for a prefix: the prefix with each
/// font extension, in order.
pub fn font_file_names(prefix: &str) -> (r: Vec<String>)
    ensures
        r@.len() == font_extensions().len(),
        forall|k: int|
            0 <= k < r@.len() ==> (#[trigger] r@[k])@ == prefix@ + seq!['.'] + font_extensions()[k],
{
    let p = chars_of(prefix);
    let exts = [['.', 't', 't', 'f'], ['.', 't', 't', 'c'], ['.', 'o', 't', 'f']];
    let mut r: Vec<String> = Vec::new();
    let mut k: usize = 0;
    while k < 3
        invariant
            k <= 3,
            p@ == prefix@,
            exts@.len() == 3,
            forall|j: int| 0 <= j < 3 ==> (#[trigger] exts@[j])@ == seq!['.'] + font_extensions()[j],
            r@.len() == k,
            forall|j: int| 0 <= j < k ==> (#[trigger] r@[j])@ == prefix@ + seq!['.'] + font_extensions()[j],
        decreases 3 - k,
    {
        let name = concat_chars(p.as_slice(), &exts[k]);
        assert(name@ =~= prefix@ + seq!['.'] + font_extensions()[k as int]);
        r.push(string_of(name.as_slice()));
        k += 1;
    }
    r
}

/// Whether a file found in a fonts folder belongs to the family with the
/// file-name prefix `prefix`: its lowercased name begins with the
/// lowercased prefix, spaces taken out, and ends with `.ttf`, `.ttc` or
/// `.otf`.
pub fn is_font_file_for(file_name: &str, prefix: &str) -> (r: bool)
    ensures
        r == font_file_matches(file_name@, prefix@),
{
    let n = chars_of(to_lowercase(file_name).as_str());
    let pl = chars_of(to_lowercase(prefix).as_str());
    let space = [' '];
    let nothing: [char; 0] = [];
    assert(space@ =~= seq![' ']);
    assert(nothing@ =~= Seq::<char>::empty());
    let p = replace_literal(pl.as_slice(), &space, &nothing);
    if !has_prefix(n.as_slice(), p.as_slice()) {
        return false;
    }
    let ttf = ['.', 't', 't', 'f'];
    let ttc = ['.', 't', 't', 'c'];
    let otf = ['.', 'o', 't', 'f'];
    assert(ttf@ =~= seq!['.'] + font_extensions()[0]);
    assert(ttc@ =~= seq!['.'] + font_extensions()[1]);
    assert(otf@ =~= seq!['.'] + font_extensions()[2]);
    let r = has_suffix(n.as_slice(), &ttf) || has_suffix(n.as_slice(), &ttc) || has_suffix(
        n.as_slice(),
        &otf,
    );
    proof {
        if !r {
            assert forall|k: int| 0 <= k < font_extensions().len() implies !(seq!['.']
                + #[trigger] font_extensions()[k]).is_suffix_of(n@) by {
                if k == 0 {
                } else if k == 1 {
                } else {
                    assert(k == 2);
                }
            }
        }
    }
    r
}

} // verus!
