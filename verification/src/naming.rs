//! Names for new and pasted entries of the data directory: the first of a
//! series of candidate names that no entry of the target folder has yet.

use vstd::prelude::*;
use vstd::relations::injective_on;
use vstd::set_lib::{lemma_int_range, lemma_len_subset, lemma_map_size, set_int_range};
use crate::outline::{decimal, decimal_of};
use crate::text::{chars_of, str_equal, string_of};

verus! {

/// The `k`-th candidate: `first` for `k == 0`, else `before`, `k` in
/// decimal, `after`.
pub open spec fn candidate(first: Seq<char>, before: Seq<char>, after: Seq<char>, k: nat) -> Seq<char> {
    if k == 0 {
        first
    } else {
        before + decimal(k) + after
    }
}

/// Some entry of the folder has the name `n`.
pub open spec fn is_taken(taken: Seq<String>, n: Seq<char>) -> bool {
    exists|j: int| 0 <= j < taken.len() && (#[trigger] taken[j])@ == n
}

/// Whether the folder has an entry named `n`.
fn taken_name(taken: &Vec<String>, n: &str) -> (r: bool)
    ensures
        r == is_taken(taken@, n@),
{
    let mut j: usize = 0;
    while j < taken.len()
        invariant
            j <= taken@.len(),
            forall|i: int| 0 <= i < j ==> (#[trigger] taken@[i])@ != n@,
        decreases taken@.len() - j,
    {
        if str_equal(taken[j].as_str(), n) {
            return true;
        }
        j += 1;
    }
    false
}

/// `a`, `b` and `c` one after the other.
fn joined(a: &[char], b: &[char], c: &[char]) -> (r: String)
    ensures
        r@ == a@ + b@ + c@,
{
    let mut v: Vec<char> = Vec::new();
    let mut k: usize = 0;
    while k < a.len()
        invariant
            k <= a@.len(),
            v@ == a@.take(k as int),
        decreases a@.len() - k,
    {
        v.push(a[k]);
        k += 1;
        assert(v@ =~= a@.take(k as int));
    }
    assert(a@.take(a@.len() as int) =~= a@);
    k = 0;
    while k < b.len()
        invariant
            k <= b@.len(),
            v@ == a@ + b@.take(k as int),
        decreases b@.len() - k,
    {
        v.push(b[k]);
        k += 1;
        assert(v@ =~= a@ + b@.take(k as int));
    }
    assert(b@.take(b@.len() as int) =~= b@);
    k = 0;
    while k < c.len()
        invariant
            k <= c@.len(),
            v@ == a@ + b@ + c@.take(k as int),
        decreases c@.len() - k,
    {
        v.push(c[k]);
        k += 1;
        assert(v@ =~= a@ + b@ + c@.take(k as int));
    }
    assert(c@.take(c@.len() as int) =~= c@);
    string_of(v.as_slice())
}

proof fn lemma_decimal_shape(n: nat)
    ensures
        n < 10 ==> decimal(n).len() == 1,
        n >= 10 ==> decimal(n).len() >= 2,
        decimal(n).last() == (('0' as u32) + n % 10) as char,
    decreases n,
{
    if n >= 10 {
        lemma_decimal_shape(n / 10);
    }
}

/// Different numbers have different decimal digits.
proof fn lemma_decimal_injective(a: nat, b: nat)
    requires
        decimal(a) == decimal(b),
    ensures
        a == b,
    decreases a,
{
    lemma_decimal_shape(a);
    lemma_decimal_shape(b);
    let ca = (('0' as u32) + a % 10) as char;
    let cb = (('0' as u32) + b % 10) as char;
    assert(ca as u32 == ('0' as u32) + a % 10);
    assert(cb as u32 == ('0' as u32) + b % 10);
    assert(a % 10 == b % 10);
    if a >= 10 && b >= 10 {
        assert(decimal(a).drop_last() == decimal(a / 10));
        assert(decimal(b).drop_last() == decimal(b / 10));
        lemma_decimal_injective(a / 10, b / 10);
    }
}

/// Numbered candidates with different numbers are different names.
proof fn lemma_candidates_differ(first: Seq<char>, before: Seq<char>, after: Seq<char>, j: nat, k: nat)
    requires
        j >= 1,
        k >= 1,
        candidate(first, before, after, j) == candidate(first, before, after, k),
    ensures
        j == k,
{
    let dj = decimal(j);
    let dk = decimal(k);
    let c = candidate(first, before, after, j);
    let b = before.len() as int;
    assert(c == before + dj + after);
    assert(c == before + dk + after);
    assert(dj.len() == dk.len());
    assert(dj =~= c.subrange(b, b + dj.len()));
    assert(dk =~= c.subrange(b, b + dk.len()));
    lemma_decimal_injective(j, k);
}

/// Among the numbered candidates 1 to `taken.len() + 1` one is free: they
/// are that many different names, more than the entries there are.
pub proof fn lemma_free_candidate(taken: Seq<String>, first: Seq<char>, before: Seq<char>, after: Seq<char>)
    ensures
        exists|j: nat|
            1 <= j <= taken.len() + 1 && !is_taken(taken, #[trigger] candidate(first, before, after, j)),
{
    let n = taken.len() as int;
    if forall|j: nat| 1 <= j <= n + 1 ==> is_taken(taken, #[trigger] candidate(first, before, after, j)) {
        let views = taken.map_values(|t: String| t@);
        let names = views.to_set();
        views.lemma_cardinality_of_set();
        broadcast use vstd::seq_lib::seq_to_set_is_finite;
        let f = |i: int| candidate(first, before, after, i as nat);
        let dom = set_int_range(1, n + 2);
        lemma_int_range(1, n + 2);
        assert(injective_on(f, dom)) by {
            assert forall|x1: int, x2: int|
                dom.contains(x1) && dom.contains(x2) && #[trigger] f(x1) == #[trigger] f(x2) implies x1
                == x2 by {
                lemma_candidates_differ(first, before, after, x1 as nat, x2 as nat);
            }
        }
        let cands = dom.map(f);
        lemma_map_size(dom, cands, f);
        assert(cands.subset_of(names)) by {
            assert forall|c: Seq<char>| cands.contains(c) implies names.contains(c) by {
                let i = choose|i: int| dom.contains(i) && f(i) == c;
                assert(is_taken(taken, candidate(first, before, after, i as nat)));
                let t = choose|t: int| 0 <= t < taken.len() && (#[trigger] taken[t])@ == c;
                assert(views[t] == c);
            }
        }
        lemma_len_subset(cands, names);
        assert(false);
    }
}

/// The first candidate name that no entry has: `first`, then `before`,
/// 1, `after`, then with 2, and so on. Returns the candidate's number
/// (0 for `first`) and the name; one of the first `taken.len() + 2`
/// candidates is always free.
pub fn first_free_name(first: &str, before: &str, after: &str, taken: &Vec<String>) -> (r: (u64, String))
    requires
        taken@.len() + 1 < u64::MAX,
    ensures
        r.1@ == candidate(first@, before@, after@, r.0 as nat),
        !is_taken(taken@, r.1@),
        forall|j: nat| j < r.0 ==> is_taken(taken@, #[trigger] candidate(first@, before@, after@, j)),
        r.0 <= taken@.len() + 1,
{
    if !taken_name(taken, first) {
        return (0, first.to_string());
    }
    let b = chars_of(before);
    let a = chars_of(after);
    let limit: u64 = taken.len() as u64 + 1;
    proof {
        lemma_free_candidate(taken@, first@, before@, after@);
    }
    let mut k: u64 = 1;
    loop
        invariant
            1 <= k <= limit,
            limit == taken@.len() + 1,
            limit < u64::MAX,
            b@ == before@,
            a@ == after@,
            forall|j: nat| j < k ==> is_taken(taken@, #[trigger] candidate(first@, before@, after@, j)),
            exists|j: nat|
                k <= j <= limit && !is_taken(taken@, #[trigger] candidate(first@, before@, after@, j)),
        decreases limit - k,
    {
        let d = decimal_of(k);
        let name = joined(b.as_slice(), d.as_slice(), a.as_slice());
        if !taken_name(taken, name.as_str()) {
            return (k, name);
        }
        proof {
            assert(candidate(first@, before@, after@, k as nat) == name@);
            assert forall|j: nat| j < k + 1 implies is_taken(taken@, #[trigger] candidate(first@, before@, after@, j)) by {
                if j == k {
                    assert(candidate(first@, before@, after@, j) == name@);
                }
            }
            let w = choose|j: nat|
                k <= j <= limit && !is_taken(taken@, #[trigger] candidate(first@, before@, after@, j));
            assert(w != k);
            assert(k + 1 <= w <= limit && !is_taken(taken@, candidate(first@, before@, after@, w)));
        }
        k += 1;
    }
}

/// Index of the last `c` in `s`, if any.
pub open spec fn last_index(s: Seq<char>, c: char) -> Option<int>
    decreases s.len(),
{
    if s.len() == 0 {
        None
    } else if s.last() == c {
        Some(s.len() - 1)
    } else {
        last_index(s.drop_last(), c)
    }
}

pub proof fn lemma_last_index_bounds(s: Seq<char>, c: char)
    ensures
        match last_index(s, c) {
            Some(i) => 0 <= i < s.len(),
            None => true,
        },
    decreases s.len(),
{
    if s.len() > 0 && s.last() != c {
        lemma_last_index_bounds(s.drop_last(), c);
    }
}

/// `Path::file_stem` of a file name: the name before its last `.`; the
/// whole name when it has no `.`, when its only `.` comes first, or when it
/// is `..`.
pub open spec fn file_stem(n: Seq<char>) -> Seq<char> {
    if n == seq!['.', '.'] {
        n
    } else {
        match last_index(n, '.') {
            Some(i) => if i == 0 {
                n
            } else {
                n.take(i)
            },
            None => n,
        }
    }
}

/// `Path::extension` of a file name: the text after its last `.`, under
/// the same exceptions as `file_stem`.
pub open spec fn file_extension(n: Seq<char>) -> Option<Seq<char>> {
    if n == seq!['.', '.'] {
        None
    } else {
        match last_index(n, '.') {
            Some(i) => if i == 0 {
                None
            } else {
                Some(n.skip(i + 1))
            },
            None => None,
        }
    }
}

/// Index of the last `c` in `s`.
fn find_last(s: &[char], c: char) -> (r: Option<usize>)
    ensures
        match r {
            Some(i) => last_index(s@, c) == Some(i as int) && i < s@.len(),
            None => last_index(s@, c) is None,
        },
{
    let mut k: usize = s.len();
    assert(s@.take(k as int) =~= s@);
    while k > 0
        invariant
            k <= s@.len(),
            last_index(s@.take(k as int), c) == last_index(s@, c),
        decreases k,
    {
        assert(s@.take(k as int).last() == s@[k - 1]);
        if s[k - 1] == c {
            return Some(k - 1);
        }
        assert(s@.take(k as int).drop_last() =~= s@.take(k - 1));
        k -= 1;
    }
    None
}

/// The stem and the extension of a file name, as `Path::file_stem` and
/// `Path::extension` give them.
pub fn name_parts(name: &str) -> (r: (String, Option<String>))
    ensures
        r.0@ == file_stem(name@),
        match r.1 {
            Some(e) => file_extension(name@) == Some(e@),
            None => file_extension(name@) is None,
        },
{
    let n = chars_of(name);
    let dots = ['.', '.'];
    assert(dots@ =~= seq!['.', '.']);
    if crate::text::chars_equal(n.as_slice(), &dots) {
        return (string_of(n.as_slice()), None);
    }
    proof {
        lemma_last_index_bounds(n@, '.');
    }
    let len = n.len();
    match find_last(n.as_slice(), '.') {
        Some(i) => {
            assert(i < len);
            if i == 0 {
                (string_of(n.as_slice()), None)
            } else {
                let stem = crate::text::sub_chars(n.as_slice(), 0, i);
                let ext = crate::text::sub_chars(n.as_slice(), i + 1, n.len());
                assert(stem@ =~= n@.take(i as int));
                assert(ext@ =~= n@.skip(i + 1));
                (string_of(stem.as_slice()), Some(string_of(ext.as_slice())))
            }
        },
        None => (string_of(n.as_slice()), None),
    }
}

/// The name of a new Markdown file: `新建文件.md`, else `新建文件1.md`,
/// `新建文件2.md`, ..., the first that no entry has.
pub open spec fn new_file_candidate(k: nat) -> Seq<char> {
    candidate(
        seq!['新', '建', '文', '件', '.', 'm', 'd'],
        seq!['新', '建', '文', '件'],
        seq!['.', 'm', 'd'],
        k,
    )
}

/// The name of a new folder: `新建文件夹`, else `新建文件夹1`, ...
pub open spec fn new_folder_candidate(k: nat) -> Seq<char> {
    candidate(
        seq!['新', '建', '文', '件', '夹'],
        seq!['新', '建', '文', '件', '夹'],
        seq![],
        k,
    )
}

/// The text put before the number in the name of a pasted copy: the stem
/// and `(`.
pub open spec fn paste_before(n: Seq<char>) -> Seq<char> {
    file_stem(n) + seq!['(']
}

/// The text put after the number: `)` and the extension with its dot.
pub open spec fn paste_after(n: Seq<char>) -> Seq<char> {
    seq![')'] + match file_extension(n) {
        Some(e) => seq!['.'] + e,
        None => seq![],
    }
}

/// The name for a new Markdown file in a folder whose entries have the
/// names `taken`.
pub fn new_file_name(taken: &Vec<String>) -> (r: (u64, String))
    requires
        taken@.len() + 1 < u64::MAX,
    ensures
        r.1@ == new_file_candidate(r.0 as nat),
        !is_taken(taken@, r.1@),
        forall|j: nat| j < r.0 ==> is_taken(taken@, #[trigger] new_file_candidate(j)),
{
    let first = string_of(&['新', '建', '文', '件', '.', 'm', 'd']);
    let before = string_of(&['新', '建', '文', '件']);
    let after = string_of(&['.', 'm', 'd']);
    assert(first@ =~= seq!['新', '建', '文', '件', '.', 'm', 'd']);
    assert(before@ =~= seq!['新', '建', '文', '件']);
    assert(after@ =~= seq!['.', 'm', 'd']);
    first_free_name(first.as_str(), before.as_str(), after.as_str(), taken)
}

/// The name for a new folder in a folder whose entries have the names
/// `taken`.
pub fn new_folder_name(taken: &Vec<String>) -> (r: (u64, String))
    requires
        taken@.len() + 1 < u64::MAX,
    ensures
        r.1@ == new_folder_candidate(r.0 as nat),
        !is_taken(taken@, r.1@),
        forall|j: nat| j < r.0 ==> is_taken(taken@, #[trigger] new_folder_candidate(j)),
{
    let first = string_of(&['新', '建', '文', '件', '夹']);
    let after = string_of(&[]);
    assert(first@ =~= seq!['新', '建', '文', '件', '夹']);
    assert(after@ =~= Seq::<char>::empty());
    first_free_name(first.as_str(), first.as_str(), after.as_str(), taken)
}

/// The name for an entry named `file_name` pasted into a folder whose
/// entries have the names `taken`: the same name when it is free or when
/// the paste would land on the source itself, else `stem(1).ext`,
/// `stem(2).ext`, ..., the first that is free.
pub fn paste_name(file_name: &str, same_as_source: bool, taken: &Vec<String>) -> (r: (u64, String))
    requires
        taken@.len() + 1 < u64::MAX,
    ensures
        same_as_source ==> r.0 == 0 && r.1@ == file_name@,
        !same_as_source ==> {
            &&& r.1@ == candidate(file_name@, paste_before(file_name@), paste_after(file_name@), r.0 as nat)
            &&& !is_taken(taken@, r.1@)
            &&& forall|j: nat| j < r.0 ==> is_taken(taken@, #[trigger] candidate(file_name@, paste_before(file_name@), paste_after(file_name@), j))
        },
{
    if same_as_source {
        return (0, file_name.to_string());
    }
    let (stem, ext) = name_parts(file_name);
    let s = chars_of(stem.as_str());
    let before = string_of(crate::editing::concat_chars(s.as_slice(), &['(']).as_slice());
    let tail: Vec<char> = match ext {
        Some(e) => crate::editing::concat_chars(&['.'], chars_of(e.as_str()).as_slice()),
        None => Vec::new(),
    };
    let after = string_of(crate::editing::concat_chars(&[')'], tail.as_slice()).as_slice());
    assert(before@ =~= paste_before(file_name@));
    assert(after@ =~= paste_after(file_name@));
    first_free_name(file_name, before.as_str(), after.as_str(), taken)
}

} // verus!
