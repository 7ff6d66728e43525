//! Natural ordering of names: runs of digits compare by their numeric value,
//! other characters by their lowercase forms.

use std::cmp::Ordering;
use vstd::prelude::*;
use crate::text::{chars_of, is_digit, skip_u, sub_u};

verus! {

/// The lowercase mapping of a character (`char::to_lowercase`): one or more
/// characters, as the Unicode tables give it.
pub uninterp spec fn lowercase_of(c: char) -> Seq<char>;

/// `char::to_lowercase`, collected.
#[verifier::external_body]
fn char_lowercase(c: char) -> (r: Vec<char>)
    ensures
        r@ == lowercase_of(c),
{
    c.to_lowercase().collect()
}

/// The value of a run of decimal digits.
pub open spec fn digits_value(s: Seq<char>) -> nat
    decreases s.len(),
{
    if s.len() == 0 {
        0
    } else {
        digits_value(s.drop_last()) * 10 + ((s.last() as u32) - ('0' as u32)) as nat
    }
}

/// The length of the run of digits that `s` starts with.
pub open spec fn digit_run(s: Seq<char>) -> nat
    decreases s.len(),
{
    if s.len() > 0 && is_digit(s[0]) {
        1 + digit_run(s.drop_first())
    } else {
        0
    }
}

/// The run of digits that `s` starts with.
pub open spec fn run_head(s: Seq<char>) -> Seq<char> {
    s.take(digit_run(s) as int)
}

/// What follows the run of digits that `s` starts with.
pub open spec fn run_rest(s: Seq<char>) -> Seq<char> {
    s.skip(digit_run(s) as int)
}

/// Lexicographic order of character sequences (the order of `String`).
pub open spec fn lex_order(a: Seq<char>, b: Seq<char>) -> Ordering
    decreases a.len(),
{
    if a.len() == 0 && b.len() == 0 {
        Ordering::Equal
    } else if a.len() == 0 {
        Ordering::Less
    } else if b.len() == 0 {
        Ordering::Greater
    } else if a[0] < b[0] {
        Ordering::Less
    } else if a[0] > b[0] {
        Ordering::Greater
    } else {
        lex_order(a.drop_first(), b.drop_first())
    }
}

/// The order of two digit runs: by value when both fit in a `u64`,
/// otherwise as strings.
pub open spec fn run_order(a: Seq<char>, b: Seq<char>) -> Ordering {
    if digits_value(a) <= u64::MAX && digits_value(b) <= u64::MAX {
        if digits_value(a) < digits_value(b) {
            Ordering::Less
        } else if digits_value(a) > digits_value(b) {
            Ordering::Greater
        } else {
            Ordering::Equal
        }
    } else {
        lex_order(a, b)
    }
}

/// Natural order of two names: walking both, two digit runs compare by
/// [`run_order`], other pairs of characters by their lowercase forms; the
/// first difference decides, and a name that ends first is smaller.
pub open spec fn natural_order(a: Seq<char>, b: Seq<char>) -> Ordering
    decreases a.len() + b.len(),
{
    if a.len() == 0 && b.len() == 0 {
        Ordering::Equal
    } else if a.len() == 0 {
        Ordering::Less
    } else if b.len() == 0 {
        Ordering::Greater
    } else if is_digit(a[0]) && is_digit(b[0]) {
        proof {
            lemma_digit_run(a);
            lemma_digit_run(b);
        }
        let o = run_order(run_head(a), run_head(b));
        if o != Ordering::Equal {
            o
        } else {
            natural_order(run_rest(a), run_rest(b))
        }
    } else {
        let o = lex_order(lowercase_of(a[0]), lowercase_of(b[0]));
        if o != Ordering::Equal {
            o
        } else {
            natural_order(a.drop_first(), b.drop_first())
        }
    }
}

pub proof fn lemma_digit_run(s: Seq<char>)
    ensures
        digit_run(s) <= s.len(),
        s.len() > 0 && is_digit(s[0]) ==> digit_run(s) >= 1,
        forall|k: int| 0 <= k < digit_run(s) ==> is_digit(#[trigger] s[k]),
        digit_run(s) < s.len() ==> !is_digit(s[digit_run(s) as int]),
    decreases s.len(),
{
    if s.len() > 0 && is_digit(s[0]) {
        lemma_digit_run(s.drop_first());
        assert forall|k: int| 0 <= k < digit_run(s) implies is_digit(#[trigger] s[k]) by {
            if k > 0 {
                assert(s[k] == s.drop_first()[k - 1]);
            }
        }
    }
}

fn digit_run_end(s: &[char], i: usize) -> (e: usize)
    requires
        i <= s@.len(),
    ensures
        e == i + digit_run(s@.skip(i as int)),
        e <= s@.len(),
{
    let mut e = i;
    assert(s@.skip(i as int).skip(0) =~= s@.skip(i as int));
    while e < s.len() && '0' <= s[e] && s[e] <= '9'
        invariant
            i <= e <= s@.len(),
            digit_run(s@.skip(i as int)) == (e - i) + digit_run(s@.skip(e as int)),
        decreases s@.len() - e,
    {
        assert(s@.skip(e as int).drop_first() =~= s@.skip(e + 1));
        e += 1;
    }
    e
}

/// The value of the digits `s[i..e]`, or `None` when it exceeds `u64`
/// (what `str::parse::<u64>` gives on a run of digits).
fn run_value(s: &[char], i: usize, e: usize) -> (r: Option<u64>)
    requires
        i <= e <= s@.len(),
        forall|k: int| i <= k < e ==> is_digit(#[trigger] s@[k]),
    ensures
        r.is_some() <==> digits_value(s@.subrange(i as int, e as int)) <= u64::MAX,
        r.is_some() ==> r.unwrap() == digits_value(s@.subrange(i as int, e as int)),
{
    let mut v: u64 = 0;
    let mut ok = true;
    let mut k = i;
    assert(s@.subrange(i as int, i as int) =~= Seq::<char>::empty());
    while k < e
        invariant
            i <= k <= e <= s@.len(),
            forall|t: int| i <= t < e ==> is_digit(#[trigger] s@[t]),
            ok ==> v == digits_value(s@.subrange(i as int, k as int)),
            !ok ==> digits_value(s@.subrange(i as int, k as int)) > u64::MAX,
        decreases e - k,
    {
        let ghost prev = digits_value(s@.subrange(i as int, k as int));
        let d = ((s[k] as u32) - ('0' as u32)) as u64;
        assert(s@.subrange(i as int, k + 1).drop_last() =~= s@.subrange(i as int, k as int));
        assert(digits_value(s@.subrange(i as int, k + 1)) == prev * 10 + d);
        if ok {
            match v.checked_mul(10) {
                Some(m) => match m.checked_add(d) {
                    Some(t) => {
                        v = t;
                    },
                    None => {
                        ok = false;
                    },
                },
                None => {
                    ok = false;
                },
            }
        }
        k += 1;
    }
    if ok {
        Some(v)
    } else {
        None
    }
}

/// Lexicographic comparison of two character sequences.
fn lex_compare(a: &[char], b: &[char]) -> (r: Ordering)
    ensures
        r == lex_order(a@, b@),
{
    let mut k: usize = 0;
    assert(skip_u(a@, 0) =~= a@);
    assert(skip_u(b@, 0) =~= b@);
    while k < a.len() && k < b.len()
        invariant
            k <= a@.len(),
            k <= b@.len(),
            lex_order(a@, b@) == lex_order(skip_u(a@, k), skip_u(b@, k)),
        decreases a@.len() - k,
    {
        if a[k] < b[k] {
            return Ordering::Less;
        }
        if a[k] > b[k] {
            return Ordering::Greater;
        }
        assert(skip_u(a@, k).drop_first() =~= a@.skip(k + 1));
        assert(skip_u(b@, k).drop_first() =~= b@.skip(k + 1));
        k += 1;
    }
    if k == a.len() && k == b.len() {
        Ordering::Equal
    } else if k == a.len() {
        Ordering::Less
    } else {
        Ordering::Greater
    }
}

fn run_compare(s: &[char], i: usize, e: usize, t: &[char], j: usize, f: usize) -> (r: Ordering)
    requires
        i <= e <= s@.len(),
        j <= f <= t@.len(),
        forall|k: int| i <= k < e ==> is_digit(#[trigger] s@[k]),
        forall|k: int| j <= k < f ==> is_digit(#[trigger] t@[k]),
    ensures
        r == run_order(sub_u(s@, i, e), sub_u(t@, j, f)),
{
    let x = run_value(s, i, e);
    let y = run_value(t, j, f);
    match (x, y) {
        (Some(p), Some(q)) => {
            if p < q {
                Ordering::Less
            } else if p > q {
                Ordering::Greater
            } else {
                Ordering::Equal
            }
        },
        _ => {
            let u = crate::text::sub_chars(s, i, e);
            let w = crate::text::sub_chars(t, j, f);
            lex_compare(&u, &w)
        },
    }
}

/// Natural order of two names (see [`natural_order`]); directory listings
/// are sorted by it.
pub fn natord_compare(a: &str, b: &str) -> (r: Ordering)
    ensures
        r == natural_order(a@, b@),
{
    let x = chars_of(a);
    let y = chars_of(b);
    let mut i: usize = 0;
    let mut j: usize = 0;
    assert(x@.skip(0) =~= x@);
    assert(y@.skip(0) =~= y@);
    loop
        invariant
            i <= x@.len(),
            j <= y@.len(),
            natural_order(a@, b@) == natural_order(skip_u(x@, i), skip_u(y@, j)),
            x@ == a@,
            y@ == b@,
        decreases x@.len() - i + y@.len() - j,
    {
        let ghost u = skip_u(x@, i);
        let ghost w = skip_u(y@, j);
        if i == x.len() && j == y.len() {
            return Ordering::Equal;
        }
        if i == x.len() {
            return Ordering::Less;
        }
        if j == y.len() {
            return Ordering::Greater;
        }
        let c = x[i];
        let d = y[j];
        assert(u.len() > 0 && u[0] == c);
        assert(w.len() > 0 && w[0] == d);
        if '0' <= c && c <= '9' && '0' <= d && d <= '9' {
            let e = digit_run_end(&x, i);
            let f = digit_run_end(&y, j);
            proof {
                lemma_digit_run(u);
                lemma_digit_run(w);
                assert(run_head(u) =~= sub_u(x@, i, e));
                assert(run_head(w) =~= sub_u(y@, j, f));
                assert(run_rest(u) =~= skip_u(x@, e));
                assert(run_rest(w) =~= skip_u(y@, f));
                assert forall|k: int| i <= k < e implies is_digit(#[trigger] x@[k]) by {
                    assert(x@[k] == u[k - i]);
                }
                assert forall|k: int| j <= k < f implies is_digit(#[trigger] y@[k]) by {
                    assert(y@[k] == w[k - j]);
                }
            }
            let o = run_compare(&x, i, e, &y, j, f);
            assert(is_digit(u[0]) && is_digit(w[0]));
            assert(run_order(run_head(u), run_head(w)) == o);
            assert(natural_order(u, w) == (if o != Ordering::Equal {
                o
            } else {
                natural_order(run_rest(u), run_rest(w))
            }));
            match o {
                Ordering::Equal => {},
                _ => {
                    return o;
                },
            }
            i = e;
            j = f;
        } else {
            let lc = char_lowercase(c);
            let ld = char_lowercase(d);
            let o = lex_compare(&lc, &ld);
            assert(!(is_digit(u[0]) && is_digit(w[0])));
            assert(lex_order(lowercase_of(u[0]), lowercase_of(w[0])) == o);
            assert(natural_order(u, w) == (if o != Ordering::Equal {
                o
            } else {
                natural_order(u.drop_first(), w.drop_first())
            }));
            match o {
                Ordering::Equal => {},
                _ => {
                    return o;
                },
            }
            assert(u.drop_first() =~= x@.skip(i + 1));
            assert(w.drop_first() =~= y@.skip(j + 1));
            i += 1;
            j += 1;
        }
    }
}

/// The opposite order: less and greater swapped.
pub open spec fn flipped(o: Ordering) -> Ordering {
    match o {
        Ordering::Less => Ordering::Greater,
        Ordering::Equal => Ordering::Equal,
        Ordering::Greater => Ordering::Less,
    }
}

/// Every sequence is equal to itself in the lexicographic order.
pub proof fn lemma_lex_order_reflexive(a: Seq<char>)
    ensures
        lex_order(a, a) == Ordering::Equal,
    decreases a.len(),
{
    if a.len() > 0 {
        lemma_lex_order_reflexive(a.drop_first());
    }
}

/// Swapping the arguments of the lexicographic order flips it.
pub proof fn lemma_lex_order_antisymmetric(a: Seq<char>, b: Seq<char>)
    ensures
        lex_order(b, a) == flipped(lex_order(a, b)),
    decreases a.len(),
{
    if a.len() > 0 && b.len() > 0 && a[0] == b[0] {
        lemma_lex_order_antisymmetric(a.drop_first(), b.drop_first());
    }
}

/// Every name is equal to itself in the natural order.
pub proof fn lemma_natural_order_reflexive(a: Seq<char>)
    ensures
        natural_order(a, a) == Ordering::Equal,
    decreases a.len(),
{
    if a.len() > 0 {
        if is_digit(a[0]) {
            lemma_digit_run(a);
            lemma_lex_order_reflexive(run_head(a));
            assert(run_order(run_head(a), run_head(a)) == Ordering::Equal);
            lemma_natural_order_reflexive(run_rest(a));
        } else {
            lemma_lex_order_reflexive(lowercase_of(a[0]));
            lemma_natural_order_reflexive(a.drop_first());
        }
    }
}

/// Swapping two names flips their natural order: `a` before `b` exactly
/// when `b` after `a`.
pub proof fn lemma_natural_order_antisymmetric(a: Seq<char>, b: Seq<char>)
    ensures
        natural_order(b, a) == flipped(natural_order(a, b)),
    decreases a.len() + b.len(),
{
    if a.len() > 0 && b.len() > 0 {
        if is_digit(a[0]) && is_digit(b[0]) {
            lemma_digit_run(a);
            lemma_digit_run(b);
            lemma_lex_order_antisymmetric(run_head(a), run_head(b));
            assert(run_order(run_head(b), run_head(a)) == flipped(run_order(run_head(a), run_head(b))));
            lemma_natural_order_antisymmetric(run_rest(a), run_rest(b));
        } else {
            lemma_lex_order_antisymmetric(lowercase_of(a[0]), lowercase_of(b[0]));
            lemma_natural_order_antisymmetric(a.drop_first(), b.drop_first());
        }
    }
}


proof fn lemma_digit_run_concat(d: Seq<char>, x: Seq<char>)
    requires
        forall|i: int| 0 <= i < d.len() ==> is_digit(#[trigger] d[i]),
        x.len() == 0 || !is_digit(x[0]),
    ensures
        digit_run(d + x) == d.len(),
    decreases d.len(),
{
    if d.len() == 0 {
        assert(d + x =~= x);
    } else {
        assert((d + x).drop_first() =~= d.drop_first() + x);
        lemma_digit_run_concat(d.drop_first(), x);
    }
}

/// Equal runs of digits do not decide the order: after the same number,
/// two names compare as what follows it does. So `2024-01-15` comes
/// before `2024-03-02`.
pub proof fn lemma_equal_runs_continue(d: Seq<char>, x: Seq<char>, y: Seq<char>)
    requires
        d.len() > 0,
        forall|i: int| 0 <= i < d.len() ==> is_digit(#[trigger] d[i]),
        x.len() == 0 || !is_digit(x[0]),
        y.len() == 0 || !is_digit(y[0]),
    ensures
        natural_order(d + x, d + y) == natural_order(x, y),
{
    let a = d + x;
    let b = d + y;
    lemma_digit_run_concat(d, x);
    lemma_digit_run_concat(d, y);
    assert(a[0] == d[0] && b[0] == d[0]);
    assert(run_head(a) =~= d);
    assert(run_head(b) =~= d);
    assert(run_rest(a) =~= x);
    assert(run_rest(b) =~= y);
    lemma_lex_order_reflexive(d);
    assert(run_order(d, d) == Ordering::Equal);
}


/// An equal character that is not a digit does not decide the order
/// either: two names that begin with it compare as their rests do.
pub proof fn lemma_equal_char_continues(c: char, x: Seq<char>, y: Seq<char>)
    requires
        !is_digit(c),
    ensures
        natural_order(seq![c] + x, seq![c] + y) == natural_order(x, y),
{
    let a = seq![c] + x;
    let b = seq![c] + y;
    assert(a[0] == c && b[0] == c);
    assert(a.drop_first() =~= x);
    assert(b.drop_first() =~= y);
    lemma_lex_order_reflexive(lowercase_of(c));
}

} // verus!
