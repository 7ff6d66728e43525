//! Colour values of style sheets: `#rgb`, `#rrggbb`, `#rrggbbaa`,
//! `rgb(r, g, b)` and `rgba(r, g, b, a)`, and the colour inside a `border`
//! value.

use vstd::prelude::*;
use vstd::utf8::encode_utf8;
use crate::bytes::{byte_len_is, is_boundary, small_boundary};
use crate::fonts::{eq_ascii_nocase, eq_ignore_ascii_case};
use crate::text::{
    chars_of, find_char, first_index, is_digit, is_ws, char_is_ws, split_char, split_on, seqs_of, sub_chars, trim,
    trim_bounds, string_of,
};

verus! {

/// A colour read from a style sheet: opaque, with the alpha of
/// `rgba(...)` kept as its (trimmed) text, a number (as `float_text`
/// says) from 0 to 1 for the caller to scale, or with the alpha byte of `#rrggbbaa`.
pub enum CssColor {
    Rgb(u8, u8, u8),
    Rgba(u8, u8, u8, String),
    HexAlpha(u8, u8, u8, u8),
}

/// A colour with its alpha text as characters.
pub enum ColorView {
    Rgb(u8, u8, u8),
    Rgba(u8, u8, u8, Seq<char>),
    HexAlpha(u8, u8, u8, u8),
}

impl View for CssColor {
    type V = ColorView;

    open spec fn view(&self) -> ColorView {
        match self {
            CssColor::Rgb(r, g, b) => ColorView::Rgb(*r, *g, *b),
            CssColor::Rgba(r, g, b, a) => ColorView::Rgba(*r, *g, *b, a@),
            CssColor::HexAlpha(r, g, b, a) => ColorView::HexAlpha(*r, *g, *b, *a),
        }
    }
}

/// The value of a digit in the given radix (up to 16), if it is one.
pub open spec fn digit_value(c: char, radix: nat) -> Option<nat> {
    let v: int = if '0' <= c && c <= '9' {
        c as int - '0' as int
    } else if 'a' <= c && c <= 'f' {
        c as int - 'a' as int + 10
    } else if 'A' <= c && c <= 'F' {
        c as int - 'A' as int + 10
    } else {
        99
    };
    if v < radix {
        Some(v as nat)
    } else {
        None
    }
}

/// The number the digits stand for, if all are digits of the radix.
pub open spec fn radix_value(d: Seq<char>, radix: nat) -> Option<nat>
    decreases d.len(),
{
    if d.len() == 0 {
        Some(0)
    } else {
        match (radix_value(d.drop_last(), radix), digit_value(d.last(), radix)) {
            (Some(v), Some(x)) => Some(v * radix + x),
            _ => None,
        }
    }
}

/// `u8::from_str_radix`: an optional `+`, then at least one digit of the
/// radix, the value at most 255.
pub open spec fn parse_u8_spec(s: Seq<char>, radix: nat) -> Option<u8> {
    let d = if s.len() > 0 && s[0] == '+' {
        s.drop_first()
    } else {
        s
    };
    if d.len() == 0 {
        None
    } else {
        match radix_value(d, radix) {
            Some(v) => if v <= 255 {
                Some(v as u8)
            } else {
                None
            },
            None => None,
        }
    }
}

pub proof fn lemma_radix_value_grows(d: Seq<char>, k: int, radix: nat)
    requires
        0 <= k <= d.len(),
        radix >= 1,
        radix_value(d, radix) is Some,
    ensures
        radix_value(d.take(k), radix) is Some,
        radix_value(d.take(k), radix).unwrap() <= radix_value(d, radix).unwrap(),
    decreases d.len() - k,
{
    if k < d.len() {
        let e = d.take(k + 1);
        lemma_radix_value_grows(d, k + 1, radix);
        assert(e.drop_last() =~= d.take(k));
        let v = radix_value(d.take(k), radix).unwrap();
        let x = digit_value(e.last(), radix).unwrap();
        assert(v * radix + x >= v) by (nonlinear_arith)
            requires
                radix >= 1,
                x >= 0,
                v >= 0,
        ;
    } else {
        assert(d.take(k) =~= d);
    }
}

/// All characters are ASCII.
pub open spec fn all_ascii(s: Seq<char>) -> bool {
    forall|i: int| 0 <= i < s.len() ==> (s[i] as u32) < 128
}

/// A two-digit piece of a hex colour.
pub open spec fn hex_pair(a: char, b: char) -> Option<u8> {
    parse_u8_spec(seq![a, b], 16)
}

/// The colour of `#` followed by `h`: three, six or eight ASCII
/// characters read as hex digits (each of three doubled; the last pair of
/// eight is the alpha).
pub open spec fn hex_color(h: Seq<char>) -> Option<ColorView> {
    if !all_ascii(h) {
        None
    } else if h.len() == 3 {
        match (hex_pair(h[0], h[0]), hex_pair(h[1], h[1]), hex_pair(h[2], h[2])) {
            (Some(r), Some(g), Some(b)) => Some(ColorView::Rgb(r, g, b)),
            _ => None,
        }
    } else if h.len() == 6 {
        match (hex_pair(h[0], h[1]), hex_pair(h[2], h[3]), hex_pair(h[4], h[5])) {
            (Some(r), Some(g), Some(b)) => Some(ColorView::Rgb(r, g, b)),
            _ => None,
        }
    } else if h.len() == 8 {
        match (hex_pair(h[0], h[1]), hex_pair(h[2], h[3]), hex_pair(h[4], h[5]), hex_pair(h[6], h[7])) {
            (Some(r), Some(g), Some(b), Some(a)) => Some(ColorView::HexAlpha(r, g, b, a)),
            _ => None,
        }
    } else {
        None
    }
}

/// `rgb(` as characters.
pub open spec fn rgb_open() -> Seq<char> {
    seq!['r', 'g', 'b', '(']
}

/// `rgba(` as characters.
pub open spec fn rgba_open() -> Seq<char> {
    seq!['r', 'g', 'b', 'a', '(']
}

/// The text between `open` and a closing `)`, if `t` has both.
pub open spec fn inside(t: Seq<char>, open: Seq<char>) -> Option<Seq<char>> {
    if open.is_prefix_of(t) && t.len() > open.len() && t.last() == ')' {
        Some(t.subrange(open.len() as int, t.len() - 1))
    } else {
        None
    }
}

/// The colour a style value stands for: `#` and hex digits, `rgb(r, g, b)`
/// or `rgba(r, g, b, a)` with decimal channels; the value is trimmed
/// first.
pub open spec fn color_of(val: Seq<char>) -> Option<ColorView> {
    let t = trim(val);
    if t.len() > 0 && t[0] == '#' {
        hex_color(t.drop_first())
    } else if rgb_open().is_prefix_of(t) {
        match inside(t, rgb_open()) {
            Some(i) => {
                let ps = split_on(i, ',');
                if ps.len() != 3 {
                    None
                } else {
                    match (parse_u8_spec(trim(ps[0]), 10), parse_u8_spec(trim(ps[1]), 10), parse_u8_spec(trim(ps[2]), 10)) {
                        (Some(r), Some(g), Some(b)) => Some(ColorView::Rgb(r, g, b)),
                        _ => None,
                    }
                }
            },
            None => None,
        }
    } else if rgba_open().is_prefix_of(t) {
        match inside(t, rgba_open()) {
            Some(i) => {
                let ps = split_on(i, ',');
                if ps.len() != 4 {
                    None
                } else {
                    match (parse_u8_spec(trim(ps[0]), 10), parse_u8_spec(trim(ps[1]), 10), parse_u8_spec(trim(ps[2]), 10)) {
                        (Some(r), Some(g), Some(b)) => if float_text(trim(ps[3])) {
                            Some(ColorView::Rgba(r, g, b, trim(ps[3])))
                        } else {
                            None
                        },
                        _ => None,
                    }
                }
            },
            None => None,
        }
    } else {
        None
    }
}

/// Reading `#` and a hex text of 3, 6 or 8 bytes cuts it at byte offsets
/// that must fall between characters.
pub open spec fn hex_cuts_ok(val: Seq<char>) -> bool {
    let t = trim(val);
    t.len() > 0 && t[0] == '#' ==> {
        let h = t.drop_first();
        &&& encode_utf8(h).len() == 3 ==> is_boundary(h, 1) && is_boundary(h, 2)
        &&& encode_utf8(h).len() == 6 ==> is_boundary(h, 2) && is_boundary(h, 4)
        &&& encode_utf8(h).len() == 8 ==> is_boundary(h, 2) && is_boundary(h, 4) && is_boundary(h, 6)
    }
}

/// The value of a digit in the given radix.
fn digit_of(c: char, radix: u32) -> (r: Option<u32>)
    requires
        radix <= 16,
    ensures
        match r {
            Some(v) => digit_value(c, radix as nat) == Some(v as nat),
            None => digit_value(c, radix as nat) is None,
        },
{
    let v: u32 = if '0' <= c && c <= '9' {
        (c as u32) - ('0' as u32)
    } else if 'a' <= c && c <= 'f' {
        (c as u32) - ('a' as u32) + 10
    } else if 'A' <= c && c <= 'F' {
        (c as u32) - ('A' as u32) + 10
    } else {
        99
    };
    if v < radix {
        Some(v)
    } else {
        None
    }
}

/// `u8::from_str_radix` on characters.
pub fn parse_u8(s: &[char], radix: u32) -> (r: Option<u8>)
    requires
        2 <= radix <= 16,
    ensures
        r == parse_u8_spec(s@, radix as nat),
{
    let start: usize = if s.len() > 0 && s[0] == '+' {
        1
    } else {
        0
    };
    let ghost d = if s@.len() > 0 && s@[0] == '+' {
        s@.drop_first()
    } else {
        s@
    };
    assert(d =~= s@.skip(start as int));
    if start >= s.len() {
        return None;
    }
    let mut v: u32 = 0;
    let mut k: usize = start;
    assert(d.take(0) =~= Seq::<char>::empty());
    while k < s.len()
        invariant
            start <= k <= s@.len(),
            start < s@.len(),
            2 <= radix <= 16,
            d == s@.skip(start as int),
            d == (if s@.len() > 0 && s@[0] == '+' {
                s@.drop_first()
            } else {
                s@
            }),
            v <= 255,
            radix_value(d.take(k - start), radix as nat) == Some(v as nat),
        decreases s@.len() - k,
    {
        let ghost pre = d.take(k - start);
        let ghost next = d.take(k - start + 1);
        assert(next.drop_last() =~= pre);
        assert(next.last() == s@[k as int]);
        match digit_of(s[k], radix) {
            Some(x) => {
                assert(radix_value(next, radix as nat) == Some((v * radix + x) as nat));
                assert(v * radix + x <= 255 * 16 + 15) by (nonlinear_arith)
                    requires
                        v <= 255,
                        radix <= 16,
                        x < 16,
                ;
                let w = v * radix + x;
                if w > 255 {
                    proof {
                        if radix_value(d, radix as nat) is Some {
                            lemma_radix_value_grows(d, k - start + 1, radix as nat);
                        }
                    }
                    return None;
                }
                v = w;
            },
            None => {
                proof {
                    if radix_value(d, radix as nat) is Some {
                        lemma_radix_value_grows(d, k - start + 1, radix as nat);
                    }
                }
                return None;
            },
        }
        k += 1;
    }
    assert(d.take(k - start) =~= d);
    Some(v as u8)
}

/// All characters are ASCII.
fn ascii_only(h: &[char]) -> (r: bool)
    ensures
        r == all_ascii(h@),
{
    let mut k: usize = 0;
    while k < h.len()
        invariant
            k <= h@.len(),
            forall|i: int| 0 <= i < k ==> (h@[i] as u32) < 128,
        decreases h@.len() - k,
    {
        if (h[k] as u32) >= 128 {
            return false;
        }
        k += 1;
    }
    true
}

/// The colour of a hex text (after the `#`).
fn hex_of(h: &[char]) -> (r: Option<CssColor>)
    ensures
        match r {
            Some(c) => hex_color(h@) == Some(c@),
            None => hex_color(h@) is None,
        },
{
    let mut k: usize = 0;
    while k < h.len()
        invariant
            k <= h@.len(),
            forall|i: int| 0 <= i < k ==> (h@[i] as u32) < 128,
        decreases h@.len() - k,
    {
        if (h[k] as u32) >= 128 {
            return None;
        }
        k += 1;
    }
    if h.len() == 3 {
        let r = parse_u8(&[h[0], h[0]], 16);
        let g = parse_u8(&[h[1], h[1]], 16);
        let b = parse_u8(&[h[2], h[2]], 16);
        assert([h[0], h[0]]@ =~= seq![h@[0], h@[0]]);
        assert([h[1], h[1]]@ =~= seq![h@[1], h@[1]]);
        assert([h[2], h[2]]@ =~= seq![h@[2], h@[2]]);
        match (r, g, b) {
            (Some(r), Some(g), Some(b)) => Some(CssColor::Rgb(r, g, b)),
            _ => None,
        }
    } else if h.len() == 6 {
        let r = parse_u8(&[h[0], h[1]], 16);
        let g = parse_u8(&[h[2], h[3]], 16);
        let b = parse_u8(&[h[4], h[5]], 16);
        assert([h[0], h[1]]@ =~= seq![h@[0], h@[1]]);
        assert([h[2], h[3]]@ =~= seq![h@[2], h@[3]]);
        assert([h[4], h[5]]@ =~= seq![h@[4], h@[5]]);
        match (r, g, b) {
            (Some(r), Some(g), Some(b)) => Some(CssColor::Rgb(r, g, b)),
            _ => None,
        }
    } else if h.len() == 8 {
        let r = parse_u8(&[h[0], h[1]], 16);
        let g = parse_u8(&[h[2], h[3]], 16);
        let b = parse_u8(&[h[4], h[5]], 16);
        let a = parse_u8(&[h[6], h[7]], 16);
        assert([h[0], h[1]]@ =~= seq![h@[0], h@[1]]);
        assert([h[2], h[3]]@ =~= seq![h@[2], h@[3]]);
        assert([h[4], h[5]]@ =~= seq![h@[4], h@[5]]);
        assert([h[6], h[7]]@ =~= seq![h@[6], h@[7]]);
        match (r, g, b, a) {
            (Some(r), Some(g), Some(b), Some(a)) => Some(CssColor::HexAlpha(r, g, b, a)),
            _ => None,
        }
    } else {
        None
    }
}

/// A trimmed decimal channel.
fn channel(p: &Vec<char>) -> (r: Option<u8>)
    ensures
        r == parse_u8_spec(trim(p@), 10),
{
    let (lo, hi) = trim_bounds(p.as_slice());
    let t = sub_chars(p.as_slice(), lo, hi);
    parse_u8(t.as_slice(), 10)
}

/// The text between `open` and a closing `)`.
fn inside_of(t: &[char], open: &[char]) -> (r: Option<Vec<char>>)
    ensures
        match r {
            Some(i) => inside(t@, open@) == Some(i@),
            None => inside(t@, open@) is None,
        },
{
    if crate::text::has_prefix(t, open) && t.len() > open.len() && t[t.len() - 1] == ')' {
        Some(sub_chars(t, open.len(), t.len() - 1))
    } else {
        None
    }
}

/// Reads a colour value: `#rgb`, `#rrggbb`, `#rrggbbaa`, `rgb(r, g, b)`
/// or `rgba(r, g, b, a)`, surrounding whitespace ignored; `None` for
/// anything else. The alpha of `rgba` must read as a number and is handed
/// back as its trimmed text.
pub fn parse_color(val: &str) -> (r: Option<CssColor>)
    requires
        hex_cuts_ok(val@),
    ensures
        match r {
            Some(c) => color_of(val@) == Some(c@),
            None => color_of(val@) is None,
        },
{
    let cs = chars_of(val);
    let (lo, hi) = trim_bounds(cs.as_slice());
    let t = sub_chars(cs.as_slice(), lo, hi);
    if t.len() > 0 && t[0] == '#' {
        let h = sub_chars(t.as_slice(), 1, t.len());
        assert(h@ =~= t@.drop_first());
        return hex_of(h.as_slice());
    }
    let rgb = ['r', 'g', 'b', '('];
    let rgba = ['r', 'g', 'b', 'a', '('];
    assert(rgb@ =~= rgb_open());
    assert(rgba@ =~= rgba_open());
    if crate::text::has_prefix(t.as_slice(), &rgb) {
        match inside_of(t.as_slice(), &rgb) {
            Some(i) => {
                let ps = split_char(i.as_slice(), ',');
                assert(seqs_of(ps@).len() == ps@.len());
                if ps.len() != 3 {
                    return None;
                }
                assert(ps@[0]@ == split_on(i@, ',')[0]);
                assert(ps@[1]@ == split_on(i@, ',')[1]);
                assert(ps@[2]@ == split_on(i@, ',')[2]);
                match (channel(&ps[0]), channel(&ps[1]), channel(&ps[2])) {
                    (Some(r), Some(g), Some(b)) => Some(CssColor::Rgb(r, g, b)),
                    _ => None,
                }
            },
            None => None,
        }
    } else if crate::text::has_prefix(t.as_slice(), &rgba) {
        match inside_of(t.as_slice(), &rgba) {
            Some(i) => {
                let ps = split_char(i.as_slice(), ',');
                assert(seqs_of(ps@).len() == ps@.len());
                if ps.len() != 4 {
                    return None;
                }
                assert(ps@[0]@ == split_on(i@, ',')[0]);
                assert(ps@[1]@ == split_on(i@, ',')[1]);
                assert(ps@[2]@ == split_on(i@, ',')[2]);
                assert(ps@[3]@ == split_on(i@, ',')[3]);
                match (channel(&ps[0]), channel(&ps[1]), channel(&ps[2])) {
                    (Some(r), Some(g), Some(b)) => {
                        let (x, y) = trim_bounds(ps[3].as_slice());
                        let alpha = sub_chars(ps[3].as_slice(), x, y);
                        if !is_float_text(alpha.as_slice()) {
                            return None;
                        }
                        Some(CssColor::Rgba(r, g, b, string_of(alpha.as_slice())))
                    },
                    _ => None,
                }
            },
            None => None,
        }
    } else {
        None
    }
}

/// The colour of a `#` value with an optional alpha pair: `#rgb`,
/// `#rrggbb` (opaque) or `#rrggbbaa`; the value is trimmed first.
pub open spec fn hex_rgba_of(val: Seq<char>) -> Option<(u8, u8, u8, Option<u8>)> {
    let t = trim(val);
    if t.len() == 0 || t[0] != '#' {
        None
    } else {
        let h = t.drop_first();
        if all_ascii(h) && h.len() == 8 {
            match (hex_pair(h[0], h[1]), hex_pair(h[2], h[3]), hex_pair(h[4], h[5]), hex_pair(h[6], h[7])) {
                (Some(r), Some(g), Some(b), Some(a)) => Some((r, g, b, Some(a))),
                _ => None,
            }
        } else {
            match hex_color(h) {
                Some(ColorView::Rgb(r, g, b)) => Some((r, g, b, None)),
                _ => None,
            }
        }
    }
}

/// Reading a `#` value of three, six or eight bytes cuts it at byte
/// offsets that must fall between characters.
pub open spec fn hex_rgba_cuts_ok(val: Seq<char>) -> bool {
    let t = trim(val);
    t.len() > 0 && t[0] == '#' ==> {
        let h = t.drop_first();
        &&& encode_utf8(h).len() == 3 ==> is_boundary(h, 1) && is_boundary(h, 2)
        &&& encode_utf8(h).len() == 6 ==> is_boundary(h, 2) && is_boundary(h, 4)
        &&& encode_utf8(h).len() == 8 ==> is_boundary(h, 2) && is_boundary(h, 4) && is_boundary(h, 6)
    }
}

/// Reads a `#rgb`, `#rrggbb` or `#rrggbbaa` value (the colours of the
/// application's preferences): red, green, blue, and the alpha when one is
/// given; `None` for anything else.
pub fn parse_hex_color(val: &str) -> (r: Option<(u8, u8, u8, Option<u8>)>)
    requires
        hex_rgba_cuts_ok(val@),
    ensures
        r == hex_rgba_of(val@),
{
    let cs = chars_of(val);
    let (lo, hi) = trim_bounds(cs.as_slice());
    let t = sub_chars(cs.as_slice(), lo, hi);
    if t.len() == 0 || t[0] != '#' {
        return None;
    }
    let h = sub_chars(t.as_slice(), 1, t.len());
    assert(h@ =~= t@.drop_first());
    if h.len() == 8 {
        if !ascii_only(h.as_slice()) {
            return None;
        }
        let r = parse_u8(&[h[0], h[1]], 16);
        let g = parse_u8(&[h[2], h[3]], 16);
        let b = parse_u8(&[h[4], h[5]], 16);
        let a = parse_u8(&[h[6], h[7]], 16);
        assert([h[0], h[1]]@ =~= seq![h@[0], h@[1]]);
        assert([h[2], h[3]]@ =~= seq![h@[2], h@[3]]);
        assert([h[4], h[5]]@ =~= seq![h@[4], h@[5]]);
        assert([h[6], h[7]]@ =~= seq![h@[6], h@[7]]);
        return match (r, g, b, a) {
            (Some(r), Some(g), Some(b), Some(a)) => Some((r, g, b, Some(a))),
            _ => None,
        };
    }
    match hex_of(h.as_slice()) {
        Some(CssColor::Rgb(r, g, b)) => Some((r, g, b, None)),
        _ => None,
    }
}

/// The whitespace-separated words of a text (`str::split_whitespace`).
pub open spec fn words(s: Seq<char>) -> Seq<Seq<char>>
    decreases s.len(),
{
    if s.len() == 0 {
        seq![]
    } else if is_ws(s[0]) {
        words(s.drop_first())
    } else {
        let n = word_len(s, 0);
        proof {
            lemma_word_len(s, 0);
        }
        seq![s.take(n)] + words(s.skip(n))
    }
}

/// The number of characters from `i` up to the next whitespace or the end.
pub open spec fn word_len(s: Seq<char>, i: int) -> int
    decreases s.len() - i,
{
    if i < 0 || i >= s.len() || is_ws(s[i]) {
        i
    } else {
        word_len(s, i + 1)
    }
}

pub proof fn lemma_word_len(s: Seq<char>, i: int)
    requires
        0 <= i <= s.len(),
    ensures
        i <= word_len(s, i) <= s.len(),
        word_len(s, i) < s.len() ==> is_ws(s[word_len(s, i)]),
        forall|k: int| i <= k < word_len(s, i) ==> !is_ws(s[k]),
    decreases s.len() - i,
{
    if i < s.len() && !is_ws(s[i]) {
        lemma_word_len(s, i + 1);
    }
}

/// The colour of the first word that is one.
pub open spec fn first_color(ws: Seq<Seq<char>>) -> Option<ColorView>
    decreases ws.len(),
{
    if ws.len() == 0 {
        None
    } else {
        match color_of(ws[0]) {
            Some(c) => Some(c),
            None => first_color(ws.drop_first()),
        }
    }
}

/// The colour inside a `border` value such as `0.2rem solid #2995d9`: the
/// first of its words that reads as a colour.
#[verifier::spinoff_prover]
#[verifier::rlimit(40)]
pub fn parse_border_color(val: &str) -> (r: Option<CssColor>)
    requires
        forall|i: int| 0 <= i < words(val@).len() ==> hex_cuts_ok(#[trigger] words(val@)[i]),
    ensures
        match r {
            Some(c) => first_color(words(val@)) == Some(c@),
            None => first_color(words(val@)) is None,
        },
{
    let s = chars_of(val);
    let n = s.len();
    let mut i: usize = 0;
    assert(s@.skip(0) =~= s@);
    while i < n
        invariant
            i <= n,
            n == s@.len(),
            s@ == val@,
            words(s@.skip(i as int)).len() <= words(val@).len(),
            forall|k: int| 0 <= k < words(s@.skip(i as int)).len() ==> hex_cuts_ok(#[trigger] words(s@.skip(i as int))[k]),
            first_color(words(s@.skip(i as int))) == first_color(words(val@)),
        decreases n - i,
    {
        let ghost t = s@.skip(i as int);
        assert(t[0] == s@[i as int]);
        if char_is_ws(s[i]) {
            assert(t.drop_first() =~= s@.skip(i + 1));
            assert(words(t) == words(s@.skip(i + 1)));
            i += 1;
        } else {
            let mut e = i;
            proof {
                lemma_word_len(t, 0);
            }
            while e < n && !char_is_ws(s[e])
                invariant
                    i <= e <= n,
                    n == s@.len(),
                    t == s@.skip(i as int),
                    word_len(t, (e - i) as int) == word_len(t, 0),
                decreases n - e,
            {
                assert(t[e - i] == s@[e as int]);
                e += 1;
            }
            proof {
                if e < n {
                    assert(t[e - i] == s@[e as int]);
                }
            }
            assert(word_len(t, (e - i) as int) == (e - i));
            let w = sub_chars(s.as_slice(), i, e);
            assert(w@ =~= t.take((e - i) as int));
            assert(t.skip((e - i) as int) =~= s@.skip(e as int));
            assert(words(t) == seq![w@] + words(s@.skip(e as int)));
            assert(words(t)[0] == w@);
            assert forall|k: int| 0 <= k < words(s@.skip(e as int)).len() implies hex_cuts_ok(#[trigger] words(s@.skip(e as int))[k]) by {
                assert(words(t)[k + 1] == words(s@.skip(e as int))[k]);
            }
            let ws = string_of(w.as_slice());
            let ghost rest = words(s@.skip(e as int));
            assert((seq![w@] + rest).drop_first() =~= rest);
            match parse_color(ws.as_str()) {
                Some(c) => {
                    return Some(c);
                },
                None => {},
            }
            assert(first_color(words(t)) == first_color(rest));
            i = e;
        }
    }
    assert(s@.skip(i as int) =~= Seq::<char>::empty());
    None
}

/// Whether a `#` colour value can be read without cutting a character:
/// the test `parse_color` and `parse_hex_color` ask for.
pub fn colour_cuts_ok(val: &str) -> (r: bool)
    ensures
        r == hex_cuts_ok(val@),
        r == hex_rgba_cuts_ok(val@),
{
    let cs = chars_of(val);
    let (lo, hi) = trim_bounds(cs.as_slice());
    let t = sub_chars(cs.as_slice(), lo, hi);
    if t.len() == 0 || t[0] != '#' {
        return true;
    }
    let h = sub_chars(t.as_slice(), 1, t.len());
    assert(h@ =~= t@.drop_first());
    let h = h.as_slice();
    if byte_len_is(h, 3) {
        small_boundary(h, 1) && small_boundary(h, 2)
    } else if byte_len_is(h, 6) {
        small_boundary(h, 2) && small_boundary(h, 4)
    } else if byte_len_is(h, 8) {
        small_boundary(h, 2) && small_boundary(h, 4) && small_boundary(h, 6)
    } else {
        true
    }
}

/// All characters are ASCII digits.
pub open spec fn all_digits(s: Seq<char>) -> bool {
    forall|i: int| 0 <= i < s.len() ==> is_digit(#[trigger] s[i])
}

/// The index of the first `e` or `E`, or the length.
pub open spec fn exp_start(s: Seq<char>) -> int
    decreases s.len(),
{
    if s.len() == 0 {
        0
    } else if s[0] == 'e' || s[0] == 'E' {
        0
    } else {
        1 + exp_start(s.drop_first())
    }
}

/// The digits of a decimal number, with at most one `.` among them and at
/// least one digit.
pub open spec fn mantissa_text(t: Seq<char>) -> bool {
    match first_index(t, '.') {
        None => t.len() >= 1 && all_digits(t),
        Some(p) => t.len() >= 2 && all_digits(t.take(p)) && all_digits(t.skip(p + 1)),
    }
}

/// An exponent: `e` or `E`, an optional sign, and at least one digit.
pub open spec fn exponent_text(x: Seq<char>) -> bool {
    &&& x.len() >= 2
    &&& (x[0] == 'e' || x[0] == 'E')
    &&& {
        let d = if x[1] == '+' || x[1] == '-' {
            x.skip(2)
        } else {
            x.skip(1)
        };
        d.len() >= 1 && all_digits(d)
    }
}

/// A text that `f32::from_str` reads: an optional sign, then `inf`,
/// `infinity` or `nan` in any case, or decimal digits with at most one `.`
/// and at least one digit, followed by an optional exponent.
pub open spec fn float_text(s: Seq<char>) -> bool {
    let body = if s.len() > 0 && (s[0] == '+' || s[0] == '-') {
        s.drop_first()
    } else {
        s
    };
    let m = exp_start(body);
    ||| eq_ascii_nocase(body, "inf"@)
    ||| eq_ascii_nocase(body, "infinity"@)
    ||| eq_ascii_nocase(body, "nan"@)
    ||| (mantissa_text(body.take(m)) && (m == body.len() || exponent_text(body.skip(m))))
}

fn digits_only(s: &[char]) -> (r: bool)
    ensures
        r == all_digits(s@),
{
    let mut k: usize = 0;
    while k < s.len()
        invariant
            k <= s@.len(),
            forall|i: int| 0 <= i < k ==> is_digit(#[trigger] s@[i]),
        decreases s@.len() - k,
    {
        if !('0' <= s[k] && s[k] <= '9') {
            return false;
        }
        k += 1;
    }
    true
}

fn exp_start_of(s: &[char]) -> (r: usize)
    ensures
        r == exp_start(s@),
        r <= s@.len(),
{
    let mut k: usize = 0;
    assert(s@.skip(0) =~= s@);
    while k < s.len() && s[k] != 'e' && s[k] != 'E'
        invariant
            k <= s@.len(),
            exp_start(s@) == k + exp_start(s@.skip(k as int)),
        decreases s@.len() - k,
    {
        assert(s@.skip(k as int).drop_first() =~= s@.skip(k + 1));
        k += 1;
    }
    k
}

/// Whether `f32::from_str` reads the text as a number (see `float_text`).
pub fn is_float_text(s: &[char]) -> (r: bool)
    ensures
        r == float_text(s@),
{
    let body: Vec<char> = if s.len() > 0 && (s[0] == '+' || s[0] == '-') {
        let b = sub_chars(s, 1, s.len());
        assert(b@ =~= s@.drop_first());
        b
    } else {
        let b = sub_chars(s, 0, s.len());
        assert(b@ =~= s@);
        b
    };
    let body = body.as_slice();
    let inf = ['i', 'n', 'f'];
    let infinity = ['i', 'n', 'f', 'i', 'n', 'i', 't', 'y'];
    let nan = ['n', 'a', 'n'];
    proof {
        reveal_strlit("inf");
        reveal_strlit("infinity");
        reveal_strlit("nan");
    }
    assert(inf@ =~= "inf"@);
    assert(infinity@ =~= "infinity"@);
    assert(nan@ =~= "nan"@);
    if eq_ignore_ascii_case(body, &inf) || eq_ignore_ascii_case(body, &infinity) || eq_ignore_ascii_case(body, &nan) {
        return true;
    }
    let m = exp_start_of(body);
    let mant = sub_chars(body, 0, m);
    assert(mant@ =~= body@.take(m as int));
    let mant_ok = match find_char(mant.as_slice(), '.') {
        None => mant.len() >= 1 && digits_only(mant.as_slice()),
        Some(p) => {
            let a = sub_chars(mant.as_slice(), 0, p);
            let b = sub_chars(mant.as_slice(), p + 1, mant.len());
            assert(a@ =~= mant@.take(p as int));
            assert(b@ =~= mant@.skip(p + 1));
            mant.len() >= 2 && digits_only(a.as_slice()) && digits_only(b.as_slice())
        },
    };
    if !mant_ok {
        return false;
    }
    if m == body.len() {
        return true;
    }
    let x = sub_chars(body, m, body.len());
    assert(x@ =~= body@.skip(m as int));
    if x.len() < 2 || !(x[0] == 'e' || x[0] == 'E') {
        return false;
    }
    let d = if x[1] == '+' || x[1] == '-' {
        let d = sub_chars(x.as_slice(), 2, x.len());
        assert(d@ =~= x@.skip(2));
        d
    } else {
        let d = sub_chars(x.as_slice(), 1, x.len());
        assert(d@ =~= x@.skip(1));
        d
    };
    d.len() >= 1 && digits_only(d.as_slice())
}

} // verus!
