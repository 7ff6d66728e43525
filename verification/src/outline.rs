//! The document outline: headings taken from the text (outside fenced code),
//! which of them the panel shows, and their section numbers.

use vstd::prelude::*;
use crate::text::{
    chars_of, is_ws, lines_of, seqs_of, split_lines, string_of, sub_chars, trim_start,
    trim_bounds, char_is_ws,
};

verus! {

/// A heading of the document: its level (1 to 6), its text and the
/// 0-based line it stands on.
pub struct OutlineItem {
    pub level: u8,
    pub title: String,
    pub line: usize,
}

/// An outline item as a value.
pub struct OutlineSpec {
    pub level: u8,
    pub title: Seq<char>,
    pub line: int,
}

impl View for OutlineItem {
    type V = OutlineSpec;

    open spec fn view(&self) -> OutlineSpec {
        OutlineSpec { level: self.level, title: self.title@, line: self.line as int }
    }
}

/// The items held by a vector, as values.
pub open spec fn outline_views(v: Seq<OutlineItem>) -> Seq<OutlineSpec> {
    v.map_values(|x: OutlineItem| x@)
}

/// A line that, with its indentation removed, starts with three backticks.
pub open spec fn toggles_fence(l: Seq<char>) -> bool {
    seq!['`', '`', '`'].is_prefix_of(trim_start(l))
}

/// The number of `#` a sequence starts with.
pub open spec fn hashes(l: Seq<char>) -> nat
    decreases l.len(),
{
    if l.len() > 0 && l[0] == '#' {
        1 + hashes(l.drop_first())
    } else {
        0
    }
}

/// The heading a line carries, if any: with its indentation removed it
/// starts with one to six `#`, followed by a non-blank title (the rest,
/// leading whitespace removed).
pub open spec fn heading_of(l: Seq<char>, line: int) -> Option<OutlineSpec> {
    let t = trim_start(l);
    let n = hashes(t);
    let title = trim_start(t.skip(n as int));
    if n >= 1 && n <= 6 && title.len() > 0 {
        Some(OutlineSpec { level: n as u8, title, line })
    } else {
        None
    }
}

/// The headings of lines `i..`, `in_code` telling whether line `i` lies
/// inside a fenced code block. A fence line toggles that state and is never
/// a heading.
pub open spec fn outline_from(ls: Seq<Seq<char>>, i: int, in_code: bool) -> Seq<OutlineSpec>
    decreases ls.len() - i,
{
    if i >= ls.len() || i < 0 {
        seq![]
    } else if toggles_fence(ls[i]) {
        outline_from(ls, i + 1, !in_code)
    } else if in_code {
        outline_from(ls, i + 1, in_code)
    } else {
        match heading_of(ls[i], i) {
            Some(h) => seq![h] + outline_from(ls, i + 1, in_code),
            None => outline_from(ls, i + 1, in_code),
        }
    }
}

/// The headings of a text.
pub open spec fn outline_of(content: Seq<char>) -> Seq<OutlineSpec> {
    outline_from(lines_of(content), 0, false)
}

/// Each heading found has a level from 1 to 6, a non-empty title and a line
/// in range, and the lines grow strictly.
pub open spec fn well_ordered(items: Seq<OutlineSpec>, lo: int, hi: int) -> bool {
    &&& forall|k: int|
        0 <= k < items.len() ==> 1 <= (#[trigger] items[k]).level <= 6 && items[k].title.len() > 0
            && lo <= items[k].line < hi
    &&& forall|a: int, b: int|
        0 <= a < b < items.len() ==> (#[trigger] items[a]).line < (#[trigger] items[b]).line
}

proof fn lemma_outline_from_props(ls: Seq<Seq<char>>, i: int, in_code: bool)
    requires
        0 <= i,
    ensures
        well_ordered(outline_from(ls, i, in_code), i, ls.len() as int),
    decreases ls.len() - i,
{
    if i < ls.len() {
        if toggles_fence(ls[i]) {
            lemma_outline_from_props(ls, i + 1, !in_code);
        } else {
            lemma_outline_from_props(ls, i + 1, in_code);
            if !in_code {
                match heading_of(ls[i], i) {
                    Some(h) => {
                        let rest = outline_from(ls, i + 1, in_code);
                        let all = outline_from(ls, i, in_code);
                        assert(all == seq![h] + rest);
                        assert forall|k: int| 0 < k < all.len() implies all[k] == rest[k - 1] by {}
                        assert forall|a: int, b: int| 0 <= a < b < all.len() implies (
                        #[trigger] all[a]).line < (#[trigger] all[b]).line by {
                            if a > 0 {
                                assert(rest[a - 1].line < rest[b - 1].line);
                            } else {
                                assert(rest[b - 1].line >= i + 1);
                            }
                        }
                    },
                    None => {},
                }
            }
        }
    }
}

fn leading_hashes(t: &[char]) -> (r: usize)
    ensures
        r == hashes(t@),
        r <= t@.len(),
{
    let mut n: usize = 0;
    assert(t@.skip(0) =~= t@);
    while n < t.len() && t[n] == '#'
        invariant
            n <= t@.len(),
            hashes(t@) == n + hashes(t@.skip(n as int)),
        decreases t@.len() - n,
    {
        assert(t@.skip(n as int).drop_first() =~= t@.skip(n + 1));
        n += 1;
    }
    n
}

fn start_trimmed(l: &[char]) -> (r: Vec<char>)
    ensures
        r@ == trim_start(l@),
{
    let (lo, _) = trim_bounds(l);
    sub_chars(l, lo, l.len())
}

/// The headings of a Markdown text, in order, skipping lines inside fenced
/// code blocks (see [`outline_from`]).
pub fn extract_outline(content: &str) -> (r: Vec<OutlineItem>)
    ensures
        outline_views(r@) == outline_of(content@),
        well_ordered(outline_of(content@), 0, lines_of(content@).len() as int),
{
    let cs = chars_of(content);
    let lines = split_lines(&cs);
    let ghost ls = seqs_of(lines@);
    let n = lines.len();
    let mut items: Vec<OutlineItem> = Vec::new();
    let mut in_code = false;
    let mut i: usize = 0;
    let fence = ['`', '`', '`'];
    assert(fence@ =~= seq!['`', '`', '`']);
    while i < n
        invariant
            n == lines@.len(),
            ls == seqs_of(lines@),
            ls == lines_of(content@),
            i <= n,
            fence@ == seq!['`', '`', '`'],
            outline_views(items@) + outline_from(ls, i as int, in_code) == outline_from(ls, 0, false),
        decreases n - i,
    {
        let ghost prev = outline_views(items@);
        let line = &lines[i];
        assert(line@ == ls[i as int]);
        let t = start_trimmed(line);
        if crate::text::has_prefix(&t, &fence) {
            in_code = !in_code;
        } else if !in_code {
            let h = leading_hashes(&t);
            if h >= 1 && h <= 6 {
                let rest = sub_chars(&t, h, t.len());
                let title = start_trimmed(&rest);
                if title.len() > 0 {
                    let item = OutlineItem { level: h as u8, title: string_of(&title), line: i };
                    items.push(item);
                    assert(outline_views(items@) =~= prev.push(item@));
                }
            }
        }
        i += 1;
    }
    proof {
        lemma_outline_from_props(ls, 0, false);
        assert(outline_views(items@) =~= outline_views(items@) + outline_from(ls, i as int, in_code));
    }
    items
}

/// How section numbers end: `1.2.`, `1.2` or `1.2、`.
#[derive(Clone, Copy, PartialEq, Eq, Structural)]
pub enum NumberFormat {
    Dot,
    Plain,
    Comma,
}

/// What the outline panel shows: the deepest level shown unconditionally,
/// whether section numbers are shown, and their format.
pub struct OutlineState {
    pub expand_level: u8,
    pub show_numbers: bool,
    pub number_format: NumberFormat,
}

/// Item `index` has an ancestor (the nearest earlier item of a smaller
/// level) whose level is at most `expand_level`.
pub open spec fn ancestor_expanded(items: Seq<OutlineSpec>, index: int, expand_level: u8) -> bool {
    exists|j: int|
        0 <= j < index && #[trigger] items[j].level < items[index].level && items[j].level
            <= expand_level && forall|k: int|
            j < k < index ==> #[trigger] items[k].level >= items[index].level
}

/// Item `index` is shown in the outline: its own level is at most the
/// expand level, or it has an expanded ancestor.
pub open spec fn outline_visible(items: Seq<OutlineSpec>, index: int, expand_level: u8) -> bool {
    items[index].level <= expand_level || ancestor_expanded(items, index, expand_level)
}

/// Whether an item is shown depends on its parent only: an item deeper
/// than the expand level is shown exactly when its parent (the nearest
/// earlier item of a smaller level, whatever items of the same or a deeper
/// level lie between) is at most the expand level.
pub proof fn lemma_shown_by_parent(items: Seq<OutlineSpec>, i: int, j: int, expand_level: u8)
    requires
        0 <= j < i < items.len(),
        items[j].level < items[i].level,
        forall|k: int| j < k < i ==> #[trigger] items[k].level >= items[i].level,
    ensures
        outline_visible(items, i, expand_level) == (items[i].level <= expand_level || items[j].level
            <= expand_level),
{
    lemma_visible_by_parent(items, i, j, expand_level);
}

/// An item with no earlier item of a smaller level (a top-level heading)
/// is shown exactly when its level is at most the expand level.
pub proof fn lemma_shown_without_parent(items: Seq<OutlineSpec>, i: int, expand_level: u8)
    requires
        0 <= i < items.len(),
        forall|k: int| 0 <= k < i ==> #[trigger] items[k].level >= items[i].level,
    ensures
        outline_visible(items, i, expand_level) == (items[i].level <= expand_level),
{
    lemma_visible_without_parent(items, i, expand_level);
}

/// Siblings are shown alike: two items of the same level with only items
/// of that level or deeper between them are both shown or both hidden.
pub proof fn lemma_siblings_shown_alike(items: Seq<OutlineSpec>, a: int, b: int, expand_level: u8)
    requires
        0 <= a < b < items.len(),
        items[a].level == items[b].level,
        forall|k: int| a < k < b ==> #[trigger] items[k].level >= items[b].level,
    ensures
        outline_visible(items, a, expand_level) == outline_visible(items, b, expand_level),
{
    lemma_siblings_visible_alike(items, a, b, expand_level);
}

/// Whether an item is shown is decided by its parent, the nearest earlier
/// item of a smaller level, whatever items of the same or a deeper level
/// lie between: the item has an expanded ancestor exactly when that
/// parent's level is at most the expand level.
pub proof fn lemma_visible_by_parent(items: Seq<OutlineSpec>, i: int, j: int, expand_level: u8)
    requires
        0 <= j < i < items.len(),
        items[j].level < items[i].level,
        forall|k: int| j < k < i ==> #[trigger] items[k].level >= items[i].level,
    ensures
        ancestor_expanded(items, i, expand_level) == (items[j].level <= expand_level),
{
    if ancestor_expanded(items, i, expand_level) {
        let w = choose|w: int|
            0 <= w < i && #[trigger] items[w].level < items[i].level && items[w].level <= expand_level
                && forall|k: int| w < k < i ==> #[trigger] items[k].level >= items[i].level;
        if w < j {
            assert(items[j].level >= items[i].level);
        } else if w > j {
            assert(items[w].level >= items[i].level);
        }
    }
    if items[j].level <= expand_level {
        assert(items[j].level < items[i].level && items[j].level <= expand_level && forall|k: int|
            j < k < i ==> #[trigger] items[k].level >= items[i].level);
    }
}

/// An item with no earlier item of a smaller level has no expanded
/// ancestor.
pub proof fn lemma_visible_without_parent(items: Seq<OutlineSpec>, i: int, expand_level: u8)
    requires
        0 <= i < items.len(),
        forall|k: int| 0 <= k < i ==> #[trigger] items[k].level >= items[i].level,
    ensures
        !ancestor_expanded(items, i, expand_level),
{
}

/// Siblings share their parent's fate: two items of the same level with
/// only items of that level or deeper between them either both have an
/// expanded ancestor or both do not.
pub proof fn lemma_siblings_visible_alike(items: Seq<OutlineSpec>, a: int, b: int, expand_level: u8)
    requires
        0 <= a < b < items.len(),
        items[a].level == items[b].level,
        forall|k: int| a < k < b ==> #[trigger] items[k].level >= items[b].level,
    ensures
        ancestor_expanded(items, a, expand_level) == ancestor_expanded(items, b, expand_level),
{
    if ancestor_expanded(items, a, expand_level) {
        let w = choose|w: int|
            0 <= w < a && #[trigger] items[w].level < items[a].level && items[w].level <= expand_level
                && forall|k: int| w < k < a ==> #[trigger] items[k].level >= items[a].level;
        assert forall|k: int| w < k < b implies #[trigger] items[k].level >= items[b].level by {
            if k < a {
            } else if k == a {
            }
        }
        assert(items[w].level < items[b].level);
    }
    if ancestor_expanded(items, b, expand_level) {
        let w = choose|w: int|
            0 <= w < b && #[trigger] items[w].level < items[b].level && items[w].level <= expand_level
                && forall|k: int| w < k < b ==> #[trigger] items[k].level >= items[b].level;
        if w >= a {
            if w == a {
            } else {
                assert(items[w].level >= items[b].level);
            }
        }
        assert(w < a);
        assert forall|k: int| w < k < a implies #[trigger] items[k].level >= items[a].level by {
            assert(items[k].level >= items[b].level);
        }
    }
}

impl OutlineState {
    /// Everything shown, numbers hidden, `1.`-style numbers.
    pub fn new() -> (r: Self)
        ensures
            r.expand_level == 6,
            !r.show_numbers,
            r.number_format == NumberFormat::Dot,
    {
        Self { expand_level: 6, show_numbers: false, number_format: NumberFormat::Dot }
    }

    /// Whether item `index` is shown: its level is at most `expand_level`,
    /// or its nearest ancestor's is.
    pub fn is_visible(&self, items: &[OutlineItem], index: usize) -> (r: bool)
        requires
            index < items@.len(),
        ensures
            r == (items@[index as int].level <= self.expand_level || ancestor_expanded(
                outline_views(items@),
                index as int,
                self.expand_level,
            )),
            r == outline_visible(outline_views(items@), index as int, self.expand_level),
    {
        let ghost v = outline_views(items@);
        let item_level = items[index].level;
        if item_level <= self.expand_level {
            return true;
        }
        let mut i = index;
        while i > 0
            invariant
                i <= index < items@.len(),
                v == outline_views(items@),
                item_level == v[index as int].level,
                item_level > self.expand_level,
                forall|k: int| i <= k < index ==> #[trigger] v[k].level >= item_level,
            decreases i,
        {
            i -= 1;
            if items[i].level < item_level {
                let r = items[i].level <= self.expand_level;
                proof {
                    if !r {
                        assert forall|j: int|
                            0 <= j < index && #[trigger] v[j].level < v[index as int].level && v[j].level
                                <= self.expand_level implies !(forall|k: int|
                            j < k < index ==> #[trigger] v[k].level >= v[index as int].level) by {
                            assert(j < i as int);
                            assert(v[i as int].level < item_level);
                        }
                    } else {
                        assert(v[i as int].level < item_level);
                    }
                }
                return r;
            }
        }
        false
    }

    /// The weight of an item's font: bold for level 1, semibold for
    /// level 2, regular below.
    pub fn font_weight(&self, level: u8) -> (r: u16)
        ensures
            r == (if level == 1 {
                700u16
            } else if level == 2 {
                600u16
            } else {
                400u16
            }),
    {
        match level {
            1 => 700,
            2 => 600,
            _ => 400,
        }
    }
}

/// The decimal digits of `n`.
pub open spec fn decimal(n: nat) -> Seq<char>
    decreases n,
{
    if n < 10 {
        seq![(('0' as u32) + n) as char]
    } else {
        decimal(n / 10).push((('0' as u32) + n % 10) as char)
    }
}

/// The counters after counting one heading of level `l` (0-based): that
/// level's counter goes up by one and the deeper ones restart at zero.
pub open spec fn bump(c: Seq<nat>, l: int) -> Seq<nat> {
    Seq::new(6, |j: int| if j < l { c[j] } else if j == l { c[j] + 1 } else { 0 })
}

/// The six level counters after the first `n` items.
pub open spec fn counters_after(items: Seq<OutlineSpec>, n: int) -> Seq<nat>
    decreases n,
{
    if n <= 0 {
        seq![0nat, 0nat, 0nat, 0nat, 0nat, 0nat]
    } else {
        bump(counters_after(items, n - 1), items[n - 1].level - 1)
    }
}

/// The non-zero counters among the first `upto`, in decimal.
pub open spec fn number_parts(c: Seq<nat>, upto: int) -> Seq<Seq<char>>
    decreases upto,
{
    if upto <= 0 {
        seq![]
    } else if c[upto - 1] > 0 {
        number_parts(c, upto - 1).push(decimal(c[upto - 1]))
    } else {
        number_parts(c, upto - 1)
    }
}

/// Parts joined with `sep`.
pub open spec fn join_with(parts: Seq<Seq<char>>, sep: char) -> Seq<char>
    decreases parts.len(),
{
    if parts.len() == 0 {
        seq![]
    } else if parts.len() == 1 {
        parts[0]
    } else {
        join_with(parts.drop_last(), sep) + seq![sep] + parts.last()
    }
}

/// The section number of item `index`: the counts of headings per level up
/// to and including it, over the levels down to its own, zeros left out,
/// joined with `.` and ended as the format says; empty when there is no
/// non-zero count.
pub open spec fn section_number(items: Seq<OutlineSpec>, index: int, format: NumberFormat) -> Seq<
    char,
> {
    let parts = number_parts(counters_after(items, index + 1), items[index].level as int);
    if parts.len() == 0 {
        seq![]
    } else {
        let num = join_with(parts, '.');
        match format {
            NumberFormat::Dot => num.push('.'),
            NumberFormat::Plain => num,
            NumberFormat::Comma => num.push('、'),
        }
    }
}

/// All items up to `index` have a level from 1 to 6.
pub open spec fn levels_in_range(items: Seq<OutlineSpec>, index: int) -> bool {
    forall|k: int| 0 <= k <= index ==> 1 <= #[trigger] items[k].level <= 6
}

proof fn lemma_counters_bound(items: Seq<OutlineSpec>, n: int)
    requires
        0 <= n,
    ensures
        counters_after(items, n).len() == 6,
        forall|j: int| 0 <= j < 6 ==> #[trigger] counters_after(items, n)[j] <= n,
    decreases n,
{
    if n > 0 {
        lemma_counters_bound(items, n - 1);
    }
}

/// The decimal digits of a number.
pub fn decimal_of(n: u64) -> (r: Vec<char>)
    ensures
        r@ == decimal(n as nat),
    decreases n,
{
    if n < 10 {
        let c = char_from_digit(n);
        let mut v = Vec::new();
        v.push(c);
        assert(v@ =~= seq![c]);
        v
    } else {
        let mut v = decimal_of(n / 10);
        v.push(char_from_digit(n % 10));
        v
    }
}

fn char_from_digit(d: u64) -> (c: char)
    requires
        d < 10,
    ensures
        c == (('0' as u32) + d) as char,
{
    if d == 0 { '0' } else if d == 1 { '1' } else if d == 2 { '2' } else if d == 3 { '3' }
    else if d == 4 { '4' } else if d == 5 { '5' } else if d == 6 { '6' } else if d == 7 { '7' }
    else if d == 8 { '8' } else { '9' }
}

fn append_chars(dst: &mut Vec<char>, src: &Vec<char>)
    ensures
        final(dst)@ == old(dst)@ + src@,
{
    let mut k: usize = 0;
    while k < src.len()
        invariant
            k <= src@.len(),
            dst@ == old(dst)@ + src@.take(k as int),
        decreases src@.len() - k,
    {
        dst.push(src[k]);
        k += 1;
    }
    assert(src@.take(k as int) =~= src@);
}

impl OutlineState {
    /// The section number shown before item `index` (for example `1.2.`),
    /// or an empty string when numbers are hidden.
    pub fn generate_number(&self, items: &[OutlineItem], index: usize) -> (r: String)
        requires
            index < items@.len(),
            index < u32::MAX,
            levels_in_range(outline_views(items@), index as int),
        ensures
            r@ == (if self.show_numbers {
                section_number(outline_views(items@), index as int, self.number_format)
            } else {
                Seq::<char>::empty()
            }),
    {
        if !self.show_numbers {
            return String::new();
        }
        let ghost v = outline_views(items@);
        let mut counters: Vec<u32> = vec![0, 0, 0, 0, 0, 0];
        let mut i: usize = 0;
        assert(counters@.map_values(|x: u32| x as nat) =~= counters_after(v, 0));
        while i <= index
            invariant
                index < items@.len(),
                index < u32::MAX,
                i <= index + 1,
                v == outline_views(items@),
                levels_in_range(v, index as int),
                counters@.len() == 6,
                counters@.map_values(|x: u32| x as nat) == counters_after(v, i as int),
            decreases index + 1 - i,
        {
            let ghost cv = counters_after(v, i as int);
            proof {
                lemma_counters_bound(v, i as int);
                assert(v[i as int].level == items@[i as int].level);
                assert forall|t: int| 0 <= t < 6 implies counters@[t] as nat == cv[t] by {
                    assert(counters@.map_values(|x: u32| x as nat)[t] == counters@[t] as nat);
                }
            }
            let lvl = (items[i].level - 1) as usize;
            assert(lvl < 6);
            assert(counters@[lvl as int] as nat == cv[lvl as int]);
            assert(cv[lvl as int] <= i);
            let bumped = counters[lvl] + 1;
            counters.set(lvl, bumped);
            let mut j = lvl + 1;
            while j < 6
                invariant
                    lvl < 6,
                    lvl < j <= 6,
                    counters@.len() == 6,
                    cv.len() == 6,
                    forall|t: int|
                        0 <= t < 6 ==> #[trigger] counters@[t] as nat == (if t < lvl {
                            cv[t]
                        } else if t == lvl {
                            cv[t] + 1
                        } else if t < j {
                            0
                        } else {
                            cv[t]
                        }),
                decreases 6 - j,
            {
                counters.set(j, 0);
                j += 1;
            }
            proof {
                assert(counters_after(v, i + 1) == bump(cv, lvl as int));
                assert(counters@.map_values(|x: u32| x as nat) =~= bump(cv, lvl as int));
            }
            i += 1;
        }
        let ghost c = counters_after(v, index + 1);
        proof {
            assert forall|t: int| 0 <= t < 6 implies counters@[t] as nat == c[t] by {
                assert(counters@.map_values(|x: u32| x as nat)[t] == counters@[t] as nat);
            }
        }
        let mut out: Vec<char> = Vec::new();
        let item_level = items[index].level as usize;
        assert(item_level == v[index as int].level);
        let mut p: usize = 0;
        let mut count: usize = 0;
        while p < item_level
            invariant
                p <= item_level <= 6,
                counters@.len() == 6,
                c.len() == 6,
                forall|t: int| 0 <= t < 6 ==> #[trigger] counters@[t] as nat == c[t],
                count == number_parts(c, p as int).len(),
                count <= p,
                out@ == join_with(number_parts(c, p as int), '.'),
            decreases item_level - p,
        {
            let ghost parts = number_parts(c, p as int);
            if counters[p] > 0 {
                let d = decimal_of(counters[p] as u64);
                if count > 0 {
                    out.push('.');
                }
                append_chars(&mut out, &d);
                proof {
                    let np = parts.push(decimal(c[p as int]));
                    assert(number_parts(c, p + 1) == np);
                    assert(np.drop_last() =~= parts);
                    if parts.len() == 0 {
                        assert(out@ =~= decimal(c[p as int]));
                    }
                }
                count += 1;
            }
            p += 1;
        }
        if count == 0 {
            return String::new();
        }
        match self.number_format {
            NumberFormat::Dot => out.push('.'),
            NumberFormat::Plain => {},
            NumberFormat::Comma => out.push('、'),
        }
        string_of(&out)
    }
}
} // verus!
