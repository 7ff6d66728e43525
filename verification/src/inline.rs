//! Inline Markdown of a rendered block: `**bold**`, `*italic*`, `` `code` ``
//! and `[links](url)`, read into spans of plain and styled text.

use vstd::prelude::*;
use crate::css::{after_end, char_end, lemma_char_end_bounds};
use crate::text::{chars_of, string_of, sub_chars};

verus! {

/// How a span of inline text is shown.
#[derive(Clone, Copy, PartialEq, Eq, Structural)]
pub enum InlineKind {
    Plain,
    Bold,
    Italic,
    Code,
    Link,
}

/// A span of inline text and how it is shown.
pub struct InlineSpan {
    pub kind: InlineKind,
    pub text: String,
}

/// A span as its kind and characters.
pub struct SpanView {
    pub kind: InlineKind,
    pub text: Seq<char>,
}

impl View for InlineSpan {
    type V = SpanView;

    open spec fn view(&self) -> SpanView {
        SpanView { kind: self.kind, text: self.text@ }
    }
}

/// The views of a sequence of spans.
pub open spec fn span_views(v: Seq<InlineSpan>) -> Seq<SpanView> {
    v.map_values(|x: InlineSpan| x@)
}

/// The text of a bold span starting at `i` (after the opening `**`) and
/// the position after its closing `**`; a single `*` inside is kept.
pub open spec fn bold_scan(s: Seq<char>, i: int) -> (Seq<char>, int)
    decreases s.len() - i,
{
    if i < 0 || i >= s.len() {
        (seq![], s.len() as int)
    } else if s[i] == '*' && i + 1 < s.len() && s[i + 1] == '*' {
        (seq![], i + 2)
    } else {
        let (t, j) = bold_scan(s, i + 1);
        (seq![s[i]] + t, j)
    }
}

pub proof fn lemma_bold_scan_bounds(s: Seq<char>, i: int)
    requires
        0 <= i <= s.len(),
    ensures
        i <= bold_scan(s, i).1 <= s.len(),
    decreases s.len() - i,
{
    if i < s.len() && !(s[i] == '*' && i + 1 < s.len() && s[i + 1] == '*') {
        lemma_bold_scan_bounds(s, i + 1);
    }
}

/// A plain span holding `cur`, unless `cur` is empty.
pub open spec fn flush(cur: Seq<char>) -> Seq<SpanView> {
    if cur.len() == 0 {
        seq![]
    } else {
        seq![SpanView { kind: InlineKind::Plain, text: cur }]
    }
}

/// The spans of the text from position `i` on, with `cur` the plain text
/// gathered and not yet emitted.
pub open spec fn inline_from(s: Seq<char>, i: int, cur: Seq<char>) -> Seq<SpanView>
    decreases s.len() - i,
{
    if i < 0 || i >= s.len() {
        flush(cur)
    } else {
        let ch = s[i];
        if ch == '*' && i + 1 < s.len() && s[i + 1] == '*' {
            proof {
                lemma_bold_scan_bounds(s, i + 2);
            }
            let (t, j) = bold_scan(s, i + 2);
            flush(cur) + seq![SpanView { kind: InlineKind::Bold, text: t }] + inline_from(s, j, seq![])
        } else if ch == '*' || ch == '`' {
            proof {
                lemma_char_end_bounds(s, i + 1, ch);
            }
            let kind = if ch == '*' {
                InlineKind::Italic
            } else {
                InlineKind::Code
            };
            flush(cur) + seq![SpanView { kind: kind, text: s.subrange(i + 1, char_end(s, i + 1, ch)) }]
                + inline_from(s, after_end(s, i + 1, ch), seq![])
        } else if ch == '[' {
            proof {
                lemma_char_end_bounds(s, i + 1, ']');
            }
            let e = char_end(s, i + 1, ']');
            let label = s.subrange(i + 1, e);
            if e + 1 < s.len() && s[e + 1] == '(' {
                proof {
                    lemma_char_end_bounds(s, e + 2, ')');
                }
                flush(cur) + seq![SpanView { kind: InlineKind::Link, text: label }] + inline_from(
                    s,
                    after_end(s, e + 2, ')'),
                    seq![],
                )
            } else {
                inline_from(
                    s,
                    if e < s.len() {
                        e + 1
                    } else {
                        s.len() as int
                    },
                    cur + seq!['['] + label + seq![']'],
                )
            }
        } else {
            inline_from(s, i + 1, cur.push(ch))
        }
    }
}

/// The spans of an inline text.
pub open spec fn inline_spans(s: Seq<char>) -> Seq<SpanView> {
    inline_from(s, 0, seq![])
}

/// The text of a bold span and where it ends.
fn scan_bold(s: &[char], i: usize) -> (r: (Vec<char>, usize))
    requires
        i <= s@.len(),
    ensures
        (r.0@, r.1 as int) == bold_scan(s@, i as int),
{
    let mut t: Vec<char> = Vec::new();
    let mut k = i;
    while k < s.len()
        invariant
            i <= k <= s@.len(),
            ({
                let (rest, j) = bold_scan(s@, k as int);
                (t@ + rest, j) == bold_scan(s@, i as int)
            }),
        decreases s@.len() - k,
    {
        if s[k] == '*' && k + 1 < s.len() && s[k + 1] == '*' {
            assert(t@ + Seq::<char>::empty() =~= t@);
            return (t, k + 2);
        }
        let ghost old_t = t@;
        t.push(s[k]);
        proof {
            let (rest, j) = bold_scan(s@, k + 1);
            assert(t@ + rest =~= old_t + (seq![s@[k as int]] + rest));
        }
        k += 1;
    }
    assert(t@ + Seq::<char>::empty() =~= t@);
    (t, s.len())
}

/// Emits the gathered plain text, if any, as a span.
fn flush_plain(out: &mut Vec<InlineSpan>, cur: &mut Vec<char>)
    ensures
        span_views(final(out)@) == span_views(old(out)@) + flush(old(cur)@),
        final(cur)@.len() == 0,
{
    let ghost o = span_views(out@);
    if cur.len() > 0 {
        let span = InlineSpan { kind: InlineKind::Plain, text: string_of(cur.as_slice()) };
        out.push(span);
        assert(span_views(out@) =~= o + flush(old(cur)@));
        *cur = Vec::new();
    } else {
        assert(span_views(out@) =~= o + flush(old(cur)@));
    }
}

/// Reads the inline Markdown of a text into spans: `**...**` bold, `*...*`
/// italic, `` `...` `` code, `[label](url)` a link showing its label; each
/// runs to its closing marker or the end of the text. A `[` not followed
/// by `](` stays plain text, with its label and a closing `]`. Plain text
/// between the styled spans becomes a plain span when it is not empty.
pub fn parse_inline(text: &str) -> (r: Vec<InlineSpan>)
    ensures
        span_views(r@) == inline_spans(text@),
{
    let s = chars_of(text);
    let n = s.len();
    let mut out: Vec<InlineSpan> = Vec::new();
    let mut cur: Vec<char> = Vec::new();
    let mut i: usize = 0;
    while i < n
        invariant
            i <= n,
            n == s@.len(),
            s@ == text@,
            span_views(out@) + inline_from(s@, i as int, cur@) == inline_spans(text@),
        decreases n - i,
    {
        let ch = s[i];
        let ghost o = span_views(out@);
        let ghost c = cur@;
        if ch == '*' && i + 1 < n && s[i + 1] == '*' {
            flush_plain(&mut out, &mut cur);
            proof {
                lemma_bold_scan_bounds(s@, i + 2);
            }
            let (t, j) = scan_bold(s.as_slice(), i + 2);
            let ghost o2 = span_views(out@);
            out.push(InlineSpan { kind: InlineKind::Bold, text: string_of(t.as_slice()) });
            proof {
                assert(span_views(out@) =~= o2.push(SpanView { kind: InlineKind::Bold, text: t@ }));
                assert(cur@ =~= Seq::<char>::empty());
                assert(span_views(out@) + inline_from(s@, j as int, cur@) =~= o + inline_from(s@, i as int, c));
            }
            i = j;
        } else if ch == '*' || ch == '`' {
            flush_plain(&mut out, &mut cur);
            proof {
                lemma_char_end_bounds(s@, i + 1, ch);
            }
            let mut e = i + 1;
            while e < n && s[e] != ch
                invariant
                    i + 1 <= e <= n,
                    n == s@.len(),
                    char_end(s@, e as int, ch) == char_end(s@, i + 1, ch),
                decreases n - e,
            {
                e += 1;
            }
            let t = sub_chars(s.as_slice(), i + 1, e);
            let kind = if ch == '*' {
                InlineKind::Italic
            } else {
                InlineKind::Code
            };
            let ghost o2 = span_views(out@);
            out.push(InlineSpan { kind, text: string_of(t.as_slice()) });
            let next = if e < n {
                e + 1
            } else {
                n
            };
            proof {
                assert(span_views(out@) =~= o2.push(SpanView { kind: kind, text: t@ }));
                assert(cur@ =~= Seq::<char>::empty());
                assert(span_views(out@) + inline_from(s@, next as int, cur@) =~= o + inline_from(s@, i as int, c));
            }
            i = next;
        } else if ch == '[' {
            proof {
                lemma_char_end_bounds(s@, i + 1, ']');
            }
            let mut e = i + 1;
            while e < n && s[e] != ']'
                invariant
                    i + 1 <= e <= n,
                    n == s@.len(),
                    char_end(s@, e as int, ']') == char_end(s@, i + 1, ']'),
                decreases n - e,
            {
                e += 1;
            }
            let label = sub_chars(s.as_slice(), i + 1, e);
            if e < n && e + 1 < n && s[e + 1] == '(' {
                flush_plain(&mut out, &mut cur);
                proof {
                    lemma_char_end_bounds(s@, e + 2, ')');
                }
                let mut p = e + 2;
                while p < n && s[p] != ')'
                    invariant
                        e + 2 <= p <= n,
                        n == s@.len(),
                        char_end(s@, p as int, ')') == char_end(s@, e + 2, ')'),
                    decreases n - p,
                {
                    p += 1;
                }
                let next = if p < n {
                    p + 1
                } else {
                    n
                };
                let ghost o2 = span_views(out@);
                out.push(InlineSpan { kind: InlineKind::Link, text: string_of(label.as_slice()) });
                proof {
                    assert(span_views(out@) =~= o2.push(SpanView { kind: InlineKind::Link, text: label@ }));
                    assert(cur@ =~= Seq::<char>::empty());
                    assert(span_views(out@) + inline_from(s@, next as int, cur@) =~= o + inline_from(s@, i as int, c));
                }
                i = next;
            } else {
                cur.push('[');
                let mut k: usize = 0;
                while k < label.len()
                    invariant
                        k <= label@.len(),
                        cur@ == c + seq!['['] + label@.take(k as int),
                    decreases label@.len() - k,
                {
                    cur.push(label[k]);
                    k += 1;
                    assert(cur@ =~= c + seq!['['] + label@.take(k as int));
                }
                cur.push(']');
                assert(label@.take(label@.len() as int) =~= label@);
                assert(cur@ =~= c + seq!['['] + label@ + seq![']']);
                i = if e < n {
                    e + 1
                } else {
                    n
                };
            }
        } else {
            cur.push(ch);
            i += 1;
        }
    }
    flush_plain(&mut out, &mut cur);
    out
}

/// A character that starts inline markup.
pub open spec fn is_markup(c: char) -> bool {
    c == '*' || c == '`' || c == '['
}

proof fn lemma_plain_from(s: Seq<char>, i: int, cur: Seq<char>)
    requires
        0 <= i <= s.len(),
        forall|k: int| 0 <= k < s.len() ==> !is_markup(#[trigger] s[k]),
    ensures
        inline_from(s, i, cur) == flush(cur + s.skip(i)),
    decreases s.len() - i,
{
    if i < s.len() {
        lemma_plain_from(s, i + 1, cur.push(s[i]));
        assert(cur.push(s[i]) + s.skip(i + 1) =~= cur + s.skip(i));
    } else {
        assert(cur + s.skip(i) =~= cur);
    }
}

/// Text with no `*`, `` ` `` or `[` is shown as it is, in one plain span
/// (none when it is empty).
pub proof fn lemma_plain_text(s: Seq<char>)
    requires
        forall|k: int| 0 <= k < s.len() ==> !is_markup(#[trigger] s[k]),
    ensures
        inline_spans(s) == flush(s),
{
    lemma_plain_from(s, 0, seq![]);
    assert(Seq::<char>::empty() + s.skip(0) =~= s);
}

} // verus!
