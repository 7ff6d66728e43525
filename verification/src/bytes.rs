//! Byte offsets into text: a `String` is indexed by the byte offsets of its
//! UTF-8 encoding, and an offset is usable only on a character boundary.

use vstd::prelude::*;
use vstd::utf8::*;

verus! {

broadcast use vstd::utf8::encode_utf8_decode_utf8;

/// `b` is the byte offset of the start of some character of `s`, or its end.
pub open spec fn is_boundary(s: Seq<char>, b: int) -> bool {
    exists|k: int| 0 <= k <= s.len() && #[trigger] encode_utf8(s.take(k)).len() == b
}

/// The character index whose byte offset is `b`.
pub open spec fn char_index(s: Seq<char>, b: int) -> int {
    choose|k: int| 0 <= k <= s.len() && #[trigger] encode_utf8(s.take(k)).len() == b
}

/// The text with the characters between byte offsets `off` and `off + len`
/// replaced by `new`.
pub open spec fn edited(s: Seq<char>, off: int, len: int, new: Seq<char>) -> Seq<char> {
    s.take(char_index(s, off)) + new + s.skip(char_index(s, off + len))
}

/// Bytes `off..off + len` replaced by `new`.
pub open spec fn splice_bytes(b: Seq<u8>, off: int, len: int, new: Seq<u8>) -> Seq<u8> {
    b.take(off) + new + b.skip(off + len)
}

/// The encoding of a concatenation is the concatenation of the encodings.
pub proof fn lemma_encode_concat(x: Seq<char>, y: Seq<char>)
    ensures
        encode_utf8(x + y) == encode_utf8(x) + encode_utf8(y),
    decreases x.len(),
{
    if x.len() == 0 {
        assert(x + y =~= y);
        assert(encode_utf8(x) =~= Seq::<u8>::empty());
        assert(encode_utf8(x) + encode_utf8(y) =~= encode_utf8(y));
    } else {
        assert((x + y).drop_first() =~= x.drop_first() + y);
        lemma_encode_concat(x.drop_first(), y);
        assert((x + y)[0] == x[0]);
        assert(encode_utf8(x + y) =~= encode_scalar(x[0] as u32) + encode_utf8(x.drop_first() + y));
    }
}

/// Each character takes at least one byte.
pub proof fn lemma_encode_len(x: Seq<char>)
    ensures
        encode_utf8(x).len() >= x.len(),
    decreases x.len(),
{
    if x.len() > 0 {
        lemma_encode_len(x.drop_first());
        assert(encode_scalar(x[0] as u32).len() >= 1);
    }
}

/// The byte offsets of character indices grow strictly with the index.
pub proof fn lemma_prefix_len_strict(s: Seq<char>, i: int, j: int)
    requires
        0 <= i < j <= s.len(),
    ensures
        encode_utf8(s.take(i)).len() < encode_utf8(s.take(j)).len(),
{
    assert(s.take(j) =~= s.take(i) + s.subrange(i, j));
    lemma_encode_concat(s.take(i), s.subrange(i, j));
    lemma_encode_len(s.subrange(i, j));
}

/// The character index of a boundary is unique.
pub proof fn lemma_char_index(s: Seq<char>, b: int)
    requires
        is_boundary(s, b),
    ensures
        0 <= char_index(s, b) <= s.len(),
        encode_utf8(s.take(char_index(s, b))).len() == b,
        forall|k: int| 0 <= k <= s.len() && #[trigger] encode_utf8(s.take(k)).len() == b ==> k
            == char_index(s, b),
{
    let k0 = char_index(s, b);
    assert forall|k: int| 0 <= k <= s.len() && #[trigger] encode_utf8(s.take(k)).len() == b implies k
        == k0 by {
        if k < k0 {
            lemma_prefix_len_strict(s, k, k0);
        } else if k > k0 {
            lemma_prefix_len_strict(s, k0, k);
        }
    }
}

/// A boundary in the sense above is a character boundary of the encoding.
pub proof fn lemma_is_char_boundary(s: Seq<char>, k: int)
    requires
        0 <= k <= s.len(),
    ensures
        is_char_boundary(encode_utf8(s), encode_utf8(s.take(k)).len() as int),
    decreases s.len(),
{
    broadcast use encode_utf8_valid_utf8;

    let bytes = encode_utf8(s);
    if k == 0 {
        assert(s.take(0) =~= Seq::<char>::empty());
        assert(encode_utf8(s.take(0)).len() == 0);
    } else {
        encode_utf8_first_scalar(s);
        assert(pop_first_scalar(bytes) =~= encode_utf8(s.drop_first()));
        lemma_is_char_boundary(s.drop_first(), k - 1);
        assert(s.take(k) =~= seq![s[0]] + s.drop_first().take(k - 1));
        lemma_encode_concat(seq![s[0]], s.drop_first().take(k - 1));
        assert(seq![s[0]].drop_first() =~= Seq::<char>::empty());
        assert(encode_utf8(seq![s[0]]) =~= encode_scalar(s[0] as u32) + encode_utf8(
            Seq::<char>::empty(),
        ));
        lemma_encode_len(s.take(k));
        lemma_encode_concat(s.take(k), s.skip(k));
        assert(s.take(k) + s.skip(k) =~= s);
    }
}

/// Splitting a text at a boundary splits its encoding at the same byte.
pub proof fn lemma_split_at_boundary(s: Seq<char>, k: int)
    requires
        0 <= k <= s.len(),
    ensures
        encode_utf8(s).take(encode_utf8(s.take(k)).len() as int) == encode_utf8(s.take(k)),
        encode_utf8(s).skip(encode_utf8(s.take(k)).len() as int) == encode_utf8(s.skip(k)),
{
    assert(s.take(k) + s.skip(k) =~= s);
    lemma_encode_concat(s.take(k), s.skip(k));
    let a = encode_utf8(s.take(k));
    let b = encode_utf8(s.skip(k));
    assert((a + b).take(a.len() as int) =~= a);
    assert((a + b).skip(a.len() as int) =~= b);
}

/// Two texts with the same encoding are the same text.
pub proof fn lemma_encode_injective(x: Seq<char>, y: Seq<char>)
    requires
        encode_utf8(x) == encode_utf8(y),
    ensures
        x == y,
{
    assert(decode_utf8(encode_utf8(x)) == x);
    assert(decode_utf8(encode_utf8(y)) == y);
}

/// Splicing the same place again with the bytes it held undoes a splice.
pub proof fn lemma_splice_undo(b: Seq<u8>, off: int, len: int, new: Seq<u8>)
    requires
        0 <= off <= off + len <= b.len(),
    ensures
        splice_bytes(splice_bytes(b, off, len, new), off, new.len() as int, b.subrange(off, off + len))
            == b,
{
    let c = splice_bytes(b, off, len, new);
    assert(c.take(off) =~= b.take(off));
    assert(c.skip(off + new.len()) =~= b.skip(off + len));
    assert(b.take(off) + b.subrange(off, off + len) + b.skip(off + len) =~= b);
}

/// Replacing a range and then replacing the new text by what the range held
/// gives the original text back, and the second replacement falls on
/// character boundaries of the edited text.
pub proof fn lemma_edit_then_restore(s: Seq<char>, off: int, len: int, new: Seq<char>)
    requires
        len >= 0,
        is_boundary(s, off),
        is_boundary(s, off + len),
    ensures
        is_boundary(edited(s, off, len, new), off),
        is_boundary(edited(s, off, len, new), off + encode_utf8(new).len()),
        edited(
            edited(s, off, len, new),
            off,
            encode_utf8(new).len() as int,
            s.subrange(char_index(s, off), char_index(s, off + len)),
        ) == s,
{
    lemma_char_index(s, off);
    lemma_char_index(s, off + len);
    let k1 = char_index(s, off);
    let k2 = char_index(s, off + len);
    if k2 < k1 {
        lemma_prefix_len_strict(s, k2, k1);
    }
    let e = edited(s, off, len, new);
    assert(e.take(k1) =~= s.take(k1));
    let m = k1 + new.len();
    assert(e.take(m) =~= s.take(k1) + new);
    lemma_encode_concat(s.take(k1), new);
    assert(e.len() == k1 + new.len() + (s.len() - k2));
    assert(encode_utf8(e.take(k1)).len() == off);
    assert(is_boundary(e, off));
    assert(encode_utf8(e.take(m)).len() == off + encode_utf8(new).len());
    assert(is_boundary(e, off + encode_utf8(new).len()));
    lemma_char_index(e, off);
    lemma_char_index(e, off + encode_utf8(new).len());
    assert(char_index(e, off) == k1);
    assert(char_index(e, off + encode_utf8(new).len()) == m);
    assert(e.skip(m) =~= s.skip(k2));
    assert(s.take(k1) + s.subrange(k1, k2) + s.skip(k2) =~= s);
}

/// The encoding of one character is that character's bytes.
pub proof fn lemma_encode_one(c: char)
    ensures
        encode_utf8(seq![c]) == encode_scalar(c as u32),
{
    assert(seq![c].drop_first() =~= Seq::<char>::empty());
    assert(encode_utf8(Seq::<char>::empty()) =~= Seq::<u8>::empty());
    assert(encode_utf8(seq![c]) =~= encode_scalar(c as u32) + encode_utf8(seq![c].drop_first()));
}

/// The number of bytes of a character's UTF-8 encoding.
pub fn char_width(c: char) -> (r: usize)
    ensures
        r == encode_scalar(c as u32).len(),
        1 <= r <= 4,
{
    let v = c as u32;
    if v <= 0x7F {
        1
    } else if v <= 0x7FF {
        2
    } else if v <= 0xFFFF {
        3
    } else {
        4
    }
}

/// Byte offset `b` (at most 8) falls between characters of `s`.
pub fn small_boundary(s: &[char], b: usize) -> (r: bool)
    requires
        b <= 8,
    ensures
        r == is_boundary(s@, b as int),
{
    let mut acc: usize = 0;
    let mut k: usize = 0;
    assert(s@.take(0) =~= Seq::<char>::empty());
    while k < s.len() && acc < b
        invariant
            k <= s@.len(),
            b <= 8,
            acc <= b + 4,
            acc == encode_utf8(s@.take(k as int)).len(),
            forall|j: int| 0 <= j < k ==> encode_utf8(s@.take(j)).len() < b,
        decreases s@.len() - k,
    {
        let w = char_width(s[k]);
        proof {
            assert(s@.take(k + 1) =~= s@.take(k as int) + seq![s@[k as int]]);
            lemma_encode_concat(s@.take(k as int), seq![s@[k as int]]);
            lemma_encode_one(s@[k as int]);
        }
        acc = acc + w;
        k += 1;
    }
    if acc == b {
        assert(encode_utf8(s@.take(k as int)).len() == b);
        true
    } else {
        proof {
            assert forall|j: int| 0 <= j <= s@.len() implies #[trigger] encode_utf8(s@.take(j)).len() != b by {
                if j > k {
                    lemma_prefix_len_strict(s@, k as int, j);
                }
            }
        }
        false
    }
}

/// The UTF-8 encoding of `s` has exactly `n` (at most 8) bytes.
pub fn byte_len_is(s: &[char], n: usize) -> (r: bool)
    requires
        n <= 8,
    ensures
        r == (encode_utf8(s@).len() == n),
{
    let mut acc: usize = 0;
    let mut k: usize = 0;
    assert(s@.take(0) =~= Seq::<char>::empty());
    while k < s.len() && acc <= n
        invariant
            k <= s@.len(),
            n <= 8,
            acc <= n + 4,
            acc == encode_utf8(s@.take(k as int)).len(),
        decreases s@.len() - k,
    {
        let w = char_width(s[k]);
        proof {
            assert(s@.take(k + 1) =~= s@.take(k as int) + seq![s@[k as int]]);
            lemma_encode_concat(s@.take(k as int), seq![s@[k as int]]);
            lemma_encode_one(s@[k as int]);
        }
        acc = acc + w;
        k += 1;
    }
    proof {
        if k < s@.len() {
            lemma_prefix_len_strict(s@, k as int, s@.len() as int);
        }
        assert(s@.take(s@.len() as int) =~= s@);
    }
    k == s.len() && acc == n
}

} // verus!
