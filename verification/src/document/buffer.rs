//! The text buffer that holds a document's content.

use vstd::prelude::*;
use vstd::utf8::*;
use vstd::string::{StringExecFns, StringSliceAdditionalSpecFns};
use crate::bytes::{
    char_index, edited, is_boundary, lemma_char_index, lemma_encode_concat, lemma_encode_injective,
    lemma_is_char_boundary, lemma_prefix_len_strict, lemma_split_at_boundary, splice_bytes,
};

verus! {

broadcast use vstd::utf8::encode_utf8_decode_utf8;

/// The storage of a document's text. Offsets into it are byte offsets of its
/// UTF-8 encoding, and must fall on character boundaries.
pub struct Buffer {
    text: String,
}

impl View for Buffer {
    type V = Seq<char>;

    closed spec fn view(&self) -> Seq<char> {
        self.text@
    }
}

/// The UTF-8 bytes of a buffer's text.
pub open spec fn bytes_of(s: Seq<char>) -> Seq<u8> {
    encode_utf8(s)
}

impl Buffer {
    /// A buffer holding `text`.
    pub fn new(text: String) -> (r: Self)
        ensures
            r@ == text@,
    {
        Self { text }
    }

    /// The whole text.
    pub fn as_str(&self) -> (r: &str)
        ensures
            r@ == self@,
    {
        self.text.as_str()
    }

    /// The text for direct modification.
    pub fn as_mut_string(&mut self) -> (r: &mut String)
        ensures
            r@ == old(self)@,
            final(self)@ == final(r)@,
    {
        &mut self.text
    }

    /// The text between byte offsets `start` and `end`.
    pub fn slice(&self, start: usize, end: usize) -> (r: &str)
        requires
            start <= end,
            is_boundary(self@, start as int),
            is_boundary(self@, end as int),
        ensures
            bytes_of(r@) == bytes_of(self@).subrange(start as int, end as int),
            r@ == self@.subrange(char_index(self@, start as int), char_index(self@, end as int)),
    {
        let ghost s = self@;
        proof {
            lemma_char_index(s, start as int);
            lemma_char_index(s, end as int);
        }
        let ghost k1 = char_index(s, start as int);
        let ghost k2 = char_index(s, end as int);
        proof {
            if k2 < k1 {
                lemma_prefix_len_strict(s, k2, k1);
            }
            lemma_is_char_boundary(s, k1);
            lemma_split_at_boundary(s, k1);
        }
        let whole = self.text.as_str();
        assert(whole.spec_bytes() == bytes_of(s));
        let (_, rest) = whole.split_at(start);
        proof {
            let t = s.skip(k1);
            assert(rest.spec_bytes() == encode_utf8(t));
            lemma_encode_injective(rest@, t);
            assert(s.take(k2) =~= s.take(k1) + t.take(k2 - k1));
            lemma_encode_concat(s.take(k1), t.take(k2 - k1));
            lemma_is_char_boundary(t, k2 - k1);
            lemma_split_at_boundary(t, k2 - k1);
        }
        let (mid, _) = rest.split_at(end - start);
        proof {
            let t = s.skip(k1);
            assert(mid.spec_bytes() == encode_utf8(t.take(k2 - k1)));
            lemma_encode_injective(mid@, t.take(k2 - k1));
            assert(t.take(k2 - k1) =~= s.subrange(k1, k2));
            assert(s.subrange(k1, k2) =~= s.take(k2).skip(k1));
            lemma_split_at_boundary(s.take(k2), k1);
            assert(s.take(k2).take(k1) =~= s.take(k1));
            assert(s.take(k2) + s.skip(k2) =~= s);
            lemma_encode_concat(s.take(k2), s.skip(k2));
            assert(encode_utf8(s).take(end as int) == encode_utf8(s.take(k2))) by {
                lemma_split_at_boundary(s, k2);
            }
            assert(bytes_of(s).subrange(start as int, end as int) =~= encode_utf8(s).take(
                end as int,
            ).skip(start as int));
        }
        mid
    }

    /// Replaces the `old_len` bytes at `offset` with `new_text`.
    pub fn replace(&mut self, offset: usize, old_len: usize, new_text: &str)
        requires
            offset + old_len <= usize::MAX,
            is_boundary(old(self)@, offset as int),
            is_boundary(old(self)@, offset + old_len),
        ensures
            bytes_of(final(self)@) == splice_bytes(
                bytes_of(old(self)@),
                offset as int,
                old_len as int,
                bytes_of(new_text@),
            ),
            final(self)@ == edited(old(self)@, offset as int, old_len as int, new_text@),
    {
        let ghost s = self@;
        let end = offset + old_len;
        proof {
            lemma_char_index(s, offset as int);
            lemma_char_index(s, end as int);
        }
        let ghost k1 = char_index(s, offset as int);
        let ghost k2 = char_index(s, end as int);
        proof {
            if k2 < k1 {
                lemma_prefix_len_strict(s, k2, k1);
            }
            lemma_is_char_boundary(s, k1);
            lemma_split_at_boundary(s, k1);
        }
        let whole = self.text.as_str();
        let (head, rest) = whole.split_at(offset);
        proof {
            let t = s.skip(k1);
            lemma_encode_injective(rest@, t);
            lemma_encode_injective(head@, s.take(k1));
            assert(s.take(k2) =~= s.take(k1) + t.take(k2 - k1));
            lemma_encode_concat(s.take(k1), t.take(k2 - k1));
            lemma_is_char_boundary(t, k2 - k1);
            lemma_split_at_boundary(t, k2 - k1);
        }
        let (_, tail) = rest.split_at(old_len);
        proof {
            let t = s.skip(k1);
            lemma_encode_injective(tail@, t.skip(k2 - k1));
            assert(t.skip(k2 - k1) =~= s.skip(k2));
        }
        let mut out = head.to_owned();
        out.append(new_text);
        out.append(tail);
        proof {
            assert(out@ == s.take(k1) + new_text@ + s.skip(k2));
            lemma_encode_concat(s.take(k1) + new_text@, s.skip(k2));
            lemma_encode_concat(s.take(k1), new_text@);
            lemma_split_at_boundary(s, k1);
            lemma_split_at_boundary(s, k2);
        }
        self.text = out;
    }

    /// The length of the text in bytes.
    pub fn len(&self) -> (r: usize)
        ensures
            r == bytes_of(self@).len() as usize,
    {
        self.text.as_str().len()
    }
}

} // verus!
