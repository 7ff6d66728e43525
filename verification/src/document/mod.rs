//! The document model: a text buffer, its edit history, and the document that
//! ties them to a file.

pub mod buffer;
pub mod history;

pub use buffer::Buffer;
pub use history::{EditOp, History};

use std::path::PathBuf;
use vstd::prelude::*;
use vstd::utf8::encode_utf8;
use crate::bytes::{
    char_index, edited, is_boundary, lemma_char_index, lemma_edit_then_restore,
    lemma_prefix_len_strict,
};

verus! {

#[verifier::external_type_specification]
#[verifier::external_body]
pub struct ExPathBuf(PathBuf);

/// An open Markdown document: where it is stored (`None` for a new one),
/// its text, whether it has unsaved changes, and its edit history.
pub struct Document {
    pub path: Option<PathBuf>,
    pub buffer: Buffer,
    pub modified: bool,
    pub history: History,
}

impl Document {
    /// An empty, unsaved, unmodified document.
    pub fn new() -> (r: Self)
        ensures
            r.path.is_none(),
            r.buffer@ == Seq::<char>::empty(),
            !r.modified,
            r.history@.undo.len() == 0,
            r.history@.redo.len() == 0,
    {
        Self { path: None, buffer: Buffer::new(String::new()), modified: false, history: History::new() }
    }

    /// A document read from `path` with the given content, unmodified.
    pub fn from_file(path: PathBuf, content: String) -> (r: Self)
        ensures
            r.path == Some(path),
            r.buffer@ == content@,
            !r.modified,
            r.history@.undo.len() == 0,
            r.history@.redo.len() == 0,
    {
        Self { path: Some(path), buffer: Buffer::new(content), modified: false, history: History::new() }
    }

    /// The document's text.
    pub fn content(&self) -> (r: &str)
        ensures
            r@ == self.buffer@,
    {
        self.buffer.as_str()
    }

    /// Replaces the `old_len` bytes at `offset` with `new_text`, records the
    /// change in the history and marks the document modified.
    pub fn apply_edit(&mut self, offset: usize, old_len: usize, new_text: &str)
        requires
            offset + old_len <= usize::MAX,
            is_boundary(old(self).buffer@, offset as int),
            is_boundary(old(self).buffer@, offset + old_len),
        ensures
            final(self).buffer@ == edited(old(self).buffer@, offset as int, old_len as int, new_text@),
            final(self).history@.undo.len() == old(self).history@.undo.len() + 1,
            final(self).history@.undo.drop_last() == old(self).history@.undo,
            final(self).history@.undo.last().offset == offset,
            final(self).history@.undo.last().old_text@ == old(self).buffer@.subrange(
                char_index(old(self).buffer@, offset as int),
                char_index(old(self).buffer@, offset + old_len),
            ),
            final(self).history@.undo.last().new_text@ == new_text@,
            final(self).history@.redo.len() == 0,
            final(self).modified,
            final(self).path == old(self).path,
    {
        proof {
            lemma_char_index(self.buffer@, offset as int);
            lemma_char_index(self.buffer@, offset + old_len);
            let k1 = char_index(self.buffer@, offset as int);
            let k2 = char_index(self.buffer@, offset + old_len);
            if k2 < k1 {
                lemma_prefix_len_strict(self.buffer@, k2, k1);
            }
        }
        let old_text = self.buffer.slice(offset, offset + old_len).to_owned();
        let op = EditOp { offset, old_text: old_text.clone(), new_text: new_text.to_owned() };
        self.buffer.replace(offset, old_len, new_text);
        self.history.push(op);
        self.modified = true;
    }
}

/// The edit that `apply_edit` records undoes it: replacing, at the recorded
/// offset, the recorded new text by the recorded old text gives the text
/// from before the edit, and both ends of that replacement are character
/// boundaries of the edited text.
pub proof fn lemma_recorded_edit_undoes(
    before: Seq<char>,
    offset: usize,
    old_len: usize,
    new_text: Seq<char>,
    op: EditOp,
)
    requires
        is_boundary(before, offset as int),
        is_boundary(before, offset + old_len),
        op.offset == offset,
        op.old_text@ == before.subrange(
            char_index(before, offset as int),
            char_index(before, offset + old_len),
        ),
        op.new_text@ == new_text,
    ensures
        ({
            let after = edited(before, offset as int, old_len as int, new_text);
            &&& is_boundary(after, op.offset as int)
            &&& is_boundary(after, op.offset + encode_utf8(op.new_text@).len())
            &&& edited(after, op.offset as int, encode_utf8(op.new_text@).len() as int, op.old_text@)
                == before
        }),
{
    lemma_edit_then_restore(before, offset as int, old_len as int, new_text);
}


/// Replacing and then replacing back restores the text: after
/// `Buffer::replace(offset, old_len, new_text)`, the call
/// `replace(offset, <bytes of new_text>, <the text removed>)` meets its
/// `requires` (its end offset fitting in `usize`, a machine limit that the
/// caller states) and gives the text back.
pub proof fn lemma_replace_round_trip(s: Seq<char>, offset: usize, old_len: usize, new_text: Seq<char>)
    requires
        offset + old_len <= usize::MAX,
        is_boundary(s, offset as int),
        is_boundary(s, offset + old_len),
        offset + encode_utf8(new_text).len() <= usize::MAX,
    ensures
        ({
            let after = edited(s, offset as int, old_len as int, new_text);
            let removed = s.subrange(char_index(s, offset as int), char_index(s, offset + old_len));
            &&& is_boundary(after, offset as int)
            &&& is_boundary(after, offset + encode_utf8(new_text).len())
            &&& edited(after, offset as int, encode_utf8(new_text).len() as int, removed) == s
        }),
{
    lemma_edit_then_restore(s, offset as int, old_len as int, new_text);
}

/// Undoing right after an edit: with the history `h` that `apply_edit`
/// leaves (the edit `op` on top of the undo stack, nothing to redo),
/// `pop_undo` hands back `op` and leaves its reverse as the one edit to
/// redo; and `op` replaced back at its offset restores the text from before
/// the edit.
pub proof fn lemma_undo_after_edit(
    before: Seq<char>,
    offset: usize,
    old_len: usize,
    new_text: Seq<char>,
    h: history::HistoryView,
)
    requires
        is_boundary(before, offset as int),
        is_boundary(before, offset + old_len),
        h.undo.len() > 0,
        h.redo.len() == 0,
        h.undo.last().offset == offset,
        h.undo.last().old_text@ == before.subrange(
            char_index(before, offset as int),
            char_index(before, offset + old_len),
        ),
        h.undo.last().new_text@ == new_text,
    ensures
        ({
            let op = h.undo.last();
            let after = edited(before, offset as int, old_len as int, new_text);
            &&& history::after_pop_undo(h).undo == h.undo.drop_last()
            &&& history::after_pop_undo(h).redo == seq![history::reversed(op)]
            &&& is_boundary(after, op.offset as int)
            &&& is_boundary(after, op.offset + encode_utf8(op.new_text@).len())
            &&& edited(after, op.offset as int, encode_utf8(op.new_text@).len() as int, op.old_text@)
                == before
        }),
{
    lemma_recorded_edit_undoes(before, offset, old_len, new_text, h.undo.last());
    assert(h.redo.push(history::reversed(h.undo.last())) =~= seq![history::reversed(h.undo.last())]);
}

} // verus!
