//! The edit history: two stacks of edits, for undo and for redo.

use vstd::prelude::*;

verus! {

/// One change of the text: at byte `offset`, `old_text` was replaced by
/// `new_text`.
pub struct EditOp {
    pub offset: usize,
    pub old_text: String,
    pub new_text: String,
}

/// The edit that takes the text back: the same place, the two texts swapped.
pub open spec fn reversed(op: EditOp) -> EditOp {
    EditOp { offset: op.offset, old_text: op.new_text, new_text: op.old_text }
}

/// The undo stack and the redo stack, tops last.
pub struct History {
    undo_stack: Vec<EditOp>,
    redo_stack: Vec<EditOp>,
}

/// What a history holds: the undo stack, then the redo stack.
pub struct HistoryView {
    pub undo: Seq<EditOp>,
    pub redo: Seq<EditOp>,
}

impl View for History {
    type V = HistoryView;

    closed spec fn view(&self) -> HistoryView {
        HistoryView { undo: self.undo_stack@, redo: self.redo_stack@ }
    }
}

/// The history after `pop_undo` on a non-empty undo stack.
pub open spec fn after_pop_undo(h: HistoryView) -> HistoryView {
    HistoryView { undo: h.undo.drop_last(), redo: h.redo.push(reversed(h.undo.last())) }
}

/// The history after `pop_redo` on a non-empty redo stack.
pub open spec fn after_pop_redo(h: HistoryView) -> HistoryView {
    HistoryView { undo: h.undo.push(reversed(h.redo.last())), redo: h.redo.drop_last() }
}

fn reverse_of(op: &EditOp) -> (r: EditOp)
    ensures
        r == reversed(*op),
{
    EditOp { offset: op.offset, old_text: op.new_text.clone(), new_text: op.old_text.clone() }
}

impl History {
    /// An empty history.
    pub fn new() -> (r: Self)
        ensures
            r@.undo == Seq::<EditOp>::empty(),
            r@.redo == Seq::<EditOp>::empty(),
    {
        Self { undo_stack: Vec::new(), redo_stack: Vec::new() }
    }

    /// Records a new edit; what could be redone is forgotten.
    pub fn push(&mut self, op: EditOp)
        ensures
            final(self)@.undo == old(self)@.undo.push(op),
            final(self)@.redo == Seq::<EditOp>::empty(),
    {
        self.undo_stack.push(op);
        self.redo_stack.clear();
    }

    /// The last edit, left on the undo stack, while its reverse goes onto
    /// the redo stack.
    pub fn undo(&mut self) -> (r: Option<&EditOp>)
        ensures
            old(self)@.undo.len() == 0 ==> r.is_none() && final(self)@ == old(self)@,
            old(self)@.undo.len() > 0 ==> r == Some(&old(self)@.undo.last()) && final(self)@.undo
                == old(self)@.undo && final(self)@.redo == old(self)@.redo.push(
                reversed(old(self)@.undo.last()),
            ),
    {
        let n = self.undo_stack.len();
        if n == 0 {
            return None;
        }
        let reverse = reverse_of(&self.undo_stack[n - 1]);
        self.redo_stack.push(reverse);
        Some(&self.undo_stack[n - 1])
    }

    /// Takes the last edit off the undo stack and puts its reverse onto the
    /// redo stack.
    pub fn pop_undo(&mut self) -> (r: Option<EditOp>)
        ensures
            old(self)@.undo.len() == 0 ==> r.is_none() && final(self)@ == old(self)@,
            old(self)@.undo.len() > 0 ==> r == Some(old(self)@.undo.last()) && final(self)@
                == after_pop_undo(old(self)@),
    {
        let op = match self.undo_stack.pop() {
            Some(op) => op,
            None => return None,
        };
        let reverse = reverse_of(&op);
        self.redo_stack.push(reverse);
        Some(op)
    }

    /// Takes the last edit off the redo stack and puts its reverse onto the
    /// undo stack.
    pub fn pop_redo(&mut self) -> (r: Option<EditOp>)
        ensures
            old(self)@.redo.len() == 0 ==> r.is_none() && final(self)@ == old(self)@,
            old(self)@.redo.len() > 0 ==> r == Some(old(self)@.redo.last()) && final(self)@
                == after_pop_redo(old(self)@),
    {
        let op = match self.redo_stack.pop() {
            Some(op) => op,
            None => return None,
        };
        let reverse = reverse_of(&op);
        self.undo_stack.push(reverse);
        Some(op)
    }
}

/// Reversing an edit twice gives the edit back.
pub proof fn lemma_reversed_twice(op: EditOp)
    ensures
        reversed(reversed(op)) == op,
{
}

/// Undoing and then redoing leaves both stacks as they were.
pub proof fn lemma_undo_then_redo(h: HistoryView)
    requires
        h.undo.len() > 0,
    ensures
        after_pop_redo(after_pop_undo(h)) == h,
{
    assert(after_pop_redo(after_pop_undo(h)).undo =~= h.undo);
    assert(after_pop_redo(after_pop_undo(h)).redo =~= h.redo);
}

/// Redoing and then undoing leaves both stacks as they were.
pub proof fn lemma_redo_then_undo(h: HistoryView)
    requires
        h.redo.len() > 0,
    ensures
        after_pop_undo(after_pop_redo(h)) == h,
{
    assert(after_pop_undo(after_pop_redo(h)).undo =~= h.undo);
    assert(after_pop_undo(after_pop_redo(h)).redo =~= h.redo);
}

} // verus!
