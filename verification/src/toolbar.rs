//! The toolbar's actions.

use vstd::prelude::*;
use crate::modes::EditMode;

verus! {

/// What a toolbar button asks for; `Idle` when no button was pressed.
#[derive(Clone, Copy, PartialEq, Eq, Structural)]
pub enum ToolbarAction {
    Idle,
    ToggleMode(EditMode),
    Undo,
    Redo,
    Heading,
    Bold,
    Italic,
    Strike,
    Link,
    UnorderedList,
    OrderedList,
    CheckList,
    Outdent,
    Indent,
    Quote,
    HorizontalRule,
    CodeBlock,
    InlineCode,
    Table,
    ToggleOutline,
    FontColor,
    BgColor,
    AttachFile,
    ToggleSearch,
}

/// What the toolbar shows as switched on besides the editing mode.
pub struct ToolbarState {
    pub show_outline: bool,
}

/// The button for `action` is shown pressed: the current editing mode's
/// button, and the outline button while the outline is shown.
pub fn is_action_active(action: ToolbarAction, state: &ToolbarState, current_mode: EditMode) -> (r: bool)
    ensures
        r == (match action {
            ToolbarAction::ToggleMode(m) => m == current_mode,
            ToolbarAction::ToggleOutline => state.show_outline,
            _ => false,
        }),
{
    match action {
        ToolbarAction::ToggleMode(m) => m == current_mode,
        ToolbarAction::ToggleOutline => state.show_outline,
        _ => false,
    }
}

} // verus!
