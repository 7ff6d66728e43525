//! The editor's modes: colour theme, editing view, and the tab shown in
//! the left panel; and how the first two are named in the settings file.

use vstd::prelude::*;
use crate::text::{str_is, string_of};

verus! {

/// The colour theme: light, dark, or following the system.
#[derive(Clone, Copy, PartialEq, Eq, Structural)]
pub enum ThemeMode {
    Light,
    Dark,
    Auto,
}

/// Editing the raw Markdown text, or the rendered blocks.
#[derive(Clone, Copy, PartialEq, Eq, Structural)]
pub enum EditMode {
    Raw,
    Preview,
}

/// The tab shown in the left panel.
#[derive(Clone, Copy, PartialEq, Eq, Structural)]
pub enum LeftPanelTab {
    Tree,
    Outline,
    Search,
}

/// The settings name of a theme.
pub open spec fn theme_name(m: ThemeMode) -> Seq<char> {
    match m {
        ThemeMode::Light => seq!['l', 'i', 'g', 'h', 't'],
        ThemeMode::Dark => seq!['d', 'a', 'r', 'k'],
        ThemeMode::Auto => seq!['a', 'u', 't', 'o'],
    }
}

/// The theme a settings name stands for: `dark`, `auto`, and light for
/// anything else.
pub open spec fn theme_named(name: Seq<char>) -> ThemeMode {
    if name == theme_name(ThemeMode::Dark) {
        ThemeMode::Dark
    } else if name == theme_name(ThemeMode::Auto) {
        ThemeMode::Auto
    } else {
        ThemeMode::Light
    }
}

/// The settings name of an editing mode.
pub open spec fn edit_mode_name(m: EditMode) -> Seq<char> {
    match m {
        EditMode::Raw => seq!['r', 'a', 'w'],
        EditMode::Preview => seq!['p', 'r', 'e', 'v', 'i', 'e', 'w'],
    }
}

/// The editing mode a settings name stands for: `raw`, and the rendered
/// view for anything else.
pub open spec fn edit_mode_named(name: Seq<char>) -> EditMode {
    if name == edit_mode_name(EditMode::Raw) {
        EditMode::Raw
    } else {
        EditMode::Preview
    }
}

impl ThemeMode {
    /// Reads the theme from its settings name.
    pub fn from_name(name: &str) -> (r: ThemeMode)
        ensures
            r == theme_named(name@),
    {
        let dark = ['d', 'a', 'r', 'k'];
        let auto = ['a', 'u', 't', 'o'];
        assert(dark@ =~= theme_name(ThemeMode::Dark));
        assert(auto@ =~= theme_name(ThemeMode::Auto));
        if str_is(name, &dark) {
            ThemeMode::Dark
        } else if str_is(name, &auto) {
            ThemeMode::Auto
        } else {
            ThemeMode::Light
        }
    }

    /// The name the theme is saved under.
    pub fn name(self) -> (r: String)
        ensures
            r@ == theme_name(self),
    {
        match self {
            ThemeMode::Light => {
                let c = ['l', 'i', 'g', 'h', 't'];
                assert(c@ =~= theme_name(self));
                string_of(&c)
            },
            ThemeMode::Dark => {
                let c = ['d', 'a', 'r', 'k'];
                assert(c@ =~= theme_name(self));
                string_of(&c)
            },
            ThemeMode::Auto => {
                let c = ['a', 'u', 't', 'o'];
                assert(c@ =~= theme_name(self));
                string_of(&c)
            },
        }
    }

    /// The theme that applies: following the system gives dark when the
    /// system is dark and light otherwise.
    pub fn effective(self, system_dark: bool) -> (r: ThemeMode)
        ensures
            r == (match self {
                ThemeMode::Auto => if system_dark {
                    ThemeMode::Dark
                } else {
                    ThemeMode::Light
                },
                _ => self,
            }),
            r != ThemeMode::Auto,
    {
        match self {
            ThemeMode::Auto => if system_dark {
                ThemeMode::Dark
            } else {
                ThemeMode::Light
            },
            _ => self,
        }
    }
}

impl EditMode {
    /// Reads the editing mode from its settings name.
    pub fn from_name(name: &str) -> (r: EditMode)
        ensures
            r == edit_mode_named(name@),
    {
        let raw = ['r', 'a', 'w'];
        assert(raw@ =~= edit_mode_name(EditMode::Raw));
        if str_is(name, &raw) {
            EditMode::Raw
        } else {
            EditMode::Preview
        }
    }

    /// The name the editing mode is saved under.
    pub fn name(self) -> (r: String)
        ensures
            r@ == edit_mode_name(self),
    {
        match self {
            EditMode::Raw => {
                let c = ['r', 'a', 'w'];
                assert(c@ =~= edit_mode_name(self));
                string_of(&c)
            },
            EditMode::Preview => {
                let c = ['p', 'r', 'e', 'v', 'i', 'e', 'w'];
                assert(c@ =~= edit_mode_name(self));
                string_of(&c)
            },
        }
    }

    /// The other mode.
    pub fn toggled(self) -> (r: EditMode)
        ensures
            r != self,
    {
        match self {
            EditMode::Raw => EditMode::Preview,
            EditMode::Preview => EditMode::Raw,
        }
    }
}

/// A theme saved under its name reads back as the same theme.
pub proof fn lemma_theme_name_round_trip(m: ThemeMode)
    ensures
        theme_named(theme_name(m)) == m,
{
    assert(theme_name(ThemeMode::Light) != theme_name(ThemeMode::Dark));
    assert(theme_name(ThemeMode::Light) != theme_name(ThemeMode::Auto));
    assert(theme_name(ThemeMode::Auto) != theme_name(ThemeMode::Dark));
}

/// An editing mode saved under its name reads back as the same mode.
pub proof fn lemma_edit_mode_name_round_trip(m: EditMode)
    ensures
        edit_mode_named(edit_mode_name(m)) == m,
{
    assert(edit_mode_name(EditMode::Preview) != edit_mode_name(EditMode::Raw));
}

} // verus!
