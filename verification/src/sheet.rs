//! The colours a theme style sheet gives the editor: which rule and which
//! property fill each colour of the theme.

use vstd::prelude::*;
use crate::color::{color_of, first_color, hex_cuts_ok, parse_border_color, parse_color, words, ColorView, CssColor};
use crate::css::{find_rule, found_rule, lemma_found_rule_wf, rule_view, rules_wf, CssRule};
use crate::table::Table;

verus! {

/// The colours a sheet sets, each `None` when the sheet does not set it
/// (or sets it to something that is not a colour).
pub struct SheetColors {
    /// `color` of `.vditor-reset`: the text, heading and code-block text.
    pub text: Option<CssColor>,
    /// `background-color` of `.vditor-reset`.
    pub background: Option<CssColor>,
    /// The colour in `border-bottom` of `h1`.
    pub h1_border: Option<CssColor>,
    /// The colour in `border-bottom` of `h2`.
    pub h2_border: Option<CssColor>,
    /// `background-color` of `reset pre`.
    pub pre_background: Option<CssColor>,
    /// `color` of `reset pre`.
    pub pre_text: Option<CssColor>,
    /// The colour in `border-bottom` of `reset hr`.
    pub hr: Option<CssColor>,
    /// `color` of `reset a`.
    pub link: Option<CssColor>,
    /// `color` of `table th`.
    pub th_text: Option<CssColor>,
}

/// The colours of a sheet as values.
pub struct SheetColorsView {
    pub text: Option<ColorView>,
    pub background: Option<ColorView>,
    pub h1_border: Option<ColorView>,
    pub h2_border: Option<ColorView>,
    pub pre_background: Option<ColorView>,
    pub pre_text: Option<ColorView>,
    pub hr: Option<ColorView>,
    pub link: Option<ColorView>,
    pub th_text: Option<ColorView>,
}

/// A colour as a value.
pub open spec fn opt_color_view(c: Option<CssColor>) -> Option<ColorView> {
    match c {
        Some(x) => Some(x@),
        None => None,
    }
}

/// The colours held, as values.
pub open spec fn sheet_colors_view(s: SheetColors) -> SheetColorsView {
    SheetColorsView {
        text: opt_color_view(s.text),
        background: opt_color_view(s.background),
        h1_border: opt_color_view(s.h1_border),
        h2_border: opt_color_view(s.h2_border),
        pre_background: opt_color_view(s.pre_background),
        pre_text: opt_color_view(s.pre_text),
        hr: opt_color_view(s.hr),
        link: opt_color_view(s.link),
        th_text: opt_color_view(s.th_text),
    }
}

/// The value of property `prop` in a rule, if there is the rule and it has
/// the property.
pub open spec fn prop_of(rule: Option<CssRule>, prop: Seq<char>) -> Option<Seq<char>> {
    match rule {
        Some(r) => if rule_view(r).dom().contains(prop) {
            Some(rule_view(r)[prop])
        } else {
            None
        },
        None => None,
    }
}

/// The colour that property `prop` of the rule found for `sel` reads as.
pub open spec fn color_slot(rules: Table<CssRule>, sel: Seq<char>, prop: Seq<char>) -> Option<ColorView> {
    match prop_of(found_rule(rules, sel), prop) {
        Some(v) => color_of(v),
        None => None,
    }
}

/// The first colour among the words of property `prop` of the rule found
/// for `sel`.
pub open spec fn border_slot(rules: Table<CssRule>, sel: Seq<char>, prop: Seq<char>) -> Option<ColorView> {
    match prop_of(found_rule(rules, sel), prop) {
        Some(v) => first_color(words(v)),
        None => None,
    }
}

/// Reading the colour value of `prop` in the rule for `sel` cuts no
/// character.
pub open spec fn color_cut_ok(rules: Table<CssRule>, sel: Seq<char>, prop: Seq<char>) -> bool {
    prop_of(found_rule(rules, sel), prop) matches Some(v) ==> hex_cuts_ok(v)
}

/// Reading the words of `prop` in the rule for `sel` as colours cuts no
/// character.
pub open spec fn border_cut_ok(rules: Table<CssRule>, sel: Seq<char>, prop: Seq<char>) -> bool {
    prop_of(found_rule(rules, sel), prop) matches Some(v) ==> forall|i: int|
        0 <= i < words(v).len() ==> hex_cuts_ok(#[trigger] words(v)[i])
}

/// Every colour value that `sheet_colors` reads can be read without
/// cutting a character.
pub open spec fn sheet_cuts_ok(rules: Table<CssRule>) -> bool {
    &&& color_cut_ok(rules, ".vditor-reset"@, "color"@)
    &&& color_cut_ok(rules, ".vditor-reset"@, "background-color"@)
    &&& border_cut_ok(rules, "h1"@, "border-bottom"@)
    &&& border_cut_ok(rules, "h2"@, "border-bottom"@)
    &&& color_cut_ok(rules, "reset pre"@, "background-color"@)
    &&& color_cut_ok(rules, "reset pre"@, "color"@)
    &&& border_cut_ok(rules, "reset hr"@, "border-bottom"@)
    &&& color_cut_ok(rules, "reset a"@, "color"@)
    &&& color_cut_ok(rules, "table th"@, "color"@)
}

/// The colours a sheet sets, each read from the rule that `find_rule`
/// gives for its selector.
pub open spec fn sheet_colors_of(rules: Table<CssRule>) -> SheetColorsView {
    SheetColorsView {
        text: color_slot(rules, ".vditor-reset"@, "color"@),
        background: color_slot(rules, ".vditor-reset"@, "background-color"@),
        h1_border: border_slot(rules, "h1"@, "border-bottom"@),
        h2_border: border_slot(rules, "h2"@, "border-bottom"@),
        pre_background: color_slot(rules, "reset pre"@, "background-color"@),
        pre_text: color_slot(rules, "reset pre"@, "color"@),
        hr: border_slot(rules, "reset hr"@, "border-bottom"@),
        link: color_slot(rules, "reset a"@, "color"@),
        th_text: color_slot(rules, "table th"@, "color"@),
    }
}

/// The colour of property `prop` of the rule for `sel`.
fn color_at(rules: &Table<CssRule>, sel: &str, prop: &str) -> (r: Option<CssColor>)
    requires
        rules_wf(*rules),
        color_cut_ok(*rules, sel@, prop@),
    ensures
        opt_color_view(r) == color_slot(*rules, sel@, prop@),
{
    proof {
        lemma_found_rule_wf(*rules, sel@);
    }
    match find_rule(rules, sel) {
        Some(rule) => match rule.properties.get(prop) {
            Some(v) => parse_color(v.as_str()),
            None => None,
        },
        None => None,
    }
}

/// The colour among the words of property `prop` of the rule for `sel`.
fn border_at(rules: &Table<CssRule>, sel: &str, prop: &str) -> (r: Option<CssColor>)
    requires
        rules_wf(*rules),
        border_cut_ok(*rules, sel@, prop@),
    ensures
        opt_color_view(r) == border_slot(*rules, sel@, prop@),
{
    proof {
        lemma_found_rule_wf(*rules, sel@);
    }
    match find_rule(rules, sel) {
        Some(rule) => match rule.properties.get(prop) {
            Some(v) => parse_border_color(v.as_str()),
            None => None,
        },
        None => None,
    }
}

/// The colours a theme sheet sets: `color` and `background-color` of
/// `.vditor-reset`, the colours in `border-bottom` of `h1`, `h2` and
/// `reset hr`, `background-color` and `color` of `reset pre`, and `color`
/// of `reset a` and `table th`, each from the rule `find_rule` gives.
pub fn sheet_colors(rules: &Table<CssRule>) -> (r: SheetColors)
    requires
        rules_wf(*rules),
        sheet_cuts_ok(*rules),
    ensures
        sheet_colors_view(r) == sheet_colors_of(*rules),
{
    SheetColors {
        text: color_at(rules, ".vditor-reset", "color"),
        background: color_at(rules, ".vditor-reset", "background-color"),
        h1_border: border_at(rules, "h1", "border-bottom"),
        h2_border: border_at(rules, "h2", "border-bottom"),
        pre_background: color_at(rules, "reset pre", "background-color"),
        pre_text: color_at(rules, "reset pre", "color"),
        hr: border_at(rules, "reset hr", "border-bottom"),
        link: color_at(rules, "reset a", "color"),
        th_text: color_at(rules, "table th", "color"),
    }
}

} // verus!
