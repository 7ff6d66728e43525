//! The application's preferences file (JSON): for each theme mode, the
//! colours of the note theme and of the interface, and the fonts it names.
//! The text is read by `serde_json`; which object and which field give
//! which colour, the grey fallback and the defaults are decided here.

use vstd::prelude::*;
use crate::color::{colour_cuts_ok, hex_rgba_cuts_ok, hex_rgba_of, parse_hex_color};
use crate::modes::ThemeMode;
use crate::palette::{ui_palette, ui_palette_of, UiPalette};
use crate::text::str_is;

verus! {

/// What `serde_json` reads for `field` of the object under key `object`
/// of the JSON text, when both are there and the field is a string.
pub uninterp spec fn json_string_field(text: Seq<char>, object: Seq<char>, field: Seq<char>) -> Option<Seq<char>>;

/// The JSON text parses and its top level has the key `object`.
pub uninterp spec fn json_has_object(text: Seq<char>, object: Seq<char>) -> bool;

/// The length of the array at `field` of the object under `object`, when
/// it is an array.
pub uninterp spec fn json_array_len(text: Seq<char>, object: Seq<char>, field: Seq<char>) -> Option<usize>;

/// Item `i` of the array at `field` of the object under `object`, when it
/// is a string.
pub uninterp spec fn json_array_string(text: Seq<char>, object: Seq<char>, field: Seq<char>, i: usize) -> Option<Seq<char>>;

/// `serde_json::from_str` into a `Value`, then `get(object)`, `get(field)`
/// and `as_str`. What is claimed: the result is a function of the three
/// texts, named `json_string_field`; how `serde_json` parses is not stated.
#[verifier::external_body]
fn json_field(text: &str, object: &str, field: &str) -> (r: Option<String>)
    ensures
        match r {
            Some(s) => json_string_field(text@, object@, field@) == Some(s@),
            None => json_string_field(text@, object@, field@) is None,
        },
{
    let root: serde_json::Value = serde_json::from_str(text).ok()?;
    root.get(object)?.get(field)?.as_str().map(|s| s.to_string())
}

/// `serde_json::from_str` into a `Value`, then whether `get(object)` finds
/// something. The result is named `json_has_object`.
#[verifier::external_body]
fn json_object_present(text: &str, object: &str) -> (r: bool)
    ensures
        r == json_has_object(text@, object@),
{
    match serde_json::from_str::<serde_json::Value>(text) {
        Ok(root) => root.get(object).is_some(),
        Err(_) => false,
    }
}

/// `serde_json::from_str`, `get(object)`, `get(field)`, `as_array`, and
/// the array's length. The result is named `json_array_len`.
#[verifier::external_body]
fn json_array_length(text: &str, object: &str, field: &str) -> (r: Option<usize>)
    ensures
        r == json_array_len(text@, object@, field@),
{
    let root: serde_json::Value = serde_json::from_str(text).ok()?;
    Some(root.get(object)?.get(field)?.as_array()?.len())
}

/// `serde_json::from_str`, `get(object)`, `get(field)`, `as_array`, item
/// `i` and `as_str`. The result is named `json_array_string`.
#[verifier::external_body]
fn json_array_item(text: &str, object: &str, field: &str, i: usize) -> (r: Option<String>)
    ensures
        match r {
            Some(s) => json_array_string(text@, object@, field@, i) == Some(s@),
            None => json_array_string(text@, object@, field@, i) is None,
        },
{
    let root: serde_json::Value = serde_json::from_str(text).ok()?;
    root.get(object)?.get(field)?.as_array()?.get(i)?.as_str().map(|s| s.to_string())
}

/// The colour used where a preference colour is missing or unreadable
/// (egui's grey).
pub open spec fn grey() -> (u8, u8, u8, Option<u8>) {
    (160, 160, 160, None)
}

/// The colour a preference field gives: its `#rgb`, `#rrggbb` or
/// `#rrggbbaa` value, else grey.
pub open spec fn pref_color(text: Seq<char>, object: Seq<char>, field: Seq<char>) -> (u8, u8, u8, Option<u8>) {
    match json_string_field(text, object, field) {
        Some(s) => match hex_rgba_of(s) {
            Some(c) => c,
            None => grey(),
        },
        None => grey(),
    }
}

/// Reading a preference field's colour cuts no character.
pub open spec fn pref_cut_ok(text: Seq<char>, object: Seq<char>, field: Seq<char>) -> bool {
    match json_string_field(text, object, field) {
        Some(s) => hex_rgba_cuts_ok(s),
        None => true,
    }
}

/// The colour of a preference field, or the field's value when reading it
/// would cut a character.
fn color_field(text: &str, object: &str, field: &str) -> (r: Result<(u8, u8, u8, Option<u8>), String>)
    ensures
        r matches Ok(c) ==> pref_cut_ok(text@, object@, field@) && c == pref_color(text@, object@, field@),
        r matches Err(v) ==> !pref_cut_ok(text@, object@, field@) && json_string_field(text@, object@, field@) == Some(v@),
{
    match json_field(text, object, field) {
        Some(v) => {
            if !colour_cuts_ok(v.as_str()) {
                return Err(v);
            }
            match parse_hex_color(v.as_str()) {
                Some(c) => Ok(c),
                None => Ok((160, 160, 160, None)),
            }
        },
        None => Ok((160, 160, 160, None)),
    }
}

/// Reads the colours of the named fields in order; the first field whose
/// value would be cut inside a character stops it.
fn color_fields(text: &str, object: &str, names: &[&str]) -> (r: Result<Vec<(u8, u8, u8, Option<u8>)>, String>)
    ensures
        r matches Ok(v) ==> v@.len() == names@.len() && forall|j: int|
            0 <= j < names@.len() ==> #[trigger] v@[j] == pref_color(text@, object@, names@[j]@)
                && pref_cut_ok(text@, object@, names@[j]@),
        r matches Err(e) ==> exists|j: int|
            0 <= j < names@.len() && !pref_cut_ok(text@, object@, #[trigger] names@[j]@)
                && json_string_field(text@, object@, names@[j]@) == Some(e@),
{
    let mut v: Vec<(u8, u8, u8, Option<u8>)> = Vec::new();
    let mut k: usize = 0;
    while k < names.len()
        invariant
            k <= names@.len(),
            v@.len() == k,
            forall|j: int|
                0 <= j < k ==> #[trigger] v@[j] == pref_color(text@, object@, names@[j]@)
                    && pref_cut_ok(text@, object@, names@[j]@),
        decreases names@.len() - k,
    {
        match color_field(text, object, names[k]) {
            Ok(c) => v.push(c),
            Err(e) => {
                assert(!pref_cut_ok(text@, object@, names@[k as int]@));
                return Err(e);
            },
        }
        k += 1;
    }
    Ok(v)
}

/// The colours of the note theme read from the preferences: the heading
/// colours (the fourth also for the fifth and sixth level), inline code,
/// code blocks, quotes, tables and links; whether links are underlined;
/// and the code-block style name.
pub struct NoteColors {
    pub headings: [(u8, u8, u8, Option<u8>); 6],
    pub inline_bg: (u8, u8, u8, Option<u8>),
    pub inline_text: (u8, u8, u8, Option<u8>),
    pub code_block_bg: (u8, u8, u8, Option<u8>),
    pub code_border: (u8, u8, u8, Option<u8>),
    pub quote_bar: (u8, u8, u8, Option<u8>),
    pub quote_bg: (u8, u8, u8, Option<u8>),
    pub quote_text: (u8, u8, u8, Option<u8>),
    pub table_header_bg: (u8, u8, u8, Option<u8>),
    pub table_row_bg: (u8, u8, u8, Option<u8>),
    pub table_alt_row_bg: (u8, u8, u8, Option<u8>),
    pub table_border: (u8, u8, u8, Option<u8>),
    pub link: (u8, u8, u8, Option<u8>),
    pub link_underline: bool,
    pub code_style: String,
}

/// The note colours as values.
pub struct NoteColorsView {
    pub headings: Seq<(u8, u8, u8, Option<u8>)>,
    pub inline_bg: (u8, u8, u8, Option<u8>),
    pub inline_text: (u8, u8, u8, Option<u8>),
    pub code_block_bg: (u8, u8, u8, Option<u8>),
    pub code_border: (u8, u8, u8, Option<u8>),
    pub quote_bar: (u8, u8, u8, Option<u8>),
    pub quote_bg: (u8, u8, u8, Option<u8>),
    pub quote_text: (u8, u8, u8, Option<u8>),
    pub table_header_bg: (u8, u8, u8, Option<u8>),
    pub table_row_bg: (u8, u8, u8, Option<u8>),
    pub table_alt_row_bg: (u8, u8, u8, Option<u8>),
    pub table_border: (u8, u8, u8, Option<u8>),
    pub link: (u8, u8, u8, Option<u8>),
    pub link_underline: bool,
    pub code_style: Seq<char>,
}

/// The note colours held, as values.
pub open spec fn note_colors_view(c: NoteColors) -> NoteColorsView {
    NoteColorsView {
        headings: c.headings@,
        inline_bg: c.inline_bg,
        inline_text: c.inline_text,
        code_block_bg: c.code_block_bg,
        code_border: c.code_border,
        quote_bar: c.quote_bar,
        quote_bg: c.quote_bg,
        quote_text: c.quote_text,
        table_header_bg: c.table_header_bg,
        table_row_bg: c.table_row_bg,
        table_alt_row_bg: c.table_alt_row_bg,
        table_border: c.table_border,
        link: c.link,
        link_underline: c.link_underline,
        code_style: c.code_style@,
    }
}

/// The object of the note theme for a mode: `noteThemeDark` for the dark
/// mode, `noteThemeLight` for the light and the automatic mode.
pub open spec fn note_object(mode: ThemeMode) -> Seq<char> {
    match mode {
        ThemeMode::Dark => "noteThemeDark"@,
        _ => "noteThemeLight"@,
    }
}

/// The colour fields of the note theme, in the order they are read.
pub open spec fn note_fields() -> Seq<Seq<char>> {
    seq![
        "noteH1Color"@,
        "noteH2Color"@,
        "noteH3Color"@,
        "noteH4Color"@,
        "noteMarkerBackgroundColor"@,
        "noteMarkerTextColor"@,
        "noteCodeBackgroundColor"@,
        "noteCodeBorderColor"@,
        "noteQuoteBorderColor"@,
        "noteQuoteBackgroundColor"@,
        "noteQuoteTextColor"@,
        "noteTableHeaderBgColor"@,
        "noteTableBgColor"@,
        "noteTableEvenRowBgColor"@,
        "noteTableBorderColor"@,
        "noteLinkColor"@,
    ]
}

/// The note colours that the preferences text gives for a mode (its
/// object being there).
pub open spec fn note_colors_of(text: Seq<char>, mode: ThemeMode) -> NoteColorsView {
    let o = note_object(mode);
    NoteColorsView {
        headings: seq![
            pref_color(text, o, "noteH1Color"@),
            pref_color(text, o, "noteH2Color"@),
            pref_color(text, o, "noteH3Color"@),
            pref_color(text, o, "noteH4Color"@),
            pref_color(text, o, "noteH4Color"@),
            pref_color(text, o, "noteH4Color"@),
        ],
        inline_bg: pref_color(text, o, "noteMarkerBackgroundColor"@),
        inline_text: pref_color(text, o, "noteMarkerTextColor"@),
        code_block_bg: pref_color(text, o, "noteCodeBackgroundColor"@),
        code_border: pref_color(text, o, "noteCodeBorderColor"@),
        quote_bar: pref_color(text, o, "noteQuoteBorderColor"@),
        quote_bg: pref_color(text, o, "noteQuoteBackgroundColor"@),
        quote_text: pref_color(text, o, "noteQuoteTextColor"@),
        table_header_bg: pref_color(text, o, "noteTableHeaderBgColor"@),
        table_row_bg: pref_color(text, o, "noteTableBgColor"@),
        table_alt_row_bg: pref_color(text, o, "noteTableEvenRowBgColor"@),
        table_border: pref_color(text, o, "noteTableBorderColor"@),
        link: pref_color(text, o, "noteLinkColor"@),
        link_underline: match json_string_field(text, o, "noteLinkUnderline"@) {
            Some(s) => s == "underline"@,
            None => true,
        },
        code_style: match json_string_field(text, o, "noteCodeStyle"@) {
            Some(s) => s,
            None => seq![],
        },
    }
}

/// Every colour field of the note theme can be read without cutting a
/// character.
pub open spec fn note_cuts_ok(text: Seq<char>, mode: ThemeMode) -> bool {
    forall|j: int| 0 <= j < note_fields().len() ==> pref_cut_ok(text, note_object(mode), #[trigger] note_fields()[j])
}

/// The note theme of the preferences text for a mode: `None` when the
/// text has no object for the mode; an error (the value) when a colour
/// value would be cut inside a character.
pub fn note_theme_colors(prefs: &str, mode: ThemeMode) -> (r: Result<Option<NoteColors>, String>)
    ensures
        r is Err <==> json_has_object(prefs@, note_object(mode)) && !note_cuts_ok(prefs@, mode),
        r matches Ok(o) ==> (o is Some <==> json_has_object(prefs@, note_object(mode))),
        r matches Ok(Some(c)) ==> note_colors_view(c) == note_colors_of(prefs@, mode),
        r matches Err(v) ==> exists|j: int|
            0 <= j < note_fields().len() && !pref_cut_ok(prefs@, note_object(mode), #[trigger] note_fields()[j])
                && json_string_field(prefs@, note_object(mode), note_fields()[j]) == Some(v@),
{
    let key = match mode {
        ThemeMode::Dark => "noteThemeDark",
        _ => "noteThemeLight",
    };
    assert(key@ == note_object(mode));
    if !json_object_present(prefs, key) {
        return Ok(None);
    }
    let names: [&str; 16] = [
        "noteH1Color",
        "noteH2Color",
        "noteH3Color",
        "noteH4Color",
        "noteMarkerBackgroundColor",
        "noteMarkerTextColor",
        "noteCodeBackgroundColor",
        "noteCodeBorderColor",
        "noteQuoteBorderColor",
        "noteQuoteBackgroundColor",
        "noteQuoteTextColor",
        "noteTableHeaderBgColor",
        "noteTableBgColor",
        "noteTableEvenRowBgColor",
        "noteTableBorderColor",
        "noteLinkColor",
    ];
    assert(forall|j: int| 0 <= j < 16 ==> #[trigger] names@[j]@ == note_fields()[j]);
    let cols = match color_fields(prefs, key, &names) {
        Ok(v) => v,
        Err(e) => {
            return Err(e);
        },
    };
    let underline = match json_field(prefs, key, "noteLinkUnderline") {
        Some(s) => str_is(s.as_str(), &['u', 'n', 'd', 'e', 'r', 'l', 'i', 'n', 'e']),
        None => true,
    };
    proof {
        reveal_strlit("underline");
        assert(['u', 'n', 'd', 'e', 'r', 'l', 'i', 'n', 'e']@ =~= "underline"@);
    }
    let style = match json_field(prefs, key, "noteCodeStyle") {
        Some(s) => s,
        None => String::new(),
    };
    let c = NoteColors {
        headings: [cols[0], cols[1], cols[2], cols[3], cols[3], cols[3]],
        inline_bg: cols[4],
        inline_text: cols[5],
        code_block_bg: cols[6],
        code_border: cols[7],
        quote_bar: cols[8],
        quote_bg: cols[9],
        quote_text: cols[10],
        table_header_bg: cols[11],
        table_row_bg: cols[12],
        table_alt_row_bg: cols[13],
        table_border: cols[14],
        link: cols[15],
        link_underline: underline,
        code_style: style,
    };
    assert(note_colors_view(c).headings =~= note_colors_of(prefs@, mode).headings);
    assert(note_colors_view(c) == note_colors_of(prefs@, mode));
    Ok(Some(c))
}

/// The interface colours read from the preferences, one per part of the
/// interface (as in `UiPalette`), each with its alpha when one is given.
pub struct UiColors {
    pub menu_bg: (u8, u8, u8, Option<u8>),
    pub menu_text: (u8, u8, u8, Option<u8>),
    pub text_color: (u8, u8, u8, Option<u8>),
    pub text_active_color: (u8, u8, u8, Option<u8>),
    pub border: (u8, u8, u8, Option<u8>),
    pub divider: (u8, u8, u8, Option<u8>),
    pub split_color: (u8, u8, u8, Option<u8>),
    pub sidebar_bg: (u8, u8, u8, Option<u8>),
    pub sidebar_hover_bg: (u8, u8, u8, Option<u8>),
    pub sidebar_active_text_color: (u8, u8, u8, Option<u8>),
    pub sidebar_text: (u8, u8, u8, Option<u8>),
    pub status_bar_bg: (u8, u8, u8, Option<u8>),
    pub status_bar_text: (u8, u8, u8, Option<u8>),
    pub status_bar_text_hover: (u8, u8, u8, Option<u8>),
    pub left_list_bg: (u8, u8, u8, Option<u8>),
    pub left_list_bg_hover: (u8, u8, u8, Option<u8>),
    pub sidebar_active_bg: (u8, u8, u8, Option<u8>),
    pub sidebar_active_text: (u8, u8, u8, Option<u8>),
    pub search_title_bg: (u8, u8, u8, Option<u8>),
    pub content_bg: (u8, u8, u8, Option<u8>),
    pub content_term_bg: (u8, u8, u8, Option<u8>),
    pub content_chat_bg: (u8, u8, u8, Option<u8>),
    pub content_chat_divider: (u8, u8, u8, Option<u8>),
    pub content_tran_bg: (u8, u8, u8, Option<u8>),
    pub dialog_bg: (u8, u8, u8, Option<u8>),
    pub dialog_border: (u8, u8, u8, Option<u8>),
    pub dialog_divider: (u8, u8, u8, Option<u8>),
    pub dialog_text: (u8, u8, u8, Option<u8>),
    pub dialog_text_active: (u8, u8, u8, Option<u8>),
    pub drop_down_text: (u8, u8, u8, Option<u8>),
    pub drop_down_bg: (u8, u8, u8, Option<u8>),
    pub drop_down_active_text: (u8, u8, u8, Option<u8>),
    pub drop_down_active_bg: (u8, u8, u8, Option<u8>),
    pub chat_send_bg: (u8, u8, u8, Option<u8>),
    pub chat_send_border: (u8, u8, u8, Option<u8>),
    pub chat_reply_bg: (u8, u8, u8, Option<u8>),
    pub chat_reply_border: (u8, u8, u8, Option<u8>),
    pub input_bg: (u8, u8, u8, Option<u8>),
    pub input_border: (u8, u8, u8, Option<u8>),
    pub table_bg: (u8, u8, u8, Option<u8>),
    pub table_border: (u8, u8, u8, Option<u8>),
    pub table_header_bg: (u8, u8, u8, Option<u8>),
    pub table_even_row_bg: (u8, u8, u8, Option<u8>),
}

/// The object of the interface theme for a mode: `themeDark` for the dark
/// mode, `themeLight` for the light and the automatic mode.
pub open spec fn ui_object(mode: ThemeMode) -> Seq<char> {
    match mode {
        ThemeMode::Dark => "themeDark"@,
        _ => "themeLight"@,
    }
}

/// The colour fields of the interface theme, in the order they are read.
pub open spec fn ui_fields() -> Seq<Seq<char>> {
    seq![
        "appBgColor"@,
        "appHeaderTextColor"@,
        "textColor"@,
        "textActiveColor"@,
        "borderColor"@,
        "appDividerColor"@,
        "appSplitColor"@,
        "appSiderBarBgColor"@,
        "appSideHoverBgColor"@,
        "appSideTextActiveColor"@,
        "appSideTextColor"@,
        "appStatusBarBgColor"@,
        "appStatusBarTextColor"@,
        "appStatusBarTextHoverColor"@,
        "appLeftListBgColor"@,
        "appLeftListBgColorHover"@,
        "appLeftListBgColorActive"@,
        "appLeftListTextColorActive"@,
        "appSearchTitleBgColor"@,
        "appContentNoteBgColor"@,
        "appContentTermBgColor"@,
        "appContentChatBgColor"@,
        "appContentChatDividerColor"@,
        "appContentTranBgColor"@,
        "dialogBgColor"@,
        "dialogBorderColor"@,
        "dialogDividerColor"@,
        "dialogTextColor"@,
        "dialogTextActiveColor"@,
        "dropDownColor"@,
        "dropDownBgColor"@,
        "dropDownActiveColor"@,
        "dropDownActiveBgColor"@,
        "appContentChatSendBgColor"@,
        "appContentChatSendBorderColor"@,
        "appContentChatReplyBgColor"@,
        "appContentChatReplyBorderColor"@,
        "inputContentBgColor"@,
        "inputContentBorderColor"@,
        "tableBgColor"@,
        "tableBorderColor"@,
        "tableHeaderBgColor"@,
        "tableEvenRowBgColor"@,
    ]
}

/// The interface colours of a palette, opaque.
pub open spec fn palette_colors(p: UiPalette) -> UiColors {
    UiColors {
        menu_bg: (p.menu_bg.0, p.menu_bg.1, p.menu_bg.2, None),
        menu_text: (p.menu_text.0, p.menu_text.1, p.menu_text.2, None),
        text_color: (p.text_color.0, p.text_color.1, p.text_color.2, None),
        text_active_color: (p.text_active_color.0, p.text_active_color.1, p.text_active_color.2, None),
        border: (p.border.0, p.border.1, p.border.2, None),
        divider: (p.divider.0, p.divider.1, p.divider.2, None),
        split_color: (p.split_color.0, p.split_color.1, p.split_color.2, None),
        sidebar_bg: (p.sidebar_bg.0, p.sidebar_bg.1, p.sidebar_bg.2, None),
        sidebar_hover_bg: (p.sidebar_hover_bg.0, p.sidebar_hover_bg.1, p.sidebar_hover_bg.2, None),
        sidebar_active_text_color: (p.sidebar_active_text_color.0, p.sidebar_active_text_color.1, p.sidebar_active_text_color.2, None),
        sidebar_text: (p.sidebar_text.0, p.sidebar_text.1, p.sidebar_text.2, None),
        status_bar_bg: (p.status_bar_bg.0, p.status_bar_bg.1, p.status_bar_bg.2, None),
        status_bar_text: (p.status_bar_text.0, p.status_bar_text.1, p.status_bar_text.2, None),
        status_bar_text_hover: (p.status_bar_text_hover.0, p.status_bar_text_hover.1, p.status_bar_text_hover.2, None),
        left_list_bg: (p.left_list_bg.0, p.left_list_bg.1, p.left_list_bg.2, None),
        left_list_bg_hover: (p.left_list_bg_hover.0, p.left_list_bg_hover.1, p.left_list_bg_hover.2, None),
        sidebar_active_bg: (p.sidebar_active_bg.0, p.sidebar_active_bg.1, p.sidebar_active_bg.2, None),
        sidebar_active_text: (p.sidebar_active_text.0, p.sidebar_active_text.1, p.sidebar_active_text.2, None),
        search_title_bg: (p.search_title_bg.0, p.search_title_bg.1, p.search_title_bg.2, None),
        content_bg: (p.content_bg.0, p.content_bg.1, p.content_bg.2, None),
        content_term_bg: (p.content_term_bg.0, p.content_term_bg.1, p.content_term_bg.2, None),
        content_chat_bg: (p.content_chat_bg.0, p.content_chat_bg.1, p.content_chat_bg.2, None),
        content_chat_divider: (p.content_chat_divider.0, p.content_chat_divider.1, p.content_chat_divider.2, None),
        content_tran_bg: (p.content_tran_bg.0, p.content_tran_bg.1, p.content_tran_bg.2, None),
        dialog_bg: (p.dialog_bg.0, p.dialog_bg.1, p.dialog_bg.2, None),
        dialog_border: (p.dialog_border.0, p.dialog_border.1, p.dialog_border.2, None),
        dialog_divider: (p.dialog_divider.0, p.dialog_divider.1, p.dialog_divider.2, None),
        dialog_text: (p.dialog_text.0, p.dialog_text.1, p.dialog_text.2, None),
        dialog_text_active: (p.dialog_text_active.0, p.dialog_text_active.1, p.dialog_text_active.2, None),
        drop_down_text: (p.drop_down_text.0, p.drop_down_text.1, p.drop_down_text.2, None),
        drop_down_bg: (p.drop_down_bg.0, p.drop_down_bg.1, p.drop_down_bg.2, None),
        drop_down_active_text: (p.drop_down_active_text.0, p.drop_down_active_text.1, p.drop_down_active_text.2, None),
        drop_down_active_bg: (p.drop_down_active_bg.0, p.drop_down_active_bg.1, p.drop_down_active_bg.2, None),
        chat_send_bg: (p.chat_send_bg.0, p.chat_send_bg.1, p.chat_send_bg.2, None),
        chat_send_border: (p.chat_send_border.0, p.chat_send_border.1, p.chat_send_border.2, None),
        chat_reply_bg: (p.chat_reply_bg.0, p.chat_reply_bg.1, p.chat_reply_bg.2, None),
        chat_reply_border: (p.chat_reply_border.0, p.chat_reply_border.1, p.chat_reply_border.2, None),
        input_bg: (p.input_bg.0, p.input_bg.1, p.input_bg.2, None),
        input_border: (p.input_border.0, p.input_border.1, p.input_border.2, None),
        table_bg: (p.table_bg.0, p.table_bg.1, p.table_bg.2, None),
        table_border: (p.table_border.0, p.table_border.1, p.table_border.2, None),
        table_header_bg: (p.table_header_bg.0, p.table_header_bg.1, p.table_header_bg.2, None),
        table_even_row_bg: (p.table_even_row_bg.0, p.table_even_row_bg.1, p.table_even_row_bg.2, None),
    }
}

/// The interface colours that the preferences text gives under `object`.
pub open spec fn ui_colors_from(text: Seq<char>, object: Seq<char>) -> UiColors {
    UiColors {
        menu_bg: pref_color(text, object, "appBgColor"@),
        menu_text: pref_color(text, object, "appHeaderTextColor"@),
        text_color: pref_color(text, object, "textColor"@),
        text_active_color: pref_color(text, object, "textActiveColor"@),
        border: pref_color(text, object, "borderColor"@),
        divider: pref_color(text, object, "appDividerColor"@),
        split_color: pref_color(text, object, "appSplitColor"@),
        sidebar_bg: pref_color(text, object, "appSiderBarBgColor"@),
        sidebar_hover_bg: pref_color(text, object, "appSideHoverBgColor"@),
        sidebar_active_text_color: pref_color(text, object, "appSideTextActiveColor"@),
        sidebar_text: pref_color(text, object, "appSideTextColor"@),
        status_bar_bg: pref_color(text, object, "appStatusBarBgColor"@),
        status_bar_text: pref_color(text, object, "appStatusBarTextColor"@),
        status_bar_text_hover: pref_color(text, object, "appStatusBarTextHoverColor"@),
        left_list_bg: pref_color(text, object, "appLeftListBgColor"@),
        left_list_bg_hover: pref_color(text, object, "appLeftListBgColorHover"@),
        sidebar_active_bg: pref_color(text, object, "appLeftListBgColorActive"@),
        sidebar_active_text: pref_color(text, object, "appLeftListTextColorActive"@),
        search_title_bg: pref_color(text, object, "appSearchTitleBgColor"@),
        content_bg: pref_color(text, object, "appContentNoteBgColor"@),
        content_term_bg: pref_color(text, object, "appContentTermBgColor"@),
        content_chat_bg: pref_color(text, object, "appContentChatBgColor"@),
        content_chat_divider: pref_color(text, object, "appContentChatDividerColor"@),
        content_tran_bg: pref_color(text, object, "appContentTranBgColor"@),
        dialog_bg: pref_color(text, object, "dialogBgColor"@),
        dialog_border: pref_color(text, object, "dialogBorderColor"@),
        dialog_divider: pref_color(text, object, "dialogDividerColor"@),
        dialog_text: pref_color(text, object, "dialogTextColor"@),
        dialog_text_active: pref_color(text, object, "dialogTextActiveColor"@),
        drop_down_text: pref_color(text, object, "dropDownColor"@),
        drop_down_bg: pref_color(text, object, "dropDownBgColor"@),
        drop_down_active_text: pref_color(text, object, "dropDownActiveColor"@),
        drop_down_active_bg: pref_color(text, object, "dropDownActiveBgColor"@),
        chat_send_bg: pref_color(text, object, "appContentChatSendBgColor"@),
        chat_send_border: pref_color(text, object, "appContentChatSendBorderColor"@),
        chat_reply_bg: pref_color(text, object, "appContentChatReplyBgColor"@),
        chat_reply_border: pref_color(text, object, "appContentChatReplyBorderColor"@),
        input_bg: pref_color(text, object, "inputContentBgColor"@),
        input_border: pref_color(text, object, "inputContentBorderColor"@),
        table_bg: pref_color(text, object, "tableBgColor"@),
        table_border: pref_color(text, object, "tableBorderColor"@),
        table_header_bg: pref_color(text, object, "tableHeaderBgColor"@),
        table_even_row_bg: pref_color(text, object, "tableEvenRowBgColor"@),
    }
}

/// The interface colours for a mode: those of the preferences text when
/// it has the mode's object, else the built-in palette of the mode.
pub open spec fn ui_colors_of(prefs: Option<Seq<char>>, mode: ThemeMode) -> UiColors {
    match prefs {
        Some(t) => if json_has_object(t, ui_object(mode)) {
            ui_colors_from(t, ui_object(mode))
        } else {
            palette_colors(ui_palette_of(mode))
        },
        None => palette_colors(ui_palette_of(mode)),
    }
}

/// Every colour field of the interface theme can be read without cutting
/// a character.
pub open spec fn ui_cuts_ok(text: Seq<char>, mode: ThemeMode) -> bool {
    forall|j: int| 0 <= j < ui_fields().len() ==> pref_cut_ok(text, ui_object(mode), #[trigger] ui_fields()[j])
}

/// The interface colours for a mode from the preferences text (`None`
/// when the file could not be read): the built-in palette when there is
/// no text or no object for the mode; an error (the value) when a colour
/// value would be cut inside a character.
pub fn ui_theme_colors(prefs: Option<&str>, mode: ThemeMode) -> (r: Result<UiColors, String>)
    ensures
        r is Err <==> (prefs matches Some(t) && json_has_object(t@, ui_object(mode)) && !ui_cuts_ok(t@, mode)),
        r matches Ok(c) ==> c == ui_colors_of(
            match prefs {
                Some(t) => Some(t@),
                None => None,
            },
            mode,
        ),
        r matches Err(v) ==> (prefs matches Some(t) && exists|j: int|
            0 <= j < ui_fields().len() && !pref_cut_ok(t@, ui_object(mode), #[trigger] ui_fields()[j])
                && json_string_field(t@, ui_object(mode), ui_fields()[j]) == Some(v@)),
{
    let key = match mode {
        ThemeMode::Dark => "themeDark",
        _ => "themeLight",
    };
    assert(key@ == ui_object(mode));
    let text = match prefs {
        Some(t) => t,
        None => {
            let p = ui_palette(mode);
            return Ok(UiColors {
                menu_bg: (p.menu_bg.0, p.menu_bg.1, p.menu_bg.2, None),
                menu_text: (p.menu_text.0, p.menu_text.1, p.menu_text.2, None),
                text_color: (p.text_color.0, p.text_color.1, p.text_color.2, None),
                text_active_color: (p.text_active_color.0, p.text_active_color.1, p.text_active_color.2, None),
                border: (p.border.0, p.border.1, p.border.2, None),
                divider: (p.divider.0, p.divider.1, p.divider.2, None),
                split_color: (p.split_color.0, p.split_color.1, p.split_color.2, None),
                sidebar_bg: (p.sidebar_bg.0, p.sidebar_bg.1, p.sidebar_bg.2, None),
                sidebar_hover_bg: (p.sidebar_hover_bg.0, p.sidebar_hover_bg.1, p.sidebar_hover_bg.2, None),
                sidebar_active_text_color: (p.sidebar_active_text_color.0, p.sidebar_active_text_color.1, p.sidebar_active_text_color.2, None),
                sidebar_text: (p.sidebar_text.0, p.sidebar_text.1, p.sidebar_text.2, None),
                status_bar_bg: (p.status_bar_bg.0, p.status_bar_bg.1, p.status_bar_bg.2, None),
                status_bar_text: (p.status_bar_text.0, p.status_bar_text.1, p.status_bar_text.2, None),
                status_bar_text_hover: (p.status_bar_text_hover.0, p.status_bar_text_hover.1, p.status_bar_text_hover.2, None),
                left_list_bg: (p.left_list_bg.0, p.left_list_bg.1, p.left_list_bg.2, None),
                left_list_bg_hover: (p.left_list_bg_hover.0, p.left_list_bg_hover.1, p.left_list_bg_hover.2, None),
                sidebar_active_bg: (p.sidebar_active_bg.0, p.sidebar_active_bg.1, p.sidebar_active_bg.2, None),
                sidebar_active_text: (p.sidebar_active_text.0, p.sidebar_active_text.1, p.sidebar_active_text.2, None),
                search_title_bg: (p.search_title_bg.0, p.search_title_bg.1, p.search_title_bg.2, None),
                content_bg: (p.content_bg.0, p.content_bg.1, p.content_bg.2, None),
                content_term_bg: (p.content_term_bg.0, p.content_term_bg.1, p.content_term_bg.2, None),
                content_chat_bg: (p.content_chat_bg.0, p.content_chat_bg.1, p.content_chat_bg.2, None),
                content_chat_divider: (p.content_chat_divider.0, p.content_chat_divider.1, p.content_chat_divider.2, None),
                content_tran_bg: (p.content_tran_bg.0, p.content_tran_bg.1, p.content_tran_bg.2, None),
                dialog_bg: (p.dialog_bg.0, p.dialog_bg.1, p.dialog_bg.2, None),
                dialog_border: (p.dialog_border.0, p.dialog_border.1, p.dialog_border.2, None),
                dialog_divider: (p.dialog_divider.0, p.dialog_divider.1, p.dialog_divider.2, None),
                dialog_text: (p.dialog_text.0, p.dialog_text.1, p.dialog_text.2, None),
                dialog_text_active: (p.dialog_text_active.0, p.dialog_text_active.1, p.dialog_text_active.2, None),
                drop_down_text: (p.drop_down_text.0, p.drop_down_text.1, p.drop_down_text.2, None),
                drop_down_bg: (p.drop_down_bg.0, p.drop_down_bg.1, p.drop_down_bg.2, None),
                drop_down_active_text: (p.drop_down_active_text.0, p.drop_down_active_text.1, p.drop_down_active_text.2, None),
                drop_down_active_bg: (p.drop_down_active_bg.0, p.drop_down_active_bg.1, p.drop_down_active_bg.2, None),
                chat_send_bg: (p.chat_send_bg.0, p.chat_send_bg.1, p.chat_send_bg.2, None),
                chat_send_border: (p.chat_send_border.0, p.chat_send_border.1, p.chat_send_border.2, None),
                chat_reply_bg: (p.chat_reply_bg.0, p.chat_reply_bg.1, p.chat_reply_bg.2, None),
                chat_reply_border: (p.chat_reply_border.0, p.chat_reply_border.1, p.chat_reply_border.2, None),
                input_bg: (p.input_bg.0, p.input_bg.1, p.input_bg.2, None),
                input_border: (p.input_border.0, p.input_border.1, p.input_border.2, None),
                table_bg: (p.table_bg.0, p.table_bg.1, p.table_bg.2, None),
                table_border: (p.table_border.0, p.table_border.1, p.table_border.2, None),
                table_header_bg: (p.table_header_bg.0, p.table_header_bg.1, p.table_header_bg.2, None),
                table_even_row_bg: (p.table_even_row_bg.0, p.table_even_row_bg.1, p.table_even_row_bg.2, None),
            });
        },
    };
    if !json_object_present(text, key) {
        let p = ui_palette(mode);
        return Ok(UiColors {
            menu_bg: (p.menu_bg.0, p.menu_bg.1, p.menu_bg.2, None),
            menu_text: (p.menu_text.0, p.menu_text.1, p.menu_text.2, None),
            text_color: (p.text_color.0, p.text_color.1, p.text_color.2, None),
            text_active_color: (p.text_active_color.0, p.text_active_color.1, p.text_active_color.2, None),
            border: (p.border.0, p.border.1, p.border.2, None),
            divider: (p.divider.0, p.divider.1, p.divider.2, None),
            split_color: (p.split_color.0, p.split_color.1, p.split_color.2, None),
            sidebar_bg: (p.sidebar_bg.0, p.sidebar_bg.1, p.sidebar_bg.2, None),
            sidebar_hover_bg: (p.sidebar_hover_bg.0, p.sidebar_hover_bg.1, p.sidebar_hover_bg.2, None),
            sidebar_active_text_color: (p.sidebar_active_text_color.0, p.sidebar_active_text_color.1, p.sidebar_active_text_color.2, None),
            sidebar_text: (p.sidebar_text.0, p.sidebar_text.1, p.sidebar_text.2, None),
            status_bar_bg: (p.status_bar_bg.0, p.status_bar_bg.1, p.status_bar_bg.2, None),
            status_bar_text: (p.status_bar_text.0, p.status_bar_text.1, p.status_bar_text.2, None),
            status_bar_text_hover: (p.status_bar_text_hover.0, p.status_bar_text_hover.1, p.status_bar_text_hover.2, None),
            left_list_bg: (p.left_list_bg.0, p.left_list_bg.1, p.left_list_bg.2, None),
            left_list_bg_hover: (p.left_list_bg_hover.0, p.left_list_bg_hover.1, p.left_list_bg_hover.2, None),
            sidebar_active_bg: (p.sidebar_active_bg.0, p.sidebar_active_bg.1, p.sidebar_active_bg.2, None),
            sidebar_active_text: (p.sidebar_active_text.0, p.sidebar_active_text.1, p.sidebar_active_text.2, None),
            search_title_bg: (p.search_title_bg.0, p.search_title_bg.1, p.search_title_bg.2, None),
            content_bg: (p.content_bg.0, p.content_bg.1, p.content_bg.2, None),
            content_term_bg: (p.content_term_bg.0, p.content_term_bg.1, p.content_term_bg.2, None),
            content_chat_bg: (p.content_chat_bg.0, p.content_chat_bg.1, p.content_chat_bg.2, None),
            content_chat_divider: (p.content_chat_divider.0, p.content_chat_divider.1, p.content_chat_divider.2, None),
            content_tran_bg: (p.content_tran_bg.0, p.content_tran_bg.1, p.content_tran_bg.2, None),
            dialog_bg: (p.dialog_bg.0, p.dialog_bg.1, p.dialog_bg.2, None),
            dialog_border: (p.dialog_border.0, p.dialog_border.1, p.dialog_border.2, None),
            dialog_divider: (p.dialog_divider.0, p.dialog_divider.1, p.dialog_divider.2, None),
            dialog_text: (p.dialog_text.0, p.dialog_text.1, p.dialog_text.2, None),
            dialog_text_active: (p.dialog_text_active.0, p.dialog_text_active.1, p.dialog_text_active.2, None),
            drop_down_text: (p.drop_down_text.0, p.drop_down_text.1, p.drop_down_text.2, None),
            drop_down_bg: (p.drop_down_bg.0, p.drop_down_bg.1, p.drop_down_bg.2, None),
            drop_down_active_text: (p.drop_down_active_text.0, p.drop_down_active_text.1, p.drop_down_active_text.2, None),
            drop_down_active_bg: (p.drop_down_active_bg.0, p.drop_down_active_bg.1, p.drop_down_active_bg.2, None),
            chat_send_bg: (p.chat_send_bg.0, p.chat_send_bg.1, p.chat_send_bg.2, None),
            chat_send_border: (p.chat_send_border.0, p.chat_send_border.1, p.chat_send_border.2, None),
            chat_reply_bg: (p.chat_reply_bg.0, p.chat_reply_bg.1, p.chat_reply_bg.2, None),
            chat_reply_border: (p.chat_reply_border.0, p.chat_reply_border.1, p.chat_reply_border.2, None),
            input_bg: (p.input_bg.0, p.input_bg.1, p.input_bg.2, None),
            input_border: (p.input_border.0, p.input_border.1, p.input_border.2, None),
            table_bg: (p.table_bg.0, p.table_bg.1, p.table_bg.2, None),
            table_border: (p.table_border.0, p.table_border.1, p.table_border.2, None),
            table_header_bg: (p.table_header_bg.0, p.table_header_bg.1, p.table_header_bg.2, None),
            table_even_row_bg: (p.table_even_row_bg.0, p.table_even_row_bg.1, p.table_even_row_bg.2, None),
        });
    }
    let names: [&str; 43] = [
        "appBgColor",
        "appHeaderTextColor",
        "textColor",
        "textActiveColor",
        "borderColor",
        "appDividerColor",
        "appSplitColor",
        "appSiderBarBgColor",
        "appSideHoverBgColor",
        "appSideTextActiveColor",
        "appSideTextColor",
        "appStatusBarBgColor",
        "appStatusBarTextColor",
        "appStatusBarTextHoverColor",
        "appLeftListBgColor",
        "appLeftListBgColorHover",
        "appLeftListBgColorActive",
        "appLeftListTextColorActive",
        "appSearchTitleBgColor",
        "appContentNoteBgColor",
        "appContentTermBgColor",
        "appContentChatBgColor",
        "appContentChatDividerColor",
        "appContentTranBgColor",
        "dialogBgColor",
        "dialogBorderColor",
        "dialogDividerColor",
        "dialogTextColor",
        "dialogTextActiveColor",
        "dropDownColor",
        "dropDownBgColor",
        "dropDownActiveColor",
        "dropDownActiveBgColor",
        "appContentChatSendBgColor",
        "appContentChatSendBorderColor",
        "appContentChatReplyBgColor",
        "appContentChatReplyBorderColor",
        "inputContentBgColor",
        "inputContentBorderColor",
        "tableBgColor",
        "tableBorderColor",
        "tableHeaderBgColor",
        "tableEvenRowBgColor",
    ];
    assert(forall|j: int| 0 <= j < 43 ==> #[trigger] names@[j]@ == ui_fields()[j]);
    let cols = match color_fields(text, key, &names) {
        Ok(v) => v,
        Err(e) => {
            return Err(e);
        },
    };
    Ok(UiColors {
        menu_bg: cols[0],
        menu_text: cols[1],
        text_color: cols[2],
        text_active_color: cols[3],
        border: cols[4],
        divider: cols[5],
        split_color: cols[6],
        sidebar_bg: cols[7],
        sidebar_hover_bg: cols[8],
        sidebar_active_text_color: cols[9],
        sidebar_text: cols[10],
        status_bar_bg: cols[11],
        status_bar_text: cols[12],
        status_bar_text_hover: cols[13],
        left_list_bg: cols[14],
        left_list_bg_hover: cols[15],
        sidebar_active_bg: cols[16],
        sidebar_active_text: cols[17],
        search_title_bg: cols[18],
        content_bg: cols[19],
        content_term_bg: cols[20],
        content_chat_bg: cols[21],
        content_chat_divider: cols[22],
        content_tran_bg: cols[23],
        dialog_bg: cols[24],
        dialog_border: cols[25],
        dialog_divider: cols[26],
        dialog_text: cols[27],
        dialog_text_active: cols[28],
        drop_down_text: cols[29],
        drop_down_bg: cols[30],
        drop_down_active_text: cols[31],
        drop_down_active_bg: cols[32],
        chat_send_bg: cols[33],
        chat_send_border: cols[34],
        chat_reply_bg: cols[35],
        chat_reply_border: cols[36],
        input_bg: cols[37],
        input_border: cols[38],
        table_bg: cols[39],
        table_border: cols[40],
        table_header_bg: cols[41],
        table_even_row_bg: cols[42],
    })
}

/// The fonts a preferences object names: the family names, in order, and
/// whether they are bold.
pub struct FontPrefs {
    pub family: Vec<String>,
    pub bold: bool,
}

/// The strings among the first `n` items of an array field, in order.
pub open spec fn string_items(text: Seq<char>, object: Seq<char>, field: Seq<char>, n: nat) -> Seq<Seq<char>>
    decreases n,
{
    if n == 0 {
        seq![]
    } else {
        let prev = string_items(text, object, field, (n - 1) as nat);
        match json_array_string(text, object, field, (n - 1) as usize) {
            Some(s) => prev.push(s),
            None => prev,
        }
    }
}

/// The family names of an array field: its string items, none when it is
/// not an array.
pub open spec fn family_of(text: Seq<char>, object: Seq<char>, field: Seq<char>) -> Seq<Seq<char>> {
    match json_array_len(text, object, field) {
        Some(n) => string_items(text, object, field, n as nat),
        None => seq![],
    }
}

/// The family names held, as characters.
pub open spec fn family_views(v: Seq<String>) -> Seq<Seq<char>> {
    v.map_values(|s: String| s@)
}

/// The fonts of `object`: the string items of its array `family_field`,
/// and whether its `bold_field` is the string `bold`.
fn font_prefs(text: &str, object: &str, family_field: &str, bold_field: &str) -> (r: FontPrefs)
    ensures
        family_views(r.family@) == family_of(text@, object@, family_field@),
        r.bold == (json_string_field(text@, object@, bold_field@) == Some("bold"@)),
{
    let mut family: Vec<String> = Vec::new();
    match json_array_length(text, object, family_field) {
        Some(n) => {
            let mut i: usize = 0;
            while i < n
                invariant
                    i <= n,
                    json_array_len(text@, object@, family_field@) == Some(n),
                    family_views(family@) == string_items(text@, object@, family_field@, i as nat),
                decreases n - i,
            {
                match json_array_item(text, object, family_field, i) {
                    Some(s) => {
                        let ghost before = family@;
                        family.push(s);
                        assert(family_views(family@) =~= family_views(before).push(s@));
                    },
                    None => {},
                }
                i += 1;
            }
        },
        None => {
            assert(family_views(family@) =~= Seq::<Seq<char>>::empty());
        },
    }
    let bold = match json_field(text, object, bold_field) {
        Some(s) => str_is(s.as_str(), &['b', 'o', 'l', 'd']),
        None => false,
    };
    proof {
        reveal_strlit("bold");
        assert(['b', 'o', 'l', 'd']@ =~= "bold"@);
    }
    FontPrefs { family, bold }
}

/// The note fonts of the preferences text: `fontFamily` and `fontBold` of
/// the `note` object.
pub fn note_font_prefs(prefs: &str) -> (r: FontPrefs)
    ensures
        family_views(r.family@) == family_of(prefs@, "note"@, "fontFamily"@),
        r.bold == (json_string_field(prefs@, "note"@, "fontBold"@) == Some("bold"@)),
{
    font_prefs(prefs, "note", "fontFamily", "fontBold")
}

/// The interface fonts of the preferences text: `defaultFontFamily` and
/// `defaultFontBold` of the `config` object.
pub fn config_font_prefs(prefs: &str) -> (r: FontPrefs)
    ensures
        family_views(r.family@) == family_of(prefs@, "config"@, "defaultFontFamily"@),
        r.bold == (json_string_field(prefs@, "config"@, "defaultFontBold"@) == Some("bold"@)),
{
    font_prefs(prefs, "config", "defaultFontFamily", "defaultFontBold")
}

} // verus!
