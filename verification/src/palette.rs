//! The built-in colours: those of the application's own interface (menus,
//! side panels, status bar, dialogs, lists, tables) for each theme mode
//! (Default Light Modern for the light and automatic modes, Solarized Dark
//! for the dark mode), its extra parts, and the note theme.

use vstd::prelude::*;
use crate::modes::ThemeMode;

verus! {

/// One colour per part of the interface, as red, green and blue.
pub struct UiPalette {
    pub menu_bg: (u8, u8, u8),
    pub menu_text: (u8, u8, u8),
    pub text_color: (u8, u8, u8),
    pub text_active_color: (u8, u8, u8),
    pub border: (u8, u8, u8),
    pub divider: (u8, u8, u8),
    pub split_color: (u8, u8, u8),
    pub sidebar_bg: (u8, u8, u8),
    pub sidebar_hover_bg: (u8, u8, u8),
    pub sidebar_active_text_color: (u8, u8, u8),
    pub sidebar_text: (u8, u8, u8),
    pub status_bar_bg: (u8, u8, u8),
    pub status_bar_text: (u8, u8, u8),
    pub status_bar_text_hover: (u8, u8, u8),
    pub left_list_bg: (u8, u8, u8),
    pub left_list_bg_hover: (u8, u8, u8),
    pub sidebar_active_bg: (u8, u8, u8),
    pub sidebar_active_text: (u8, u8, u8),
    pub search_title_bg: (u8, u8, u8),
    pub content_bg: (u8, u8, u8),
    pub content_term_bg: (u8, u8, u8),
    pub content_chat_bg: (u8, u8, u8),
    pub content_chat_divider: (u8, u8, u8),
    pub content_tran_bg: (u8, u8, u8),
    pub dialog_bg: (u8, u8, u8),
    pub dialog_border: (u8, u8, u8),
    pub dialog_divider: (u8, u8, u8),
    pub dialog_text: (u8, u8, u8),
    pub dialog_text_active: (u8, u8, u8),
    pub drop_down_text: (u8, u8, u8),
    pub drop_down_bg: (u8, u8, u8),
    pub drop_down_active_text: (u8, u8, u8),
    pub drop_down_active_bg: (u8, u8, u8),
    pub chat_send_bg: (u8, u8, u8),
    pub chat_send_border: (u8, u8, u8),
    pub chat_reply_bg: (u8, u8, u8),
    pub chat_reply_border: (u8, u8, u8),
    pub input_bg: (u8, u8, u8),
    pub input_border: (u8, u8, u8),
    pub table_bg: (u8, u8, u8),
    pub table_border: (u8, u8, u8),
    pub table_header_bg: (u8, u8, u8),
    pub table_even_row_bg: (u8, u8, u8),
}

/// The Default Light Modern palette.
pub open spec fn light_palette() -> UiPalette {
    UiPalette {
        menu_bg: (0xF5, 0xF5, 0xF5),
        menu_text: (0x33, 0x33, 0x33),
        text_color: (0x33, 0x33, 0x33),
        text_active_color: (0x00, 0x7A, 0xCC),
        border: (0xCC, 0xCC, 0xCC),
        divider: (0xE0, 0xE0, 0xE0),
        split_color: (0xE0, 0xE0, 0xE0),
        sidebar_bg: (0xFF, 0xFF, 0xFF),
        sidebar_hover_bg: (0xE3, 0xF2, 0xFD),
        sidebar_active_text_color: (0x00, 0x7A, 0xCC),
        sidebar_text: (0x66, 0x66, 0x66),
        status_bar_bg: (0xF5, 0xF5, 0xF5),
        status_bar_text: (0x66, 0x66, 0x66),
        status_bar_text_hover: (0x33, 0x33, 0x33),
        left_list_bg: (0xFF, 0xFF, 0xFF),
        left_list_bg_hover: (0xF5, 0xF5, 0xF5),
        sidebar_active_bg: (0xE3, 0xF2, 0xFD),
        sidebar_active_text: (0x00, 0x7A, 0xCC),
        search_title_bg: (0xF5, 0xF5, 0xF5),
        content_bg: (0xFF, 0xFF, 0xFF),
        content_term_bg: (0xFF, 0xFF, 0xFF),
        content_chat_bg: (0xFF, 0xFF, 0xFF),
        content_chat_divider: (0xE0, 0xE0, 0xE0),
        content_tran_bg: (0xFF, 0xFF, 0xFF),
        dialog_bg: (0xFF, 0xFF, 0xFF),
        dialog_border: (0xE0, 0xE0, 0xE0),
        dialog_divider: (0xE0, 0xE0, 0xE0),
        dialog_text: (0x33, 0x33, 0x33),
        dialog_text_active: (0x00, 0x7A, 0xCC),
        drop_down_text: (0x33, 0x33, 0x33),
        drop_down_bg: (0xFF, 0xFF, 0xFF),
        drop_down_active_text: (0x00, 0x7A, 0xCC),
        drop_down_active_bg: (0xE3, 0xF2, 0xFD),
        chat_send_bg: (0xE3, 0xF2, 0xFD),
        chat_send_border: (0xCC, 0xCC, 0xCC),
        chat_reply_bg: (0xFF, 0xFF, 0xFF),
        chat_reply_border: (0xCC, 0xCC, 0xCC),
        input_bg: (0xFF, 0xFF, 0xFF),
        input_border: (0xCC, 0xCC, 0xCC),
        table_bg: (0xFF, 0xFF, 0xFF),
        table_border: (0xE0, 0xE0, 0xE0),
        table_header_bg: (0xF5, 0xF5, 0xF5),
        table_even_row_bg: (0xF9, 0xF9, 0xF9),
    }
}

/// The Solarized Dark palette.
pub open spec fn dark_palette() -> UiPalette {
    UiPalette {
        menu_bg: (0x00, 0x2B, 0x36),
        menu_text: (0xFF, 0xFF, 0xFF),
        text_color: (0xFF, 0xFF, 0xFF),
        text_active_color: (0xFF, 0xFF, 0xFF),
        border: (0x1A, 0x77, 0x78),
        divider: (0x07, 0x36, 0x42),
        split_color: (0x07, 0x36, 0x42),
        sidebar_bg: (0x07, 0x36, 0x42),
        sidebar_hover_bg: (0x07, 0x36, 0x42),
        sidebar_active_text_color: (0xFF, 0xFF, 0xFF),
        sidebar_text: (0xCC, 0xCC, 0xCC),
        status_bar_bg: (0x00, 0x2B, 0x36),
        status_bar_text: (0xCC, 0xCC, 0xCC),
        status_bar_text_hover: (0xFF, 0xFF, 0xFF),
        left_list_bg: (0x07, 0x36, 0x42),
        left_list_bg_hover: (0x09, 0x49, 0x5E),
        sidebar_active_bg: (0x09, 0x47, 0x71),
        sidebar_active_text: (0xFF, 0xFF, 0xFF),
        search_title_bg: (0x07, 0x36, 0x42),
        content_bg: (0x00, 0x2B, 0x36),
        content_term_bg: (0x00, 0x00, 0x00),
        content_chat_bg: (0x00, 0x2B, 0x36),
        content_chat_divider: (0x07, 0x36, 0x42),
        content_tran_bg: (0x00, 0x2B, 0x36),
        dialog_bg: (0x00, 0x22, 0x2B),
        dialog_border: (0x1A, 0x77, 0x78),
        dialog_divider: (0x07, 0x36, 0x42),
        dialog_text: (0xCC, 0xCC, 0xCC),
        dialog_text_active: (0xFF, 0xFF, 0xFF),
        drop_down_text: (0xCC, 0xCC, 0xCC),
        drop_down_bg: (0x00, 0x2B, 0x36),
        drop_down_active_text: (0xFF, 0xFF, 0xFF),
        drop_down_active_bg: (0x09, 0x49, 0x5E),
        chat_send_bg: (0x07, 0x36, 0x42),
        chat_send_border: (0x1A, 0x77, 0x78),
        chat_reply_bg: (0x00, 0x22, 0x2B),
        chat_reply_border: (0x1A, 0x77, 0x78),
        input_bg: (0x00, 0x22, 0x2B),
        input_border: (0x1A, 0x77, 0x78),
        table_bg: (0x00, 0x2B, 0x36),
        table_border: (0x07, 0x36, 0x42),
        table_header_bg: (0x07, 0x36, 0x42),
        table_even_row_bg: (0x00, 0x22, 0x2B),
    }
}

/// The palette of a theme mode: Solarized Dark for the dark mode, Default
/// Light Modern for the light and the automatic mode.
pub open spec fn ui_palette_of(mode: ThemeMode) -> UiPalette {
    match mode {
        ThemeMode::Dark => dark_palette(),
        _ => light_palette(),
    }
}

/// The interface colours of a theme mode.
pub fn ui_palette(mode: ThemeMode) -> (r: UiPalette)
    ensures
        r == ui_palette_of(mode),
{
    match mode {
        ThemeMode::Dark => UiPalette {
            menu_bg: (0x00, 0x2B, 0x36),
            menu_text: (0xFF, 0xFF, 0xFF),
            text_color: (0xFF, 0xFF, 0xFF),
            text_active_color: (0xFF, 0xFF, 0xFF),
            border: (0x1A, 0x77, 0x78),
            divider: (0x07, 0x36, 0x42),
            split_color: (0x07, 0x36, 0x42),
            sidebar_bg: (0x07, 0x36, 0x42),
            sidebar_hover_bg: (0x07, 0x36, 0x42),
            sidebar_active_text_color: (0xFF, 0xFF, 0xFF),
            sidebar_text: (0xCC, 0xCC, 0xCC),
            status_bar_bg: (0x00, 0x2B, 0x36),
            status_bar_text: (0xCC, 0xCC, 0xCC),
            status_bar_text_hover: (0xFF, 0xFF, 0xFF),
            left_list_bg: (0x07, 0x36, 0x42),
            left_list_bg_hover: (0x09, 0x49, 0x5E),
            sidebar_active_bg: (0x09, 0x47, 0x71),
            sidebar_active_text: (0xFF, 0xFF, 0xFF),
            search_title_bg: (0x07, 0x36, 0x42),
            content_bg: (0x00, 0x2B, 0x36),
            content_term_bg: (0x00, 0x00, 0x00),
            content_chat_bg: (0x00, 0x2B, 0x36),
            content_chat_divider: (0x07, 0x36, 0x42),
            content_tran_bg: (0x00, 0x2B, 0x36),
            dialog_bg: (0x00, 0x22, 0x2B),
            dialog_border: (0x1A, 0x77, 0x78),
            dialog_divider: (0x07, 0x36, 0x42),
            dialog_text: (0xCC, 0xCC, 0xCC),
            dialog_text_active: (0xFF, 0xFF, 0xFF),
            drop_down_text: (0xCC, 0xCC, 0xCC),
            drop_down_bg: (0x00, 0x2B, 0x36),
            drop_down_active_text: (0xFF, 0xFF, 0xFF),
            drop_down_active_bg: (0x09, 0x49, 0x5E),
            chat_send_bg: (0x07, 0x36, 0x42),
            chat_send_border: (0x1A, 0x77, 0x78),
            chat_reply_bg: (0x00, 0x22, 0x2B),
            chat_reply_border: (0x1A, 0x77, 0x78),
            input_bg: (0x00, 0x22, 0x2B),
            input_border: (0x1A, 0x77, 0x78),
            table_bg: (0x00, 0x2B, 0x36),
            table_border: (0x07, 0x36, 0x42),
            table_header_bg: (0x07, 0x36, 0x42),
            table_even_row_bg: (0x00, 0x22, 0x2B),
        },
        _ => UiPalette {
            menu_bg: (0xF5, 0xF5, 0xF5),
            menu_text: (0x33, 0x33, 0x33),
            text_color: (0x33, 0x33, 0x33),
            text_active_color: (0x00, 0x7A, 0xCC),
            border: (0xCC, 0xCC, 0xCC),
            divider: (0xE0, 0xE0, 0xE0),
            split_color: (0xE0, 0xE0, 0xE0),
            sidebar_bg: (0xFF, 0xFF, 0xFF),
            sidebar_hover_bg: (0xE3, 0xF2, 0xFD),
            sidebar_active_text_color: (0x00, 0x7A, 0xCC),
            sidebar_text: (0x66, 0x66, 0x66),
            status_bar_bg: (0xF5, 0xF5, 0xF5),
            status_bar_text: (0x66, 0x66, 0x66),
            status_bar_text_hover: (0x33, 0x33, 0x33),
            left_list_bg: (0xFF, 0xFF, 0xFF),
            left_list_bg_hover: (0xF5, 0xF5, 0xF5),
            sidebar_active_bg: (0xE3, 0xF2, 0xFD),
            sidebar_active_text: (0x00, 0x7A, 0xCC),
            search_title_bg: (0xF5, 0xF5, 0xF5),
            content_bg: (0xFF, 0xFF, 0xFF),
            content_term_bg: (0xFF, 0xFF, 0xFF),
            content_chat_bg: (0xFF, 0xFF, 0xFF),
            content_chat_divider: (0xE0, 0xE0, 0xE0),
            content_tran_bg: (0xFF, 0xFF, 0xFF),
            dialog_bg: (0xFF, 0xFF, 0xFF),
            dialog_border: (0xE0, 0xE0, 0xE0),
            dialog_divider: (0xE0, 0xE0, 0xE0),
            dialog_text: (0x33, 0x33, 0x33),
            dialog_text_active: (0x00, 0x7A, 0xCC),
            drop_down_text: (0x33, 0x33, 0x33),
            drop_down_bg: (0xFF, 0xFF, 0xFF),
            drop_down_active_text: (0x00, 0x7A, 0xCC),
            drop_down_active_bg: (0xE3, 0xF2, 0xFD),
            chat_send_bg: (0xE3, 0xF2, 0xFD),
            chat_send_border: (0xCC, 0xCC, 0xCC),
            chat_reply_bg: (0xFF, 0xFF, 0xFF),
            chat_reply_border: (0xCC, 0xCC, 0xCC),
            input_bg: (0xFF, 0xFF, 0xFF),
            input_border: (0xCC, 0xCC, 0xCC),
            table_bg: (0xFF, 0xFF, 0xFF),
            table_border: (0xE0, 0xE0, 0xE0),
            table_header_bg: (0xF5, 0xF5, 0xF5),
            table_even_row_bg: (0xF9, 0xF9, 0xF9),
        },
    }
}

/// The colours of the note theme built into the application, as red,
/// green and blue: page, text, headings' separators, code, quotes,
/// tables, links, list markers and rules.
pub struct NotePalette {
    pub background: (u8, u8, u8),
    pub text: (u8, u8, u8),
    pub muted: (u8, u8, u8),
    pub border: (u8, u8, u8),
    pub selection: (u8, u8, u8),
    pub h1_separator: (u8, u8, u8),
    pub h2_separator: (u8, u8, u8),
    pub inline_bg: (u8, u8, u8),
    pub inline_text: (u8, u8, u8),
    pub block_bg: (u8, u8, u8),
    pub block_text: (u8, u8, u8),
    pub block_border: (u8, u8, u8),
    pub quote_bar: (u8, u8, u8),
    pub quote_text: (u8, u8, u8),
    pub quote_bg: (u8, u8, u8),
    pub table_header_bg: (u8, u8, u8),
    pub table_row_bg: (u8, u8, u8),
    pub table_alt_row_bg: (u8, u8, u8),
    pub table_border: (u8, u8, u8),
    pub link: (u8, u8, u8),
    pub list_marker: (u8, u8, u8),
    pub rule: (u8, u8, u8),
}

/// The light note theme.
pub open spec fn light_note_palette() -> NotePalette {
    NotePalette {
        background: (249, 249, 245),
        text: (44, 62, 80),
        muted: (127, 140, 141),
        border: (209, 213, 218),
        selection: (173, 216, 230),
        h1_separator: (41, 149, 217),
        h2_separator: (209, 213, 218),
        inline_bg: (238, 238, 238),
        inline_text: (199, 37, 78),
        block_bg: (238, 238, 238),
        block_text: (51, 51, 51),
        block_border: (209, 213, 218),
        quote_bar: (221, 221, 221),
        quote_text: (106, 115, 125),
        quote_bg: (248, 248, 248),
        table_header_bg: (240, 240, 240),
        table_row_bg: (255, 255, 255),
        table_alt_row_bg: (246, 248, 250),
        table_border: (209, 213, 218),
        link: (91, 164, 229),
        list_marker: (41, 149, 217),
        rule: (221, 221, 221),
    }
}

/// The dark note theme.
pub open spec fn dark_note_palette() -> NotePalette {
    NotePalette {
        background: (30, 30, 46),
        text: (205, 214, 244),
        muted: (147, 153, 178),
        border: (88, 91, 112),
        selection: (69, 71, 90),
        h1_separator: (137, 180, 250),
        h2_separator: (88, 91, 112),
        inline_bg: (49, 50, 68),
        inline_text: (243, 139, 168),
        block_bg: (49, 50, 68),
        block_text: (205, 214, 244),
        block_border: (88, 91, 112),
        quote_bar: (137, 180, 250),
        quote_text: (166, 173, 200),
        quote_bg: (36, 36, 54),
        table_header_bg: (49, 50, 68),
        table_row_bg: (30, 30, 46),
        table_alt_row_bg: (36, 36, 54),
        table_border: (88, 91, 112),
        link: (137, 180, 250),
        list_marker: (137, 180, 250),
        rule: (88, 91, 112),
    }
}

/// The built-in note theme: dark or light.
pub fn note_palette(dark: bool) -> (r: NotePalette)
    ensures
        r == (if dark {
            dark_note_palette()
        } else {
            light_note_palette()
        }),
{
    if dark {
        NotePalette {
            background: (30, 30, 46),
            text: (205, 214, 244),
            muted: (147, 153, 178),
            border: (88, 91, 112),
            selection: (69, 71, 90),
            h1_separator: (137, 180, 250),
            h2_separator: (88, 91, 112),
            inline_bg: (49, 50, 68),
            inline_text: (243, 139, 168),
            block_bg: (49, 50, 68),
            block_text: (205, 214, 244),
            block_border: (88, 91, 112),
            quote_bar: (137, 180, 250),
            quote_text: (166, 173, 200),
            quote_bg: (36, 36, 54),
            table_header_bg: (49, 50, 68),
            table_row_bg: (30, 30, 46),
            table_alt_row_bg: (36, 36, 54),
            table_border: (88, 91, 112),
            link: (137, 180, 250),
            list_marker: (137, 180, 250),
            rule: (88, 91, 112),
        }
    } else {
        NotePalette {
            background: (249, 249, 245),
            text: (44, 62, 80),
            muted: (127, 140, 141),
            border: (209, 213, 218),
            selection: (173, 216, 230),
            h1_separator: (41, 149, 217),
            h2_separator: (209, 213, 218),
            inline_bg: (238, 238, 238),
            inline_text: (199, 37, 78),
            block_bg: (238, 238, 238),
            block_text: (51, 51, 51),
            block_border: (209, 213, 218),
            quote_bar: (221, 221, 221),
            quote_text: (106, 115, 125),
            quote_bg: (248, 248, 248),
            table_header_bg: (240, 240, 240),
            table_row_bg: (255, 255, 255),
            table_alt_row_bg: (246, 248, 250),
            table_border: (209, 213, 218),
            link: (91, 164, 229),
            list_marker: (41, 149, 217),
            rule: (221, 221, 221),
        }
    }
}

/// The colours of the extra parts of the interface (tabs, toolbar,
/// outline, tables, progress bars, information panel), as red, green,
/// blue and alpha.
pub struct ExtraPalette {
    pub tab_icon_color: (u8, u8, u8, u8),
    pub active_color: (u8, u8, u8, u8),
    pub search_icon_color: (u8, u8, u8, u8),
    pub edit_disabled_color: (u8, u8, u8, u8),
    pub note_tab_header_border: (u8, u8, u8, u8),
    pub note_toolbar_header_bg: (u8, u8, u8, u8),
    pub note_search_num_bg_color: (u8, u8, u8, u8),
    pub outline_hover_color: (u8, u8, u8, u8),
    pub table_th_bg: (u8, u8, u8, u8),
    pub table_td_bg: (u8, u8, u8, u8),
    pub table_hover_color: (u8, u8, u8, u8),
    pub progress_free_bg: (u8, u8, u8, u8),
    pub expand_table_bg: (u8, u8, u8, u8),
    pub info_title_btn_color: (u8, u8, u8, u8),
    pub info_title_btn_border_color: (u8, u8, u8, u8),
    pub info_title_btn_hover_bg_color: (u8, u8, u8, u8),
}

/// The extra colours of the light and automatic modes.
pub open spec fn light_extra_palette() -> ExtraPalette {
    ExtraPalette {
        tab_icon_color: (0x00, 0x00, 0x00, 0xFF),
        active_color: (0x00, 0x7A, 0xCC, 0xFF),
        search_icon_color: (0x7C, 0x86, 0x8F, 0xFF),
        edit_disabled_color: (0xC2, 0xC2, 0xC2, 0xFF),
        note_tab_header_border: (0xD9, 0xD9, 0xD9, 0xFF),
        note_toolbar_header_bg: (0xF5, 0xF5, 0xF5, 0xFF),
        note_search_num_bg_color: (0xD8, 0xD8, 0xD8, 0xFF),
        outline_hover_color: (0x42, 0x85, 0xF4, 0xFF),
        table_th_bg: (0xEB, 0xEB, 0xEB, 0xFF),
        table_td_bg: (0xF9, 0xF9, 0xF9, 0xFF),
        table_hover_color: (0xEE, 0xEE, 0xEE, 0xFF),
        progress_free_bg: (0xEA, 0xEA, 0xEA, 0xFF),
        expand_table_bg: (0xFF, 0xFF, 0xFF, 0xFF),
        info_title_btn_color: (0x00, 0x7A, 0xCB, 0xFF),
        info_title_btn_border_color: (0x00, 0x7A, 0xCB, 0xFF),
        info_title_btn_hover_bg_color: (0x00, 0x7A, 0xCB, 0xFF),
    }
}

/// The extra colours of the dark mode.
pub open spec fn dark_extra_palette() -> ExtraPalette {
    ExtraPalette {
        tab_icon_color: (0xCC, 0xCC, 0xCC, 0xFF),
        active_color: (0xFF, 0xFF, 0xFF, 0xFF),
        search_icon_color: (0xCC, 0xCC, 0xCB, 0xFF),
        edit_disabled_color: (0xFF, 0xFF, 0xFF, 0x61),
        note_tab_header_border: (0x10, 0x5C, 0x5D, 0xFF),
        note_toolbar_header_bg: (0x02, 0x38, 0x48, 0xFF),
        note_search_num_bg_color: (0x01, 0x53, 0x67, 0xFF),
        outline_hover_color: (0xFF, 0xFF, 0xFF, 0xFF),
        table_th_bg: (0x05, 0x37, 0x47, 0xFF),
        table_td_bg: (0x00, 0x30, 0x3F, 0xFF),
        table_hover_color: (0x03, 0x3C, 0x4F, 0xFF),
        progress_free_bg: (0xFF, 0xFF, 0xFF, 0xFF),
        expand_table_bg: (0x00, 0x27, 0x33, 0xFF),
        info_title_btn_color: (0xCC, 0xCC, 0xCC, 0xFF),
        info_title_btn_border_color: (0x00, 0x5A, 0x6F, 0xFF),
        info_title_btn_hover_bg_color: (0x00, 0x00, 0x00, 0x00),
    }
}

/// The extra colours of a theme mode.
pub open spec fn extra_palette_of(mode: ThemeMode) -> ExtraPalette {
    match mode {
        ThemeMode::Dark => dark_extra_palette(),
        _ => light_extra_palette(),
    }
}

/// The extra interface colours of a theme mode.
pub fn extra_palette(mode: ThemeMode) -> (r: ExtraPalette)
    ensures
        r == extra_palette_of(mode),
{
    match mode {
        ThemeMode::Dark => ExtraPalette {
            tab_icon_color: (0xCC, 0xCC, 0xCC, 0xFF),
            active_color: (0xFF, 0xFF, 0xFF, 0xFF),
            search_icon_color: (0xCC, 0xCC, 0xCB, 0xFF),
            edit_disabled_color: (0xFF, 0xFF, 0xFF, 0x61),
            note_tab_header_border: (0x10, 0x5C, 0x5D, 0xFF),
            note_toolbar_header_bg: (0x02, 0x38, 0x48, 0xFF),
            note_search_num_bg_color: (0x01, 0x53, 0x67, 0xFF),
            outline_hover_color: (0xFF, 0xFF, 0xFF, 0xFF),
            table_th_bg: (0x05, 0x37, 0x47, 0xFF),
            table_td_bg: (0x00, 0x30, 0x3F, 0xFF),
            table_hover_color: (0x03, 0x3C, 0x4F, 0xFF),
            progress_free_bg: (0xFF, 0xFF, 0xFF, 0xFF),
            expand_table_bg: (0x00, 0x27, 0x33, 0xFF),
            info_title_btn_color: (0xCC, 0xCC, 0xCC, 0xFF),
            info_title_btn_border_color: (0x00, 0x5A, 0x6F, 0xFF),
            info_title_btn_hover_bg_color: (0x00, 0x00, 0x00, 0x00),
        },
        _ => ExtraPalette {
            tab_icon_color: (0x00, 0x00, 0x00, 0xFF),
            active_color: (0x00, 0x7A, 0xCC, 0xFF),
            search_icon_color: (0x7C, 0x86, 0x8F, 0xFF),
            edit_disabled_color: (0xC2, 0xC2, 0xC2, 0xFF),
            note_tab_header_border: (0xD9, 0xD9, 0xD9, 0xFF),
            note_toolbar_header_bg: (0xF5, 0xF5, 0xF5, 0xFF),
            note_search_num_bg_color: (0xD8, 0xD8, 0xD8, 0xFF),
            outline_hover_color: (0x42, 0x85, 0xF4, 0xFF),
            table_th_bg: (0xEB, 0xEB, 0xEB, 0xFF),
            table_td_bg: (0xF9, 0xF9, 0xF9, 0xFF),
            table_hover_color: (0xEE, 0xEE, 0xEE, 0xFF),
            progress_free_bg: (0xEA, 0xEA, 0xEA, 0xFF),
            expand_table_bg: (0xFF, 0xFF, 0xFF, 0xFF),
            info_title_btn_color: (0x00, 0x7A, 0xCB, 0xFF),
            info_title_btn_border_color: (0x00, 0x7A, 0xCB, 0xFF),
            info_title_btn_hover_bg_color: (0x00, 0x7A, 0xCB, 0xFF),
        },
    }
}

} // verus!
