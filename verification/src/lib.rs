//! mdedit: the text model and the Markdown logic of a small editor.

pub mod bytes;
pub mod cli;
pub mod color;
pub mod config;
pub mod css;
pub mod document;
pub mod editing;
pub mod editor;
pub mod inline;
pub mod modes;
pub mod file_tree;
pub mod fonts;
pub mod naming;
pub mod natord;
pub mod outline;
pub mod palette;
pub mod prefs;
pub mod renderer;
pub mod rich;
pub mod search;
pub mod sheet;
pub mod table;
pub mod text;
pub mod toolbar;
