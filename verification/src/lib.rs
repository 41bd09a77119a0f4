//! Display-line construction and settings layout for a terminal text editor.

mod text_util;
pub mod view_pipeline;
pub mod json;
pub mod schema;
pub mod controls;
pub mod settings_items;
pub mod settings_layout;
pub mod control_layout;
pub mod dialogs;
pub mod decorations;

pub use text_util::char_len_utf8;
