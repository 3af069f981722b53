//! Verified core of the ratatui-kit contrib crates: configurable keymaps,
//! line/word diffs, colour and style resolution for the markdown components,
//! and theme palette conversion.

pub mod text;
pub mod keymap;
pub mod diff;
pub mod color;
pub mod style;
pub mod theme;
pub mod themes;
pub mod rich;
pub mod code_block;
pub mod blockquote;
pub mod divider;
pub mod markdown;
