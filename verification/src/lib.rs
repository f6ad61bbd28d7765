//! Terminal user interface state for the imp coding agent: editor buffers,
//! overlay pickers, scroll bookkeeping, and text layout helpers.

pub mod animation;
pub mod app;
pub mod config;
pub mod keybindings;
pub mod layout;
pub mod markdown;
pub mod selection;
pub mod text;
pub mod theme;
pub mod turn_tracker;
pub mod views;
