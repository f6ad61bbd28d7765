//! Overlay and pane state for the terminal interface.

pub mod ask_bar;
pub mod chat;
pub mod command_palette;
pub mod editor;
pub mod file_finder;
pub mod login_picker;
pub mod model_selector;
pub mod personality;
pub mod secrets_picker;
pub mod session_picker;
pub mod settings;
pub mod sidebar;
pub mod tool_output;
pub mod tools;
pub mod top_bar;
pub mod tree;
pub mod welcome;
