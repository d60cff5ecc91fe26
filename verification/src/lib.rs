//! Core logic of the mmterm terminal emulator: colours and configuration,
//! the character grid, pane scrolling, glyph blitting, themes, the status
//! bar and the decisions taken while draining parser effects.

pub mod color;
mod text;
pub mod config;
pub mod config_text;
pub mod grid;
pub mod pane;
pub mod drain;
pub mod render_ops;
pub mod session;
pub mod glyph;
pub mod theme;
pub mod statusbar;
pub mod blit;
