//! A terminal grid: layout presets, per-pane terminal buffers driven by
//! escape sequences, key handling and the arithmetic of drawing panes.
pub mod style;
pub mod text;
pub mod buffer;
pub mod layout;
pub mod keys;
pub mod paint;
pub mod window;
pub mod fonts;
pub mod tui;
pub mod session;
