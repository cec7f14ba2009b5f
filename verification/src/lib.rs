//! pixel-forge core: canvas model, drawing primitives, palette, colour types
//! and the editor state machine, with their contracts.
//!
//! The terminal front end lives outside this crate's verified part; it hands
//! key presses to [`editor::App::handle_key`] and draws what
//! [`editor::App::canvas_cells`] and [`editor::App::palette_rows`] describe.

pub mod text;
pub mod color;
pub mod grid;
pub mod fill;
pub mod line;
pub mod rect;
pub mod ansi;
pub mod canvas;
pub mod editor;
pub mod screen;
pub mod laws;
