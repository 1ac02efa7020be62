//! A terminal compositor for a typing-race game: rectangles that split into
//! named regions, a layout tree that recomputes them on resize, and a window
//! of display cells that tracks which cells changed since the last flush.

pub mod coord;
pub mod rect;
pub mod layout;
pub mod text;
pub mod window;
pub mod progress;
pub mod throttler;
pub mod line;
pub mod line_block;
pub mod progress_bar;
pub mod command;
pub mod widgets;
pub mod words;
