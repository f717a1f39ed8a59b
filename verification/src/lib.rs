//! Core of a freehand sketching sheet: stroke model, input pipeline,
//! hit-testing, layout, rendering commands and persistence.
//!
//! All coordinates are integers in sheet space; fractional quantities
//! (zoom factor, pen pressure) are carried in thousandths.

pub mod background;
pub mod canvas;
pub mod codec;
pub mod compose;
pub mod debug;
pub mod digits;
pub mod eq;
pub mod error;
pub mod filetype;
pub mod format;
pub mod geometry;
pub mod input;
pub mod laws;
pub mod pens;
pub mod persist;
pub mod render;
pub mod selection;
pub mod sheet;
pub mod strokes;
