//! Word-wrapped, styled text layout for small displays.
//!
//! Text is split into tokens, tokens are broken into lines under a pixel
//! width budget, and every line is handed out as positioned draw commands.
//! Each line is laid out twice: a measuring pass finds its width, the
//! alignment turns that into a start offset and a spacing rule, and the
//! rendering pass emits the same line again with those applied.

pub mod alignment;
pub mod color;
pub mod geometry;
pub mod metrics;
pub mod middleware;
pub mod parser;
pub mod rendering;
pub mod style;
pub mod text_box;
