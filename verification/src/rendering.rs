//! Turning tokens into lines and lines into draw commands.

pub mod cursor;
pub mod line;
pub mod line_iter;
pub mod line_laws;
pub mod space_config;
pub mod word;
