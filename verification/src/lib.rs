//! Incremental Markdown streaming for terminals: a chunk scheduler that finds
//! safe flush boundaries in a growing text buffer, a stateful event-driven
//! renderer, a table formatter, and a color theme.

pub mod boundary;
pub mod config;
pub mod chars;
pub mod parser;
pub mod render;
pub mod sanitize;
pub mod streamer;
pub mod table;
pub mod theme;
