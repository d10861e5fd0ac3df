//! Syntax highlighting: languages by file extension, capture names and their
//! colours, and the mapping of highlight events onto diff rows.

pub mod languages;
pub mod theme;
pub mod highlighter;
pub mod configured;
pub mod engine;

