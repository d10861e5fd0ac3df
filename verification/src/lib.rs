//! Verified core of the ADE terminal and code-review application.

pub mod assets;
pub mod code_review;
pub mod git;
pub mod key_encode;
pub mod panes;
pub mod settings;
pub mod syntax;
pub mod tabs;
pub mod terminal;
pub mod text;
pub mod theme;
pub mod ztracing;
