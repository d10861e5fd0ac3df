//! The concrete colour themes the application can show.
use vstd::prelude::*;

verus! {

/// A concrete theme: what a theme preference resolves to.
#[derive(Debug, Clone, Copy, PartialEq, Eq, Structural)]
pub enum ThemeName {
    Dark,
    Light,
}

} // verus!
