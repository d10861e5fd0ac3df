//! Pane layout vocabulary: how a pane splits, and what closing a pane did.
use vstd::prelude::*;

verus! {

/// Identifier of a pane within a window.
pub type PaneId = u64;

/// The direction of a split: side by side (vertical divider) or top and
/// bottom (horizontal divider).
#[derive(Debug, Clone, Copy, PartialEq, Eq, Structural)]
pub enum SplitDirection {
    Vertical,
    Horizontal,
}

/// The outcome of closing a pane in a pane layout.
#[derive(Debug, Clone, Copy, PartialEq, Eq, Structural)]
pub enum CloseResult {
    /// Pane removed, the layout still has panes
    Removed,
    /// Last pane was closed -- the window should close
    LastPane,
    /// Pane not found
    NotFound,
}

} // verus!
