//! The window's tabs: how many there are, which one is active, and the
//! decisions of the tab actions (open, close, switch, cycle, select by
//! number). The window performs each decision on its terminal views.
use vstd::prelude::*;
use crate::code_review::{CodeReviewPanel, ReviewTab};


verus! {

/// Maximum number of tabs a window opens.
pub const MAX_TABS: usize = 50;

/// Height in pixels of the window chrome above the panes while the tab bar
/// shows.
pub const CHROME_HEIGHT_WITH_TABS: u32 = 62;

/// Height in pixels of the window chrome above the panes with one tab.
pub const CHROME_HEIGHT_SINGLE_TAB: u32 = 32;

/// What the window shows: terminals, or the code review panel.
#[derive(Debug, Clone, Copy, PartialEq, Eq, Structural)]
pub enum Mode {
    Terminal,
    CodeReview,
}

impl Mode {
    /// The other mode (the code review toggle).
    pub fn toggled(self) -> (r: Self)
        ensures
            r != self,
    {
        match self {
            Mode::Terminal => Mode::CodeReview,
            Mode::CodeReview => Mode::Terminal,
        }
    }
}

/// What closing a tab asks of the window.
#[derive(Debug, Clone, Copy, PartialEq, Eq, Structural)]
pub enum TabCloseOutcome {
    /// The last tab was closed: the application quits.
    QuitApp,
    /// The tab was removed; the active tab is the one to focus.
    Closed,
}

/// The index after `active` among `count` tabs, wrapping to the first.
pub open spec fn next_index(count: int, active: int) -> int {
    (active + 1) % count
}

/// The index before `active` among `count` tabs, wrapping to the last.
pub open spec fn prev_index(count: int, active: int) -> int {
    if active == 0 {
        count - 1
    } else {
        active - 1
    }
}

/// The window's tab strip: the number of tabs and the active tab's index.
#[derive(Debug, Clone, Copy, PartialEq, Eq, Structural)]
pub struct TabStrip {
    pub count: usize,
    pub active: usize,
}

impl TabStrip {
    /// The active index names a tab whenever there is one, and the tab limit
    /// holds.
    pub open spec fn wf(&self) -> bool {
        &&& self.count <= MAX_TABS
        &&& (self.count > 0 ==> self.active < self.count)
    }

    /// The strip of a window with its first tab open.
    pub fn new() -> (s: Self)
        ensures
            s == (TabStrip { count: 1, active: 0 }),
            s.wf(),
    {
        TabStrip { count: 1, active: 0 }
    }

    /// Whether a new tab may open (the limit is not reached).
    pub fn can_open_tab(&self) -> (r: bool)
        ensures
            r == (self.count < MAX_TABS),
    {
        self.count < MAX_TABS
    }

    /// A new tab was opened: it is appended and becomes the active tab.
    pub fn tab_opened(&mut self)
        requires
            old(self).count < MAX_TABS,
        ensures
            *final(self) == (TabStrip { count: (old(self).count + 1) as usize, active: old(self).count }),
            final(self).wf(),
    {
        self.active = self.count;
        self.count = self.count + 1;
    }

    /// Bring the active index back to the last tab when it is past the end.
    pub fn clamp_active_tab(&mut self)
        ensures
            final(self).count == old(self).count,
            final(self).active == (if old(self).count > 0 && old(self).active >= old(self).count {
                (old(self).count - 1) as usize
            } else {
                old(self).active
            }),
            old(self).count <= MAX_TABS ==> final(self).wf(),
    {
        if self.count > 0 && self.active >= self.count {
            self.active = self.count - 1;
        }
    }

    /// Close the tab at `index`. Closing the only tab quits the
    /// application and leaves the strip as it is; otherwise the tab is
    /// removed and the active index clamped (it is not shifted when an
    /// earlier tab goes).
    pub fn close_tab(&mut self, index: usize) -> (r: TabCloseOutcome)
        requires
            old(self).count == 1 || index < old(self).count,
            old(self).count > 0,
        ensures
            old(self).count == 1 ==> r == TabCloseOutcome::QuitApp && *final(self) == *old(self),
            old(self).count != 1 ==> r == TabCloseOutcome::Closed && final(self).count == old(
                self,
            ).count - 1 && final(self).active == (if old(self).active >= old(self).count - 1 {
                (old(self).count - 2) as usize
            } else {
                old(self).active
            }),
            old(self).wf() ==> final(self).wf(),
    {
        if self.count == 1 {
            return TabCloseOutcome::QuitApp;
        }
        self.count = self.count - 1;
        self.clamp_active_tab();
        TabCloseOutcome::Closed
    }

    /// Switch to the tab at `index`; nothing happens when it is out of
    /// range or already active. Returns whether the active tab changed (the
    /// window then focuses and resizes it).
    pub fn switch_to_tab(&mut self, index: usize) -> (switched: bool)
        ensures
            switched == (index < old(self).count && index != old(self).active),
            final(self).count == old(self).count,
            final(self).active == (if switched {
                index
            } else {
                old(self).active
            }),
            old(self).wf() ==> final(self).wf(),
    {
        if index >= self.count || index == self.active {
            return false;
        }
        self.active = index;
        true
    }

    /// Switch to the next tab, wrapping to the first; only with more than
    /// one tab.
    pub fn next_tab(&mut self) -> (switched: bool)
        requires
            old(self).wf(),
        ensures
            final(self).count == old(self).count,
            final(self).active == (if old(self).count > 1 {
                next_index(old(self).count as int, old(self).active as int)
            } else {
                old(self).active as int
            }),
            switched == (final(self).active != old(self).active),
            final(self).wf(),
    {
        if self.count > 1 {
            let next = (self.active + 1) % self.count;
            self.switch_to_tab(next)
        } else {
            false
        }
    }

    /// Switch to the previous tab, wrapping to the last; only with more
    /// than one tab.
    pub fn prev_tab(&mut self) -> (switched: bool)
        requires
            old(self).wf(),
        ensures
            final(self).count == old(self).count,
            final(self).active == (if old(self).count > 1 {
                prev_index(old(self).count as int, old(self).active as int)
            } else {
                old(self).active as int
            }),
            switched == (final(self).active != old(self).active),
            final(self).wf(),
    {
        if self.count > 1 {
            let prev = if self.active == 0 {
                self.count - 1
            } else {
                self.active - 1
            };
            self.switch_to_tab(prev)
        } else {
            false
        }
    }

    /// Switch to the `n`-th tab, counting from one (Cmd+1 is the first).
    pub fn select_tab_by_number(&mut self, n: usize) -> (switched: bool)
        requires
            n >= 1,
        ensures
            switched == (n - 1 < old(self).count && n - 1 != old(self).active),
            final(self).count == old(self).count,
            final(self).active == (if switched {
                (n - 1) as usize
            } else {
                old(self).active
            }),
            old(self).wf() ==> final(self).wf(),
    {
        let index = n - 1;
        if index < self.count {
            self.switch_to_tab(index)
        } else {
            false
        }
    }

    /// Whether the tab bar shows (more than one tab).
    pub fn shows_tab_bar(&self) -> (r: bool)
        ensures
            r == (self.count > 1),
    {
        self.count > 1
    }

    /// The chrome height the panes leave room for.
    pub fn chrome_height(&self) -> (h: u32)
        ensures
            h == (if self.count > 1 {
                CHROME_HEIGHT_WITH_TABS
            } else {
                CHROME_HEIGHT_SINGLE_TAB
            }),
    {
        if self.count > 1 {
            CHROME_HEIGHT_WITH_TABS
        } else {
            CHROME_HEIGHT_SINGLE_TAB
        }
    }
}

/// Cmd+`n` (1 to 9): in code review mode Cmd+1 shows the Changes tab and
/// Cmd+2 the History tab, and the other numbers do nothing; in terminal
/// mode it selects the `n`-th terminal tab. Returns whether the terminal
/// tab changed.
pub fn select_tab_number(mode: Mode, strip: &mut TabStrip, panel: &mut CodeReviewPanel, n: usize) -> (switched: bool)
    requires
        n >= 1,
    ensures
        mode == Mode::CodeReview ==> !switched && *final(strip) == *old(strip) && (if n == 1 {
            CodeReviewPanel::tab_switched(*old(panel), *final(panel), ReviewTab::Changes)
        } else if n == 2 {
            CodeReviewPanel::tab_switched(*old(panel), *final(panel), ReviewTab::History)
        } else {
            *final(panel) == *old(panel)
        }),
        mode == Mode::Terminal ==> *final(panel) == *old(panel) && switched == (n - 1 < old(
            strip,
        ).count && n - 1 != old(strip).active) && final(strip).count == old(strip).count
            && final(strip).active == (if switched {
            (n - 1) as usize
        } else {
            old(strip).active
        }),
        old(strip).wf() ==> final(strip).wf(),
        old(panel).wf() ==> final(panel).wf(),
{
    match mode {
        Mode::CodeReview => {
            if n == 1 {
                panel.switch_to_review_tab(ReviewTab::Changes);
            } else if n == 2 {
                panel.switch_to_review_tab(ReviewTab::History);
            }
            false
        },
        Mode::Terminal => strip.select_tab_by_number(n),
    }
}

/// Cycling forward then back returns to the tab one started from.
pub proof fn law_next_then_prev_returns(count: int, active: int)
    requires
        count > 1,
        0 <= active < count,
    ensures
        0 <= next_index(count, active) < count,
        prev_index(count, next_index(count, active)) == active,
        next_index(count, prev_index(count, active)) == active,
{
    if active + 1 < count {
        assert((active + 1) % count == active + 1) by (nonlinear_arith)
            requires
                0 <= active + 1 < count,
        ;
    } else {
        assert((active + 1) % count == 0) by (nonlinear_arith)
            requires
                active + 1 == count,
                count > 1,
        ;
    }
    if active == 0 {
        assert((count - 1 + 1) % count == 0) by (nonlinear_arith)
            requires
                count > 1,
        ;
    } else {
        assert((active - 1 + 1) % count == active) by (nonlinear_arith)
            requires
                0 < active < count,
        ;
    }
}

} // verus!
