//! Code review: commit history, changed files and the diff viewer.
//!
//! The panel state below is what the code-review screen shows and edits: the
//! loaded commits and the (range) selection among them, the changed files of
//! the selection and of the working tree, the diffs, keyboard focus, scroll
//! positions and text selections. The requests it leaves in its `pending_*`
//! fields are what the window sends to the git worker.

pub mod intra_line;
pub mod diff_view;
pub mod commit_list;
pub mod text_selection;

use vstd::prelude::*;
use crate::git::types::{CommitInfo, DiffData, FileChange, FileDiff, copy_files, files_model};
use crate::code_review::text_selection::{
    TextSelection, copied_text, drag_ended, dragged_to, join_lines, select_from_texts,
    selection_pieces, started_at, copy_selected_text,
};
use crate::code_review::commit_list::{build_description_lines, description_texts, body_view, DescLine};
use crate::text::{chars_of, string_from_chars};
use crate::code_review::diff_view::{flatten_diff_for_copy, hunks_rows};

verus! {

/// Which tab is active in the Code Review panel.
#[derive(Debug, Clone, Copy, PartialEq, Eq, Structural)]
pub enum ReviewTab {
    Changes,
    History,
}

/// Which panel in Code Review mode currently has keyboard focus.
#[derive(Debug, Clone, Copy, PartialEq, Eq, Structural)]
pub enum ActivePanel {
    CommitList,
    FileList,
    DiffView,
    ChangesFileList,
    ChangesDiffView,
}

/// The panel after `p` in the focus cycle of its tab.
pub open spec fn next_panel(p: ActivePanel) -> ActivePanel {
    match p {
        ActivePanel::CommitList => ActivePanel::FileList,
        ActivePanel::FileList => ActivePanel::DiffView,
        ActivePanel::DiffView => ActivePanel::CommitList,
        ActivePanel::ChangesFileList => ActivePanel::ChangesDiffView,
        ActivePanel::ChangesDiffView => ActivePanel::ChangesFileList,
    }
}

/// The panel before `p` in the focus cycle of its tab.
pub open spec fn prev_panel(p: ActivePanel) -> ActivePanel {
    match p {
        ActivePanel::CommitList => ActivePanel::DiffView,
        ActivePanel::FileList => ActivePanel::CommitList,
        ActivePanel::DiffView => ActivePanel::FileList,
        ActivePanel::ChangesFileList => ActivePanel::ChangesDiffView,
        ActivePanel::ChangesDiffView => ActivePanel::ChangesFileList,
    }
}

impl ActivePanel {
    /// Move to the next panel (Right arrow). Wraps: Diff -> Commits.
    /// Changes tab: 2-panel circular (ChangesFileList <-> ChangesDiffView).
    pub fn next(self) -> (r: Self)
        ensures
            r == next_panel(self),
    {
        match self {
            ActivePanel::CommitList => ActivePanel::FileList,
            ActivePanel::FileList => ActivePanel::DiffView,
            ActivePanel::DiffView => ActivePanel::CommitList,
            ActivePanel::ChangesFileList => ActivePanel::ChangesDiffView,
            ActivePanel::ChangesDiffView => ActivePanel::ChangesFileList,
        }
    }

    /// Move to the previous panel (Left arrow). Wraps: Commits -> Diff.
    /// Changes tab: 2-panel circular (ChangesFileList <-> ChangesDiffView).
    pub fn prev(self) -> (r: Self)
        ensures
            r == prev_panel(self),
    {
        match self {
            ActivePanel::CommitList => ActivePanel::DiffView,
            ActivePanel::FileList => ActivePanel::CommitList,
            ActivePanel::DiffView => ActivePanel::FileList,
            ActivePanel::ChangesFileList => ActivePanel::ChangesDiffView,
            ActivePanel::ChangesDiffView => ActivePanel::ChangesFileList,
        }
    }
}

/// Moving focus forwards then backwards (or backwards then forwards) comes
/// back to the same panel, and focus never leaves its tab's panels.
pub proof fn law_panel_cycle(p: ActivePanel)
    ensures
        prev_panel(next_panel(p)) == p,
        next_panel(prev_panel(p)) == p,
        (p == ActivePanel::ChangesFileList || p == ActivePanel::ChangesDiffView) <==> (next_panel(p)
            == ActivePanel::ChangesFileList || next_panel(p) == ActivePanel::ChangesDiffView),
        next_panel(next_panel(next_panel(p))) == p || next_panel(next_panel(p)) == p,
{
}

/// The list a scroll request moves.
#[derive(Debug, Clone, Copy, PartialEq, Eq, Structural)]
pub enum ScrollTarget {
    CommitList,
    FileList,
    DiffView,
    ChangesFileList,
    ChangesDiffView,
}

/// How a list scrolls to an item: just enough to show it, or with it at the top.
#[derive(Debug, Clone, Copy, PartialEq, Eq, Structural)]
pub enum ScrollStrategy {
    Nearest,
    Top,
}

/// A request to scroll a list to an item, for the view to carry out.
#[derive(Debug, Clone, Copy, PartialEq, Eq, Structural)]
pub struct ScrollRequest {
    pub target: ScrollTarget,
    pub item: usize,
    pub strategy: ScrollStrategy,
}

/// The view of an optional string.
pub open spec fn opt_view(o: Option<String>) -> Option<Seq<char>> {
    match o {
        Some(s) => Some(s@),
        None => None,
    }
}

/// The view of an optional pair of strings.
pub open spec fn opt_pair_view(o: Option<(String, String)>) -> Option<(Seq<char>, Seq<char>)> {
    match o {
        Some(p) => Some((p.0@, p.1@)),
        None => None,
    }
}

/// A selection with nothing selected and no drag in progress.
pub open spec fn cleared() -> TextSelection {
    TextSelection { anchor: None, cursor: None, dragging: false }
}

/// The oid of commit `i`.
pub open spec fn oid_at(commits: Seq<CommitInfo>, i: int) -> Seq<char> {
    commits[i].oid@
}

/// The first index at or after `from` of a commit whose oid is `oid`.
pub open spec fn oid_position_from(commits: Seq<CommitInfo>, oid: Seq<char>, from: int) -> Option<int>
    decreases commits.len() - from,
{
    if from < 0 || from >= commits.len() {
        None
    } else if commits[from].oid@ == oid {
        Some(from)
    } else {
        oid_position_from(commits, oid, from + 1)
    }
}

/// The first index of a commit whose oid is `oid`.
pub open spec fn oid_position(commits: Seq<CommitInfo>, oid: Seq<char>) -> Option<int> {
    oid_position_from(commits, oid, 0)
}

/// The first index of a file change whose path is `path`.
pub open spec fn path_position_from(files: Seq<FileChange>, path: Seq<char>, from: int) -> Option<int>
    decreases files.len() - from,
{
    if from < 0 || from >= files.len() {
        None
    } else if files[from].path@ == path {
        Some(from)
    } else {
        path_position_from(files, path, from + 1)
    }
}

/// The first index of a file change whose path is `path`.
pub open spec fn path_position(files: Seq<FileChange>, path: Seq<char>) -> Option<int> {
    path_position_from(files, path, 0)
}

/// What decides whether a file list changed: path, status and line counts.
pub open spec fn file_key(f: FileChange) -> (Seq<char>, char, u64, u64) {
    (f.path@, f.status_char, f.additions, f.deletions)
}

/// The keys of a file list.
pub open spec fn file_keys(v: Seq<FileChange>) -> Seq<(Seq<char>, char, u64, u64)> {
    v.map_values(|f: FileChange| file_key(f))
}

/// The diff request of a selection from `anchor` to `cursor`: a range
/// (oldest, newest) where they differ, a single commit where they agree.
pub open spec fn selection_request(commits: Seq<CommitInfo>, anchor: int, cursor: int) -> (
    Option<Seq<char>>,
    Option<(Seq<char>, Seq<char>)>,
) {
    if anchor != cursor {
        let lo = if anchor < cursor {
            anchor
        } else {
            cursor
        };
        let hi = if anchor < cursor {
            cursor
        } else {
            anchor
        };
        (None, Some((oid_at(commits, hi), oid_at(commits, lo))))
    } else {
        (Some(oid_at(commits, cursor)), None)
    }
}

/// The Code Review panel state, showing commit history and file changes.
pub struct CodeReviewPanel {
    pub commits: Vec<CommitInfo>,
    pub selected_commit_index: Option<usize>,
    pub files: Vec<FileChange>,
    pub selected_file_index: Option<usize>,
    pub diff_data: Option<DiffData>,
    pub loading: bool,
    /// Set by select_commit; polled by the window to request a diff
    pub pending_diff_request: Option<String>,
    /// True while a request for more log entries is in flight
    pub loading_more: bool,
    /// True when the history walk has reached the end (no more batches)
    pub all_commits_loaded: bool,
    /// End index of the visible range in the commit list (near-bottom detection)
    pub visible_range_end: usize,
    /// Which panel currently has keyboard focus. Defaults to CommitList.
    pub active_panel: ActivePanel,
    /// The viewport top line index for diff panel keyboard scrolling.
    pub diff_scroll_top: usize,
    /// Number of diff rows visible in the viewport (updated during render).
    pub diff_visible_rows: usize,
    /// Which review tab is active (Changes or History). Defaults to History.
    pub active_tab: ReviewTab,
    pub changes_files: Vec<FileChange>,
    pub changes_diff_data: Option<DiffData>,
    pub selected_changes_file_index: Option<usize>,
    pub changes_diff_scroll_top: usize,
    pub changes_diff_visible_rows: usize,
    /// File path for on-demand Changes diff loading; polled by the window.
    pub pending_changes_diff_request: Option<String>,
    /// Flag to request a fresh working tree file list; polled by the window.
    pub pending_working_tree_request: bool,
    /// Character-level text selection for the History tab diff view.
    pub diff_text_selection: TextSelection,
    /// Character-level text selection for the Changes tab diff view.
    pub changes_diff_text_selection: TextSelection,
    /// Character-level text selection for the commit description area.
    pub description_text_selection: TextSelection,
    /// Character-level text selection for the History tab file path header.
    pub file_path_text_selection: TextSelection,
    /// Character-level text selection for the Changes tab file path header.
    pub changes_file_path_text_selection: TextSelection,
    /// Anchor index for range selection (fixed end). When anchor equals the
    /// selected index, it is a single selection.
    pub range_anchor: Option<usize>,
    /// Set when anchor != cursor: (oldest_oid, newest_oid), where oldest is
    /// the commit at max(anchor, cursor) and newest the one at min.
    pub pending_range_diff_request: Option<(String, String)>,
    /// The last scroll the view should carry out, if any.
    pub scroll_request: Option<ScrollRequest>,
}

impl CodeReviewPanel {
    /// The panel's indices into its commit list are in range.
    pub open spec fn wf(&self) -> bool {
        &&& (self.selected_commit_index matches Some(i) ==> i < self.commits@.len())
        &&& (self.range_anchor matches Some(a) ==> a < self.commits@.len())
    }

    /// Create a new empty panel in loading state.
    pub fn new() -> (p: Self)
        ensures
            p.wf(),
            p.commits@.len() == 0,
            p.selected_commit_index is None,
            p.files@.len() == 0,
            p.selected_file_index is None,
            p.diff_data is None,
            p.loading,
            p.pending_diff_request is None,
            !p.loading_more,
            !p.all_commits_loaded,
            p.visible_range_end == 0,
            p.active_panel == ActivePanel::CommitList,
            p.diff_scroll_top == 0,
            p.diff_visible_rows == 0,
            p.active_tab == ReviewTab::History,
            p.changes_files@.len() == 0,
            p.changes_diff_data is None,
            p.selected_changes_file_index is None,
            p.changes_diff_scroll_top == 0,
            p.changes_diff_visible_rows == 0,
            p.pending_changes_diff_request is None,
            !p.pending_working_tree_request,
            p.diff_text_selection == cleared(),
            p.changes_diff_text_selection == cleared(),
            p.description_text_selection == cleared(),
            p.file_path_text_selection == cleared(),
            p.changes_file_path_text_selection == cleared(),
            p.range_anchor is None,
            p.pending_range_diff_request is None,
            p.scroll_request is None,
    {
        CodeReviewPanel {
            commits: Vec::new(),
            selected_commit_index: None,
            files: Vec::new(),
            selected_file_index: None,
            diff_data: None,
            loading: true,
            pending_diff_request: None,
            loading_more: false,
            all_commits_loaded: false,
            visible_range_end: 0,
            active_panel: ActivePanel::CommitList,
            diff_scroll_top: 0,
            diff_visible_rows: 0,
            active_tab: ReviewTab::History,
            changes_files: Vec::new(),
            changes_diff_data: None,
            selected_changes_file_index: None,
            changes_diff_scroll_top: 0,
            changes_diff_visible_rows: 0,
            pending_changes_diff_request: None,
            pending_working_tree_request: false,
            diff_text_selection: TextSelection::default(),
            changes_diff_text_selection: TextSelection::default(),
            description_text_selection: TextSelection::default(),
            file_path_text_selection: TextSelection::default(),
            changes_file_path_text_selection: TextSelection::default(),
            range_anchor: None,
            pending_range_diff_request: None,
            scroll_request: None,
        }
    }

    /// Return the number of commits currently loaded.
    pub fn commits_len(&self) -> (n: usize)
        ensures
            n == self.commits@.len(),
    {
        self.commits.len()
    }

    /// Whether there are commits loaded but none selected (for auto-select
    /// on mode entry).
    pub fn needs_initial_selection(&self) -> (r: bool)
        ensures
            r == (self.selected_commit_index is None && self.commits@.len() > 0),
    {
        self.selected_commit_index.is_none() && self.commits.len() > 0
    }

    /// Return the currently selected commit, if any.
    pub fn selected_commit(&self) -> (r: Option<&CommitInfo>)
        ensures
            r == (match self.selected_commit_index {
                Some(i) => if i < self.commits@.len() {
                    Some(&self.commits@[i as int])
                } else {
                    None
                },
                None => None,
            }),
    {
        match self.selected_commit_index {
            Some(i) => if i < self.commits.len() {
                Some(&self.commits[i])
            } else {
                None
            },
            None => None,
        }
    }

    /// `b` is `a` after selecting commit `index` (scroll request aside): a
    /// single selection there, its diff requested, the file list, diff and
    /// diff/description selections cleared. Out of range, nothing changes.
    pub open spec fn commit_selected(a: Self, b: Self, index: usize) -> bool {
        if index < a.commits@.len() {
            &&& b.pending_diff_request matches Some(s) && s@ == oid_at(a.commits@, index as int)
            &&& b.files@.len() == 0
            &&& b == (CodeReviewPanel {
                selected_commit_index: Some(index),
                range_anchor: Some(index),
                files: b.files,
                selected_file_index: None,
                diff_data: None,
                pending_diff_request: b.pending_diff_request,
                pending_range_diff_request: None,
                diff_text_selection: cleared(),
                description_text_selection: cleared(),
                scroll_request: b.scroll_request,
                ..a
            })
        } else {
            b == (CodeReviewPanel { scroll_request: b.scroll_request, ..a })
        }
    }

    /// `b` is `a` with the active tab's diff text selection cleared.
    pub open spec fn diff_selection_cleared(a: Self, b: Self) -> bool {
        match a.active_tab {
            ReviewTab::History => b == (CodeReviewPanel { diff_text_selection: cleared(), ..a }),
            ReviewTab::Changes => b == (CodeReviewPanel {
                changes_diff_text_selection: cleared(),
                ..a
            }),
        }
    }

    /// `b` is `a` after selecting file `index` of the History tab (scroll
    /// request aside): the active tab's diff selection and the file path
    /// selection cleared. Out of range, nothing changes.
    pub open spec fn file_selected(a: Self, b: Self, index: usize) -> bool {
        if index < a.files@.len() {
            match a.active_tab {
                ReviewTab::History => b == (CodeReviewPanel {
                    diff_text_selection: cleared(),
                    file_path_text_selection: cleared(),
                    selected_file_index: Some(index),
                    scroll_request: b.scroll_request,
                    ..a
                }),
                ReviewTab::Changes => b == (CodeReviewPanel {
                    changes_diff_text_selection: cleared(),
                    file_path_text_selection: cleared(),
                    selected_file_index: Some(index),
                    scroll_request: b.scroll_request,
                    ..a
                }),
            }
        } else {
            b == (CodeReviewPanel { scroll_request: b.scroll_request, ..a })
        }
    }

    /// `b` is `a` after moving the commit selection up one.
    pub open spec fn did_move_commit_up(a: Self, b: Self) -> bool {
        match a.selected_commit_index {
            Some(i) if i > 0 => {
                &&& Self::commit_selected(a, b, (i - 1) as usize)
                &&& b.scroll_request == Some(
                    ScrollRequest {
                        target: ScrollTarget::CommitList,
                        item: (i - 1) as usize,
                        strategy: ScrollStrategy::Nearest,
                    },
                )
            },
            _ => b == a,
        }
    }

    /// `b` is `a` after moving the commit selection down one.
    pub open spec fn did_move_commit_down(a: Self, b: Self) -> bool {
        match a.selected_commit_index {
            Some(i) if i + 1 < a.commits@.len() => {
                &&& Self::commit_selected(a, b, (i + 1) as usize)
                &&& b.scroll_request == Some(
                    ScrollRequest {
                        target: ScrollTarget::CommitList,
                        item: (i + 1) as usize,
                        strategy: ScrollStrategy::Nearest,
                    },
                )
            },
            _ => b == a,
        }
    }

    /// `b` is `a` after moving the file selection up one.
    pub open spec fn did_move_file_up(a: Self, b: Self) -> bool {
        match a.selected_file_index {
            Some(i) if i > 0 => b == (CodeReviewPanel {
                selected_file_index: Some((i - 1) as usize),
                scroll_request: Some(
                    ScrollRequest {
                        target: ScrollTarget::FileList,
                        item: (i - 1) as usize,
                        strategy: ScrollStrategy::Nearest,
                    },
                ),
                ..a
            }),
            _ => b == a,
        }
    }

    /// `b` is `a` after moving the file selection down one.
    pub open spec fn did_move_file_down(a: Self, b: Self) -> bool {
        match a.selected_file_index {
            Some(i) if i + 1 < a.files@.len() => b == (CodeReviewPanel {
                selected_file_index: Some((i + 1) as usize),
                scroll_request: Some(
                    ScrollRequest {
                        target: ScrollTarget::FileList,
                        item: (i + 1) as usize,
                        strategy: ScrollStrategy::Nearest,
                    },
                ),
                ..a
            }),
            _ => b == a,
        }
    }

    /// `b` is `a` after scrolling the diff down a row.
    pub open spec fn did_scroll_diff_down(a: Self, b: Self, total_rows: usize) -> bool {
        ({
            let visible = if a.diff_visible_rows > 1 {
                a.diff_visible_rows as int
            } else {
                1
            };
            let max_scroll = if total_rows > visible {
                total_rows - visible
            } else {
                0
            };
            if a.diff_scroll_top < max_scroll {
                b == (CodeReviewPanel {
                    diff_scroll_top: (a.diff_scroll_top + 1) as usize,
                    scroll_request: Some(
                        ScrollRequest {
                            target: ScrollTarget::DiffView,
                            item: (a.diff_scroll_top + 1) as usize,
                            strategy: ScrollStrategy::Top,
                        },
                    ),
                    ..a
                })
            } else {
                b == a
            }
        })
    }

    /// `b` is `a` after scrolling the diff up a row.
    pub open spec fn did_scroll_diff_up(a: Self, b: Self) -> bool {
        if a.diff_scroll_top > 0 {
            b == (CodeReviewPanel {
                diff_scroll_top: (a.diff_scroll_top - 1) as usize,
                scroll_request: Some(
                    ScrollRequest {
                        target: ScrollTarget::DiffView,
                        item: (a.diff_scroll_top - 1) as usize,
                        strategy: ScrollStrategy::Top,
                    },
                ),
                ..a
            })
        } else {
            b == a
        }
    }

    /// `b` is `a` after moving the Changes file selection up one.
    pub open spec fn did_move_changes_file_up(a: Self, b: Self) -> bool {
        match a.selected_changes_file_index {
            Some(i) if i > 0 => {
                &&& Self::changes_file_selected(a, b, (i - 1) as usize)
                &&& b.scroll_request == Some(
                    ScrollRequest {
                        target: ScrollTarget::ChangesFileList,
                        item: (i - 1) as usize,
                        strategy: ScrollStrategy::Nearest,
                    },
                )
            },
            _ => b == a,
        }
    }

    /// `b` is `a` after moving the Changes file selection down one.
    pub open spec fn did_move_changes_file_down(a: Self, b: Self) -> bool {
        match a.selected_changes_file_index {
            Some(i) if i + 1 < a.changes_files@.len() => {
                &&& Self::changes_file_selected(a, b, (i + 1) as usize)
                &&& b.scroll_request == Some(
                    ScrollRequest {
                        target: ScrollTarget::ChangesFileList,
                        item: (i + 1) as usize,
                        strategy: ScrollStrategy::Nearest,
                    },
                )
            },
            _ => b == a,
        }
    }

    /// `b` is `a` after scrolling the Changes diff up a row.
    pub open spec fn did_scroll_changes_diff_up(a: Self, b: Self) -> bool {
        if a.changes_diff_scroll_top > 0 {
            b == (CodeReviewPanel {
                changes_diff_scroll_top: (a.changes_diff_scroll_top - 1) as usize,
                scroll_request: Some(
                    ScrollRequest {
                        target: ScrollTarget::ChangesDiffView,
                        item: (a.changes_diff_scroll_top - 1) as usize,
                        strategy: ScrollStrategy::Top,
                    },
                ),
                ..a
            })
        } else {
            b == a
        }
    }

    /// `b` is `a` after scrolling the Changes diff down a row.
    pub open spec fn did_scroll_changes_diff_down(a: Self, b: Self, total_rows: usize) -> bool {
        ({
            let visible = if a.changes_diff_visible_rows > 1 {
                a.changes_diff_visible_rows as int
            } else {
                1
            };
            let max_scroll = if total_rows > visible {
                total_rows - visible
            } else {
                0
            };
            if a.changes_diff_scroll_top < max_scroll {
                b == (CodeReviewPanel {
                    changes_diff_scroll_top: (a.changes_diff_scroll_top + 1) as usize,
                    scroll_request: Some(
                        ScrollRequest {
                            target: ScrollTarget::ChangesDiffView,
                            item: (a.changes_diff_scroll_top + 1) as usize,
                            strategy: ScrollStrategy::Top,
                        },
                    ),
                    ..a
                })
            } else {
                b == a
            }
        })
    }

    /// Select a commit by index. Sets pending_diff_request for the window to
    /// pick up, resets the range anchor to it (single selection), and clears
    /// the file list, diff, and diff and description text selections.
    pub fn select_commit(&mut self, index: usize)
        ensures
            Self::commit_selected(*old(self), *final(self), index),
            final(self).scroll_request == old(self).scroll_request,
            old(self).wf() ==> final(self).wf(),
    {
        if index < self.commits.len() {
            self.selected_commit_index = Some(index);
            self.range_anchor = Some(index);
            self.files.clear();
            self.selected_file_index = None;
            self.diff_data = None;
            self.pending_diff_request = Some(self.commits[index].oid.clone());
            self.pending_range_diff_request = None;
            self.diff_text_selection.clear();
            self.description_text_selection.clear();
        }
    }

    /// Clear the active tab's diff text selection (on file switch).
    pub fn clear_diff_selection(&mut self)
        ensures
            Self::diff_selection_cleared(*old(self), *final(self)),
            old(self).wf() ==> final(self).wf(),
    {
        match self.active_tab {
            ReviewTab::History => self.diff_text_selection.clear(),
            ReviewTab::Changes => self.changes_diff_text_selection.clear(),
        }
    }

    /// Select a file by index. Clears the active tab's diff selection and the
    /// file path selection.
    pub fn select_file(&mut self, index: usize)
        ensures
            Self::file_selected(*old(self), *final(self), index),
            final(self).scroll_request == old(self).scroll_request,
            old(self).wf() ==> final(self).wf(),
    {
        if index < self.files.len() {
            self.clear_diff_selection();
            self.file_path_text_selection.clear();
            self.selected_file_index = Some(index);
        }
    }

    /// Move commit selection up by one. Stops at index 0. Selects through
    /// select_commit, so the diff request follows.
    pub fn move_commit_up(&mut self)
        ensures
            Self::did_move_commit_up(*old(self), *final(self)),
            old(self).wf() ==> final(self).wf(),
    {
        let index = match self.selected_commit_index {
            Some(i) => i,
            None => return,
        };
        if index == 0 {
            return;
        }
        let new_index = index - 1;
        self.select_commit(new_index);
        self.scroll_request = Some(
            ScrollRequest {
                target: ScrollTarget::CommitList,
                item: new_index,
                strategy: ScrollStrategy::Nearest,
            },
        );
    }

    /// Move commit selection down by one. Stops at the last index.
    pub fn move_commit_down(&mut self)
        ensures
            Self::did_move_commit_down(*old(self), *final(self)),
            old(self).wf() ==> final(self).wf(),
    {
        let index = match self.selected_commit_index {
            Some(i) => i,
            None => return,
        };
        let last = if self.commits.len() > 0 {
            self.commits.len() - 1
        } else {
            0
        };
        if index >= last {
            return;
        }
        let new_index = index + 1;
        self.select_commit(new_index);
        self.scroll_request = Some(
            ScrollRequest {
                target: ScrollTarget::CommitList,
                item: new_index,
                strategy: ScrollStrategy::Nearest,
            },
        );
    }

    /// Move file selection up by one. Stops at index 0.
    pub fn move_file_up(&mut self)
        ensures
            Self::did_move_file_up(*old(self), *final(self)),
            old(self).wf() ==> final(self).wf(),
    {
        let index = match self.selected_file_index {
            Some(i) => i,
            None => return,
        };
        if index == 0 {
            return;
        }
        let new_index = index - 1;
        self.selected_file_index = Some(new_index);
        self.scroll_request = Some(
            ScrollRequest {
                target: ScrollTarget::FileList,
                item: new_index,
                strategy: ScrollStrategy::Nearest,
            },
        );
    }

    /// Move file selection down by one. Stops at the last index.
    pub fn move_file_down(&mut self)
        ensures
            Self::did_move_file_down(*old(self), *final(self)),
            old(self).wf() ==> final(self).wf(),
    {
        let index = match self.selected_file_index {
            Some(i) => i,
            None => return,
        };
        let last = if self.files.len() > 0 {
            self.files.len() - 1
        } else {
            0
        };
        if index >= last {
            return;
        }
        let new_index = index + 1;
        self.selected_file_index = Some(new_index);
        self.scroll_request = Some(
            ScrollRequest {
                target: ScrollTarget::FileList,
                item: new_index,
                strategy: ScrollStrategy::Nearest,
            },
        );
    }

    /// The oid of the commit at `index`, if the index is in range.
    pub open spec fn oid_at_index(commits: Seq<CommitInfo>, index: Option<usize>) -> Option<Seq<char>> {
        match index {
            Some(i) => if i < commits.len() {
                Some(commits[i as int].oid@)
            } else {
                None
            },
            None => None,
        }
    }

    /// Where a fresh commit list puts the (anchor, cursor) of a selection
    /// whose cursor was on commit `pc` and anchor on commit `pa`: both found
    /// again, they stay; only the cursor found, the selection collapses onto
    /// it; otherwise (or with no prior selection) the first commit. An empty
    /// list selects nothing.
    pub open spec fn restored_selection(
        commits: Seq<CommitInfo>,
        pc: Option<Seq<char>>,
        pa: Option<Seq<char>>,
    ) -> Option<(int, int)> {
        if commits.len() == 0 {
            None
        } else {
            match pc {
                Some(c) => match oid_position(commits, c) {
                    Some(cp) => match pa {
                        Some(a) => match oid_position(commits, a) {
                            Some(ap) => Some((ap, cp)),
                            None => Some((cp, cp)),
                        },
                        None => Some((cp, cp)),
                    },
                    None => Some((0, 0)),
                },
                None => Some((0, 0)),
            }
        }
    }

    /// Replace the commit list (a fresh log). Clears file and diff state, the
    /// loading flags and pending requests; restores the selection by oid
    /// where the previously selected commits are still listed (falling back
    /// to the first commit), requests the diff of the restored selection,
    /// and gives the commit list the focus.
    pub fn set_commits(&mut self, commits: Vec<CommitInfo>)
        ensures
            final(self).wf(),
            final(self).commits == commits,
            final(self).files@.len() == 0,
            ({
                let sel = Self::restored_selection(
                    commits@,
                    Self::oid_at_index(old(self).commits@, old(self).selected_commit_index),
                    Self::oid_at_index(old(self).commits@, old(self).range_anchor),
                );
                match sel {
                    None => {
                        &&& final(self).selected_commit_index is None
                        &&& final(self).range_anchor is None
                        &&& final(self).pending_diff_request is None
                        &&& final(self).pending_range_diff_request is None
                    },
                    Some((a, c)) => {
                        &&& final(self).selected_commit_index == Some(c as usize)
                        &&& final(self).range_anchor == Some(a as usize)
                        &&& (opt_view(final(self).pending_diff_request), opt_pair_view(
                            final(self).pending_range_diff_request,
                        )) == selection_request(commits@, a, c)
                    },
                }
            }),
            *final(self) == (CodeReviewPanel {
                commits: final(self).commits,
                files: final(self).files,
                selected_file_index: None,
                diff_data: None,
                loading: false,
                loading_more: false,
                all_commits_loaded: false,
                visible_range_end: 0,
                selected_commit_index: final(self).selected_commit_index,
                range_anchor: final(self).range_anchor,
                pending_diff_request: final(self).pending_diff_request,
                pending_range_diff_request: final(self).pending_range_diff_request,
                active_panel: ActivePanel::CommitList,
                ..*old(self)
            }),
    {
        let prev_cursor_oid = match self.selected_commit_index {
            Some(i) => if i < self.commits.len() {
                Some(self.commits[i].oid.clone())
            } else {
                None
            },
            None => None,
        };
        let prev_anchor_oid = match self.range_anchor {
            Some(i) => if i < self.commits.len() {
                Some(self.commits[i].oid.clone())
            } else {
                None
            },
            None => None,
        };
        let ghost pc = opt_view(prev_cursor_oid);
        let ghost pa = opt_view(prev_anchor_oid);
        self.commits = commits;
        self.files.clear();
        self.selected_file_index = None;
        self.diff_data = None;
        self.loading = false;
        self.loading_more = false;
        self.all_commits_loaded = false;
        self.visible_range_end = 0;
        self.pending_range_diff_request = None;
        self.pending_diff_request = None;
        let ghost sel = Self::restored_selection(self.commits@, pc, pa);
        if self.commits.len() == 0 {
            self.selected_commit_index = None;
            self.range_anchor = None;
        } else {
            let (anchor, cursor) = match prev_cursor_oid {
                Some(cursor_oid) => {
                    let cursor_pos = find_oid(&self.commits, &cursor_oid);
                    let anchor_pos = match prev_anchor_oid {
                        Some(anchor_oid) => find_oid(&self.commits, &anchor_oid),
                        None => None,
                    };
                    match (cursor_pos, anchor_pos) {
                        (Some(cp), Some(ap)) => (ap, cp),
                        (Some(cp), None) => (cp, cp),
                        _ => (0, 0),
                    }
                },
                None => (0, 0),
            };
            assert(sel == Some((anchor as int, cursor as int)));
            self.selected_commit_index = Some(cursor);
            self.range_anchor = Some(anchor);
            if anchor != cursor {
                let lo = if anchor < cursor {
                    anchor
                } else {
                    cursor
                };
                let hi = if anchor < cursor {
                    cursor
                } else {
                    anchor
                };
                let newest_oid = self.commits[lo].oid.clone();
                let oldest_oid = self.commits[hi].oid.clone();
                self.pending_range_diff_request = Some((oldest_oid, newest_oid));
            } else {
                self.pending_diff_request = Some(self.commits[cursor].oid.clone());
            }
        }
        self.active_panel = ActivePanel::CommitList;
    }

    /// The index of the file whose path is `path` in a file list, if any;
    /// else the first file, if there is one.
    pub open spec fn restored_file(files: Seq<FileChange>, path: Option<Seq<char>>) -> Option<int> {
        match path {
            Some(p) => match path_position(files, p) {
                Some(i) => Some(i),
                None => if files.len() == 0 {
                    None
                } else {
                    Some(0)
                },
            },
            None => if files.len() == 0 {
                None
            } else {
                Some(0)
            },
        }
    }

    /// The path of the file at `index`, if the index is in range.
    pub open spec fn path_at_index(files: Seq<FileChange>, index: Option<usize>) -> Option<Seq<char>> {
        match index {
            Some(i) => if i < files.len() {
                Some(files[i as int].path@)
            } else {
                None
            },
            None => None,
        }
    }

    /// Set the diff of the selected commit(s). Populates the file list,
    /// restores the file selection by path (falling back to the first file),
    /// resets the diff scroll and clears the diff, description and file path
    /// selections.
    pub fn set_diff(&mut self, diff: DiffData)
        ensures
            files_model(final(self).files@) == files_model(diff.files@),
            final(self).selected_file_index == (match Self::restored_file(
                diff.files@,
                Self::path_at_index(old(self).files@, old(self).selected_file_index),
            ) {
                Some(i) => Some(i as usize),
                None => None,
            }),
            *final(self) == (CodeReviewPanel {
                files: final(self).files,
                diff_data: Some(diff),
                diff_scroll_top: 0,
                diff_text_selection: cleared(),
                description_text_selection: cleared(),
                file_path_text_selection: cleared(),
                selected_file_index: final(self).selected_file_index,
                ..*old(self)
            }),
            old(self).wf() ==> final(self).wf(),
    {
        let prev_file_path = match self.selected_file_index {
            Some(i) => if i < self.files.len() {
                Some(self.files[i].path.clone())
            } else {
                None
            },
            None => None,
        };
        let files = copy_files(&diff.files);
        let ghost new_files = diff.files@;
        proof {
            assert(files_model(files@).len() == files_model(new_files).len());
        }
        let idx = match prev_file_path {
            Some(path) => match find_path(&files, &path) {
                Some(i) => Some(i),
                None => if files.len() == 0 {
                    None
                } else {
                    Some(0)
                },
            },
            None => if files.len() == 0 {
                None
            } else {
                Some(0)
            },
        };
        proof {
            lemma_path_position_model(files@, new_files, opt_view(prev_file_path));
        }
        self.files = files;
        self.diff_data = Some(diff);
        self.diff_scroll_top = 0;
        self.diff_text_selection.clear();
        self.description_text_selection.clear();
        self.file_path_text_selection.clear();
        self.selected_file_index = idx;
    }

    /// Maximum commits the panel will hold.
    pub const MAX_PANEL_COMMITS: usize = 50_000;

    /// Append incrementally loaded commits. Does not touch the selection,
    /// files or diff. A batch that is empty, or that would take the list past
    /// the panel's cap, is not appended and marks the history exhausted; so
    /// does `exhausted`.
    pub fn append_commits(&mut self, new_commits: Vec<CommitInfo>, exhausted: bool)
        ensures
            ({
                let accepted = new_commits@.len() > 0 && old(self).commits@.len()
                    + new_commits@.len() <= Self::MAX_PANEL_COMMITS;
                &&& final(self).commits@ == (if accepted {
                    old(self).commits@ + new_commits@
                } else {
                    old(self).commits@
                })
                &&& final(self).all_commits_loaded == (old(self).all_commits_loaded || !accepted
                    || exhausted)
            }),
            *final(self) == (CodeReviewPanel {
                commits: final(self).commits,
                loading_more: false,
                all_commits_loaded: final(self).all_commits_loaded,
                ..*old(self)
            }),
            old(self).wf() ==> final(self).wf(),
    {
        if new_commits.len() == 0 {
            self.all_commits_loaded = true;
        } else if self.commits.len() > Self::MAX_PANEL_COMMITS || new_commits.len()
            > Self::MAX_PANEL_COMMITS - self.commits.len() {
            self.all_commits_loaded = true;
        } else {
            let mut more = new_commits;
            self.commits.append(&mut more);
        }
        self.loading_more = false;
        self.all_commits_loaded = self.all_commits_loaded || exhausted;
    }

    /// Scroll the diff viewport down by one row. Stops when the last row is
    /// visible (the top can go up to `total_rows` minus the visible rows, at
    /// least one).
    pub fn scroll_diff_down(&mut self, total_rows: usize)
        ensures
            Self::did_scroll_diff_down(*old(self), *final(self), total_rows),
            old(self).wf() ==> final(self).wf(),
    {
        let visible = if self.diff_visible_rows > 1 {
            self.diff_visible_rows
        } else {
            1
        };
        let max_scroll = if total_rows > visible {
            total_rows - visible
        } else {
            0
        };
        if self.diff_scroll_top >= max_scroll {
            return;
        }
        self.diff_scroll_top = self.diff_scroll_top + 1;
        self.scroll_request = Some(
            ScrollRequest {
                target: ScrollTarget::DiffView,
                item: self.diff_scroll_top,
                strategy: ScrollStrategy::Top,
            },
        );
    }

    /// Scroll the diff viewport up by one row. Stops at row 0.
    pub fn scroll_diff_up(&mut self)
        ensures
            Self::did_scroll_diff_up(*old(self), *final(self)),
            old(self).wf() ==> final(self).wf(),
    {
        if self.diff_scroll_top == 0 {
            return;
        }
        self.diff_scroll_top = self.diff_scroll_top - 1;
        self.scroll_request = Some(
            ScrollRequest {
                target: ScrollTarget::DiffView,
                item: self.diff_scroll_top,
                strategy: ScrollStrategy::Top,
            },
        );
    }

    /// The diff of the selected History file: the diff data's entry at the
    /// selected index.
    pub open spec fn selected_file_diff_spec(&self) -> Option<FileDiff> {
        match (self.selected_file_index, self.diff_data) {
            (Some(i), Some(d)) => if i < d.file_diffs@.len() {
                Some(d.file_diffs@[i as int])
            } else {
                None
            },
            _ => None,
        }
    }

    /// Return the diff for the currently selected file, if any.
    pub fn selected_file_diff(&self) -> (r: Option<&FileDiff>)
        ensures
            match r {
                Some(fd) => self.selected_file_diff_spec() == Some(*fd),
                None => self.selected_file_diff_spec() is None,
            },
    {
        let file_index = match self.selected_file_index {
            Some(i) => i,
            None => return None,
        };
        let diff_data = match &self.diff_data {
            Some(d) => d,
            None => return None,
        };
        if file_index < diff_data.file_diffs.len() {
            Some(&diff_data.file_diffs[file_index])
        } else {
            None
        }
    }

    /// The number of diff rows (hunk headers and lines) of the selected
    /// History file, 0 without one.
    pub fn diff_row_count(&self) -> (n: usize)
        ensures
            n == match self.selected_file_diff_spec() {
                Some(fd) => hunks_rows(fd.hunks@).len(),
                None => 0,
            },
    {
        match self.selected_file_diff() {
            Some(fd) => {
                let rows = flatten_diff_for_copy(fd);
                proof {
                    assert(crate::code_review::diff_view::rows_model(rows@).len() == rows@.len());
                }
                rows.len()
            },
            None => 0,
        }
    }

    /// `b` is `a` after switching to review tab `tab`: the tab and its first
    /// panel become active, and a switch to Changes asks for a fresh working
    /// tree file list; switching to the tab already shown changes nothing.
    pub open spec fn tab_switched(a: Self, b: Self, tab: ReviewTab) -> bool {
        if a.active_tab == tab {
            b == a
        } else {
            match tab {
                ReviewTab::Changes => b == (CodeReviewPanel {
                    active_tab: tab,
                    active_panel: ActivePanel::ChangesFileList,
                    pending_working_tree_request: true,
                    ..a
                }),
                ReviewTab::History => b == (CodeReviewPanel {
                    active_tab: tab,
                    active_panel: ActivePanel::CommitList,
                    ..a
                }),
            }
        }
    }

    /// Switch to a review tab and focus its first panel. Switching to the
    /// Changes tab also asks for a fresh working tree file list. Does not
    /// clear either tab's data; switching to the tab already shown does
    /// nothing.
    pub fn switch_to_review_tab(&mut self, tab: ReviewTab)
        ensures
            Self::tab_switched(*old(self), *final(self), tab),
            old(self).wf() ==> final(self).wf(),
    {
        if self.active_tab == tab {
            return;
        }
        self.active_tab = tab;
        self.active_panel = match tab {
            ReviewTab::Changes => {
                self.pending_working_tree_request = true;
                ActivePanel::ChangesFileList
            },
            ReviewTab::History => ActivePanel::CommitList,
        };
    }

    /// `b` is `a` after selecting Changes file `index` (scroll request
    /// aside): the active tab's diff selection and the Changes file path
    /// selection cleared, the file's diff requested and its scroll reset. Out
    /// of range, nothing changes.
    pub open spec fn changes_file_selected(a: Self, b: Self, index: usize) -> bool {
        if index < a.changes_files@.len() {
            &&& b.pending_changes_diff_request matches Some(s) && s@
                == a.changes_files@[index as int].path@
            &&& match a.active_tab {
                ReviewTab::History => b == (CodeReviewPanel {
                    diff_text_selection: cleared(),
                    changes_file_path_text_selection: cleared(),
                    selected_changes_file_index: Some(index),
                    pending_changes_diff_request: b.pending_changes_diff_request,
                    changes_diff_scroll_top: 0,
                    scroll_request: b.scroll_request,
                    ..a
                }),
                ReviewTab::Changes => b == (CodeReviewPanel {
                    changes_diff_text_selection: cleared(),
                    changes_file_path_text_selection: cleared(),
                    selected_changes_file_index: Some(index),
                    pending_changes_diff_request: b.pending_changes_diff_request,
                    changes_diff_scroll_top: 0,
                    scroll_request: b.scroll_request,
                    ..a
                }),
            }
        } else {
            b == (CodeReviewPanel { scroll_request: b.scroll_request, ..a })
        }
    }

    /// Select a Changes file by index and request its diff. Clears the
    /// active tab's diff selection and the Changes file path selection.
    pub fn select_changes_file(&mut self, index: usize)
        ensures
            Self::changes_file_selected(*old(self), *final(self), index),
            final(self).scroll_request == old(self).scroll_request,
            old(self).wf() ==> final(self).wf(),
    {
        if index < self.changes_files.len() {
            self.clear_diff_selection();
            self.changes_file_path_text_selection.clear();
            self.selected_changes_file_index = Some(index);
            self.pending_changes_diff_request = Some(self.changes_files[index].path.clone());
            self.changes_diff_scroll_top = 0;
        }
    }

    /// Move Changes tab file selection up. Stops at 0.
    pub fn move_changes_file_up(&mut self)
        ensures
            Self::did_move_changes_file_up(*old(self), *final(self)),
            old(self).wf() ==> final(self).wf(),
    {
        let index = match self.selected_changes_file_index {
            Some(i) => i,
            None => return,
        };
        if index == 0 {
            return;
        }
        let new_index = index - 1;
        self.select_changes_file(new_index);
        self.scroll_request = Some(
            ScrollRequest {
                target: ScrollTarget::ChangesFileList,
                item: new_index,
                strategy: ScrollStrategy::Nearest,
            },
        );
    }

    /// Move Changes tab file selection down. Stops at the last file.
    pub fn move_changes_file_down(&mut self)
        ensures
            Self::did_move_changes_file_down(*old(self), *final(self)),
            old(self).wf() ==> final(self).wf(),
    {
        let index = match self.selected_changes_file_index {
            Some(i) => i,
            None => return,
        };
        let last = if self.changes_files.len() > 0 {
            self.changes_files.len() - 1
        } else {
            0
        };
        if index >= last {
            return;
        }
        let new_index = index + 1;
        self.select_changes_file(new_index);
        self.scroll_request = Some(
            ScrollRequest {
                target: ScrollTarget::ChangesFileList,
                item: new_index,
                strategy: ScrollStrategy::Nearest,
            },
        );
    }

    /// Scroll the Changes tab diff viewport up. Stops at 0.
    pub fn scroll_changes_diff_up(&mut self)
        ensures
            Self::did_scroll_changes_diff_up(*old(self), *final(self)),
            old(self).wf() ==> final(self).wf(),
    {
        if self.changes_diff_scroll_top == 0 {
            return;
        }
        self.changes_diff_scroll_top = self.changes_diff_scroll_top - 1;
        self.scroll_request = Some(
            ScrollRequest {
                target: ScrollTarget::ChangesDiffView,
                item: self.changes_diff_scroll_top,
                strategy: ScrollStrategy::Top,
            },
        );
    }

    /// Scroll the Changes tab diff viewport down. Stops when the last row is
    /// visible.
    pub fn scroll_changes_diff_down(&mut self, total_rows: usize)
        ensures
            Self::did_scroll_changes_diff_down(*old(self), *final(self), total_rows),
            old(self).wf() ==> final(self).wf(),
    {
        let visible = if self.changes_diff_visible_rows > 1 {
            self.changes_diff_visible_rows
        } else {
            1
        };
        let max_scroll = if total_rows > visible {
            total_rows - visible
        } else {
            0
        };
        if self.changes_diff_scroll_top >= max_scroll {
            return;
        }
        self.changes_diff_scroll_top = self.changes_diff_scroll_top + 1;
        self.scroll_request = Some(
            ScrollRequest {
                target: ScrollTarget::ChangesDiffView,
                item: self.changes_diff_scroll_top,
                strategy: ScrollStrategy::Top,
            },
        );
    }

    /// The diff of the selected Changes file: the working tree diff is
    /// fetched per file, so it is the first entry of the Changes diff data.
    pub open spec fn selected_changes_file_diff_spec(&self) -> Option<FileDiff> {
        match (self.selected_changes_file_index, self.changes_diff_data) {
            (Some(_), Some(d)) => if d.file_diffs@.len() > 0 {
                Some(d.file_diffs@[0])
            } else {
                None
            },
            _ => None,
        }
    }

    /// Return the diff for the selected Changes file, if any.
    pub fn selected_changes_file_diff(&self) -> (r: Option<&FileDiff>)
        ensures
            match r {
                Some(fd) => self.selected_changes_file_diff_spec() == Some(*fd),
                None => self.selected_changes_file_diff_spec() is None,
            },
    {
        if self.selected_changes_file_index.is_none() {
            return None;
        }
        let diff_data = match &self.changes_diff_data {
            Some(d) => d,
            None => return None,
        };
        if diff_data.file_diffs.len() > 0 {
            Some(&diff_data.file_diffs[0])
        } else {
            None
        }
    }

    /// The number of diff rows of the selected Changes file, 0 without one.
    pub fn changes_diff_row_count(&self) -> (n: usize)
        ensures
            n == match self.selected_changes_file_diff_spec() {
                Some(fd) => hunks_rows(fd.hunks@).len(),
                None => 0,
            },
    {
        match self.selected_changes_file_diff() {
            Some(fd) => {
                let rows = flatten_diff_for_copy(fd);
                proof {
                    assert(crate::code_review::diff_view::rows_model(rows@).len() == rows@.len());
                }
                rows.len()
            },
            None => 0,
        }
    }

    /// Return the number of files in the Changes tab file list.
    pub fn changes_file_count(&self) -> (n: usize)
        ensures
            n == self.changes_files@.len(),
    {
        self.changes_files.len()
    }

    /// The heading of the file list: "<n> changed files" when there are
    /// files, else "Changed Files".
    pub fn files_header_text(file_count: usize) -> (s: String)
        ensures
            s@ == (if file_count > 0 {
                crate::text::decimal_text(file_count as nat) + " changed files"@
            } else {
                "Changed Files"@
            }),
    {
        if file_count > 0 {
            let mut s = crate::text::decimal_string(file_count as u64);
            s.append(" changed files");
            s
        } else {
            String::from_str("Changed Files")
        }
    }

    /// Whether two file lists differ in a path, status or line counts.
    pub fn files_changed(old: &Vec<FileChange>, new: &Vec<FileChange>) -> (r: bool)
        ensures
            r == (file_keys(old@) != file_keys(new@)),
    {
        if old.len() != new.len() {
            assert(file_keys(old@).len() != file_keys(new@).len());
            return true;
        }
        let mut i: usize = 0;
        while i < old.len()
            invariant
                old@.len() == new@.len(),
                i <= old@.len(),
                forall|k: int| 0 <= k < i ==> file_key(#[trigger] old@[k]) == file_key(new@[k]),
            decreases old@.len() - i,
        {
            let a = &old[i];
            let b = &new[i];
            if a.path != b.path || a.status_char != b.status_char || a.additions != b.additions
                || a.deletions != b.deletions {
                assert(file_keys(old@)[i as int] != file_keys(new@)[i as int]);
                return true;
            }
            i = i + 1;
        }
        assert(file_keys(old@) =~= file_keys(new@));
        false
    }

    /// Set the Changes tab file list (a working tree refresh), keeping the
    /// selected file by path. A diff is requested (and its scroll reset) when
    /// the selection falls back to the first file, or when the selected file
    /// is still listed but the list changed; an empty list clears the
    /// selection, the diff and any pending request.
    pub fn set_changes_files(&mut self, files: Vec<FileChange>)
        ensures
            final(self).changes_files == files,
            ({
                let prev = Self::path_at_index(
                    old(self).changes_files@,
                    old(self).selected_changes_file_index,
                );
                let changed = file_keys(old(self).changes_files@) != file_keys(files@);
                if files@.len() == 0 {
                    *final(self) == (CodeReviewPanel {
                        changes_files: files,
                        selected_changes_file_index: None,
                        changes_diff_data: None,
                        pending_changes_diff_request: None,
                        ..*old(self)
                    })
                } else {
                    let kept = match prev {
                        Some(p) => path_position(files@, p),
                        None => None,
                    };
                    match kept {
                        Some(i) => {
                            &&& changed ==> opt_view(final(self).pending_changes_diff_request)
                                == prev
                            &&& *final(self) == (CodeReviewPanel {
                                changes_files: files,
                                selected_changes_file_index: Some(i as usize),
                                pending_changes_diff_request: if changed {
                                    final(self).pending_changes_diff_request
                                } else {
                                    old(self).pending_changes_diff_request
                                },
                                changes_diff_scroll_top: if changed {
                                    0
                                } else {
                                    old(self).changes_diff_scroll_top
                                },
                                ..*old(self)
                            })
                        },
                        None => {
                            &&& opt_view(final(self).pending_changes_diff_request) == Some(
                                files@[0].path@,
                            )
                            &&& *final(self) == (CodeReviewPanel {
                                changes_files: files,
                                selected_changes_file_index: Some(0),
                                pending_changes_diff_request: final(self).pending_changes_diff_request,
                                changes_diff_scroll_top: 0,
                                ..*old(self)
                            })
                        },
                    }
                }
            }),
            old(self).wf() ==> final(self).wf(),
    {
        let prev_path = match self.selected_changes_file_index {
            Some(i) => if i < self.changes_files.len() {
                Some(self.changes_files[i].path.clone())
            } else {
                None
            },
            None => None,
        };
        let changed = Self::files_changed(&self.changes_files, &files);
        self.changes_files = files;
        if self.changes_files.len() == 0 {
            self.selected_changes_file_index = None;
            self.changes_diff_data = None;
            self.pending_changes_diff_request = None;
            return;
        }
        let kept = match &prev_path {
            Some(path) => find_path(&self.changes_files, path),
            None => None,
        };
        match kept {
            Some(new_idx) => {
                self.selected_changes_file_index = Some(new_idx);
                if changed {
                    match prev_path {
                        Some(path) => {
                            self.pending_changes_diff_request = Some(path);
                        },
                        None => {},
                    }
                    self.changes_diff_scroll_top = 0;
                }
            },
            None => {
                self.selected_changes_file_index = Some(0);
                self.pending_changes_diff_request = Some(self.changes_files[0].path.clone());
                self.changes_diff_scroll_top = 0;
            },
        }
    }

    /// Set the Changes tab diff (a working tree diff for the selected file).
    /// Resets its scroll and clears the Changes diff and file path selections.
    pub fn set_changes_diff(&mut self, diff: DiffData)
        ensures
            *final(self) == (CodeReviewPanel {
                changes_diff_data: Some(diff),
                changes_diff_scroll_top: 0,
                changes_diff_text_selection: cleared(),
                changes_file_path_text_selection: cleared(),
                ..*old(self)
            }),
            old(self).wf() ==> final(self).wf(),
    {
        self.changes_diff_data = Some(diff);
        self.changes_diff_scroll_top = 0;
        self.changes_diff_text_selection.clear();
        self.changes_file_path_text_selection.clear();
    }

    /// The diff text selection of the active tab.
    pub open spec fn active_diff_selection(&self) -> TextSelection {
        match self.active_tab {
            ReviewTab::History => self.diff_text_selection,
            ReviewTab::Changes => self.changes_diff_text_selection,
        }
    }

    /// The file path text selection of the active tab.
    pub open spec fn active_path_selection(&self) -> TextSelection {
        match self.active_tab {
            ReviewTab::History => self.file_path_text_selection,
            ReviewTab::Changes => self.changes_file_path_text_selection,
        }
    }

    /// `b` is `a` with the active tab's diff selection set to `sel`.
    pub open spec fn with_diff_selection(a: Self, sel: TextSelection) -> Self {
        match a.active_tab {
            ReviewTab::History => CodeReviewPanel { diff_text_selection: sel, ..a },
            ReviewTab::Changes => CodeReviewPanel { changes_diff_text_selection: sel, ..a },
        }
    }

    /// `a` with the active tab's file path selection set to `sel`.
    pub open spec fn with_path_selection(a: Self, sel: TextSelection) -> Self {
        match a.active_tab {
            ReviewTab::History => CodeReviewPanel { file_path_text_selection: sel, ..a },
            ReviewTab::Changes => CodeReviewPanel { changes_file_path_text_selection: sel, ..a },
        }
    }

    /// Start a drag in the diff view of the active tab. Clears the
    /// description and both file path selections (one selection at a time).
    pub fn start_diff_drag(&mut self, row: usize, col: usize)
        ensures
            *final(self) == Self::with_diff_selection(
                CodeReviewPanel {
                    description_text_selection: cleared(),
                    file_path_text_selection: cleared(),
                    changes_file_path_text_selection: cleared(),
                    ..*old(self)
                },
                started_at(row, col),
            ),
            old(self).wf() ==> final(self).wf(),
    {
        self.description_text_selection.clear();
        self.file_path_text_selection.clear();
        self.changes_file_path_text_selection.clear();
        match self.active_tab {
            ReviewTab::History => self.diff_text_selection.start_drag(row, col),
            ReviewTab::Changes => self.changes_diff_text_selection.start_drag(row, col),
        }
    }

    /// Update the drag position in the diff view of the active tab.
    pub fn update_diff_drag(&mut self, row: usize, col: usize)
        ensures
            *final(self) == Self::with_diff_selection(
                *old(self),
                dragged_to(old(self).active_diff_selection(), row, col),
            ),
            old(self).wf() ==> final(self).wf(),
    {
        match self.active_tab {
            ReviewTab::History => self.diff_text_selection.update_drag(row, col),
            ReviewTab::Changes => self.changes_diff_text_selection.update_drag(row, col),
        }
    }

    /// End the current drag in the diff view of the active tab.
    pub fn end_diff_drag(&mut self)
        ensures
            *final(self) == Self::with_diff_selection(
                *old(self),
                drag_ended(old(self).active_diff_selection()),
            ),
            old(self).wf() ==> final(self).wf(),
    {
        match self.active_tab {
            ReviewTab::History => self.diff_text_selection.end_drag(),
            ReviewTab::Changes => self.changes_diff_text_selection.end_drag(),
        }
    }

    /// Return the active tab's diff text selection.
    pub fn active_diff_text_selection(&self) -> (r: &TextSelection)
        ensures
            *r == self.active_diff_selection(),
    {
        match self.active_tab {
            ReviewTab::History => &self.diff_text_selection,
            ReviewTab::Changes => &self.changes_diff_text_selection,
        }
    }

    /// The diff of the active tab's selected file.
    pub open spec fn active_file_diff(&self) -> Option<FileDiff> {
        match self.active_tab {
            ReviewTab::History => self.selected_file_diff_spec(),
            ReviewTab::Changes => self.selected_changes_file_diff_spec(),
        }
    }

    /// What copying the active diff selection yields: the selected text of
    /// the active file's diff rows, or nothing without a selection or a file.
    pub open spec fn diff_copy_spec(&self) -> Option<Seq<char>> {
        match (self.active_diff_selection().range_spec(), self.active_file_diff()) {
            (Some((s, e)), Some(fd)) => Some(copied_text(hunks_rows(fd.hunks@), s, e)),
            _ => None,
        }
    }

    /// Extract the character-level selected text of the active diff view
    /// for the clipboard. `None` without a selection.
    pub fn copy_selected_diff_text(&self) -> (r: Option<String>)
        ensures
            opt_view(r) == self.diff_copy_spec(),
    {
        let selection = self.active_diff_text_selection();
        let (start, end) = match selection.normalized_range() {
            Some(r) => r,
            None => return None,
        };
        let file_diff = match self.active_tab {
            ReviewTab::History => match self.selected_file_diff() {
                Some(fd) => fd,
                None => return None,
            },
            ReviewTab::Changes => match self.selected_changes_file_diff() {
                Some(fd) => fd,
                None => return None,
            },
        };
        let rows = flatten_diff_for_copy(file_diff);
        Some(copy_selected_text(rows.as_slice(), start, end))
    }

    /// Start a drag in the commit description area. Clears the diff and file
    /// path selections.
    pub fn start_description_drag(&mut self, row: usize, col: usize)
        ensures
            *final(self) == (CodeReviewPanel {
                file_path_text_selection: cleared(),
                changes_file_path_text_selection: cleared(),
                description_text_selection: started_at(row, col),
                ..Self::with_diff_selection(*old(self), cleared())
            }),
            old(self).wf() ==> final(self).wf(),
    {
        self.clear_diff_selection();
        self.file_path_text_selection.clear();
        self.changes_file_path_text_selection.clear();
        self.description_text_selection.start_drag(row, col);
    }

    /// Update the drag position in the commit description area.
    pub fn update_description_drag(&mut self, row: usize, col: usize)
        ensures
            *final(self) == (CodeReviewPanel {
                description_text_selection: dragged_to(
                    old(self).description_text_selection,
                    row,
                    col,
                ),
                ..*old(self)
            }),
            old(self).wf() ==> final(self).wf(),
    {
        self.description_text_selection.update_drag(row, col);
    }

    /// End the current drag in the commit description area.
    pub fn end_description_drag(&mut self)
        ensures
            *final(self) == (CodeReviewPanel {
                description_text_selection: drag_ended(old(self).description_text_selection),
                ..*old(self)
            }),
            old(self).wf() ==> final(self).wf(),
    {
        self.description_text_selection.end_drag();
    }

    /// Clear the description text selection.
    pub fn clear_description_selection(&mut self)
        ensures
            *final(self) == (CodeReviewPanel { description_text_selection: cleared(), ..*old(self) }),
            old(self).wf() ==> final(self).wf(),
    {
        self.description_text_selection.clear();
    }

    /// Start a drag in the file path header of the active tab. Clears the
    /// diff and description selections.
    pub fn start_file_path_drag(&mut self, col: usize)
        ensures
            *final(self) == Self::with_path_selection(
                CodeReviewPanel {
                    description_text_selection: cleared(),
                    ..Self::with_diff_selection(*old(self), cleared())
                },
                started_at(0, col),
            ),
            old(self).wf() ==> final(self).wf(),
    {
        self.clear_diff_selection();
        self.description_text_selection.clear();
        match self.active_tab {
            ReviewTab::History => self.file_path_text_selection.start_drag(0, col),
            ReviewTab::Changes => self.changes_file_path_text_selection.start_drag(0, col),
        }
    }

    /// Update the drag position in the file path header of the active tab.
    pub fn update_file_path_drag(&mut self, col: usize)
        ensures
            *final(self) == Self::with_path_selection(
                *old(self),
                dragged_to(old(self).active_path_selection(), 0, col),
            ),
            old(self).wf() ==> final(self).wf(),
    {
        match self.active_tab {
            ReviewTab::History => self.file_path_text_selection.update_drag(0, col),
            ReviewTab::Changes => self.changes_file_path_text_selection.update_drag(0, col),
        }
    }

    /// End the current drag in the file path header of the active tab.
    pub fn end_file_path_drag(&mut self)
        ensures
            *final(self) == Self::with_path_selection(
                *old(self),
                drag_ended(old(self).active_path_selection()),
            ),
            old(self).wf() ==> final(self).wf(),
    {
        match self.active_tab {
            ReviewTab::History => self.file_path_text_selection.end_drag(),
            ReviewTab::Changes => self.changes_file_path_text_selection.end_drag(),
        }
    }

    /// Return the active tab's file path text selection.
    pub fn active_file_path_text_selection(&self) -> (r: &TextSelection)
        ensures
            *r == self.active_path_selection(),
    {
        match self.active_tab {
            ReviewTab::History => &self.file_path_text_selection,
            ReviewTab::Changes => &self.changes_file_path_text_selection,
        }
    }

    /// The description lines of the selected commit, if one is selected.
    pub open spec fn description_spec(&self) -> Option<Seq<Seq<char>>> {
        match self.selected_commit_index {
            Some(i) => if i < self.commits@.len() {
                Some(
                    description_texts(
                        self.commits@[i as int].summary@,
                        body_view(self.commits@[i as int]),
                    ),
                )
            } else {
                None
            },
            None => None,
        }
    }

    /// What copying the description selection yields: the selected pieces of
    /// the selected commit's description lines joined with newlines; nothing
    /// without a selection, a commit, or any selected line.
    pub open spec fn description_copy_spec(&self) -> Option<Seq<char>> {
        match (self.description_text_selection.range_spec(), self.description_spec()) {
            (Some((s, e)), Some(texts)) => {
                let pieces = selection_pieces(texts, s, e);
                if pieces.len() == 0 {
                    None
                } else {
                    Some(join_lines(pieces))
                }
            },
            _ => None,
        }
    }

    /// Extract selected text from the commit description area.
    pub fn copy_selected_description_text(&self) -> (r: Option<String>)
        ensures
            opt_view(r) == self.description_copy_spec(),
    {
        let (start, end) = match self.description_text_selection.normalized_range() {
            Some(r) => r,
            None => return None,
        };
        let commit = match self.selected_commit() {
            Some(c) => c,
            None => return None,
        };
        let lines = build_description_lines(commit);
        let ghost texts_spec = description_texts(commit.summary@, body_view(*commit));
        let mut texts: Vec<Vec<char>> = Vec::new();
        let mut i: usize = 0;
        while i < lines.len()
            invariant
                i <= lines@.len(),
                lines@.map_values(|l: DescLine| l.text@) == texts_spec,
                texts@.map_values(|t: Vec<char>| t@) == texts_spec.take(i as int),
            decreases lines@.len() - i,
        {
            let ghost prev = texts@;
            texts.push(chars_of(lines[i].text.as_str()));
            proof {
                assert(texts_spec[i as int] == lines@[i as int].text@);
                assert(texts@.map_values(|t: Vec<char>| t@) =~= prev.map_values(|t: Vec<char>| t@).push(
                    texts_spec[i as int],
                ));
                assert(texts_spec.take(i + 1) =~= texts_spec.take(i as int).push(
                    texts_spec[i as int],
                ));
            }
            i = i + 1;
        }
        assert(texts_spec.take(i as int) =~= texts_spec);
        let (out, count) = select_from_texts(&texts, start, end);
        if count == 0 {
            None
        } else {
            Some(string_from_chars(&out))
        }
    }

    /// The file path shown in the active tab's header: the selected History
    /// file's diff path, or the Changes diff's (first) file path.
    pub open spec fn header_path_spec(&self) -> Option<Seq<char>> {
        match self.active_tab {
            ReviewTab::History => match self.selected_file_diff_spec() {
                Some(fd) => Some(fd.path@),
                None => None,
            },
            ReviewTab::Changes => match self.changes_diff_data {
                Some(d) => if d.file_diffs@.len() > 0 {
                    Some(d.file_diffs@[0].path@)
                } else {
                    None
                },
                None => None,
            },
        }
    }

    /// What copying the file path selection yields: the selected columns of
    /// the header path (clamped to its length), nothing when they are empty.
    pub open spec fn path_copy_spec(&self) -> Option<Seq<char>> {
        match (self.active_path_selection().range_spec(), self.header_path_spec()) {
            (Some((s, e)), Some(path)) => {
                let n = path.len() as int;
                let cs = if s.1 < n {
                    s.1 as int
                } else {
                    n
                };
                let ce = if e.1 < n {
                    e.1 as int
                } else {
                    n
                };
                if cs >= ce {
                    None
                } else {
                    Some(path.subrange(cs, ce))
                }
            },
            _ => None,
        }
    }

    /// Extract selected text from the file path header.
    pub fn copy_selected_file_path_text(&self) -> (r: Option<String>)
        ensures
            opt_view(r) == self.path_copy_spec(),
    {
        let sel = self.active_file_path_text_selection();
        let (start, end) = match sel.normalized_range() {
            Some(r) => r,
            None => return None,
        };
        let (_start_row, start_col) = start;
        let (_end_row, end_col) = end;
        let path: &String = match self.active_tab {
            ReviewTab::History => match self.selected_file_diff() {
                Some(fd) => &fd.path,
                None => return None,
            },
            ReviewTab::Changes => match &self.changes_diff_data {
                Some(d) => if d.file_diffs.len() > 0 {
                    &d.file_diffs[0].path
                } else {
                    return None;
                },
                None => return None,
            },
        };
        let chars = chars_of(path.as_str());
        let n = chars.len();
        let col_start = if start_col < n {
            start_col
        } else {
            n
        };
        let col_end = if end_col < n {
            end_col
        } else {
            n
        };
        if col_start >= col_end {
            return None;
        }
        let mut out: Vec<char> = Vec::new();
        let mut k = col_start;
        while k < col_end
            invariant
                col_start <= k <= col_end <= chars@.len(),
                out@ == chars@.subrange(col_start as int, k as int),
            decreases col_end - k,
        {
            out.push(chars[k]);
            assert(chars@.subrange(col_start as int, k + 1) =~= chars@.subrange(
                col_start as int,
                k as int,
            ).push(chars@[k as int]));
            k = k + 1;
        }
        Some(string_from_chars(&out))
    }

    /// What copying yields: the description selection if there is one, else
    /// the active file path selection if there is one, else the diff's.
    pub open spec fn copy_spec(&self) -> Option<Seq<char>> {
        if self.description_text_selection.range_spec() is Some {
            self.description_copy_spec()
        } else if self.active_path_selection().range_spec() is Some {
            self.path_copy_spec()
        } else {
            self.diff_copy_spec()
        }
    }

    /// Copy text from whichever area has a selection: the description first,
    /// then the file path, then the diff. `None` when nothing is selected.
    pub fn copy_active_selection(&self) -> (r: Option<String>)
        ensures
            opt_view(r) == self.copy_spec(),
    {
        if !self.description_text_selection.is_empty() {
            return self.copy_selected_description_text();
        }
        let file_path_sel = self.active_file_path_text_selection();
        if !file_path_sel.is_empty() {
            return self.copy_selected_file_path_text();
        }
        self.copy_selected_diff_text()
    }

    /// `b` is `a` with the selection from `anchor` to `cursor` (scroll
    /// request aside): the file list and diff cleared and the selection's
    /// diff requested.
    pub open spec fn range_selected(a: Self, b: Self, anchor: usize, cursor: usize) -> bool {
        &&& b.files@.len() == 0
        &&& (opt_view(b.pending_diff_request), opt_pair_view(b.pending_range_diff_request))
            == selection_request(a.commits@, anchor as int, cursor as int)
        &&& b == (CodeReviewPanel {
            selected_commit_index: Some(cursor),
            range_anchor: Some(anchor),
            files: b.files,
            selected_file_index: None,
            diff_data: None,
            pending_diff_request: b.pending_diff_request,
            pending_range_diff_request: b.pending_range_diff_request,
            scroll_request: b.scroll_request,
            ..a
        })
    }

    /// Set the pending diff request for the current anchor and cursor: a
    /// range diff where they differ, a single diff where they agree (or the
    /// anchor is unset), nothing without a cursor.
    fn set_pending_diff_for_selection(&mut self)
        requires
            old(self).wf(),
        ensures
            match (old(self).range_anchor, old(self).selected_commit_index) {
                (Some(a), Some(c)) => (opt_view(final(self).pending_diff_request), opt_pair_view(
                    final(self).pending_range_diff_request,
                )) == selection_request(old(self).commits@, a as int, c as int),
                (None, Some(c)) => (opt_view(final(self).pending_diff_request), opt_pair_view(
                    final(self).pending_range_diff_request,
                )) == selection_request(old(self).commits@, c as int, c as int),
                _ => final(self).pending_diff_request == old(self).pending_diff_request
                    && final(self).pending_range_diff_request == old(
                    self,
                ).pending_range_diff_request,
            },
            *final(self) == (CodeReviewPanel {
                pending_diff_request: final(self).pending_diff_request,
                pending_range_diff_request: final(self).pending_range_diff_request,
                ..*old(self)
            }),
    {
        let anchor = self.range_anchor;
        let cursor = self.selected_commit_index;
        match (anchor, cursor) {
            (Some(a), Some(c)) if a != c => {
                let lo = if a < c {
                    a
                } else {
                    c
                };
                let hi = if a < c {
                    c
                } else {
                    a
                };
                let newest_oid = self.commits[lo].oid.clone();
                let oldest_oid = self.commits[hi].oid.clone();
                self.pending_range_diff_request = Some((oldest_oid, newest_oid));
                self.pending_diff_request = None;
            },
            (_, Some(c)) => {
                self.pending_diff_request = Some(self.commits[c].oid.clone());
                self.pending_range_diff_request = None;
            },
            _ => {},
        }
    }

    /// `b` is `a` after extending the commit selection up one.
    pub open spec fn did_extend_commit_up(a: Self, b: Self) -> bool {
        match a.selected_commit_index {
            Some(i) if i > 0 => {
                let anchor = match a.range_anchor {
                    Some(a) => a,
                    None => i,
                };
                &&& Self::range_selected(a, b, anchor, (i - 1) as usize)
                &&& b.scroll_request == Some(
                    ScrollRequest {
                        target: ScrollTarget::CommitList,
                        item: (i - 1) as usize,
                        strategy: ScrollStrategy::Nearest,
                    },
                )
            },
            _ => b == a,
        }
    }

    /// `b` is `a` after extending the commit selection down one.
    pub open spec fn did_extend_commit_down(a: Self, b: Self) -> bool {
        match a.selected_commit_index {
            Some(i) if i + 1 < a.commits@.len() => {
                let anchor = match a.range_anchor {
                    Some(a) => a,
                    None => i,
                };
                &&& Self::range_selected(a, b, anchor, (i + 1) as usize)
                &&& b.scroll_request == Some(
                    ScrollRequest {
                        target: ScrollTarget::CommitList,
                        item: (i + 1) as usize,
                        strategy: ScrollStrategy::Nearest,
                    },
                )
            },
            _ => b == a,
        }
    }

    /// Extend the commit selection upward (Shift+Up): the anchor stays (set
    /// to the cursor if it was unset), the cursor moves up one. Stops at 0.
    pub fn extend_commit_up(&mut self)
        requires
            old(self).wf(),
        ensures
            final(self).wf(),
            Self::did_extend_commit_up(*old(self), *final(self)),
    {
        let index = match self.selected_commit_index {
            Some(i) => i,
            None => return,
        };
        if index == 0 {
            return;
        }
        if self.range_anchor.is_none() {
            self.range_anchor = Some(index);
        }
        let new_cursor = index - 1;
        self.selected_commit_index = Some(new_cursor);
        self.files.clear();
        self.selected_file_index = None;
        self.diff_data = None;
        self.set_pending_diff_for_selection();
        self.scroll_request = Some(
            ScrollRequest {
                target: ScrollTarget::CommitList,
                item: new_cursor,
                strategy: ScrollStrategy::Nearest,
            },
        );
    }

    /// Extend the commit selection downward (Shift+Down): the anchor stays
    /// (set to the cursor if it was unset), the cursor moves down one. Stops
    /// at the last commit.
    pub fn extend_commit_down(&mut self)
        requires
            old(self).wf(),
        ensures
            final(self).wf(),
            Self::did_extend_commit_down(*old(self), *final(self)),
    {
        let index = match self.selected_commit_index {
            Some(i) => i,
            None => return,
        };
        let last = if self.commits.len() > 0 {
            self.commits.len() - 1
        } else {
            0
        };
        if index >= last {
            return;
        }
        if self.range_anchor.is_none() {
            self.range_anchor = Some(index);
        }
        let new_cursor = index + 1;
        self.selected_commit_index = Some(new_cursor);
        self.files.clear();
        self.selected_file_index = None;
        self.diff_data = None;
        self.set_pending_diff_for_selection();
        self.scroll_request = Some(
            ScrollRequest {
                target: ScrollTarget::CommitList,
                item: new_cursor,
                strategy: ScrollStrategy::Nearest,
            },
        );
    }

    /// Select a commit with Shift held (Shift+Click): the anchor stays, the
    /// cursor moves to `target`. Without an anchor it is a plain click;
    /// clicking the anchor itself, or past the list, does nothing.
    pub fn select_commit_with_shift(&mut self, target: usize)
        requires
            old(self).wf(),
        ensures
            final(self).wf(),
            final(self).scroll_request == old(self).scroll_request,
            if target >= old(self).commits@.len() {
                *final(self) == *old(self)
            } else {
                match old(self).range_anchor {
                    None => Self::commit_selected(*old(self), *final(self), target),
                    Some(a) => if a == target {
                        *final(self) == *old(self)
                    } else {
                        Self::range_selected(*old(self), *final(self), a, target)
                    },
                }
            },
    {
        if target >= self.commits.len() {
            return;
        }
        let anchor = match self.range_anchor {
            Some(a) => a,
            None => {
                self.select_commit(target);
                return;
            },
        };
        if target == anchor {
            return;
        }
        self.selected_commit_index = Some(target);
        self.files.clear();
        self.selected_file_index = None;
        self.diff_data = None;
        self.set_pending_diff_for_selection();
    }

    /// What a key press does in Code Review mode: `key` applied to the
    /// state `a` gives `b`.
    pub open spec fn did_key(a: Self, b: Self, key: ReviewKey) -> bool {
        match key {
            ReviewKey::Ignore => b == a,
            ReviewKey::FocusNext => b == (CodeReviewPanel {
                active_panel: next_panel(a.active_panel),
                ..a
            }),
            ReviewKey::FocusPrev => b == (CodeReviewPanel {
                active_panel: prev_panel(a.active_panel),
                ..a
            }),
            ReviewKey::ExtendUp => if a.active_panel == ActivePanel::CommitList {
                Self::did_extend_commit_up(a, b)
            } else {
                b == a
            },
            ReviewKey::ExtendDown => if a.active_panel == ActivePanel::CommitList {
                Self::did_extend_commit_down(a, b)
            } else {
                b == a
            },
            ReviewKey::Up => match a.active_panel {
                ActivePanel::CommitList => Self::did_move_commit_up(a, b),
                ActivePanel::FileList => Self::did_move_file_up(a, b),
                ActivePanel::DiffView => Self::did_scroll_diff_up(a, b),
                ActivePanel::ChangesFileList => Self::did_move_changes_file_up(a, b),
                ActivePanel::ChangesDiffView => Self::did_scroll_changes_diff_up(a, b),
            },
            ReviewKey::Down => match a.active_panel {
                ActivePanel::CommitList => Self::did_move_commit_down(a, b),
                ActivePanel::FileList => Self::did_move_file_down(a, b),
                ActivePanel::DiffView => Self::did_scroll_diff_down(
                    a,
                    b,
                    match a.selected_file_diff_spec() {
                        Some(fd) => hunks_rows(fd.hunks@).len() as usize,
                        None => 0,
                    },
                ),
                ActivePanel::ChangesFileList => Self::did_move_changes_file_down(a, b),
                ActivePanel::ChangesDiffView => Self::did_scroll_changes_diff_down(
                    a,
                    b,
                    match a.selected_changes_file_diff_spec() {
                        Some(fd) => hunks_rows(fd.hunks@).len() as usize,
                        None => 0,
                    },
                ),
            },
        }
    }

    /// Handle a key press in Code Review mode: bare Left/Right move the focus
    /// between panels, bare Up/Down move the focused list's selection (or
    /// scroll the focused diff), Shift+Up/Down extend the commit range in the
    /// commit list; anything with Alt, Ctrl or Cmd held is ignored.
    pub fn handle_key_down(&mut self, key: &str, shift: bool, alt: bool, control: bool, platform: bool)
        requires
            old(self).active_panel == ActivePanel::CommitList && (review_key_spec(key@, shift, alt, control, platform) is ExtendUp
                || review_key_spec(key@, shift, alt, control, platform) is ExtendDown) ==> old(self).wf(),
        ensures
            old(self).wf() ==> final(self).wf(),
            Self::did_key(*old(self), *final(self), review_key_spec(key@, shift, alt, control, platform)),
    {
        let action = review_key(key, shift, alt, control, platform);
        match action {
            ReviewKey::Ignore => {},
            ReviewKey::FocusNext => {
                self.active_panel = self.active_panel.next();
            },
            ReviewKey::FocusPrev => {
                self.active_panel = self.active_panel.prev();
            },
            ReviewKey::ExtendUp => {
                if self.active_panel == ActivePanel::CommitList {
                    self.extend_commit_up();
                }
            },
            ReviewKey::ExtendDown => {
                if self.active_panel == ActivePanel::CommitList {
                    self.extend_commit_down();
                }
            },
            ReviewKey::Up => match self.active_panel {
                ActivePanel::CommitList => self.move_commit_up(),
                ActivePanel::FileList => self.move_file_up(),
                ActivePanel::DiffView => self.scroll_diff_up(),
                ActivePanel::ChangesFileList => self.move_changes_file_up(),
                ActivePanel::ChangesDiffView => self.scroll_changes_diff_up(),
            },
            ReviewKey::Down => match self.active_panel {
                ActivePanel::CommitList => self.move_commit_down(),
                ActivePanel::FileList => self.move_file_down(),
                ActivePanel::DiffView => {
                    let total = self.diff_row_count();
                    self.scroll_diff_down(total);
                },
                ActivePanel::ChangesFileList => self.move_changes_file_down(),
                ActivePanel::ChangesDiffView => {
                    let total = self.changes_diff_row_count();
                    self.scroll_changes_diff_down(total);
                },
            },
        }
    }

    /// Enter Code Review mode: focus the first panel of the shown tab, select
    /// the first commit if commits are loaded but none is selected, and ask
    /// for a fresh working tree file list.
    pub fn enter_review_mode(&mut self)
        requires
            old(self).wf(),
        ensures
            final(self).wf(),
            ({
                let focused = CodeReviewPanel {
                    active_panel: match old(self).active_tab {
                        ReviewTab::Changes => ActivePanel::ChangesFileList,
                        ReviewTab::History => ActivePanel::CommitList,
                    },
                    ..*old(self)
                };
                if old(self).selected_commit_index is None && old(self).commits@.len() > 0 {
                    &&& final(self).pending_working_tree_request
                    &&& final(self).scroll_request == focused.scroll_request
                    &&& Self::commit_selected(
                        focused,
                        CodeReviewPanel {
                            pending_working_tree_request: focused.pending_working_tree_request,
                            ..*final(self)
                        },
                        0,
                    )
                } else {
                    *final(self) == (CodeReviewPanel { pending_working_tree_request: true, ..focused })
                }
            }),
    {
        self.active_panel = match self.active_tab {
            ReviewTab::Changes => ActivePanel::ChangesFileList,
            ReviewTab::History => ActivePanel::CommitList,
        };
        if self.needs_initial_selection() {
            let ghost focused = *self;
            self.select_commit(0);
            let ghost mid = *self;
            self.pending_working_tree_request = true;
            assert(mid == (CodeReviewPanel {
                pending_working_tree_request: focused.pending_working_tree_request,
                ..*self
            }));
        } else {
            self.pending_working_tree_request = true;
        }
    }

    /// Return (anchor, cursor) for range highlighting in the commit list.
    pub fn selected_range(&self) -> (r: (Option<usize>, Option<usize>))
        ensures
            r == (self.range_anchor, self.selected_commit_index),
    {
        (self.range_anchor, self.selected_commit_index)
    }

    /// How many commits a range selection spans (both ends included), or 0
    /// when no range is selected (one end missing, or both the same).
    pub fn range_count(&self) -> (n: usize)
        requires
            self.wf(),
        ensures
            n == match (self.range_anchor, self.selected_commit_index) {
                (Some(a), Some(c)) => if a != c {
                    if a < c {
                        c - a + 1
                    } else {
                        a - c + 1
                    }
                } else {
                    0
                },
                _ => 0,
            },
    {
        // Both ends index the commit list, which bounds the span.
        let _commit_count = self.commits.len();
        match (self.range_anchor, self.selected_commit_index) {
            (Some(a), Some(c)) => {
                if a == c {
                    0
                } else if a < c {
                    c - a + 1
                } else {
                    a - c + 1
                }
            },
            _ => 0,
        }
    }
}

/// The added and removed line counts of the first `n` files.
pub open spec fn totals_upto(files: Seq<FileChange>, n: int) -> (int, int)
    decreases n,
{
    if n <= 0 {
        (0, 0)
    } else {
        let t = totals_upto(files, n - 1);
        (t.0 + files[n - 1].additions, t.1 + files[n - 1].deletions)
    }
}

proof fn lemma_totals_nonneg(files: Seq<FileChange>, n: int)
    ensures
        0 <= totals_upto(files, n).0,
        0 <= totals_upto(files, n).1,
    decreases n,
{
    if n > 0 {
        lemma_totals_nonneg(files, n - 1);
    }
}

proof fn lemma_totals_mono(files: Seq<FileChange>, i: int, n: int)
    requires
        0 <= i <= n <= files.len(),
    ensures
        0 <= totals_upto(files, i).0 <= totals_upto(files, n).0,
        0 <= totals_upto(files, i).1 <= totals_upto(files, n).1,
    decreases n - i,
{
    lemma_totals_nonneg(files, i);
    if i < n {
        lemma_totals_mono(files, i, n - 1);
    }
}

/// The total added and removed lines over all changed files, for the diff
/// stat of a commit's detail.
pub fn change_totals(files: &Vec<FileChange>) -> (r: (u64, u64))
    requires
        totals_upto(files@, files@.len() as int).0 <= u64::MAX,
        totals_upto(files@, files@.len() as int).1 <= u64::MAX,
    ensures
        r.0 == totals_upto(files@, files@.len() as int).0,
        r.1 == totals_upto(files@, files@.len() as int).1,
{
    let mut adds: u64 = 0;
    let mut dels: u64 = 0;
    let mut i: usize = 0;
    while i < files.len()
        invariant
            i <= files@.len(),
            totals_upto(files@, files@.len() as int).0 <= u64::MAX,
            totals_upto(files@, files@.len() as int).1 <= u64::MAX,
            adds == totals_upto(files@, i as int).0,
            dels == totals_upto(files@, i as int).1,
        decreases files@.len() - i,
    {
        proof {
            lemma_totals_mono(files@, i + 1, files@.len() as int);
        }
        adds = adds + files[i].additions;
        dels = dels + files[i].deletions;
        i = i + 1;
    }
    (adds, dels)
}

/// The first index of a commit whose oid is `oid`.
fn find_oid(commits: &Vec<CommitInfo>, oid: &String) -> (r: Option<usize>)
    ensures
        match r {
            Some(i) => i < commits@.len() && oid_position(commits@, oid@) == Some(i as int),
            None => oid_position(commits@, oid@) is None,
        },
{
    let mut i: usize = 0;
    while i < commits.len()
        invariant
            i <= commits@.len(),
            oid_position(commits@, oid@) == oid_position_from(commits@, oid@, i as int),
        decreases commits@.len() - i,
    {
        if commits[i].oid == *oid {
            return Some(i);
        }
        i = i + 1;
    }
    None
}

/// The first index of a file change whose path is `path`.
fn find_path(files: &Vec<FileChange>, path: &String) -> (r: Option<usize>)
    ensures
        match r {
            Some(i) => i < files@.len() && path_position(files@, path@) == Some(i as int),
            None => path_position(files@, path@) is None,
        },
{
    let mut i: usize = 0;
    while i < files.len()
        invariant
            i <= files@.len(),
            path_position(files@, path@) == path_position_from(files@, path@, i as int),
        decreases files@.len() - i,
    {
        if files[i].path == *path {
            return Some(i);
        }
        i = i + 1;
    }
    None
}

/// Path positions depend only on the files' plain contents.
proof fn lemma_path_position_model(a: Seq<FileChange>, b: Seq<FileChange>, path: Option<Seq<char>>)
    requires
        files_model(a) == files_model(b),
    ensures
        path matches Some(p) ==> path_position(a, p) == path_position(b, p),
        a.len() == b.len(),
{
    assert(files_model(a).len() == a.len());
    if let Some(p) = path {
        lemma_path_position_from_model(a, b, p, 0);
    }
}

proof fn lemma_path_position_from_model(a: Seq<FileChange>, b: Seq<FileChange>, p: Seq<char>, k: int)
    requires
        files_model(a) == files_model(b),
        0 <= k,
    ensures
        path_position_from(a, p, k) == path_position_from(b, p, k),
    decreases a.len() - k,
{
    assert(files_model(a).len() == a.len() && files_model(b).len() == b.len());
    if k < a.len() {
        assert(files_model(a)[k] == files_model(b)[k]);
        lemma_path_position_from_model(a, b, p, k + 1);
    }
}

/// What a key press asks of the Code Review panel.
#[derive(Debug, Clone, Copy, PartialEq, Eq, Structural)]
pub enum ReviewKey {
    Ignore,
    FocusNext,
    FocusPrev,
    Up,
    Down,
    ExtendUp,
    ExtendDown,
}

/// The request of a key press: with Alt, Ctrl or Cmd held nothing; with
/// Shift only Up and Down (range extension); bare arrows otherwise.
pub open spec fn review_key_spec(key: Seq<char>, shift: bool, alt: bool, control: bool, platform: bool) -> ReviewKey {
    if alt || control || platform {
        ReviewKey::Ignore
    } else if shift {
        if key == seq!['u', 'p'] {
            ReviewKey::ExtendUp
        } else if key == seq!['d', 'o', 'w', 'n'] {
            ReviewKey::ExtendDown
        } else {
            ReviewKey::Ignore
        }
    } else if key == seq!['r', 'i', 'g', 'h', 't'] {
        ReviewKey::FocusNext
    } else if key == seq!['l', 'e', 'f', 't'] {
        ReviewKey::FocusPrev
    } else if key == seq!['u', 'p'] {
        ReviewKey::Up
    } else if key == seq!['d', 'o', 'w', 'n'] {
        ReviewKey::Down
    } else {
        ReviewKey::Ignore
    }
}

/// Classify a key press in Code Review mode.
pub fn review_key(key: &str, shift: bool, alt: bool, control: bool, platform: bool) -> (r: ReviewKey)
    ensures
        r == review_key_spec(key@, shift, alt, control, platform),
{
    if alt || control || platform {
        return ReviewKey::Ignore;
    }
    let k = chars_of(key);
    if shift {
        if crate::text::chars_equal(&k, &['u', 'p']) {
            ReviewKey::ExtendUp
        } else if crate::text::chars_equal(&k, &['d', 'o', 'w', 'n']) {
            ReviewKey::ExtendDown
        } else {
            ReviewKey::Ignore
        }
    } else if crate::text::chars_equal(&k, &['r', 'i', 'g', 'h', 't']) {
        ReviewKey::FocusNext
    } else if crate::text::chars_equal(&k, &['l', 'e', 'f', 't']) {
        ReviewKey::FocusPrev
    } else if crate::text::chars_equal(&k, &['u', 'p']) {
        ReviewKey::Up
    } else if crate::text::chars_equal(&k, &['d', 'o', 'w', 'n']) {
        ReviewKey::Down
    } else {
        ReviewKey::Ignore
    }
}

proof fn lemma_oid_position_from(commits: Seq<CommitInfo>, oid: Seq<char>, from: int)
    requires
        0 <= from,
    ensures
        oid_position_from(commits, oid, from) matches Some(i) ==> from <= i < commits.len()
            && commits[i].oid@ == oid,
        oid_position_from(commits, oid, from) is None ==> forall|k: int|
            from <= k < commits.len() ==> #[trigger] commits[k].oid@ != oid,
    decreases commits.len() - from,
{
    if from < commits.len() && commits[from].oid@ != oid {
        lemma_oid_position_from(commits, oid, from + 1);
    }
}

proof fn lemma_path_position_from(files: Seq<FileChange>, path: Seq<char>, from: int)
    requires
        0 <= from,
    ensures
        path_position_from(files, path, from) matches Some(i) ==> from <= i < files.len()
            && files[i].path@ == path,
        path_position_from(files, path, from) is None ==> forall|k: int|
            from <= k < files.len() ==> #[trigger] files[k].path@ != path,
    decreases files.len() - from,
{
    if from < files.len() && files[from].path@ != path {
        lemma_path_position_from(files, path, from + 1);
    }
}

/// A fresh commit list keeps the selection on the same commits: when the
/// previously selected commit is still listed, the cursor lands on it (and
/// the anchor on the previous anchor's commit where that is listed too);
/// when it is gone, the selection falls back to the first commit. Either way
/// the selection indexes the new list.
pub proof fn law_fresh_log_keeps_selection(
    commits: Seq<CommitInfo>,
    cursor_oid: Seq<char>,
    anchor_oid: Option<Seq<char>>,
)
    requires
        commits.len() > 0,
    ensures
        CodeReviewPanel::restored_selection(commits, Some(cursor_oid), anchor_oid) matches Some(
            (a, c),
        ) && 0 <= a < commits.len() && 0 <= c < commits.len(),
        (exists|k: int| 0 <= k < commits.len() && #[trigger] commits[k].oid@ == cursor_oid) ==> (
        CodeReviewPanel::restored_selection(commits, Some(cursor_oid), anchor_oid) matches Some(
            (a, c),
        ) && commits[c].oid@ == cursor_oid),
        forall|ao: Seq<char>|
            anchor_oid == Some(ao) && (exists|k: int|
                0 <= k < commits.len() && #[trigger] commits[k].oid@ == cursor_oid) && (exists|k: int|
                0 <= k < commits.len() && #[trigger] commits[k].oid@ == ao) ==> (
            CodeReviewPanel::restored_selection(commits, Some(cursor_oid), anchor_oid) matches Some(
                (a, c),
            ) && commits[a].oid@ == ao),
        !(exists|k: int| 0 <= k < commits.len() && #[trigger] commits[k].oid@ == cursor_oid) ==> (
        CodeReviewPanel::restored_selection(commits, Some(cursor_oid), anchor_oid) == Some(
            (0int, 0int),
        )),
{
    lemma_oid_position_from(commits, cursor_oid, 0);
    if let Some(ao) = anchor_oid {
        lemma_oid_position_from(commits, ao, 0);
    }
}

/// A fresh file list keeps the selected file: when a file with the
/// previously selected path is still listed, the selection lands on it;
/// otherwise on the first file, or on nothing when the list is empty.
pub proof fn law_fresh_files_keep_selection(files: Seq<FileChange>, path: Seq<char>)
    ensures
        (exists|k: int| 0 <= k < files.len() && #[trigger] files[k].path@ == path) ==> (
        CodeReviewPanel::restored_file(files, Some(path)) matches Some(i) && 0 <= i < files.len()
            && files[i].path@ == path),
        !(exists|k: int| 0 <= k < files.len() && #[trigger] files[k].path@ == path) ==> (
        CodeReviewPanel::restored_file(files, Some(path)) == (if files.len() == 0 {
            None::<int>
        } else {
            Some(0int)
        })),
{
    lemma_path_position_from(files, path, 0);
}

/// The diff requested for a commit range does not depend on which end was
/// selected first: (oldest, newest) by position in the list.
pub proof fn law_range_request_either_direction(commits: Seq<CommitInfo>, a: int, c: int)
    requires
        a != c,
    ensures
        selection_request(commits, a, c) == selection_request(commits, c, a),
        selection_request(commits, a, c).0 is None,
{
}

} // verus!
