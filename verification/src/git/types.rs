//! Plain data types for commits, branches and diffs.
use vstd::prelude::*;
use vstd::string::StringExecFns;
use crate::text::{decimal_string, decimal_text};

verus! {

/// Branch/tag decoration for a commit
#[derive(Debug, Clone)]
pub enum Decoration {
    Branch { name: String },
    Tag { name: String },
}

/// Single commit metadata
#[derive(Debug, Clone)]
pub struct CommitInfo {
    /// hex string, e.g. "abc1234..."
    pub oid: String,
    /// first line of commit message
    pub summary: String,
    /// remaining commit message lines
    pub body: Option<String>,
    pub author_name: String,
    pub author_email: String,
    /// seconds since epoch
    pub time_seconds: i64,
    /// UTC offset in minutes
    pub time_offset: i32,
    pub decorations: Vec<Decoration>,
    /// Whether the commit is not yet on the upstream branch
    pub is_ahead: bool,
}

/// Status of the current branch
#[derive(Debug, Clone)]
pub struct BranchStatus {
    pub branch_name: String,
    pub is_dirty: bool,
}

/// Whether a working-tree change is staged, unstaged, or both.
#[derive(Debug, Clone, Copy, PartialEq, Eq, Structural)]
pub enum StagingState {
    Staged,
    Unstaged,
    Partial,
}

/// A changed file in a commit's diff
#[derive(Debug, Clone)]
pub struct FileChange {
    pub path: String,
    /// 'A' added, 'M' modified, 'D' deleted, 'R' renamed, 'C' copied, '?' other
    pub status_char: char,
    pub additions: u64,
    pub deletions: u64,
    pub staging_state: Option<StagingState>,
}

/// Type of diff line
#[derive(Debug, Clone, Copy, PartialEq, Eq, Structural)]
pub enum DiffLineType {
    Context,
    Add,
    Remove,
    HunkHeader,
}

/// Single line in a diff hunk
#[derive(Debug, Clone)]
pub struct DiffLine {
    pub line_type: DiffLineType,
    pub content: String,
    pub old_lineno: Option<u32>,
    pub new_lineno: Option<u32>,
}

/// A diff hunk (section of changes)
#[derive(Debug, Clone)]
pub struct DiffHunk {
    /// e.g. "@@ -10,5 +10,7 @@"
    pub header: String,
    pub lines: Vec<DiffLine>,
}

/// Full diff for a single file
#[derive(Debug, Clone)]
pub struct FileDiff {
    pub path: String,
    pub additions: u64,
    pub deletions: u64,
    pub hunks: Vec<DiffHunk>,
}

/// Complete diff data for a commit
#[derive(Debug, Clone)]
pub struct DiffData {
    pub files: Vec<FileChange>,
    pub file_diffs: Vec<FileDiff>,
}

/// "<n> <unit> ago", with the unit pluralised unless `n` is one.
pub open spec fn count_ago(n: nat, unit: Seq<char>) -> Seq<char> {
    decimal_text(n) + " "@ + unit + (if n == 1 {
        " ago"@
    } else {
        "s ago"@
    })
}

/// The relative-time label for a commit `diff` seconds old: under a minute is
/// "just now"; then minutes, hours, days, 30-day months and 365-day years,
/// each rounded down.
pub open spec fn relative_time_text(diff: int) -> Seq<char> {
    if diff < 60 {
        "just now"@
    } else if diff < 3600 {
        count_ago((diff / 60) as nat, "minute"@)
    } else if diff < 86400 {
        count_ago((diff / 3600) as nat, "hour"@)
    } else if diff < 2592000 {
        count_ago((diff / 86400) as nat, "day"@)
    } else if diff < 31536000 {
        count_ago((diff / 2592000) as nat, "month"@)
    } else {
        count_ago((diff / 31536000) as nat, "year"@)
    }
}

fn count_ago_string(n: u64, unit: &str) -> (s: String)
    ensures
        s@ == count_ago(n as nat, unit@),
{
    let mut s = decimal_string(n);
    s.append(" ");
    s.append(unit);
    if n == 1 {
        s.append(" ago");
    } else {
        s.append("s ago");
    }
    s
}

/// Label for a commit that is `diff` seconds old.
pub fn relative_time_label(diff: i128) -> (s: String)
    requires
        diff < 0x1_0000_0000_0000_0000,
    ensures
        s@ == relative_time_text(diff as int),
{
    if diff < 60 {
        String::from_str("just now")
    } else if diff < 3600 {
        count_ago_string((diff / 60) as u64, "minute")
    } else if diff < 86400 {
        count_ago_string((diff / 3600) as u64, "hour")
    } else if diff < 2592000 {
        count_ago_string((diff / 86400) as u64, "day")
    } else if diff < 31536000 {
        count_ago_string((diff / 2592000) as u64, "month")
    } else {
        count_ago_string((diff / 31536000) as u64, "year")
    }
}

/// The label shown at clock time `now` for a commit made at `seconds`.
pub open spec fn label_at(now: int, seconds: int) -> Seq<char> {
    relative_time_text(now - seconds)
}

/// Format a git timestamp as relative time ("3 hours ago", "2 days ago"),
/// measured from the clock time `now_seconds` (seconds since the Unix epoch).
/// A commit dated after `now_seconds` reads "just now".
pub fn format_relative_time(seconds_since_epoch: i64, _offset_minutes: i32, now_seconds: i64) -> (s: String)
    ensures
        s@ == label_at(now_seconds as int, seconds_since_epoch as int),
{
    let diff: i128 = now_seconds as i128 - seconds_since_epoch as i128;
    relative_time_label(diff)
}

/// The plain content of a file change.
pub open spec fn file_model(f: FileChange) -> (Seq<char>, char, u64, u64, Option<StagingState>) {
    (f.path@, f.status_char, f.additions, f.deletions, f.staging_state)
}

/// The plain contents of a list of file changes.
pub open spec fn files_model(v: Seq<FileChange>) -> Seq<(Seq<char>, char, u64, u64, Option<StagingState>)> {
    v.map_values(|f: FileChange| file_model(f))
}

/// A copy of a file change.
pub fn copy_file_change(f: &FileChange) -> (r: FileChange)
    ensures
        file_model(r) == file_model(*f),
{
    FileChange {
        path: f.path.clone(),
        status_char: f.status_char,
        additions: f.additions,
        deletions: f.deletions,
        staging_state: f.staging_state,
    }
}

/// A copy of a list of file changes.
pub fn copy_files(v: &Vec<FileChange>) -> (r: Vec<FileChange>)
    ensures
        files_model(r@) == files_model(v@),
{
    let mut r: Vec<FileChange> = Vec::new();
    let mut i: usize = 0;
    while i < v.len()
        invariant
            i <= v@.len(),
            files_model(r@) == files_model(v@.take(i as int)),
        decreases v@.len() - i,
    {
        let ghost prev = r@;
        r.push(copy_file_change(&v[i]));
        assert(files_model(r@) =~= files_model(prev).push(file_model(v@[i as int])));
        assert(v@.take(i + 1) =~= v@.take(i as int).push(v@[i as int]));
        assert(files_model(v@.take(i + 1)) =~= files_model(v@.take(i as int)).push(
            file_model(v@[i as int]),
        ));
        i = i + 1;
    }
    assert(v@.take(i as int) =~= v@);
    r
}

/// The plain content of a diff line.
pub open spec fn line_model(l: DiffLine) -> (DiffLineType, Seq<char>, Option<u32>, Option<u32>) {
    (l.line_type, l.content@, l.old_lineno, l.new_lineno)
}

/// The plain content of a hunk: header and lines.
pub open spec fn hunk_model(h: DiffHunk) -> (Seq<char>, Seq<(DiffLineType, Seq<char>, Option<u32>, Option<u32>)>) {
    (h.header@, h.lines@.map_values(|l: DiffLine| line_model(l)))
}

/// The plain content of a file diff: path, line counts and hunks.
pub open spec fn file_diff_model(f: FileDiff) -> (
    Seq<char>,
    u64,
    u64,
    Seq<(Seq<char>, Seq<(DiffLineType, Seq<char>, Option<u32>, Option<u32>)>)>,
) {
    (f.path@, f.additions, f.deletions, f.hunks@.map_values(|h: DiffHunk| hunk_model(h)))
}

} // verus!
