//! The decisions of the git worker: paging through history under a cap,
//! building diffs from the repository's diff callbacks under size limits,
//! working tree file states, branch labels, and image blob handling. The
//! repository access itself is done by the caller, which feeds what it reads
//! into the functions here.
use vstd::prelude::*;
use crate::git::types::{
    CommitInfo, DiffData, DiffHunk, DiffLine, DiffLineType, FileChange, FileDiff, StagingState,
    file_model, files_model, line_model, hunk_model, file_diff_model,
};
use crate::text::{chars_of, string_from_chars, char_width, utf8_width, is_white_space, is_whitespace_char};

verus! {

/// Maximum number of commits to load per repository.
pub const MAX_COMMITS: usize = 50_000;

/// Maximum number of file deltas to process in a single diff.
pub const MAX_DIFF_FILES: usize = 5_000;

/// Maximum total number of diff lines across all files in a single diff.
pub const MAX_DIFF_LINES: usize = 500_000;

/// Maximum byte length of a single diff line's content; longer lines are
/// cut and marked.
pub const MAX_LINE_LENGTH: usize = 10_000;

/// Maximum blob size for image preview (10MB).
pub const MAX_IMAGE_BLOB_SIZE: usize = 10485760;

/// Requests that can be sent to the git worker.
#[derive(Debug, Clone)]
pub enum GitRequest {
    FetchLog { count: usize },
    FetchMoreLog { batch_size: usize },
    FetchDiff { commit_oid: String },
    FetchRangeDiff { oldest_oid: String, newest_oid: String },
    FetchStatus,
    FetchWorkingTreeFiles,
    FetchWorkingTreeDiff { path: String },
    FetchBlob { commit_oid: String, path: String },
}

/// The history paging state of the git worker: whether a walk is active,
/// whether it is exhausted, how many commits it has loaded, and how many of
/// the newest commits are ahead of the upstream branch.
#[derive(Debug, Clone, Copy, PartialEq, Eq, Structural)]
pub struct LogPager {
    pub active: bool,
    pub exhausted: bool,
    pub total_loaded: usize,
    pub ahead_count: usize,
}

/// `a` saturating-minus `b`.
pub open spec fn sat_sub(a: int, b: int) -> int {
    if a > b {
        a - b
    } else {
        0
    }
}

/// The smaller of two integers.
pub open spec fn min_int(a: int, b: int) -> int {
    if a < b {
        a
    } else {
        b
    }
}

/// How many commits of the newest ones in a batch loaded after
/// `previously_loaded` others are ahead of the upstream branch.
pub open spec fn ahead_in_batch(ahead: int, previously_loaded: int, batch: int) -> int {
    min_int(sat_sub(ahead, previously_loaded), batch)
}

/// The size of the next batch for a request of `batch_size` more commits:
/// none when the walk is exhausted, the budget is spent, or no walk is
/// active; otherwise the request capped at the remaining budget.
pub open spec fn next_batch_size(p: LogPager, batch_size: usize) -> Option<usize> {
    if p.exhausted || sat_sub(MAX_COMMITS as int, p.total_loaded as int) == 0 || !p.active {
        None
    } else {
        Some(min_int(batch_size as int, sat_sub(MAX_COMMITS as int, p.total_loaded as int)) as usize)
    }
}

/// The commit cap holds over a whole walk: loading a batch of no more
/// commits than the next batch size allows keeps the loaded count within
/// the cap.
pub proof fn law_batches_stay_under_cap(p: LogPager, batch_size: usize, got: int)
    requires
        p.total_loaded <= MAX_COMMITS,
        next_batch_size(p, batch_size) matches Some(asked) && 0 <= got <= asked,
    ensures
        p.total_loaded + got <= MAX_COMMITS,
{
}

impl LogPager {
    /// A pager with no walk started.
    pub fn new() -> (p: Self)
        ensures
            p == (LogPager { active: false, exhausted: false, total_loaded: 0, ahead_count: 0 }),
    {
        LogPager { active: false, exhausted: false, total_loaded: 0, ahead_count: 0 }
    }

    /// The commit budget left under the cap.
    pub fn remaining(&self) -> (r: usize)
        ensures
            r == sat_sub(MAX_COMMITS as int, self.total_loaded as int),
    {
        if self.total_loaded < MAX_COMMITS {
            MAX_COMMITS - self.total_loaded
        } else {
            0
        }
    }

    /// Start a fresh log load of `count` commits: the walk restarts, and the
    /// first batch asks for `count` capped at the limit.
    pub fn start_log(&mut self, count: usize) -> (batch: usize)
        ensures
            batch == min_int(count as int, MAX_COMMITS as int),
            *final(self) == (LogPager { active: false, exhausted: false, total_loaded: 0, ahead_count: 0 }),
    {
        self.active = false;
        self.exhausted = false;
        self.total_loaded = 0;
        self.ahead_count = 0;
        if count < MAX_COMMITS {
            count
        } else {
            MAX_COMMITS
        }
    }

    /// Record the first batch: `got` commits for a request of `asked`, of
    /// which the newest `ahead` are ahead of upstream. The walk is exhausted
    /// when it gave fewer than asked or the cap is reached.
    pub fn first_batch_loaded(&mut self, asked: usize, got: usize, ahead: usize)
        ensures
            *final(self) == (LogPager {
                active: true,
                exhausted: got < asked || got >= MAX_COMMITS,
                total_loaded: got,
                ahead_count: ahead,
            }),
    {
        self.active = true;
        self.total_loaded = got;
        self.exhausted = got < asked || got >= MAX_COMMITS;
        self.ahead_count = ahead;
    }

    /// The size of the next batch for a request of `batch_size` more
    /// commits: the request capped at the remaining budget, or `None` (an
    /// empty, exhausted answer) when the walk is exhausted, the budget is
    /// spent, or no walk is active.
    pub fn next_batch(&self, batch_size: usize) -> (r: Option<usize>)
        ensures
            r == next_batch_size(*self, batch_size),
    {
        let remaining = self.remaining();
        if self.exhausted || remaining == 0 || !self.active {
            None
        } else if batch_size < remaining {
            Some(batch_size)
        } else {
            Some(remaining)
        }
    }

    /// Record a further batch of `got` commits for a request of `asked`
    /// (at most the remaining budget), and mark its newest commits that lie
    /// within the ahead window. Returns whether the walk is now exhausted.
    pub fn more_batch_loaded(&mut self, asked: usize, commits: &mut Vec<CommitInfo>) -> (exhausted: bool)
        requires
            old(self).total_loaded <= MAX_COMMITS,
            old(commits)@.len() <= asked,
            asked <= sat_sub(MAX_COMMITS as int, old(self).total_loaded as int),
        ensures
            final(self).total_loaded == old(self).total_loaded + old(commits)@.len(),
            exhausted == (old(commits)@.len() < asked || final(self).total_loaded >= MAX_COMMITS),
            *final(self) == (LogPager {
                exhausted,
                total_loaded: final(self).total_loaded,
                ..*old(self)
            }),
            final(commits)@.len() == old(commits)@.len(),
            forall|k: int|
                0 <= k < final(commits)@.len() ==> #[trigger] final(commits)@[k] == (CommitInfo {
                    is_ahead: k < ahead_in_batch(
                        old(self).ahead_count as int,
                        old(self).total_loaded as int,
                        old(commits)@.len() as int,
                    ) || old(commits)@[k].is_ahead,
                    ..old(commits)@[k]
                }),
    {
        let previously_loaded = self.total_loaded;
        let got = commits.len();
        self.total_loaded = self.total_loaded + got;
        if previously_loaded < self.ahead_count {
            let to_mark = self.ahead_count - previously_loaded;
            mark_ahead_commits(commits, to_mark);
        } else {
            mark_ahead_commits(commits, 0);
        }
        let exhausted = got < asked || self.total_loaded >= MAX_COMMITS;
        self.exhausted = exhausted;
        exhausted
    }
}

/// Mark the first `ahead` commits (the newest, in time order) as ahead of
/// the upstream branch; the others keep their mark.
pub fn mark_ahead_commits(commits: &mut Vec<CommitInfo>, ahead: usize)
    ensures
        final(commits)@.len() == old(commits)@.len(),
        forall|k: int|
            0 <= k < final(commits)@.len() ==> #[trigger] final(commits)@[k] == (CommitInfo {
                is_ahead: k < ahead || old(commits)@[k].is_ahead,
                ..old(commits)@[k]
            }),
{
    let n = commits.len();
    let mut i: usize = 0;
    while i < n && i < ahead
        invariant
            n == old(commits)@.len(),
            commits@.len() == n,
            i <= n,
            forall|k: int|
                0 <= k < n ==> #[trigger] commits@[k] == (CommitInfo {
                    is_ahead: (k < i && k < ahead) || old(commits)@[k].is_ahead,
                    ..old(commits)@[k]
                }),
        decreases n - i,
    {
        commits[i].is_ahead = true;
        i = i + 1;
    }
}

/// Whether a blob is too large to preview as an image.
pub fn blob_too_large(len: usize) -> (r: bool)
    ensures
        r == (len > MAX_IMAGE_BLOB_SIZE),
{
    len > MAX_IMAGE_BLOB_SIZE
}

/// A diff line as plain values.
pub type LineM = (DiffLineType, Seq<char>, Option<u32>, Option<u32>);

/// A hunk as plain values: header and lines.
pub type HunkM = (Seq<char>, Seq<LineM>);

/// A file diff as plain values: path, added and removed line counts, hunks.
pub type FileDiffM = (Seq<char>, u64, u64, Seq<HunkM>);

/// A diff being built: the finished file diffs, the file and hunk being
/// filled, the lines seen and the files seen.
pub type BuilderM = (Seq<FileDiffM>, Option<FileDiffM>, Option<HunkM>, int, int);

/// The line type of a diff line's origin marker.
pub open spec fn origin_type(origin: char) -> DiffLineType {
    if origin == '+' {
        DiffLineType::Add
    } else if origin == '-' {
        DiffLineType::Remove
    } else if origin == 'H' || origin == 'F' {
        DiffLineType::HunkHeader
    } else {
        DiffLineType::Context
    }
}

/// The longest prefix of `cs` that takes at most `n` bytes in UTF-8.
pub open spec fn bytes_prefix(cs: Seq<char>, n: int) -> Seq<char>
    decreases cs.len(),
{
    if cs.len() == 0 || char_width(cs[0]) > n {
        Seq::empty()
    } else {
        seq![cs[0]] + bytes_prefix(cs.drop_first(), n - char_width(cs[0]))
    }
}

/// The text kept of a line's content: none when it was not UTF-8; cut to
/// the byte limit and marked when longer.
pub open spec fn line_text(content: Option<Seq<char>>) -> Seq<char> {
    let raw = match content {
        Some(c) => c,
        None => Seq::empty(),
    };
    if crate::text::utf8_len(raw) > MAX_LINE_LENGTH {
        bytes_prefix(raw, MAX_LINE_LENGTH as int) + "... (truncated)"@
    } else {
        raw
    }
}

/// `s` without trailing white space.
pub open spec fn trim_end(s: Seq<char>) -> Seq<char>
    decreases s.len(),
{
    if s.len() > 0 && is_white_space(s.last()) {
        trim_end(s.drop_last())
    } else {
        s
    }
}

/// A file diff with the open hunk, if any, appended.
pub open spec fn close_file(f: FileDiffM, h: Option<HunkM>) -> FileDiffM {
    match h {
        Some(hk) => (f.0, f.1, f.2, f.3.push(hk)),
        None => f,
    }
}

/// A new file starts: refused once the file limit is reached; otherwise the
/// open file (with its open hunk) is finished and an empty one opened.
pub open spec fn file_event(m: BuilderM, path: Seq<char>) -> (bool, BuilderM) {
    if m.4 >= MAX_DIFF_FILES {
        (false, m)
    } else {
        match m.1 {
            Some(f) => (true, (m.0.push(close_file(f, m.2)), Some((path, 0u64, 0u64, Seq::empty())), None, m.3, m.4 + 1)),
            None => (true, (m.0, Some((path, 0u64, 0u64, Seq::empty())), m.2, m.3, m.4 + 1)),
        }
    }
}

/// A new hunk starts: refused once the line limit is reached; otherwise the
/// open hunk goes into the open file (and is dropped without one) and a hunk
/// with the trimmed header opens.
pub open spec fn hunk_event(m: BuilderM, header: Option<Seq<char>>) -> (bool, BuilderM) {
    if m.3 >= MAX_DIFF_LINES {
        (false, m)
    } else {
        let h = match header {
            Some(t) => trim_end(t),
            None => Seq::empty(),
        };
        let cur = match m.1 {
            Some(f) => Some(close_file(f, m.2)),
            None => None,
        };
        (true, (m.0, cur, Some((h, Seq::empty())), m.3, m.4))
    }
}

/// A diff line: refused once the line limit is reached; otherwise counted,
/// added to the open file's counts, and put into the open hunk.
pub open spec fn line_event(
    m: BuilderM,
    origin: char,
    content: Option<Seq<char>>,
    old_lineno: Option<u32>,
    new_lineno: Option<u32>,
) -> (bool, BuilderM) {
    if m.3 >= MAX_DIFF_LINES {
        (false, m)
    } else {
        let t = origin_type(origin);
        let cur = match m.1 {
            Some(f) => Some(
                if t == DiffLineType::Add {
                    (f.0, (f.1 + 1) as u64, f.2, f.3)
                } else if t == DiffLineType::Remove {
                    (f.0, f.1, (f.2 + 1) as u64, f.3)
                } else {
                    f
                },
            ),
            None => None,
        };
        let hunk = match m.2 {
            Some(h) => Some((h.0, h.1.push((t, line_text(content), old_lineno, new_lineno)))),
            None => None,
        };
        (true, (m.0, cur, hunk, m.3 + 1, m.4))
    }
}

/// The file diffs of a finished build: the open file (with its open hunk)
/// appended.
pub open spec fn finished(m: BuilderM) -> Seq<FileDiffM> {
    match m.1 {
        Some(f) => m.0.push(close_file(f, m.2)),
        None => m.0,
    }
}

/// The lines held by a list of hunks.
pub open spec fn hunk_lines(hs: Seq<HunkM>) -> int
    decreases hs.len(),
{
    if hs.len() == 0 {
        0
    } else {
        hunk_lines(hs.drop_last()) + hs.last().1.len()
    }
}

/// The lines held by a list of file diffs.
pub open spec fn diff_lines(fs: Seq<FileDiffM>) -> int
    decreases fs.len(),
{
    if fs.len() == 0 {
        0
    } else {
        diff_lines(fs.drop_last()) + hunk_lines(fs.last().3)
    }
}

/// A builder state within the limits: no more files than seen, no more
/// lines held than seen, counts of the open file within the lines seen, and
/// both limits respected.
pub open spec fn builder_ok(m: BuilderM) -> bool {
    &&& 0 <= m.3 <= MAX_DIFF_LINES
    &&& 0 <= m.4 <= MAX_DIFF_FILES
    &&& finished(m).len() <= m.4
    &&& diff_lines(m.0) + (match m.1 {
        Some(f) => hunk_lines(f.3),
        None => 0,
    }) + (match m.2 {
        Some(h) => h.1.len() as int,
        None => 0,
    }) <= m.3
    &&& (m.1 matches Some(f) ==> f.1 <= m.3 && f.2 <= m.3)
}

proof fn lemma_hunk_lines_push(hs: Seq<HunkM>, h: HunkM)
    ensures
        hunk_lines(hs.push(h)) == hunk_lines(hs) + h.1.len(),
{
    assert(hs.push(h).drop_last() =~= hs);
}

proof fn lemma_diff_lines_push(fs: Seq<FileDiffM>, f: FileDiffM)
    ensures
        diff_lines(fs.push(f)) == diff_lines(fs) + hunk_lines(f.3),
{
    assert(fs.push(f).drop_last() =~= fs);
}

proof fn lemma_hunk_lines_nonneg(hs: Seq<HunkM>)
    ensures
        hunk_lines(hs) >= 0,
    decreases hs.len(),
{
    if hs.len() > 0 {
        lemma_hunk_lines_nonneg(hs.drop_last());
    }
}

proof fn lemma_diff_lines_nonneg(fs: Seq<FileDiffM>)
    ensures
        diff_lines(fs) >= 0,
    decreases fs.len(),
{
    if fs.len() > 0 {
        lemma_diff_lines_nonneg(fs.drop_last());
        lemma_hunk_lines_nonneg(fs.last().3);
    }
}

/// Every step keeps a builder within the limits; a finished diff holds at
/// most `MAX_DIFF_FILES` files and `MAX_DIFF_LINES` lines.
pub proof fn law_diff_within_limits(
    m: BuilderM,
    path: Seq<char>,
    header: Option<Seq<char>>,
    origin: char,
    content: Option<Seq<char>>,
    old_lineno: Option<u32>,
    new_lineno: Option<u32>,
)
    requires
        builder_ok(m),
    ensures
        builder_ok(file_event(m, path).1),
        builder_ok(hunk_event(m, header).1),
        builder_ok(line_event(m, origin, content, old_lineno, new_lineno).1),
        finished(m).len() <= MAX_DIFF_FILES,
        diff_lines(finished(m)) <= MAX_DIFF_LINES,
{
    lemma_diff_lines_nonneg(m.0);
    if let Some(f) = m.1 {
        lemma_hunk_lines_nonneg(f.3);
        lemma_diff_lines_push(m.0, close_file(f, m.2));
        if let Some(h) = m.2 {
            lemma_hunk_lines_push(f.3, h);
        }
    }
    let fm = file_event(m, path).1;
    if m.4 < MAX_DIFF_FILES {
        if let Some(f) = m.1 {
            lemma_diff_lines_push(m.0, close_file(f, m.2));
            let e: Seq<HunkM> = Seq::empty();
            assert(hunk_lines(e) == 0);
            assert(fm.0 == m.0.push(close_file(f, m.2)));
            assert(finished(fm) == fm.0.push(close_file((path, 0u64, 0u64, e), None)));
        } else {
            let e: Seq<HunkM> = Seq::empty();
            assert(hunk_lines(e) == 0);
        }
    }
    let hm = hunk_event(m, header).1;
    if m.3 < MAX_DIFF_LINES {
        if let Some(f) = m.1 {
            let cf = close_file(f, m.2);
            lemma_hunk_lines_nonneg(cf.3);
            assert(hm.1 == Some(cf));
        }
    }
    let lm = line_event(m, origin, content, old_lineno, new_lineno).1;
    if m.3 < MAX_DIFF_LINES {
        if let Some(f) = m.1 {
            lemma_diff_lines_push(m.0, close_file(f, m.2));
            if let Some(h) = m.2 {
                let t = origin_type(origin);
                let nh = (h.0, h.1.push((t, line_text(content), old_lineno, new_lineno)));
                let nf = lm.1->0;
                lemma_hunk_lines_push(nf.3, nh);
                lemma_diff_lines_push(m.0, close_file(nf, lm.2));
            } else {
                let nf = lm.1->0;
                lemma_diff_lines_push(m.0, close_file(nf, lm.2));
            }
        }
    }
}

/// The lines of a list of hunks, in order.
pub open spec fn hunks_flat(hs: Seq<HunkM>) -> Seq<LineM>
    decreases hs.len(),
{
    if hs.len() == 0 {
        Seq::empty()
    } else {
        hunks_flat(hs.drop_last()) + hs.last().1
    }
}

/// The headers of a list of hunks, in order.
pub open spec fn hunk_headers(hs: Seq<HunkM>) -> Seq<Seq<char>> {
    hs.map_values(|h: HunkM| h.0)
}

/// The lines of a list of file diffs, in order.
pub open spec fn files_flat(fs: Seq<FileDiffM>) -> Seq<LineM>
    decreases fs.len(),
{
    if fs.len() == 0 {
        Seq::empty()
    } else {
        files_flat(fs.drop_last()) + hunks_flat(fs.last().3)
    }
}

/// The hunk headers of a list of file diffs, in order.
pub open spec fn files_headers(fs: Seq<FileDiffM>) -> Seq<Seq<char>>
    decreases fs.len(),
{
    if fs.len() == 0 {
        Seq::empty()
    } else {
        files_headers(fs.drop_last()) + hunk_headers(fs.last().3)
    }
}

/// Every line a build holds, in order: those of the finished file diffs,
/// of the open file, then of the open hunk.
pub open spec fn held_lines(m: BuilderM) -> Seq<LineM> {
    files_flat(m.0) + (match m.1 {
        Some(f) => hunks_flat(f.3),
        None => Seq::empty(),
    }) + (match m.2 {
        Some(h) => h.1,
        None => Seq::empty(),
    })
}

/// Every hunk header a build holds, in order.
pub open spec fn held_headers(m: BuilderM) -> Seq<Seq<char>> {
    files_headers(m.0) + (match m.1 {
        Some(f) => hunk_headers(f.3),
        None => Seq::empty(),
    }) + (match m.2 {
        Some(h) => seq![h.0],
        None => Seq::empty(),
    })
}

proof fn lemma_flat_push_hunk(hs: Seq<HunkM>, h: HunkM)
    ensures
        hunks_flat(hs.push(h)) == hunks_flat(hs) + h.1,
        hunk_headers(hs.push(h)) == hunk_headers(hs).push(h.0),
{
    assert(hs.push(h).drop_last() =~= hs);
    assert(hunk_headers(hs.push(h)) =~= hunk_headers(hs).push(h.0));
}

proof fn lemma_flat_push_file(fs: Seq<FileDiffM>, f: FileDiffM)
    ensures
        files_flat(fs.push(f)) == files_flat(fs) + hunks_flat(f.3),
        files_headers(fs.push(f)) == files_headers(fs) + hunk_headers(f.3),
{
    assert(fs.push(f).drop_last() =~= fs);
}

/// Nothing a build takes in is lost or reordered while a file is open: a
/// new file keeps every held line and header and is the last file when the
/// build finishes; a new hunk keeps every held line and adds its trimmed
/// header; a line goes after every held line when a hunk is open; and the
/// finished file diffs hold exactly the held lines and headers, in order.
pub proof fn law_builds_keep_every_line(
    m: BuilderM,
    path: Seq<char>,
    header: Option<Seq<char>>,
    origin: char,
    content: Option<Seq<char>>,
    old_lineno: Option<u32>,
    new_lineno: Option<u32>,
)
    ensures
        file_event(m, path).0 ==> held_lines(file_event(m, path).1) == held_lines(m)
            && held_headers(file_event(m, path).1) == held_headers(m)
            && finished(file_event(m, path).1).last().0 == path,
        hunk_event(m, header).0 && m.1 is Some ==> held_lines(hunk_event(m, header).1) == held_lines(m)
            && held_headers(hunk_event(m, header).1) == held_headers(m).push(match header {
                Some(t) => trim_end(t),
                None => Seq::empty(),
            }),
        line_event(m, origin, content, old_lineno, new_lineno).0 && m.2 is Some ==> held_lines(
            line_event(m, origin, content, old_lineno, new_lineno).1,
        ) == held_lines(m).push((origin_type(origin), line_text(content), old_lineno, new_lineno))
            && held_headers(line_event(m, origin, content, old_lineno, new_lineno).1) == held_headers(m),
        m.1 is Some ==> files_flat(finished(m)) == held_lines(m) && files_headers(finished(m)) == held_headers(m),
        file_event(m, path).0 <==> m.4 < MAX_DIFF_FILES,
        hunk_event(m, header).0 <==> m.3 < MAX_DIFF_LINES,
        line_event(m, origin, content, old_lineno, new_lineno).0 <==> m.3 < MAX_DIFF_LINES,
{
    let e: Seq<LineM> = Seq::empty();
    let eh: Seq<Seq<char>> = Seq::empty();
    let ehk: Seq<HunkM> = Seq::empty();
    assert(hunks_flat(ehk) == e);
    assert(hunk_headers(ehk) =~= eh);
    if let Some(f) = m.1 {
        lemma_flat_push_file(m.0, close_file(f, m.2));
        if let Some(h) = m.2 {
            lemma_flat_push_hunk(f.3, h);
            assert(held_lines(m) =~= files_flat(m.0) + hunks_flat(f.3) + h.1);
            assert(files_flat(finished(m)) =~= held_lines(m));
            assert(held_headers(m) =~= files_headers(m.0) + hunk_headers(f.3) + seq![h.0]);
            assert(files_headers(finished(m)) =~= held_headers(m));
        } else {
            assert(held_lines(m) =~= files_flat(m.0) + hunks_flat(f.3));
            assert(held_headers(m) =~= files_headers(m.0) + hunk_headers(f.3));
        }
    }
    // a new file
    if m.4 < MAX_DIFF_FILES {
        let fm = file_event(m, path).1;
        let nf: FileDiffM = (path, 0u64, 0u64, ehk);
        if let Some(f) = m.1 {
            assert(fm == (m.0.push(close_file(f, m.2)), Some(nf), None::<HunkM>, m.3, m.4 + 1));
            assert(held_lines(fm) =~= files_flat(m.0.push(close_file(f, m.2))));
            assert(held_headers(fm) =~= files_headers(m.0.push(close_file(f, m.2))));
            if let Some(h) = m.2 {
                assert(held_lines(m) =~= files_flat(m.0) + hunks_flat(f.3) + h.1);
                assert(held_headers(m) =~= files_headers(m.0) + hunk_headers(f.3) + seq![h.0]);
            }
        } else {
            assert(held_lines(fm) =~= held_lines(m));
            assert(held_headers(fm) =~= held_headers(m));
        }
        assert(fm.1 == Some(nf));
        assert(finished(fm) == fm.0.push(close_file(nf, fm.2)));
        assert(close_file(nf, fm.2).0 == path);
    }
    // a new hunk
    if m.3 < MAX_DIFF_LINES {
        if let Some(f) = m.1 {
            let hm = hunk_event(m, header).1;
            let t = match header {
                Some(x) => trim_end(x),
                None => Seq::empty(),
            };
            let cf = close_file(f, m.2);
            assert(hm == (m.0, Some(cf), Some((t, e)), m.3, m.4));
            if let Some(h) = m.2 {
                lemma_flat_push_hunk(f.3, h);
                assert(held_lines(hm) =~= files_flat(m.0) + (hunks_flat(f.3) + h.1) + e);
                assert(held_lines(m) =~= files_flat(m.0) + hunks_flat(f.3) + h.1);
                assert(held_headers(hm) =~= files_headers(m.0) + hunk_headers(f.3).push(h.0) + seq![t]);
                assert(held_headers(m) =~= files_headers(m.0) + hunk_headers(f.3) + seq![h.0]);
            } else {
                assert(held_lines(hm) =~= files_flat(m.0) + hunks_flat(f.3) + e);
                assert(held_lines(m) =~= files_flat(m.0) + hunks_flat(f.3));
                assert(held_headers(hm) =~= files_headers(m.0) + hunk_headers(f.3) + seq![t]);
                assert(held_headers(m) =~= files_headers(m.0) + hunk_headers(f.3));
            }
        }
    }
    // a line
    if m.3 < MAX_DIFF_LINES {
        if let Some(h) = m.2 {
            let lm = line_event(m, origin, content, old_lineno, new_lineno).1;
            let l = (origin_type(origin), line_text(content), old_lineno, new_lineno);
            assert(lm.2 == Some((h.0, h.1.push(l))));
            match m.1 {
                Some(f) => {
                    let nf = lm.1->0;
                    assert(nf.3 == f.3);
                    assert(held_lines(lm) =~= files_flat(m.0) + hunks_flat(f.3) + h.1.push(l));
                    assert(held_lines(m) =~= files_flat(m.0) + hunks_flat(f.3) + h.1);
                    assert(held_headers(lm) =~= files_headers(m.0) + hunk_headers(f.3) + seq![h.0]);
                    assert(held_headers(m) =~= files_headers(m.0) + hunk_headers(f.3) + seq![h.0]);
                },
                None => {
                    assert(held_lines(lm) =~= files_flat(m.0) + e + h.1.push(l));
                    assert(held_lines(m) =~= files_flat(m.0) + e + h.1);
                    assert(held_headers(lm) =~= held_headers(m));
                },
            }
        }
    }
}

/// The line type of an origin marker.
pub fn line_type_of(origin: char) -> (t: DiffLineType)
    ensures
        t == origin_type(origin),
{
    if origin == '+' {
        DiffLineType::Add
    } else if origin == '-' {
        DiffLineType::Remove
    } else if origin == 'H' || origin == 'F' {
        DiffLineType::HunkHeader
    } else {
        DiffLineType::Context
    }
}

/// `s` without trailing white space.
pub fn trim_end_text(s: &str) -> (r: String)
    ensures
        r@ == trim_end(s@),
{
    let cs = chars_of(s);
    let mut end = cs.len();
    assert(cs@.take(end as int) =~= cs@);
    while end > 0 && is_whitespace_char(cs[end - 1])
        invariant
            end <= cs@.len(),
            trim_end(cs@) == trim_end(cs@.take(end as int)),
        decreases end,
    {
        assert(cs@.take(end as int).drop_last() =~= cs@.take(end - 1));
        end = end - 1;
    }
    let mut out: Vec<char> = Vec::new();
    let mut i: usize = 0;
    while i < end
        invariant
            end <= cs@.len(),
            i <= end,
            out@ == cs@.take(i as int),
        decreases end - i,
    {
        out.push(cs[i]);
        assert(cs@.take(i + 1) =~= cs@.take(i as int).push(cs@[i as int]));
        i = i + 1;
    }
    string_from_chars(&out)
}

proof fn lemma_bytes_prefix_step(cs: Seq<char>, i: int, n: int)
    requires
        0 <= i < cs.len(),
    ensures
        bytes_prefix(cs.subrange(i, cs.len() as int), n) == (if char_width(cs[i]) > n {
            Seq::<char>::empty()
        } else {
            seq![cs[i]] + bytes_prefix(cs.subrange(i + 1, cs.len() as int), n - char_width(cs[i]))
        }),
{
    let t = cs.subrange(i, cs.len() as int);
    assert(t[0] == cs[i]);
    assert(t.drop_first() =~= cs.subrange(i + 1, cs.len() as int));
}

/// The text kept of a line's content.
pub fn line_text_of(content: Option<&str>) -> (r: String)
    ensures
        r@ == line_text(match content {
            Some(c) => Some(c@),
            None => None,
        }),
{
    let raw = match content {
        Some(c) => c,
        None => "",
    };
    proof {
        reveal_strlit("");
    }
    let len = crate::text::utf8_len_of(raw);
    if len <= MAX_LINE_LENGTH {
        return raw.to_owned();
    }
    let cs = chars_of(raw);
    let mut out: Vec<char> = Vec::new();
    let mut used: usize = 0;
    let mut i: usize = 0;
    assert(cs@.subrange(0, cs@.len() as int) =~= cs@);
    let mut full = false;
    while i < cs.len() && !full
        invariant
            i <= cs@.len(),
            used <= MAX_LINE_LENGTH,
            out@ + (if full {
                Seq::<char>::empty()
            } else {
                bytes_prefix(cs@.subrange(i as int, cs@.len() as int), MAX_LINE_LENGTH - used)
            }) == bytes_prefix(cs@, MAX_LINE_LENGTH as int),
        decreases cs@.len() - i, if full {
            0int
        } else {
            1int
        },
    {
        let w = utf8_width(cs[i]);
        proof {
            lemma_bytes_prefix_step(cs@, i as int, MAX_LINE_LENGTH - used);
        }
        if w > MAX_LINE_LENGTH - used {
            full = true;
        } else {
            let ghost before = out@;
            out.push(cs[i]);
            assert(before + (seq![cs@[i as int]] + bytes_prefix(cs@.subrange(i + 1, cs@.len() as int), MAX_LINE_LENGTH - used - w)) =~= out@ + bytes_prefix(cs@.subrange(i + 1, cs@.len() as int), MAX_LINE_LENGTH - (used + w)));
            used = used + w;
            i = i + 1;
        }
    }
    proof {
        if !full {
            assert(cs@.subrange(i as int, cs@.len() as int) =~= Seq::<char>::empty());
        }
        assert(out@ + Seq::<char>::empty() =~= out@);
    }
    let ghost kept = out@;
    let marker = chars_of("... (truncated)");
    let mut j: usize = 0;
    while j < marker.len()
        invariant
            j <= marker@.len(),
            out@ == kept + marker@.take(j as int),
        decreases marker@.len() - j,
    {
        out.push(marker[j]);
        assert(kept + marker@.take(j + 1) =~= (kept + marker@.take(j as int)).push(marker@[j as int]));
        j = j + 1;
    }
    assert(marker@.take(j as int) =~= marker@);
    string_from_chars(&out)
}

/// Builds the diff data of a repository diff from its per-file, per-hunk
/// and per-line callbacks, within the size limits.
pub struct DiffBuilder {
    file_diffs: Vec<FileDiff>,
    current_file: Option<FileDiff>,
    current_hunk: Option<DiffHunk>,
    total_lines: usize,
    file_count: usize,
}

/// An optional file diff as plain values.
pub open spec fn opt_file_model(f: Option<FileDiff>) -> Option<FileDiffM> {
    match f {
        Some(x) => Some(file_diff_model(x)),
        None => None,
    }
}

/// An optional hunk as plain values.
pub open spec fn opt_hunk_model(h: Option<DiffHunk>) -> Option<HunkM> {
    match h {
        Some(x) => Some(hunk_model(x)),
        None => None,
    }
}

/// A file list with the line counts of the built file diffs, file by file
/// (files past the built diffs keep theirs).
pub open spec fn with_stats(
    files: Seq<(Seq<char>, char, u64, u64, Option<StagingState>)>,
    fds: Seq<FileDiffM>,
) -> Seq<(Seq<char>, char, u64, u64, Option<StagingState>)> {
    Seq::new(
        files.len(),
        |i: int|
            if i < fds.len() {
                (files[i].0, files[i].1, fds[i].1, fds[i].2, files[i].4)
            } else {
                files[i]
            },
    )
}

fn close_hunk(file: &mut FileDiff, hunk: Option<DiffHunk>)
    ensures
        file_diff_model(*final(file)) == close_file(file_diff_model(*old(file)), opt_hunk_model(hunk)),
{
    match hunk {
        Some(h) => {
            let ghost before = file.hunks@;
            file.hunks.push(h);
            assert(file.hunks@.map_values(|x: DiffHunk| hunk_model(x)) =~= before.map_values(
                |x: DiffHunk| hunk_model(x),
            ).push(hunk_model(h)));
        },
        None => {},
    }
}

impl DiffBuilder {
    /// The build so far, as plain values.
    pub closed spec fn model(self) -> BuilderM {
        (
            self.file_diffs@.map_values(|f: FileDiff| file_diff_model(f)),
            opt_file_model(self.current_file),
            opt_hunk_model(self.current_hunk),
            self.total_lines as int,
            self.file_count as int,
        )
    }

    #[verifier::type_invariant]
    closed spec fn within_limits(self) -> bool {
        builder_ok(self.model())
    }

    /// An empty build.
    pub fn new() -> (b: Self)
        ensures
            b.model() == (Seq::<FileDiffM>::empty(), None::<FileDiffM>, None::<HunkM>, 0int, 0int),
    {
        let b = DiffBuilder {
            file_diffs: Vec::new(),
            current_file: None,
            current_hunk: None,
            total_lines: 0,
            file_count: 0,
        };
        assert(b.file_diffs@.map_values(|f: FileDiff| file_diff_model(f)) =~= Seq::<FileDiffM>::empty());
        proof {
            lemma_diff_lines_nonneg(Seq::<FileDiffM>::empty());
        }
        b
    }

    /// A file callback: whether to go on, and the build after it.
    pub fn on_file(self, path: &str) -> (r: (Self, bool))
        ensures
            (r.1, r.0.model()) == file_event(self.model(), path@),
    {
        proof {
            use_type_invariant(&self);
            law_diff_within_limits(self.model(), path@, None, ' ', None, None, None);
        }
        let DiffBuilder { mut file_diffs, current_file, current_hunk, total_lines, file_count } = self;
        if file_count >= MAX_DIFF_FILES {
            return (DiffBuilder { file_diffs, current_file, current_hunk, total_lines, file_count }, false);
        }
        let new_file = FileDiff { path: path.to_owned(), additions: 0, deletions: 0, hunks: Vec::new() };
        assert(new_file.hunks@.map_values(|x: DiffHunk| hunk_model(x)) =~= Seq::<HunkM>::empty());
        match current_file {
            Some(f) => {
                let mut f = f;
                close_hunk(&mut f, current_hunk);
                let ghost before = file_diffs@;
                file_diffs.push(f);
                assert(file_diffs@.map_values(|x: FileDiff| file_diff_model(x)) =~= before.map_values(
                    |x: FileDiff| file_diff_model(x),
                ).push(file_diff_model(f)));
                (DiffBuilder {
                    file_diffs,
                    current_file: Some(new_file),
                    current_hunk: None,
                    total_lines,
                    file_count: file_count + 1,
                }, true)
            },
            None => (DiffBuilder {
                file_diffs,
                current_file: Some(new_file),
                current_hunk,
                total_lines,
                file_count: file_count + 1,
            }, true),
        }
    }

    /// A hunk callback, with the header when it is UTF-8: whether to go on,
    /// and the build after it.
    pub fn on_hunk(self, header: Option<&str>) -> (r: (Self, bool))
        ensures
            (r.1, r.0.model()) == hunk_event(self.model(), match header {
                Some(h) => Some(h@),
                None => None,
            }),
    {
        proof {
            use_type_invariant(&self);
            law_diff_within_limits(self.model(), Seq::empty(), match header {
                Some(h) => Some(h@),
                None => None,
            }, ' ', None, None, None);
        }
        let DiffBuilder { file_diffs, current_file, current_hunk, total_lines, file_count } = self;
        if total_lines >= MAX_DIFF_LINES {
            return (DiffBuilder { file_diffs, current_file, current_hunk, total_lines, file_count }, false);
        }
        let text = match header {
            Some(h) => trim_end_text(h),
            None => String::new(),
        };
        let new_hunk = DiffHunk { header: text, lines: Vec::new() };
        assert(new_hunk.lines@.map_values(|l: DiffLine| line_model(l)) =~= Seq::<LineM>::empty());
        let cur = match current_file {
            Some(f) => {
                let mut f = f;
                close_hunk(&mut f, current_hunk);
                Some(f)
            },
            None => None,
        };
        (DiffBuilder { file_diffs, current_file: cur, current_hunk: Some(new_hunk), total_lines, file_count }, true)
    }

    /// A line callback: the origin marker, the content when it is UTF-8,
    /// and the line numbers; whether to go on, and the build after it.
    pub fn on_line(self, origin: char, content: Option<&str>, old_lineno: Option<u32>, new_lineno: Option<u32>) -> (r: (Self, bool))
        requires
            content matches Some(c) ==> crate::text::utf8_len(c@) <= MAX_LINE_LENGTH || exists|k: int|
                0 <= k <= c@.len() && #[trigger] crate::text::byte_offset(c@, k) == MAX_LINE_LENGTH,
        ensures
            (r.1, r.0.model()) == line_event(self.model(), origin, match content {
                Some(c) => Some(c@),
                None => None,
            }, old_lineno, new_lineno),
    {
        proof {
            use_type_invariant(&self);
            law_diff_within_limits(self.model(), Seq::empty(), None, origin, match content {
                Some(c) => Some(c@),
                None => None,
            }, old_lineno, new_lineno);
        }
        let DiffBuilder { file_diffs, current_file, current_hunk, total_lines, file_count } = self;
        if total_lines >= MAX_DIFF_LINES {
            return (DiffBuilder { file_diffs, current_file, current_hunk, total_lines, file_count }, false);
        }
        let t = line_type_of(origin);
        let text = line_text_of(content);
        let cur = match current_file {
            Some(f) => {
                let mut f = f;
                if t == DiffLineType::Add {
                    f.additions = f.additions + 1;
                } else if t == DiffLineType::Remove {
                    f.deletions = f.deletions + 1;
                }
                Some(f)
            },
            None => None,
        };
        let hunk = match current_hunk {
            Some(h) => {
                let mut h = h;
                let line = DiffLine { line_type: t, content: text, old_lineno, new_lineno };
                let ghost before = h.lines@;
                h.lines.push(line);
                assert(h.lines@.map_values(|l: DiffLine| line_model(l)) =~= before.map_values(
                    |l: DiffLine| line_model(l),
                ).push(line_model(line)));
                Some(h)
            },
            None => None,
        };
        (DiffBuilder { file_diffs, current_file: cur, current_hunk: hunk, total_lines: total_lines + 1, file_count }, true)
    }

    /// Finish the build: the file diffs, with the open file (and its open
    /// hunk) appended, and `files` with the line counts of the file diffs.
    pub fn finish(self, files: Vec<FileChange>) -> (d: DiffData)
        ensures
            d.file_diffs@.map_values(|f: FileDiff| file_diff_model(f)) == finished(self.model()),
            files_model(d.files@) == with_stats(files_model(files@), finished(self.model())),
    {
        proof {
            use_type_invariant(&self);
        }
        let DiffBuilder { mut file_diffs, current_file, current_hunk, total_lines, file_count } = self;
        let ghost fm = finished(self.model());
        match current_file {
            Some(f) => {
                let mut f = f;
                close_hunk(&mut f, current_hunk);
                let ghost before = file_diffs@;
                file_diffs.push(f);
                assert(file_diffs@.map_values(|x: FileDiff| file_diff_model(x)) =~= before.map_values(
                    |x: FileDiff| file_diff_model(x),
                ).push(file_diff_model(f)));
            },
            None => {},
        }
        let mut files = files;
        let ghost f0 = files@;
        let n = files.len();
        let mut i: usize = 0;
        while i < n
            invariant
                n == f0.len(),
                files@.len() == n,
                i <= n,
                fm == file_diffs@.map_values(|x: FileDiff| file_diff_model(x)),
                forall|k: int| 0 <= k < n ==> #[trigger] file_model(files@[k]) == (if k < i {
                    with_stats(files_model(f0), fm)[k]
                } else {
                    file_model(f0[k])
                }),
            decreases n - i,
        {
            let ghost before = files@;
            proof {
                assert(file_model(before[i as int]) == file_model(f0[i as int]));
                assert(files_model(f0)[i as int] == file_model(f0[i as int]));
                if i < file_diffs@.len() {
                    assert(fm[i as int] == file_diff_model(file_diffs@[i as int]));
                }
            }
            if i < file_diffs.len() {
                let a = file_diffs[i].additions;
                let d = file_diffs[i].deletions;
                files[i].additions = a;
                files[i].deletions = d;
            }
            proof {
                assert(files_model(f0).len() == n);
                assert(fm.len() == file_diffs@.len());
                assert(file_model(files@[i as int]) == with_stats(files_model(f0), fm)[i as int]);
                assert forall|k: int| 0 <= k < n implies #[trigger] file_model(files@[k]) == (if k < i + 1 {
                    with_stats(files_model(f0), fm)[k]
                } else {
                    file_model(f0[k])
                }) by {
                    if k != i {
                        assert(files@[k] == before[k]);
                    }
                }
            }
            i = i + 1;
        }
        assert(files_model(files@) =~= with_stats(files_model(f0), fm));
        DiffData { files, file_diffs }
    }
}

/// The kind of change a diff delta records.
#[derive(Debug, Clone, Copy, PartialEq, Eq, Structural)]
pub enum DeltaStatus {
    Added,
    Modified,
    Deleted,
    Renamed,
    Copied,
    Untracked,
    Other,
}

/// The status letter of a delta: A, M, D, R, C, and '?' for the others.
pub open spec fn status_letter(d: DeltaStatus) -> char {
    match d {
        DeltaStatus::Added => 'A',
        DeltaStatus::Modified => 'M',
        DeltaStatus::Deleted => 'D',
        DeltaStatus::Renamed => 'R',
        DeltaStatus::Copied => 'C',
        _ => '?',
    }
}

/// The status letter of a delta.
pub fn status_char(d: DeltaStatus) -> (c: char)
    ensures
        c == status_letter(d),
{
    match d {
        DeltaStatus::Added => 'A',
        DeltaStatus::Modified => 'M',
        DeltaStatus::Deleted => 'D',
        DeltaStatus::Renamed => 'R',
        DeltaStatus::Copied => 'C',
        _ => '?',
    }
}

/// The staging state of a working tree change: staged when only the index
/// differs, unstaged when only the working tree does, partial when both do,
/// none when neither does.
pub open spec fn staging_spec(has_index: bool, has_wt: bool) -> Option<StagingState> {
    if has_index && has_wt {
        Some(StagingState::Partial)
    } else if has_index {
        Some(StagingState::Staged)
    } else if has_wt {
        Some(StagingState::Unstaged)
    } else {
        None
    }
}

/// The staging state of a working tree change.
pub fn staging_state_of(has_index: bool, has_wt: bool) -> (r: Option<StagingState>)
    ensures
        r == staging_spec(has_index, has_wt),
{
    match (has_index, has_wt) {
        (true, false) => Some(StagingState::Staged),
        (false, true) => Some(StagingState::Unstaged),
        (true, true) => Some(StagingState::Partial),
        (false, false) => None,
    }
}

/// The staging state recorded last for `path` among `entries`.
pub open spec fn staging_lookup(entries: Seq<(Seq<char>, StagingState)>, path: Seq<char>) -> Option<StagingState>
    decreases entries.len(),
{
    if entries.len() == 0 {
        None
    } else if entries.last().0 == path {
        Some(entries.last().1)
    } else {
        staging_lookup(entries.drop_last(), path)
    }
}

/// Staging entries as plain values.
pub open spec fn staging_model(v: Seq<(String, StagingState)>) -> Seq<(Seq<char>, StagingState)> {
    v.map_values(|e: (String, StagingState)| (e.0@, e.1))
}

/// The changed files of a diff's deltas (at most `MAX_DIFF_FILES` of
/// them): path and status letter, no line counts yet, and the staging state
/// recorded for the path.
pub open spec fn delta_files(
    deltas: Seq<(Seq<char>, DeltaStatus)>,
    staging: Seq<(Seq<char>, StagingState)>,
) -> Seq<(Seq<char>, char, u64, u64, Option<StagingState>)> {
    let n = if deltas.len() < MAX_DIFF_FILES {
        deltas.len() as int
    } else {
        MAX_DIFF_FILES as int
    };
    Seq::new(
        n as nat,
        |i: int| (deltas[i].0, status_letter(deltas[i].1), 0u64, 0u64, staging_lookup(staging, deltas[i].0)),
    )
}

/// Deltas as plain values.
pub open spec fn deltas_model(v: Seq<(String, DeltaStatus)>) -> Seq<(Seq<char>, DeltaStatus)> {
    v.map_values(|e: (String, DeltaStatus)| (e.0@, e.1))
}

fn find_staging(entries: &Vec<(String, StagingState)>, path: &String) -> (r: Option<StagingState>)
    ensures
        r == staging_lookup(staging_model(entries@), path@),
{
    let mut i = entries.len();
    assert(staging_model(entries@).take(i as int) =~= staging_model(entries@));
    while i > 0
        invariant
            i <= entries@.len(),
            staging_lookup(staging_model(entries@), path@) == staging_lookup(
                staging_model(entries@).take(i as int),
                path@,
            ),
        decreases i,
    {
        let ghost t = staging_model(entries@).take(i as int);
        assert(t.last() == (entries@[i - 1].0@, entries@[i - 1].1));
        if entries[i - 1].0 == *path {
            return Some(entries[i - 1].1);
        }
        assert(t.drop_last() =~= staging_model(entries@).take(i - 1));
        i = i - 1;
    }
    None
}

/// The changed files of a diff's deltas, with the recorded staging states
/// (an empty list of entries gives none).
pub fn files_from_deltas(deltas: &Vec<(String, DeltaStatus)>, staging: &Vec<(String, StagingState)>) -> (r: Vec<FileChange>)
    ensures
        files_model(r@) == delta_files(deltas_model(deltas@), staging_model(staging@)),
{
    let n = if deltas.len() < MAX_DIFF_FILES {
        deltas.len()
    } else {
        MAX_DIFF_FILES
    };
    let ghost target = delta_files(deltas_model(deltas@), staging_model(staging@));
    let mut r: Vec<FileChange> = Vec::new();
    let mut i: usize = 0;
    while i < n
        invariant
            n <= deltas@.len(),
            target.len() == n,
            target == delta_files(deltas_model(deltas@), staging_model(staging@)),
            i <= n,
            files_model(r@) == target.take(i as int),
        decreases n - i,
    {
        let (path, status) = (&deltas[i].0, deltas[i].1);
        let f = FileChange {
            path: path.clone(),
            status_char: status_char(status),
            additions: 0,
            deletions: 0,
            staging_state: find_staging(staging, path),
        };
        let ghost prev = r@;
        r.push(f);
        proof {
            assert(deltas_model(deltas@)[i as int] == (path@, status));
            assert(files_model(r@) =~= files_model(prev).push(file_model(f)));
            assert(target.take(i + 1) =~= target.take(i as int).push(target[i as int]));
        }
        i = i + 1;
    }
    assert(target.take(i as int) =~= target);
    r
}

/// Counts the added and removed lines of each file of a diff from its
/// per-file and per-line callbacks, within the size limits.
pub struct LineCounter {
    additions: Vec<u64>,
    deletions: Vec<u64>,
    file_index: usize,
    total_lines: usize,
    file_count: usize,
}

/// A line count as plain values: per-file added and removed lines, the
/// current file, lines seen, files seen.
pub type CounterM = (Seq<u64>, Seq<u64>, int, int, int);

/// A new file starts: refused once the file limit is reached.
pub open spec fn count_file_event(m: CounterM) -> (bool, CounterM) {
    if m.4 >= MAX_DIFF_FILES {
        (false, m)
    } else {
        (true, (m.0, m.1, m.4, m.3, m.4 + 1))
    }
}

/// A line: refused once the line limit is reached; otherwise counted, and
/// an added or removed line counted for the current file when there is a
/// slot for it.
pub open spec fn count_line_event(m: CounterM, origin: char) -> (bool, CounterM) {
    if m.3 >= MAX_DIFF_LINES {
        (false, m)
    } else {
        let i = m.2;
        let adds = if origin == '+' && 0 <= i < m.0.len() {
            m.0.update(i, (m.0[i] + 1) as u64)
        } else {
            m.0
        };
        let dels = if origin == '-' && 0 <= i < m.1.len() {
            m.1.update(i, (m.1[i] + 1) as u64)
        } else {
            m.1
        };
        (true, (adds, dels, m.2, m.3 + 1, m.4))
    }
}

impl LineCounter {
    /// The count so far, as plain values.
    pub closed spec fn model(self) -> CounterM {
        (self.additions@, self.deletions@, self.file_index as int, self.total_lines as int, self.file_count as int)
    }

    #[verifier::type_invariant]
    closed spec fn counts_ok(self) -> bool {
        &&& self.total_lines <= MAX_DIFF_LINES
        &&& self.file_count <= MAX_DIFF_FILES
        &&& forall|k: int| 0 <= k < self.additions@.len() ==> #[trigger] self.additions@[k] <= self.total_lines
        &&& forall|k: int| 0 <= k < self.deletions@.len() ==> #[trigger] self.deletions@[k] <= self.total_lines
    }

    /// A count for `files` files, all zero.
    pub fn new(files: usize) -> (c: Self)
        ensures
            c.model() == (Seq::new(files as nat, |i: int| 0u64), Seq::new(files as nat, |i: int| 0u64), 0int, 0int, 0int),
    {
        let mut additions: Vec<u64> = Vec::new();
        let mut deletions: Vec<u64> = Vec::new();
        let mut i: usize = 0;
        while i < files
            invariant
                i <= files,
                additions@ == Seq::new(i as nat, |k: int| 0u64),
                deletions@ == Seq::new(i as nat, |k: int| 0u64),
            decreases files - i,
        {
            additions.push(0);
            deletions.push(0);
            assert(additions@ =~= Seq::new((i + 1) as nat, |k: int| 0u64));
            assert(deletions@ =~= Seq::new((i + 1) as nat, |k: int| 0u64));
            i = i + 1;
        }
        LineCounter { additions, deletions, file_index: 0, total_lines: 0, file_count: 0 }
    }

    /// A file callback: whether to go on, and the count after it.
    pub fn on_file(self) -> (r: (Self, bool))
        ensures
            (r.1, r.0.model()) == count_file_event(self.model()),
    {
        proof {
            use_type_invariant(&self);
        }
        let LineCounter { additions, deletions, file_index, total_lines, file_count } = self;
        if file_count >= MAX_DIFF_FILES {
            return (LineCounter { additions, deletions, file_index, total_lines, file_count }, false);
        }
        (LineCounter { additions, deletions, file_index: file_count, total_lines, file_count: file_count + 1 }, true)
    }

    /// A line callback with the line's origin marker: whether to go on, and
    /// the count after it.
    pub fn on_line(self, origin: char) -> (r: (Self, bool))
        ensures
            (r.1, r.0.model()) == count_line_event(self.model(), origin),
    {
        proof {
            use_type_invariant(&self);
        }
        let LineCounter { mut additions, mut deletions, file_index, total_lines, file_count } = self;
        if total_lines >= MAX_DIFF_LINES {
            return (LineCounter { additions, deletions, file_index, total_lines, file_count }, false);
        }
        let idx = file_index;
        if origin == '+' && idx < additions.len() {
            let v = additions[idx];
            additions.set(idx, v + 1);
        }
        if origin == '-' && idx < deletions.len() {
            let v = deletions[idx];
            deletions.set(idx, v + 1);
        }
        (LineCounter { additions, deletions, file_index, total_lines: total_lines + 1, file_count }, true)
    }

    /// Put the counts on the files, file by file.
    pub fn apply(self, files: &mut Vec<FileChange>)
        ensures
            final(files)@.len() == old(files)@.len(),
            forall|k: int|
                0 <= k < final(files)@.len() ==> #[trigger] file_model(final(files)@[k]) == (
                    old(files)@[k].path@,
                    old(files)@[k].status_char,
                    if k < self.model().0.len() {
                        self.model().0[k]
                    } else {
                        old(files)@[k].additions
                    },
                    if k < self.model().1.len() {
                        self.model().1[k]
                    } else {
                        old(files)@[k].deletions
                    },
                    old(files)@[k].staging_state,
                ),
    {
        let n = files.len();
        let mut i: usize = 0;
        while i < n
            invariant
                n == old(files)@.len(),
                files@.len() == n,
                i <= n,
                forall|k: int|
                    0 <= k < n ==> #[trigger] file_model(files@[k]) == (
                        old(files)@[k].path@,
                        old(files)@[k].status_char,
                        if k < i && k < self.additions@.len() {
                            self.additions@[k]
                        } else {
                            old(files)@[k].additions
                        },
                        if k < i && k < self.deletions@.len() {
                            self.deletions@[k]
                        } else {
                            old(files)@[k].deletions
                        },
                        old(files)@[k].staging_state,
                    ),
            decreases n - i,
        {
            let ghost before = files@;
            proof {
                assert(file_model(before[i as int]) == file_model(before[i as int]));
            }
            if i < self.additions.len() {
                files[i].additions = self.additions[i];
            }
            if i < self.deletions.len() {
                files[i].deletions = self.deletions[i];
            }
            proof {
                assert forall|k: int| 0 <= k < n && k != i implies files@[k] == before[k] by {}
            }
            i = i + 1;
        }
    }
}

/// What HEAD is: a branch (with its short name, if it has one), a detached
/// commit (with its hex id, if it resolves), a branch with no commits yet,
/// or missing.
#[derive(Debug, Clone)]
pub enum HeadInfo {
    Branch(Option<String>),
    Detached(Option<String>),
    Unborn,
    Missing,
}

/// The label of HEAD: the branch name ("HEAD" without one), the first 7
/// characters of a detached commit's id ("(detached)" when it does not
/// resolve or HEAD is missing), or "(no commits)".
pub open spec fn head_label(h: HeadInfo) -> Seq<char> {
    match h {
        HeadInfo::Branch(Some(n)) => n@,
        HeadInfo::Branch(None) => "HEAD"@,
        HeadInfo::Detached(Some(id)) => if id@.len() > 7 {
            id@.take(7)
        } else {
            id@
        },
        HeadInfo::Detached(None) => "(detached)"@,
        HeadInfo::Unborn => "(no commits)"@,
        HeadInfo::Missing => "(detached)"@,
    }
}

/// The branch label shown for HEAD.
pub fn branch_label(h: &HeadInfo) -> (r: String)
    ensures
        r@ == head_label(*h),
{
    match h {
        HeadInfo::Branch(Some(n)) => n.clone(),
        HeadInfo::Branch(None) => "HEAD".to_owned(),
        HeadInfo::Detached(Some(id)) => {
            let cs = chars_of(id.as_str());
            let n = if cs.len() > 7 {
                7
            } else {
                cs.len()
            };
            let mut out: Vec<char> = Vec::new();
            let mut i: usize = 0;
            while i < n
                invariant
                    n <= cs@.len(),
                    i <= n,
                    out@ == cs@.take(i as int),
                decreases n - i,
            {
                out.push(cs[i]);
                assert(cs@.take(i + 1) =~= cs@.take(i as int).push(cs@[i as int]));
                i = i + 1;
            }
            assert(cs@.take(n as int) =~= head_label(*h)) by {
                if cs@.len() <= 7 {
                    assert(cs@.take(n as int) =~= cs@);
                }
            }
            string_from_chars(&out)
        },
        HeadInfo::Detached(None) => "(detached)".to_owned(),
        HeadInfo::Unborn => "(no commits)".to_owned(),
        HeadInfo::Missing => "(detached)".to_owned(),
    }
}

/// Whether a working tree is dirty: some entry's status is not "current".
pub fn is_dirty(entry_is_current: &Vec<bool>) -> (r: bool)
    ensures
        r == exists|k: int| 0 <= k < entry_is_current@.len() && !#[trigger] entry_is_current@[k],
{
    let mut i: usize = 0;
    while i < entry_is_current.len()
        invariant
            i <= entry_is_current@.len(),
            forall|k: int| 0 <= k < i ==> #[trigger] entry_is_current@[k],
        decreases entry_is_current@.len() - i,
    {
        if !entry_is_current[i] {
            return true;
        }
        i = i + 1;
    }
    false
}

/// Swap the red and blue bytes of the first `count` RGBA pixels, giving
/// BGRA.
pub fn rgba_to_bgra(pixels: &mut Vec<u8>, count: usize)
    requires
        4 * count <= old(pixels)@.len(),
    ensures
        final(pixels)@.len() == old(pixels)@.len(),
        forall|k: int|
            0 <= k < final(pixels)@.len() ==> #[trigger] final(pixels)@[k] == (if k < 4 * count && k % 4
                == 0 {
                old(pixels)@[k + 2]
            } else if k < 4 * count && k % 4 == 2 {
                old(pixels)@[k - 2]
            } else {
                old(pixels)@[k]
            }),
{
    let n = pixels.len();
    let mut q: usize = 0;
    while q < count
        invariant
            n == old(pixels)@.len(),
            4 * count <= n,
            pixels@.len() == n,
            q <= count,
            forall|k: int|
                0 <= k < n ==> #[trigger] pixels@[k] == (if k < 4 * q && k % 4 == 0 {
                    old(pixels)@[k + 2]
                } else if k < 4 * q && k % 4 == 2 {
                    old(pixels)@[k - 2]
                } else {
                    old(pixels)@[k]
                }),
        decreases count - q,
    {
        let p = 4 * q;
        let r = pixels[p];
        let b = pixels[p + 2];
        pixels.set(p, b);
        pixels.set(p + 2, r);
        q = q + 1;
    }
}

/// The image a byte buffer decodes to, as its width, height and RGBA bytes
/// (`None` when it does not decode): what `image::load_from_memory`
/// followed by `into_rgba8` gives.
pub uninterp spec fn decoded_rgba(bytes: Seq<u8>) -> Option<(u32, u32, Seq<u8>)>;

/// `image::load_from_memory` then `DynamicImage::into_rgba8`: the width,
/// height and raw RGBA bytes, or the decoder's error message.
#[verifier::external_body]
fn decode_rgba(bytes: &[u8]) -> (r: Result<(u32, u32, Vec<u8>), String>)
    ensures
        match r {
            Ok((w, h, px)) => decoded_rgba(bytes@) == Some((w, h, px@)),
            Err(_) => decoded_rgba(bytes@) is None,
        },
{
    match image::load_from_memory(bytes) {
        Ok(img) => {
            let rgba = img.into_rgba8();
            Ok((rgba.width(), rgba.height(), rgba.into_raw()))
        },
        Err(e) => Err(e.to_string()),
    }
}

/// A decoded image: width, height and BGRA bytes.
#[derive(Debug, Clone)]
pub struct DecodedImage {
    pub width: u32,
    pub height: u32,
    pub bgra: Vec<u8>,
}

/// The number of whole pixels of a `w` by `h` image held by `len` bytes.
pub open spec fn pixel_count(w: u32, h: u32, len: int) -> int {
    min_int(w * h, len / 4)
}

/// Decode image bytes for display: the decoded pixels with red and blue
/// swapped (the display wants BGRA); "Image decode error: " and the
/// decoder's message when the bytes do not decode.
pub fn decode_image_bytes(bytes: &[u8]) -> (r: Result<DecodedImage, String>)
    ensures
        match r {
            Ok(img) => decoded_rgba(bytes@) matches Some((w, h, px)) && img.width == w && img.height
                == h && img.bgra@.len() == px.len() && forall|k: int|
                0 <= k < px.len() ==> #[trigger] img.bgra@[k] == (if k < 4 * pixel_count(w, h, px.len() as int)
                    && k % 4 == 0 {
                    px[k + 2]
                } else if k < 4 * pixel_count(w, h, px.len() as int) && k % 4 == 2 {
                    px[k - 2]
                } else {
                    px[k]
                }),
            Err(m) => decoded_rgba(bytes@) is None && exists|detail: Seq<char>|
                m@ == "Image decode error: "@ + detail,
        },
{
    match decode_rgba(bytes) {
        Ok((w, h, px)) => {
            let mut px = px;
            let w64: u64 = w as u64;
            let h64: u64 = h as u64;
            assert(w64 * h64 <= 0xffff_ffff * 0xffff_ffff) by (nonlinear_arith)
                requires
                    w64 <= 0xffff_ffff,
                    h64 <= 0xffff_ffff,
            ;
            let area: u64 = w64 * h64;
            let whole = px.len() / 4;
            let count: usize = if area < whole as u64 {
                area as usize
            } else {
                whole
            };
            rgba_to_bgra(&mut px, count);
            Ok(DecodedImage { width: w, height: h, bgra: px })
        },
        Err(detail) => {
            let mut msg = chars_of("Image decode error: ");
            let d = chars_of(detail.as_str());
            let ghost head = msg@;
            let mut i: usize = 0;
            while i < d.len()
                invariant
                    i <= d@.len(),
                    msg@ == head + d@.take(i as int),
                decreases d@.len() - i,
            {
                msg.push(d[i]);
                assert(head + d@.take(i + 1) =~= (head + d@.take(i as int)).push(d@[i as int]));
                i = i + 1;
            }
            assert(d@.take(i as int) =~= d@);
            Err(string_from_chars(&msg))
        },
    }
}

} // verus!
