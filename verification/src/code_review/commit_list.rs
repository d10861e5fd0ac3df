//! The commit history list and the commit detail's description lines.
use vstd::prelude::*;
use crate::git::types::CommitInfo;
use crate::text::{blank, is_blank, lines_of, text_lines};

verus! {

/// Height in pixels of the title row of a commit description.
pub const TITLE_ROW_HEIGHT: u32 = 20;

/// Height in pixels of a body row of a commit description.
pub const BODY_ROW_HEIGHT: u32 = 18;

/// A line of the commit description, for selection hit-testing.
#[derive(Debug, Clone)]
pub struct DescLine {
    pub text: String,
    pub row_height: u32,
}

/// The description lines of a commit: its summary, then each line of its
/// body, unless the body is missing or blank.
pub open spec fn description_texts(summary: Seq<char>, body: Option<Seq<char>>) -> Seq<Seq<char>> {
    seq![summary] + match body {
        Some(b) => if is_blank(b) {
            Seq::empty()
        } else {
            text_lines(b)
        },
        None => Seq::empty(),
    }
}

/// The body of a commit as text, if it has one.
pub open spec fn body_view(c: CommitInfo) -> Option<Seq<char>> {
    match c.body {
        Some(b) => Some(b@),
        None => None,
    }
}

/// Build the logical text lines of the commit detail for selection purposes:
/// the summary as the title row, then the body lines.
pub fn build_description_lines(commit: &CommitInfo) -> (lines: Vec<DescLine>)
    ensures
        lines@.map_values(|l: DescLine| l.text@) == description_texts(
            commit.summary@,
            body_view(*commit),
        ),
        lines@.len() > 0,
        lines@[0].row_height == TITLE_ROW_HEIGHT,
        forall|k: int| 0 < k < lines@.len() ==> (#[trigger] lines@[k]).row_height == BODY_ROW_HEIGHT,
{
    let mut lines: Vec<DescLine> = Vec::new();
    lines.push(DescLine { text: commit.summary.clone(), row_height: TITLE_ROW_HEIGHT });
    let ghost body_lines: Seq<Seq<char>> = match body_view(*commit) {
        Some(b) => if is_blank(b) {
            Seq::empty()
        } else {
            text_lines(b)
        },
        None => Seq::empty(),
    };
    match &commit.body {
        Some(body) => {
            if !blank(body.as_str()) {
                let parts = lines_of(body.as_str());
                let mut i: usize = 0;
                while i < parts.len()
                    invariant
                        i <= parts@.len(),
                        parts@.map_values(|l: String| l@) == body_lines,
                        lines@.map_values(|l: DescLine| l.text@) == seq![commit.summary@]
                            + body_lines.take(i as int),
                        lines@.len() == i + 1,
                        lines@[0].row_height == TITLE_ROW_HEIGHT,
                        forall|k: int|
                            0 < k < lines@.len() ==> (#[trigger] lines@[k]).row_height
                                == BODY_ROW_HEIGHT,
                    decreases parts@.len() - i,
                {
                    let ghost prev = lines@;
                    lines.push(DescLine { text: parts[i].clone(), row_height: BODY_ROW_HEIGHT });
                    proof {
                        assert(lines@.map_values(|l: DescLine| l.text@) =~= prev.map_values(
                            |l: DescLine| l.text@,
                        ).push(parts@[i as int]@));
                        assert(body_lines[i as int] == parts@[i as int]@);
                        assert(body_lines.take(i + 1) =~= body_lines.take(i as int).push(
                            body_lines[i as int],
                        ));
                    }
                    i = i + 1;
                }
                assert(body_lines.take(i as int) =~= body_lines);
            } else {
                assert(lines@.map_values(|l: DescLine| l.text@) =~= seq![commit.summary@]
                    + body_lines);
            }
        },
        None => {
            assert(lines@.map_values(|l: DescLine| l.text@) =~= seq![commit.summary@] + body_lines);
        },
    }
    lines
}

/// The number of rows the commit list shows: one per commit, plus a spinner
/// row while more commits are loading and history is not exhausted.
pub fn commit_list_item_count(commits_len: usize, loading_more: bool, all_loaded: bool) -> (n:
    usize)
    requires
        commits_len < usize::MAX,
    ensures
        n == (if loading_more && !all_loaded {
            commits_len + 1
        } else {
            commits_len as int
        }),
{
    if loading_more && !all_loaded {
        commits_len + 1
    } else {
        commits_len
    }
}

/// Whether row `ix` lies in the selected range between `anchor` and
/// `cursor` (inclusive, in either order); nothing is selected unless both
/// are set.
pub fn row_in_selected_range(ix: usize, selected_range: (Option<usize>, Option<usize>)) -> (r: bool)
    ensures
        r == match selected_range {
            (Some(a), Some(c)) => (a <= ix <= c) || (c <= ix <= a),
            _ => false,
        },
{
    match selected_range {
        (Some(a), Some(c)) => {
            let lo = if a < c {
                a
            } else {
                c
            };
            let hi = if a < c {
                c
            } else {
                a
            };
            ix >= lo && ix <= hi
        },
        _ => false,
    }
}

} // verus!
