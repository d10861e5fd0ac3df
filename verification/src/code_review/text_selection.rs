//! Character-level text selection state for diff views: the drag-to-select
//! state machine, per-row selected column ranges, and selected text
//! extraction.
use vstd::prelude::*;
use crate::code_review::diff_view::{DiffRow, RowModel, rows_model};
use crate::code_review::intra_line::content_of;
use crate::text::{chars_of, string_from_chars};

verus! {

/// A position in the diff view: (row_index, char_col).
pub type Position = (usize, usize);

/// Whether `a` comes no later than `b`: row first, then column.
pub open spec fn pos_le(a: Position, b: Position) -> bool {
    a.0 < b.0 || (a.0 == b.0 && a.1 <= b.1)
}

/// The pair ordered so that the first comes no later than the second.
pub open spec fn ordered(a: Position, b: Position) -> (Position, Position) {
    if pos_le(a, b) {
        (a, b)
    } else {
        (b, a)
    }
}

fn position_le(a: Position, b: Position) -> (r: bool)
    ensures
        r == pos_le(a, b),
{
    a.0 < b.0 || (a.0 == b.0 && a.1 <= b.1)
}

/// Character-level selection state for text areas (diff view).
/// Tracks anchor (drag start) and cursor (drag end) as (row_index, char_col).
#[derive(Clone, Debug)]
pub struct TextSelection {
    /// Row and column where the drag started (mouse down)
    pub anchor: Option<Position>,
    /// Row and column where the drag is currently (mouse move/up)
    pub cursor: Option<Position>,
    /// Whether a drag is currently in progress
    pub dragging: bool,
}

/// A selection just started at `(row, col)`.
pub open spec fn started_at(row: usize, col: usize) -> TextSelection {
    TextSelection { anchor: Some((row, col)), cursor: Some((row, col)), dragging: true }
}

/// A selection after its drag moved to `(row, col)`: only a drag in
/// progress moves the cursor.
pub open spec fn dragged_to(sel: TextSelection, row: usize, col: usize) -> TextSelection {
    if sel.dragging {
        TextSelection { cursor: Some((row, col)), ..sel }
    } else {
        sel
    }
}

/// A selection after its drag ended.
pub open spec fn drag_ended(sel: TextSelection) -> TextSelection {
    TextSelection { dragging: false, ..sel }
}

impl Default for TextSelection {
    fn default() -> (s: Self)
        ensures
            s.anchor is None,
            s.cursor is None,
            !s.dragging,
    {
        TextSelection { anchor: None, cursor: None, dragging: false }
    }
}

impl TextSelection {
    /// The selection range, ordered so that start <= end; `None` unless both
    /// ends are set.
    pub open spec fn range_spec(&self) -> Option<(Position, Position)> {
        match (self.anchor, self.cursor) {
            (Some(a), Some(c)) => Some(ordered(a, c)),
            _ => None,
        }
    }

    /// The selected column range of row `row` whose text has `len` columns.
    pub open spec fn row_range_spec(&self, row: usize, len: usize) -> Option<(usize, usize)> {
        match self.range_spec() {
            None => None,
            Some(((sr, sc), (er, ec))) => if row < sr || row > er {
                None
            } else if sr == er {
                Some((sc, ec))
            } else if row == sr {
                Some((sc, len))
            } else if row == er {
                Some((0, ec))
            } else {
                Some((0, len))
            },
        }
    }

    /// Start a drag at the given row and column.
    /// Sets anchor and cursor to the same position.
    pub fn start_drag(&mut self, row: usize, col: usize)
        ensures
            final(self).anchor == Some((row, col)),
            final(self).cursor == Some((row, col)),
            final(self).dragging,
    {
        self.anchor = Some((row, col));
        self.cursor = Some((row, col));
        self.dragging = true;
    }

    /// Update the cursor position during a drag.
    /// Only updates if a drag is in progress.
    pub fn update_drag(&mut self, row: usize, col: usize)
        ensures
            final(self).anchor == old(self).anchor,
            final(self).dragging == old(self).dragging,
            final(self).cursor == (if old(self).dragging {
                Some((row, col))
            } else {
                old(self).cursor
            }),
    {
        if self.dragging {
            self.cursor = Some((row, col));
        }
    }

    /// End the current drag. Keeps anchor/cursor positions.
    pub fn end_drag(&mut self)
        ensures
            final(self).anchor == old(self).anchor,
            final(self).cursor == old(self).cursor,
            !final(self).dragging,
    {
        self.dragging = false;
    }

    /// Clear all selection state.
    pub fn clear(&mut self)
        ensures
            final(self).anchor is None,
            final(self).cursor is None,
            !final(self).dragging,
    {
        self.anchor = None;
        self.cursor = None;
        self.dragging = false;
    }

    /// Returns true if no selection exists (anchor or cursor is None).
    pub fn is_empty(&self) -> (r: bool)
        ensures
            r == (self.anchor is None || self.cursor is None),
    {
        self.anchor.is_none() || self.cursor.is_none()
    }

    /// Returns the selection range normalized so start <= end.
    /// Compares row first, then column. Returns None if empty.
    pub fn normalized_range(&self) -> (r: Option<(Position, Position)>)
        ensures
            r == self.range_spec(),
    {
        match (self.anchor, self.cursor) {
            (Some(anchor), Some(cursor)) => {
                if position_le(anchor, cursor) {
                    Some((anchor, cursor))
                } else {
                    Some((cursor, anchor))
                }
            },
            _ => None,
        }
    }

    /// Returns true if the given row falls within the selection range.
    pub fn row_is_selected(&self, row_index: usize) -> (r: bool)
        ensures
            r == match self.range_spec() {
                Some((s, e)) => s.0 <= row_index <= e.0,
                None => false,
            },
    {
        match self.normalized_range() {
            Some(((start_row, _), (end_row, _))) => row_index >= start_row && row_index
                <= end_row,
            None => false,
        }
    }

    /// Returns the selected column range for a given row.
    /// For the first row: (start_col, content_len).
    /// For middle rows: (0, content_len).
    /// For the last row: (0, end_col).
    /// For single-row selection: (start_col, end_col).
    /// Returns None if the row is not selected.
    pub fn selection_for_row(&self, row_index: usize, content_len: usize) -> (r: Option<
        (usize, usize),
    >)
        ensures
            r == self.row_range_spec(row_index, content_len),
    {
        let range = self.normalized_range();
        match range {
            None => None,
            Some(((start_row, start_col), (end_row, end_col))) => {
                if row_index < start_row || row_index > end_row {
                    None
                } else if start_row == end_row {
                    Some((start_col, end_col))
                } else if row_index == start_row {
                    Some((start_col, content_len))
                } else if row_index == end_row {
                    Some((0, end_col))
                } else {
                    Some((0, content_len))
                }
            },
        }
    }
}

/// A normalized selection runs forwards; a row is selected exactly when it
/// has a selected column range; and there is a range exactly when the
/// selection is not empty.
pub proof fn law_selection_consistent(sel: TextSelection, row: usize, len: usize)
    ensures
        sel.range_spec() matches Some((s, e)) ==> pos_le(s, e),
        sel.range_spec() is None <==> (sel.anchor is None || sel.cursor is None),
        sel.row_range_spec(row, len) is Some <==> (sel.range_spec() matches Some((s, e)) && s.0
            <= row <= e.0),
{
}

/// The columns `cs..ce` of one row's text that a selection from `s` to `e`
/// (ordered) takes, for row `r`.
pub open spec fn row_columns(text: Seq<char>, r: int, s: (int, int), e: (int, int)) -> (int, int) {
    let n = text.len() as int;
    let cs = if r == s.0 {
        if s.1 < n {
            s.1
        } else {
            n
        }
    } else {
        0
    };
    let ce = if r == e.0 {
        if e.1 < n {
            e.1
        } else {
            n
        }
    } else {
        n
    };
    (cs, ce)
}

/// The selected pieces of texts `s.0 .. stop`.
pub open spec fn selected_lines(texts: Seq<Seq<char>>, s: (int, int), e: (int, int), stop: int) -> Seq<
    Seq<char>,
>
    decreases stop - s.0,
{
    if stop <= s.0 {
        Seq::empty()
    } else {
        let prev = selected_lines(texts, s, e, stop - 1);
        let text = texts[stop - 1];
        let c = row_columns(text, stop - 1, s, e);
        if c.0 <= c.1 {
            prev.push(text.subrange(c.0, c.1))
        } else {
            prev
        }
    }
}

/// Lines joined with newlines.
pub open spec fn join_lines(ls: Seq<Seq<char>>) -> Seq<char>
    decreases ls.len(),
{
    if ls.len() == 0 {
        Seq::empty()
    } else if ls.len() == 1 {
        ls[0]
    } else {
        join_lines(ls.drop_last()) + seq!['\n'] + ls.last()
    }
}

/// The pieces of `texts` (one per row) that a selection between `a` and `b`
/// (in either order) takes: the selected part of each row from the start row
/// to the end row; rows past the end of the list are skipped.
pub open spec fn selection_pieces(texts: Seq<Seq<char>>, a: Position, b: Position) -> Seq<Seq<char>> {
    let (s, e) = ordered(a, b);
    let stop = if e.0 + 1 < texts.len() {
        e.0 + 1
    } else {
        texts.len() as int
    };
    selected_lines(texts, (s.0 as int, s.1 as int), (e.0 as int, e.1 as int), stop)
}

/// The texts of a list of diff rows: the header or the line content.
pub open spec fn row_texts(rows: Seq<RowModel>) -> Seq<Seq<char>> {
    rows.map_values(|r: RowModel| content_of(r))
}

/// The text a selection between `a` and `b` (in either order) copies from
/// diff rows: the selected pieces joined with newlines.
pub open spec fn copied_text(rows: Seq<RowModel>, a: Position, b: Position) -> Seq<char> {
    join_lines(selection_pieces(row_texts(rows), a, b))
}

proof fn lemma_selected_lines_empty(texts: Seq<Seq<char>>, s: (int, int), e: (int, int), stop: int)
    requires
        stop <= s.0,
    ensures
        selected_lines(texts, s, e, stop) == Seq::<Seq<char>>::empty(),
{
}

/// `x` capped at `n`.
pub open spec fn capped(x: int, n: int) -> int {
    if x < n {
        x
    } else {
        n
    }
}

proof fn lemma_selected_lines_all(texts: Seq<Seq<char>>, s: (int, int), e: (int, int), stop: int)
    requires
        0 <= s.0 <= stop <= texts.len(),
        stop <= e.0 + 1,
        0 <= s.1,
        0 <= e.1,
        s.0 < e.0 || (s.0 == e.0 && s.1 <= e.1),
    ensures
        selected_lines(texts, s, e, stop).len() == stop - s.0,
        forall|k: int|
            0 <= k < stop - s.0 ==> #[trigger] selected_lines(texts, s, e, stop)[k] == texts[s.0 + k].subrange(
                row_columns(texts[s.0 + k], s.0 + k, s, e).0,
                row_columns(texts[s.0 + k], s.0 + k, s, e).1,
            ),
    decreases stop - s.0,
{
    if stop > s.0 {
        lemma_selected_lines_all(texts, s, e, stop - 1);
        let prev = selected_lines(texts, s, e, stop - 1);
        let text = texts[stop - 1];
        let c = row_columns(text, stop - 1, s, e);
        assert(c.0 <= c.1);
        let cur = selected_lines(texts, s, e, stop);
        assert(cur == prev.push(text.subrange(c.0, c.1)));
        assert forall|k: int| 0 <= k < stop - s.0 implies #[trigger] cur[k] == texts[s.0 + k].subrange(
            row_columns(texts[s.0 + k], s.0 + k, s, e).0,
            row_columns(texts[s.0 + k], s.0 + k, s, e).1,
        ) by {
            if k < stop - 1 - s.0 {
                assert(cur[k] == prev[k]);
            }
        }
    }
}

/// A selection takes one piece from every row it spans that exists, empty
/// or not: from the first row its text from the start column, from the last
/// row its text up to the end column, and every row between whole (columns
/// past a row's end are cut to it).
pub proof fn law_selection_takes_every_row(texts: Seq<Seq<char>>, a: Position, b: Position)
    ensures
        ({
            let (s, e) = ordered(a, b);
            let p = selection_pieces(texts, a, b);
            let last = capped(e.0 as int, texts.len() - 1);
            &&& (s.0 >= texts.len() ==> p.len() == 0)
            &&& (s.0 < texts.len() ==> p.len() == last - s.0 + 1)
            &&& (s.0 < texts.len() ==> p[0] == texts[s.0 as int].subrange(
                capped(s.1 as int, texts[s.0 as int].len() as int),
                if s.0 == e.0 {
                    capped(e.1 as int, texts[s.0 as int].len() as int)
                } else {
                    texts[s.0 as int].len() as int
                },
            ))
            &&& forall|k: int| 0 < k && s.0 + k < e.0 && s.0 + k < texts.len() ==> #[trigger] p[k] == texts[s.0 + k]
            &&& (s.0 < e.0 && e.0 < texts.len() ==> p[e.0 - s.0] == texts[e.0 as int].subrange(
                0,
                capped(e.1 as int, texts[e.0 as int].len() as int),
            ))
        }),
{
    let (s, e) = ordered(a, b);
    let si = (s.0 as int, s.1 as int);
    let ei = (e.0 as int, e.1 as int);
    let stop = if e.0 + 1 < texts.len() {
        e.0 + 1
    } else {
        texts.len() as int
    };
    if s.0 < texts.len() {
        lemma_selected_lines_all(texts, si, ei, stop);
        let p = selection_pieces(texts, a, b);
        assert(p == selected_lines(texts, si, ei, stop));
        assert forall|k: int| 0 < k && s.0 + k < e.0 && s.0 + k < texts.len() implies #[trigger] p[k] == texts[s.0 + k] by {
            assert(texts[s.0 + k].subrange(0, texts[s.0 + k].len() as int) =~= texts[s.0 + k]);
        }
    } else {
        lemma_selected_lines_empty(texts, si, ei, stop);
    }
}

/// Take the selection between `start` and `end` (in either order) from
/// `texts`: the pieces joined with newlines, and how many pieces there were.
pub fn select_from_texts(texts: &Vec<Vec<char>>, start: Position, end: Position) -> (r: (
    Vec<char>,
    usize,
))
    ensures
        r.0@ == join_lines(selection_pieces(texts@.map_values(|t: Vec<char>| t@), start, end)),
        r.1 == selection_pieces(texts@.map_values(|t: Vec<char>| t@), start, end).len(),
{
    let ghost m = texts@.map_values(|t: Vec<char>| t@);
    let (start, end) = if position_le(start, end) {
        (start, end)
    } else {
        (end, start)
    };
    let ghost s = (start.0 as int, start.1 as int);
    let ghost e = (end.0 as int, end.1 as int);
    let (start_row, start_col) = start;
    let (end_row, end_col) = end;
    let mut out: Vec<char> = Vec::new();
    let mut count: usize = 0;
    let mut row_idx = start_row;
    while row_idx <= end_row && row_idx < texts.len()
        invariant
            m == texts@.map_values(|t: Vec<char>| t@),
            m.len() == texts@.len(),
            s == (start_row as int, start_col as int),
            e == (end_row as int, end_col as int),
            start_row <= row_idx,
            start_row <= end_row,
            row_idx <= end_row + 1,
            row_idx == start_row || row_idx <= texts@.len(),
            out@ == join_lines(selected_lines(m, s, e, row_idx as int)),
            count == selected_lines(m, s, e, row_idx as int).len(),
            count <= row_idx - start_row,
        decreases texts@.len() - row_idx,
    {
        let chars = &texts[row_idx];
        let n = chars.len();
        let col_start = if row_idx == start_row {
            if start_col < n {
                start_col
            } else {
                n
            }
        } else {
            0
        };
        let col_end = if row_idx == end_row {
            if end_col < n {
                end_col
            } else {
                n
            }
        } else {
            n
        };
        let ghost prev = selected_lines(m, s, e, row_idx as int);
        proof {
            assert(m[row_idx as int] == chars@);
            assert(row_columns(chars@, row_idx as int, s, e) == (col_start as int, col_end as int));
        }
        if col_start <= col_end {
            let ghost before = out@;
            let first = count == 0;
            if !first {
                out.push('\n');
            }
            let mut c = col_start;
            while c < col_end
                invariant
                    col_start <= c <= col_end <= chars@.len(),
                    out@ == (if first {
                        before
                    } else {
                        before.push('\n')
                    }) + chars@.subrange(col_start as int, c as int),
                decreases col_end - c,
            {
                out.push(chars[c]);
                proof {
                    assert(chars@.subrange(col_start as int, c + 1) =~= chars@.subrange(
                        col_start as int,
                        c as int,
                    ).push(chars@[c as int]));
                }
                c = c + 1;
            }
            proof {
                let piece = chars@.subrange(col_start as int, col_end as int);
                assert(selected_lines(m, s, e, row_idx + 1) == prev.push(piece));
                if first {
                    assert(prev.push(piece) =~= seq![piece]);
                    assert(out@ =~= join_lines(prev.push(piece)));
                } else {
                    assert(prev.push(piece).drop_last() =~= prev);
                    assert(out@ =~= join_lines(prev.push(piece)));
                }
            }
            count = count + 1;
        }
        row_idx = row_idx + 1;
    }
    proof {
        let stop = if e.0 + 1 < m.len() {
            e.0 + 1
        } else {
            m.len() as int
        };
        if row_idx as int != stop {
            lemma_selected_lines_empty(m, s, e, stop);
            lemma_selected_lines_empty(m, s, e, row_idx as int);
        }
    }
    (out, count)
}

/// Extract character-level selected text from diff rows.
/// `start` and `end` are (row_index, char_col), in either order.
/// For HunkHeader rows, uses the header string. For Line rows, uses content.
/// Joins multi-line selection with newlines.
pub fn copy_selected_text(rows: &[DiffRow], start: Position, end: Position) -> (text: String)
    ensures
        text@ == copied_text(rows_model(rows@), start, end),
{
    let mut texts: Vec<Vec<char>> = Vec::new();
    let mut i: usize = 0;
    while i < rows.len()
        invariant
            i <= rows@.len(),
            texts@.map_values(|t: Vec<char>| t@) == row_texts(rows_model(rows@)).take(i as int),
        decreases rows@.len() - i,
    {
        let text = match &rows[i] {
            DiffRow::HunkHeader(h) => h.as_str(),
            DiffRow::Line { content, .. } => content.as_str(),
        };
        let ghost prev = texts@;
        texts.push(chars_of(text));
        proof {
            assert(texts@.map_values(|t: Vec<char>| t@) =~= prev.map_values(|t: Vec<char>| t@).push(
                text@,
            ));
            assert(row_texts(rows_model(rows@)).take(i + 1) =~= row_texts(rows_model(rows@)).take(
                i as int,
            ).push(text@));
        }
        i = i + 1;
    }
    assert(row_texts(rows_model(rows@)).take(i as int) =~= row_texts(rows_model(rows@)));
    let (out, _count) = select_from_texts(&texts, start, end);
    string_from_chars(&out)
}

/// Copying a selection gives the same text whichever end it was dragged from.
pub proof fn law_copy_either_direction(rows: Seq<RowModel>, a: Position, b: Position)
    ensures
        copied_text(rows, a, b) == copied_text(rows, b, a),
{
}

} // verus!
