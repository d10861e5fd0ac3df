//! The flattened diff rows that the diff viewer lists, and the preparation of
//! their highlight spans.
use vstd::prelude::*;
use crate::git::types::{DiffHunk, DiffLine, DiffLineType, FileDiff};
use crate::text::{chars_of, chars_equal};
use vstd::string::StringSliceAdditionalSpecFns;

verus! {

/// What a highlight span paints: a syntax capture (by index into the capture
/// names) or an intra-line changed word on a removed or added line.
#[derive(Debug, Clone, Copy, PartialEq, Eq, Structural)]
pub enum HighlightKind {
    Syntax(usize),
    RemovedWord,
    AddedWord,
}

/// A highlight span: a byte range of the row's text and what it paints.
pub type Highlight = (std::ops::Range<usize>, HighlightKind);

/// A flattened diff row — either a hunk header or a diff line.
#[derive(Debug, Clone)]
pub enum DiffRow {
    HunkHeader(String),
    Line {
        old_lineno: Option<u32>,
        new_lineno: Option<u32>,
        content: String,
        line_type: DiffLineType,
        highlights: Vec<Highlight>,
        intra_line_highlights: Vec<Highlight>,
    },
}

/// The mathematical content of a row.
pub enum RowModel {
    Header(Seq<char>),
    Line {
        old_lineno: Option<u32>,
        new_lineno: Option<u32>,
        content: Seq<char>,
        line_type: DiffLineType,
        highlights: Seq<(int, int, HighlightKind)>,
        intra: Seq<(int, int, HighlightKind)>,
    },
}

/// The spans of a highlight list as `(start, end, kind)` triples.
pub open spec fn spans_of(h: Seq<Highlight>) -> Seq<(int, int, HighlightKind)> {
    h.map_values(|x: Highlight| (x.0.start as int, x.0.end as int, x.1))
}

impl View for DiffRow {
    type V = RowModel;

    open spec fn view(&self) -> RowModel {
        match self {
            DiffRow::HunkHeader(h) => RowModel::Header(h@),
            DiffRow::Line {
                old_lineno,
                new_lineno,
                content,
                line_type,
                highlights,
                intra_line_highlights,
            } => RowModel::Line {
                old_lineno: *old_lineno,
                new_lineno: *new_lineno,
                content: content@,
                line_type: *line_type,
                highlights: spans_of(highlights@),
                intra: spans_of(intra_line_highlights@),
            },
        }
    }
}

/// The models of a list of rows.
pub open spec fn rows_model(rows: Seq<DiffRow>) -> Seq<RowModel> {
    rows.map_values(|r: DiffRow| r@)
}

/// The model of an unhighlighted row for a diff line.
pub open spec fn line_row(l: DiffLine) -> RowModel {
    RowModel::Line {
        old_lineno: l.old_lineno,
        new_lineno: l.new_lineno,
        content: l.content@,
        line_type: l.line_type,
        highlights: Seq::empty(),
        intra: Seq::empty(),
    }
}

/// The rows of a hunk: its header, then each of its lines.
pub open spec fn hunk_rows(h: DiffHunk) -> Seq<RowModel> {
    seq![RowModel::Header(h.header@)] + h.lines@.map_values(|l: DiffLine| line_row(l))
}

/// The rows of a list of hunks, in order.
pub open spec fn hunks_rows(hunks: Seq<DiffHunk>) -> Seq<RowModel>
    decreases hunks.len(),
{
    if hunks.len() == 0 {
        Seq::empty()
    } else {
        hunks_rows(hunks.drop_last()) + hunk_rows(hunks.last())
    }
}

fn unhighlighted_row(l: &DiffLine) -> (r: DiffRow)
    ensures
        r@ == line_row(*l),
{
    let r = DiffRow::Line {
        old_lineno: l.old_lineno,
        new_lineno: l.new_lineno,
        content: l.content.clone(),
        line_type: l.line_type,
        highlights: Vec::new(),
        intra_line_highlights: Vec::new(),
    };
    assert(spans_of(Seq::<Highlight>::empty()) =~= Seq::empty());
    r
}

/// Flatten a FileDiff into DiffRows for copy extraction (no highlighting):
/// each hunk's header row, then a row per line.
pub fn flatten_diff_for_copy(file_diff: &FileDiff) -> (rows: Vec<DiffRow>)
    ensures
        rows_model(rows@) == hunks_rows(file_diff.hunks@),
{
    let mut rows: Vec<DiffRow> = Vec::new();
    let mut h: usize = 0;
    while h < file_diff.hunks.len()
        invariant
            h <= file_diff.hunks@.len(),
            rows_model(rows@) == hunks_rows(file_diff.hunks@.take(h as int)),
        decreases file_diff.hunks@.len() - h,
    {
        let hunk = &file_diff.hunks[h];
        let ghost before = rows_model(rows@);
        rows.push(DiffRow::HunkHeader(hunk.header.clone()));
        let mut k: usize = 0;
        while k < hunk.lines.len()
            invariant
                k <= hunk.lines@.len(),
                rows_model(rows@) == before + seq![RowModel::Header(hunk.header@)]
                    + hunk.lines@.take(k as int).map_values(|l: DiffLine| line_row(l)),
            decreases hunk.lines@.len() - k,
        {
            let ghost prev = rows@;
            let row = unhighlighted_row(&hunk.lines[k]);
            rows.push(row);
            assert(rows_model(rows@) =~= rows_model(prev).push(line_row(hunk.lines@[k as int])));
            assert(hunk.lines@.take(k + 1).map_values(|l: DiffLine| line_row(l)) =~= hunk.lines@.take(
                k as int,
            ).map_values(|l: DiffLine| line_row(l)).push(line_row(hunk.lines@[k as int])));
            assert(rows_model(rows@) =~= before + seq![RowModel::Header(hunk.header@)]
                + hunk.lines@.take(k + 1).map_values(|l: DiffLine| line_row(l)));
            k = k + 1;
        }
        proof {
            assert(hunk.lines@.take(k as int) =~= hunk.lines@);
            assert(file_diff.hunks@.take(h + 1).drop_last() =~= file_diff.hunks@.take(h as int));
            assert(rows_model(rows@) =~= hunks_rows(file_diff.hunks@.take(h + 1)));
        }
        h = h + 1;
    }
    proof {
        assert(file_diff.hunks@.take(h as int) =~= file_diff.hunks@);
    }
    rows
}

/// Flatten a FileDiff into a Vec<DiffRow> for list rendering.
pub fn flatten_diff(file_diff: &FileDiff) -> (rows: Vec<DiffRow>)
    ensures
        rows_model(rows@) == hunks_rows(file_diff.hunks@),
{
    flatten_diff_for_copy(file_diff)
}

/// The text after the last '.' of a path (the whole path when it has none).
pub open spec fn after_last_dot(cs: Seq<char>) -> Seq<char>
    decreases cs.len(),
{
    if cs.len() == 0 {
        cs
    } else if cs.last() == '.' {
        Seq::empty()
    } else {
        after_last_dot(cs.drop_last()).push(cs.last())
    }
}

/// ASCII letters folded to lower case; other characters unchanged.
pub open spec fn fold_char(c: char) -> char {
    if 'A' <= c <= 'Z' {
        (((c as u8) + 32) as u8) as char
    } else {
        c
    }
}

/// The image file extensions the diff viewer previews.
pub open spec fn is_image_extension(e: Seq<char>) -> bool {
    ||| e == seq!['p', 'n', 'g']
    ||| e == seq!['j', 'p', 'g']
    ||| e == seq!['j', 'p', 'e', 'g']
    ||| e == seq!['g', 'i', 'f']
    ||| e == seq!['w', 'e', 'b', 'p']
    ||| e == seq!['s', 'v', 'g']
    ||| e == seq!['b', 'm', 'p']
    ||| e == seq!['i', 'c', 'o']
    ||| e == seq!['t', 'i', 'f', 'f']
    ||| e == seq!['t', 'i', 'f']
    ||| e == seq!['a', 'v', 'i', 'f']
}

fn fold(c: char) -> (r: char)
    ensures
        r == fold_char(c),
{
    if 'A' <= c && c <= 'Z' {
        ((c as u8) + 32) as char
    } else {
        c
    }
}

/// Rows with the syntax highlights of `per_row` put on the line rows (a row
/// past the end of `per_row` gets none).
pub open spec fn with_highlights(rows: Seq<RowModel>, per_row: Seq<Seq<(int, int, HighlightKind)>>) -> Seq<RowModel> {
    Seq::new(
        rows.len(),
        |i: int|
            match rows[i] {
                RowModel::Line { old_lineno, new_lineno, content, line_type, highlights, intra } => RowModel::Line {
                    old_lineno,
                    new_lineno,
                    content,
                    line_type,
                    highlights: if i < per_row.len() {
                        per_row[i]
                    } else {
                        Seq::empty()
                    },
                    intra,
                },
                RowModel::Header(h) => RowModel::Header(h),
            },
    )
}

/// Give a line row the highlights `h`; a header row is left as it is.
fn set_highlights(row: &mut DiffRow, h: Vec<Highlight>)
    ensures
        final(row)@ == match old(row)@ {
            RowModel::Line { old_lineno, new_lineno, content, line_type, highlights, intra } => RowModel::Line {
                old_lineno,
                new_lineno,
                content,
                line_type,
                highlights: spans_of(h@),
                intra,
            },
            RowModel::Header(t) => RowModel::Header(t),
        },
{
    match row {
        DiffRow::Line { highlights, .. } => {
            *highlights = h;
        },
        DiffRow::HunkHeader(_) => {},
    }
}

/// The rows of a list of hunks carry no highlights.
proof fn lemma_hunks_rows_plain(hunks: Seq<DiffHunk>)
    ensures
        forall|k: int|
            0 <= k < hunks_rows(hunks).len() ==> (#[trigger] hunks_rows(hunks)[k]) is Line
                ==> hunks_rows(hunks)[k]->highlights == Seq::<(int, int, HighlightKind)>::empty(),
    decreases hunks.len(),
{
    if hunks.len() > 0 {
        lemma_hunks_rows_plain(hunks.drop_last());
        let a = hunks_rows(hunks.drop_last());
        let b = hunk_rows(hunks.last());
        assert(hunks_rows(hunks) == a + b);
        assert forall|k: int|
            0 <= k < hunks_rows(hunks).len() implies (#[trigger] hunks_rows(hunks)[k]) is Line
                ==> hunks_rows(hunks)[k]->highlights == Seq::<(int, int, HighlightKind)>::empty() by {
            if k < a.len() {
                assert(hunks_rows(hunks)[k] == a[k]);
            } else {
                assert(hunks_rows(hunks)[k] == b[k - a.len()]);
                if k - a.len() > 0 {
                    assert(b[k - a.len()] == line_row(hunks.last().lines@[k - a.len() - 1]));
                }
            }
        }
    }
}

/// Flatten a diff into rows carrying the given per-row syntax highlights,
/// then highlight the changed words of paired removed/added lines.
pub fn flatten_with_highlights(file_diff: &FileDiff, per_row: Vec<Vec<Highlight>>) -> (rows: Vec<DiffRow>)
    ensures
        ({
            let m = with_highlights(
                hunks_rows(file_diff.hunks@),
                per_row@.map_values(|r: Vec<Highlight>| spans_of(r@)),
            );
            rows_model(rows@) == crate::code_review::intra_line::apply_pairs(
                m,
                crate::code_review::intra_line::all_pairs(m),
            )
        }),
{
    let mut rows = flatten_diff_for_copy(file_diff);
    let ghost base = rows_model(rows@);
    proof {
        lemma_hunks_rows_plain(file_diff.hunks@);
    }
    let ghost pr = per_row@.map_values(|r: Vec<Highlight>| spans_of(r@));
    let mut per_row = per_row;
    let ghost pr0 = per_row@;
    let mut i: usize = 0;
    while i < rows.len()
        invariant
            base == hunks_rows(file_diff.hunks@),
            rows@.len() == base.len(),
            per_row@.len() == pr0.len(),
            pr == pr0.map_values(|r: Vec<Highlight>| spans_of(r@)),
            i <= rows@.len(),
            forall|k: int| i <= k < per_row@.len() ==> per_row@[k] == pr0[k],
            forall|k: int| 0 <= k < i ==> #[trigger] rows_model(rows@)[k] == with_highlights(base, pr)[k],
            forall|k: int| i <= k < rows@.len() ==> #[trigger] rows_model(rows@)[k] == base[k],
            forall|k: int| 0 <= k < base.len() ==> (#[trigger] base[k]) is Line ==> base[k]->highlights
                == Seq::<(int, int, HighlightKind)>::empty(),
        decreases rows@.len() - i,
    {
        let ghost before = rows@;
        let mut taken: Vec<Highlight> = Vec::new();
        if i < per_row.len() {
            std::mem::swap(&mut taken, &mut per_row[i]);
        }
        proof {
            assert(i < per_row@.len() ==> spans_of(taken@) == pr[i as int]);
            assert(i >= per_row@.len() ==> spans_of(taken@) =~= Seq::<(int, int, HighlightKind)>::empty());
        }
        set_highlights(&mut rows[i], taken);
        proof {
            assert(rows_model(before)[i as int] == before[i as int]@);
            assert(rows_model(rows@)[i as int] == rows@[i as int]@);
            assert forall|k: int| 0 <= k < i + 1 implies #[trigger] rows_model(rows@)[k] == with_highlights(base, pr)[k] by {
                assert(rows_model(rows@)[k] == rows@[k]@);
                assert(rows_model(before)[k] == before[k]@);
                if k < i {
                    assert(rows@[k] == before[k]);
                }
            }
            assert forall|k: int| i + 1 <= k < rows@.len() implies #[trigger] rows_model(rows@)[k] == base[k] by {
                assert(rows_model(rows@)[k] == rows@[k]@);
                assert(rows_model(before)[k] == before[k]@);
                assert(rows@[k] == before[k]);
            }
        }
        i = i + 1;
    }
    assert(rows_model(rows@) =~= with_highlights(base, pr));
    crate::code_review::intra_line::compute_intra_line_highlights(&mut rows);
    rows
}

/// Append copies of `hs` to `out`.
fn append_highlights(out: &mut Vec<Highlight>, hs: &Vec<Highlight>)
    ensures
        spans_of(final(out)@) == spans_of(old(out)@) + spans_of(hs@),
{
    let ghost start = out@;
    let mut i: usize = 0;
    while i < hs.len()
        invariant
            i <= hs@.len(),
            spans_of(out@) == spans_of(start) + spans_of(hs@.take(i as int)),
        decreases hs@.len() - i,
    {
        let x = (hs[i].0.start..hs[i].0.end, hs[i].1);
        let ghost prev = out@;
        out.push(x);
        proof {
            lemma_spans_of_push(prev, x);
            assert(spans_of(hs@.take(i + 1)) =~= spans_of(hs@.take(i as int)).push(
                (hs@[i as int].0.start as int, hs@[i as int].0.end as int, hs@[i as int].1),
            ));
        }
        i = i + 1;
    }
    assert(hs@.take(i as int) =~= hs@);
}

/// The highlights drawn on a line of `text`: its syntax highlights followed
/// by its changed-word highlights, made drawable together (snapped to char
/// boundaries, sorted, overlaps clipped).
pub fn display_highlights(text: &str, syntax: &Vec<Highlight>, intra: &Vec<Highlight>) -> (r: Vec<Highlight>)
    ensures
        spans_of(r@) == prepared_spans(text.spec_bytes(), spans_of(syntax@) + spans_of(intra@)),
{
    let mut combined: Vec<Highlight> = Vec::new();
    append_highlights(&mut combined, syntax);
    append_highlights(&mut combined, intra);
    assert(spans_of(Seq::<Highlight>::empty()) =~= Seq::<Span>::empty());
    assert(Seq::<Span>::empty() + spans_of(syntax@) =~= spans_of(syntax@));
    prepare_highlights(text, &mut combined);
    combined
}

/// Whether a row's selection `sel` (a char range) covers all of its
/// `char_count` characters.
pub fn row_fully_selected(sel: Option<(usize, usize)>, char_count: usize) -> (r: bool)
    ensures
        r == (sel matches Some((s, e)) && s == 0 && e >= char_count),
{
    match sel {
        Some((s, e)) => s == 0 && e >= char_count,
        None => false,
    }
}

/// Flatten a diff into rows for the diff view: the syntax highlights of the
/// diff on each line row, changed words on paired lines.
pub fn flatten_and_highlight_diff(
    file_diff: &FileDiff,
    highlighter: &mut crate::syntax::engine::SyntaxHighlighter,
) -> (rows: Vec<DiffRow>)
    requires
        old(highlighter).wf(),
    ensures
        final(highlighter).wf(),
        rows@.len() == hunks_rows(file_diff.hunks@).len(),
        ({
            let base = with_highlights(
                hunks_rows(file_diff.hunks@),
                crate::syntax::engine::diff_highlight_spans(file_diff.path@, file_diff.hunks@),
            );
            rows_model(rows@) == crate::code_review::intra_line::apply_pairs(
                base,
                crate::code_review::intra_line::all_pairs(base),
            )
        }),
{
    let per_row = highlighter.highlight_diff(file_diff);
    let rows = flatten_with_highlights(file_diff, per_row);
    proof {
        let m = with_highlights(
            hunks_rows(file_diff.hunks@),
            per_row@.map_values(|r: Vec<Highlight>| spans_of(r@)),
        );
        crate::code_review::intra_line::lemma_all_pairs_in_range(m);
        crate::code_review::intra_line::lemma_apply_pairs_len(m, crate::code_review::intra_line::all_pairs(m));
        assert(rows_model(rows@).len() == rows@.len());
        assert(per_row@.map_values(|r: Vec<Highlight>| spans_of(r@)).len() == per_row@.len());
    }
    rows
}

/// The characters of `path` after its last dot (all of it without a dot).
pub fn last_dot_segment(path: &str) -> (r: Vec<char>)
    ensures
        r@ == after_last_dot(path@),
{
    let cs = chars_of(path);
    let mut start: usize = cs.len();
    assert(cs@.take(start as int) =~= cs@);
    assert(cs@.subrange(start as int, cs@.len() as int) =~= Seq::<char>::empty());
    while start > 0 && cs[start - 1] != '.'
        invariant
            start <= cs@.len(),
            after_last_dot(cs@) == after_last_dot(cs@.take(start as int)) + cs@.subrange(
                start as int,
                cs@.len() as int,
            ),
        decreases start,
    {
        proof {
            let t = cs@.take(start as int);
            assert(t.drop_last() =~= cs@.take(start - 1));
            assert(t.last() == cs@[start - 1]);
            assert(cs@.subrange(start - 1, cs@.len() as int) =~= seq![cs@[start - 1]]
                + cs@.subrange(start as int, cs@.len() as int));
        }
        start = start - 1;
    }
    proof {
        let t = cs@.take(start as int);
        if start > 0 {
            assert(t.last() == '.');
        }
        assert(after_last_dot(t) =~= Seq::<char>::empty());
    }
    let mut seg: Vec<char> = Vec::new();
    let mut i = start;
    while i < cs.len()
        invariant
            start <= i <= cs@.len(),
            seg@ == cs@.subrange(start as int, i as int),
        decreases cs@.len() - i,
    {
        seg.push(cs[i]);
        assert(cs@.subrange(start as int, i + 1) =~= cs@.subrange(start as int, i as int).push(
            cs@[i as int],
        ));
        i = i + 1;
    }
    assert(after_last_dot(path@) =~= cs@.subrange(start as int, cs@.len() as int));
    seg
}

/// Check if a file path has an image extension (case-insensitive).
pub fn is_image_file(path: &str) -> (r: bool)
    ensures
        r == is_image_extension(after_last_dot(path@).map_values(|c: char| fold_char(c))),
{
    let seg = last_dot_segment(path);
    let mut ext: Vec<char> = Vec::new();
    let mut i: usize = 0;
    while i < seg.len()
        invariant
            i <= seg@.len(),
            ext@ == seg@.take(i as int).map_values(|c: char| fold_char(c)),
        decreases seg@.len() - i,
    {
        ext.push(fold(seg[i]));
        assert(seg@.take(i + 1).map_values(|c: char| fold_char(c)) =~= seg@.take(
            i as int,
        ).map_values(|c: char| fold_char(c)).push(fold_char(seg@[i as int])));
        i = i + 1;
    }
    assert(seg@.take(i as int) =~= seg@);
    chars_equal(&ext, &['p', 'n', 'g']) || chars_equal(&ext, &['j', 'p', 'g']) || chars_equal(
        &ext,
        &['j', 'p', 'e', 'g'],
    ) || chars_equal(&ext, &['g', 'i', 'f']) || chars_equal(&ext, &['w', 'e', 'b', 'p'])
        || chars_equal(&ext, &['s', 'v', 'g']) || chars_equal(&ext, &['b', 'm', 'p'])
        || chars_equal(&ext, &['i', 'c', 'o']) || chars_equal(&ext, &['t', 'i', 'f', 'f'])
        || chars_equal(&ext, &['t', 'i', 'f']) || chars_equal(&ext, &['a', 'v', 'i', 'f'])
}

/// A highlight span as `(start, end, kind)`.
pub type Span = (int, int, HighlightKind);

/// The first char boundary of `b` at or after `x` (or the end).
pub open spec fn snap_forward(b: Seq<u8>, x: int) -> int
    decreases b.len() - x,
{
    if 0 <= x < b.len() && !vstd::utf8::is_char_boundary(b, x) {
        snap_forward(b, x + 1)
    } else {
        x
    }
}

/// The last char boundary of `b` at or before `x` (or zero).
pub open spec fn snap_backward(b: Seq<u8>, x: int) -> int
    decreases x,
{
    if x > 0 && !vstd::utf8::is_char_boundary(b, x) {
        snap_backward(b, x - 1)
    } else {
        x
    }
}

/// Clamp a span to the text and snap it to char boundaries.
pub open spec fn snap_span(b: Seq<u8>, h: Span) -> Span {
    let len = b.len() as int;
    (
        snap_forward(b, if h.0 < len { h.0 } else { len }),
        snap_backward(b, if h.1 < len { h.1 } else { len }),
        h.2,
    )
}

/// Whether a span covers at least one byte.
pub open spec fn non_empty(h: Span) -> bool {
    h.0 < h.1
}

/// Insert `x` after every element whose start is not after its own.
pub open spec fn insert_by_start(s: Seq<Span>, x: Span) -> Seq<Span>
    decreases s.len(),
{
    if s.len() == 0 {
        seq![x]
    } else if s.last().0 <= x.0 {
        s.push(x)
    } else {
        insert_by_start(s.drop_last(), x).push(s.last())
    }
}

/// Stable sort of spans by start.
pub open spec fn sort_by_start(s: Seq<Span>) -> Seq<Span>
    decreases s.len(),
{
    if s.len() == 0 {
        s
    } else {
        insert_by_start(sort_by_start(s.drop_last()), s.last())
    }
}

/// Clip each span to start at or after the end of everything before it
/// (re-snapping a moved start forward) and never end before it starts.
pub open spec fn clip_spans(b: Seq<u8>, s: Seq<Span>, max_end: int) -> Seq<Span>
    decreases s.len(),
{
    if s.len() == 0 {
        s
    } else {
        let h = s[0];
        let st = if h.0 < max_end {
            snap_forward(b, max_end)
        } else {
            h.0
        };
        let en = if h.1 < st {
            st
        } else {
            h.1
        };
        seq![(st, en, h.2)] + clip_spans(b, s.drop_first(), if max_end < en { en } else { max_end })
    }
}

/// The highlights GPUI can lay out for `b`: snapped to char boundaries,
/// stably sorted by start, clipped so that none overlaps an earlier one, with
/// empty spans removed.
pub open spec fn prepared_spans(b: Seq<u8>, hs: Seq<Span>) -> Seq<Span> {
    if hs.len() == 0 {
        hs
    } else {
        clip_spans(
            b,
            sort_by_start(hs.map_values(|h: Span| snap_span(b, h)).filter(|h: Span| non_empty(h))),
            0,
        ).filter(|h: Span| non_empty(h))
    }
}

fn snap_fwd(text: &str, len: usize, x: usize) -> (r: usize)
    requires
        len == text.spec_bytes().len(),
        x <= len,
    ensures
        r == snap_forward(text.spec_bytes(), x as int),
        x <= r <= len,
{
    let mut y = x;
    while y < len && !text.is_char_boundary(y)
        invariant
            len == text.spec_bytes().len(),
            x <= y <= len,
            snap_forward(text.spec_bytes(), y as int) == snap_forward(text.spec_bytes(), x as int),
        decreases len - y,
    {
        y = y + 1;
    }
    y
}

fn snap_bwd(text: &str, len: usize, x: usize) -> (r: usize)
    requires
        len == text.spec_bytes().len(),
        x <= len,
    ensures
        r == snap_backward(text.spec_bytes(), x as int),
        r <= x,
{
    let mut y = x;
    while y > 0 && !text.is_char_boundary(y)
        invariant
            len == text.spec_bytes().len(),
            y <= x <= len,
            snap_backward(text.spec_bytes(), y as int) == snap_backward(text.spec_bytes(), x as int),
        decreases y,
    {
        y = y - 1;
    }
    y
}

proof fn lemma_spans_of_push(h: Seq<Highlight>, x: Highlight)
    ensures
        spans_of(h.push(x)) == spans_of(h).push((x.0.start as int, x.0.end as int, x.1)),
{
    assert(spans_of(h.push(x)) =~= spans_of(h).push((x.0.start as int, x.0.end as int, x.1)));
}

proof fn lemma_filter_push(s: Seq<Span>, x: Span)
    ensures
        s.push(x).filter(|h: Span| non_empty(h)) == (if non_empty(x) {
            s.filter(|h: Span| non_empty(h)).push(x)
        } else {
            s.filter(|h: Span| non_empty(h))
        }),
{
    reveal(Seq::filter);
    assert(s.push(x).drop_last() =~= s);
}

/// Snap every span and drop the empty ones.
fn snap_all(text: &str, len: usize, hs: &Vec<Highlight>) -> (out: Vec<Highlight>)
    requires
        len == text.spec_bytes().len(),
    ensures
        spans_of(out@) == spans_of(hs@).map_values(|h: Span| snap_span(text.spec_bytes(), h)).filter(
            |h: Span| non_empty(h),
        ),
        forall|k: int| 0 <= k < out@.len() ==> (#[trigger] out@[k]).0.start <= out@[k].0.end <= len,
{
    let ghost b = text.spec_bytes();
    let mut out: Vec<Highlight> = Vec::new();
    let mut i: usize = 0;
    while i < hs.len()
        invariant
            len == b.len(),
            b == text.spec_bytes(),
            i <= hs@.len(),
            spans_of(out@) == spans_of(hs@.take(i as int)).map_values(|h: Span| snap_span(b, h)).filter(
                |h: Span| non_empty(h),
            ),
            forall|k: int| 0 <= k < out@.len() ==> (#[trigger] out@[k]).0.start <= out@[k].0.end <= len,
        decreases hs@.len() - i,
    {
        let rs = hs[i].0.start;
        let re = hs[i].0.end;
        let kind = hs[i].1;
        let st0 = if rs < len {
            rs
        } else {
            len
        };
        let en0 = if re < len {
            re
        } else {
            len
        };
        let st = snap_fwd(text, len, st0);
        let en = snap_bwd(text, len, en0);
        let ghost prev = out@;
        let ghost item: Span = (st as int, en as int, kind);
        proof {
            assert(spans_of(hs@.take(i + 1)) =~= spans_of(hs@.take(i as int)).push(
                (hs@[i as int].0.start as int, hs@[i as int].0.end as int, hs@[i as int].1),
            ));
            let m0 = spans_of(hs@.take(i as int)).map_values(|h: Span| snap_span(b, h));
            assert(spans_of(hs@.take(i + 1)).map_values(|h: Span| snap_span(b, h)) =~= m0.push(item));
            lemma_filter_push(m0, item);
        }
        if st < en {
            out.push((st..en, kind));
            proof {
                lemma_spans_of_push(prev, (st..en, kind));
            }
        }
        i = i + 1;
    }
    proof {
        assert(hs@.take(i as int) =~= hs@);
    }
    out
}

/// Inserting at the position after the last start not greater than `x`'s is
/// what `insert_by_start` does.
proof fn lemma_insert_by_start(s: Seq<Span>, x: Span, p: int)
    requires
        0 <= p <= s.len(),
        p == 0 || s[p - 1].0 <= x.0,
        forall|q: int| p <= q < s.len() ==> #[trigger] s[q].0 > x.0,
    ensures
        insert_by_start(s, x) == s.insert(p, x),
    decreases s.len(),
{
    if s.len() == 0 {
        assert(s.insert(p, x) =~= seq![x]);
    } else if s.last().0 <= x.0 {
        assert(p == s.len());
        assert(s.insert(p, x) =~= s.push(x));
    } else {
        lemma_insert_by_start(s.drop_last(), x, p);
        assert(s.insert(p, x) =~= s.drop_last().insert(p, x).push(s.last()));
    }
}

/// Stable insertion sort by start.
fn sort_spans(hs: Vec<Highlight>) -> (out: Vec<Highlight>)
    ensures
        spans_of(out@) == sort_by_start(spans_of(hs@)),
        forall|k: int| 0 <= k < out@.len() ==> exists|q: int| 0 <= q < hs@.len() && #[trigger] out@[k] == hs@[q],
{
    let mut out: Vec<Highlight> = Vec::new();
    let mut i: usize = 0;
    while i < hs.len()
        invariant
            i <= hs@.len(),
            spans_of(out@) == sort_by_start(spans_of(hs@.take(i as int))),
            forall|k: int| 0 <= k < out@.len() ==> exists|q: int| 0 <= q < hs@.len() && #[trigger] out@[k] == hs@[q],
        decreases hs@.len() - i,
    {
        let x = (hs[i].0.start..hs[i].0.end, hs[i].1);
        let ghost xs: Span = (x.0.start as int, x.0.end as int, x.1);
        let mut p = out.len();
        while p > 0 && out[p - 1].0.start > x.0.start
            invariant
                p <= out@.len(),
                forall|q: int| p <= q < out@.len() ==> #[trigger] out@[q].0.start > x.0.start,
            decreases p,
        {
            p = p - 1;
        }
        let ghost before = out@;
        proof {
            let sv = spans_of(before);
            assert forall|q: int| p <= q < sv.len() implies #[trigger] sv[q].0 > xs.0 by {
                assert(sv[q].0 == before[q].0.start);
            }
            lemma_insert_by_start(sv, xs, p as int);
            assert(spans_of(hs@.take(i + 1)) =~= spans_of(hs@.take(i as int)).push(xs));
            assert(spans_of(hs@.take(i + 1)).drop_last() =~= spans_of(hs@.take(i as int)));
        }
        out.insert(p, x);
        proof {
            assert(spans_of(out@) =~= spans_of(before).insert(p as int, xs));
            assert forall|k: int| 0 <= k < out@.len() implies exists|q: int|
                0 <= q < hs@.len() && #[trigger] out@[k] == hs@[q] by {
                if k < p {
                    assert(out@[k] == before[k]);
                } else if k == p {
                    assert(out@[k] == hs@[i as int]);
                } else {
                    assert(out@[k] == before[k - 1]);
                }
            }
        }
        i = i + 1;
    }
    proof {
        assert(hs@.take(i as int) =~= hs@);
    }
    out
}

/// Clip the sorted spans and drop the ones left empty.
fn clip_all(text: &str, len: usize, hs: &Vec<Highlight>) -> (out: Vec<Highlight>)
    requires
        len == text.spec_bytes().len(),
        forall|k: int| 0 <= k < hs@.len() ==> (#[trigger] hs@[k]).0.start <= hs@[k].0.end <= len,
    ensures
        spans_of(out@) == clip_spans(text.spec_bytes(), spans_of(hs@), 0).filter(
            |h: Span| non_empty(h),
        ),
{
    let ghost b = text.spec_bytes();
    let ghost all = spans_of(hs@);
    let mut out: Vec<Highlight> = Vec::new();
    let ghost mut done: Seq<Span> = Seq::empty();
    let mut max_end: usize = 0;
    let mut i: usize = 0;
    assert(all.skip(0) =~= all);
    while i < hs.len()
        invariant
            len == b.len(),
            b == text.spec_bytes(),
            all == spans_of(hs@),
            forall|k: int| 0 <= k < hs@.len() ==> (#[trigger] hs@[k]).0.start <= hs@[k].0.end <= len,
            i <= hs@.len(),
            max_end <= len,
            done + clip_spans(b, all.skip(i as int), max_end as int) == clip_spans(b, all, 0),
            spans_of(out@) == done.filter(|h: Span| non_empty(h)),
        decreases hs@.len() - i,
    {
        let hs_start = hs[i].0.start;
        let hs_end = hs[i].0.end;
        let kind = hs[i].1;
        let st = if hs_start < max_end {
            snap_fwd(text, len, max_end)
        } else {
            hs_start
        };
        let en = if hs_end < st {
            st
        } else {
            hs_end
        };
        let ghost item: Span = (st as int, en as int, kind);
        proof {
            let rest = all.skip(i as int);
            assert(rest[0] == (hs_start as int, hs_end as int, kind));
            assert(rest.drop_first() =~= all.skip(i + 1));
            assert(clip_spans(b, rest, max_end as int) == seq![item] + clip_spans(
                b,
                all.skip(i + 1),
                if max_end < en { en as int } else { max_end as int },
            ));
            lemma_filter_push(done, item);
            done = done.push(item);
        }
        let ghost prev = out@;
        if st < en {
            out.push((st..en, kind));
            proof {
                lemma_spans_of_push(prev, (st..en, kind));
            }
        }
        if max_end < en {
            max_end = en;
        }
        proof {
            assert(done + clip_spans(b, all.skip(i + 1), max_end as int) =~= clip_spans(b, all, 0));
        }
        i = i + 1;
    }
    proof {
        assert(all.skip(i as int) =~= Seq::<Span>::empty());
        assert(done =~= clip_spans(b, all, 0));
    }
    out
}

fn arrange_highlights(text: &str, highlights: &mut Vec<Highlight>)
    ensures
        spans_of(final(highlights)@) == prepared_spans(text.spec_bytes(), spans_of(old(highlights)@)),
{
    if highlights.len() == 0 {
        assert(spans_of(highlights@) =~= Seq::<Span>::empty());
        return;
    }
    let len = text.as_bytes().len();
    let snapped = snap_all(text, len, highlights);
    let sorted = sort_spans(snapped);
    proof {
        assert forall|k: int| 0 <= k < sorted@.len() implies (#[trigger] sorted@[k]).0.start <= sorted@[k].0.end <= len by {
            let q = choose|q: int| 0 <= q < snapped@.len() && sorted@[k] == snapped@[q];
        }
    }
    let clipped = clip_all(text, len, &sorted);
    *highlights = clipped;
}
/// Prepare highlight ranges for text layout, which expects highlights sorted
/// by start and non-overlapping, on char boundaries:
/// 1. snap all range endpoints to valid UTF-8 char boundaries (and clamp to
///    the text length), dropping the ranges left empty;
/// 2. sort highlights by range start (stably);
/// 3. clip overlapping ranges so each highlight starts after the previous
///    ends, dropping the ranges left empty.
pub fn prepare_highlights(text: &str, highlights: &mut Vec<Highlight>)
    ensures
        spans_of(final(highlights)@) == prepared_spans(text.spec_bytes(), spans_of(old(highlights)@)),
        forall|k: int|
            0 <= k < final(highlights)@.len() ==> {
                let h = #[trigger] spans_of(final(highlights)@)[k];
                &&& 0 <= h.0 < h.1 <= text.spec_bytes().len()
                &&& vstd::utf8::is_char_boundary(text.spec_bytes(), h.0)
                &&& vstd::utf8::is_char_boundary(text.spec_bytes(), h.1)
            },
        spans_ordered(spans_of(final(highlights)@)),
        spans_within_inputs(spans_of(final(highlights)@), spans_of(old(highlights)@), text.spec_bytes().len() as int),
        old(highlights)@.len() == 0 ==> final(highlights)@.len() == 0,
{
    let ghost hs = spans_of(highlights@);
    arrange_highlights(text, highlights);
    proof {
        let b = text.spec_bytes();
        vstd::utf8::encode_utf8_valid_utf8(text@);
        law_prepared_spans_are_clean(b, hs);
        law_prepared_spans_come_from_inputs(b, hs);
        assert(spans_of(highlights@).len() == highlights@.len());
        assert(hs.len() == old(highlights)@.len());
        let out = spans_of(highlights@);
        assert(hs == spans_of(old(highlights)@));
        assert(spans_within_inputs(out, hs, b.len() as int));
    }
}



/// A span lies inside `b` on character boundaries, in order (start not
/// after end).
pub open spec fn span_snapped(b: Seq<u8>, h: Span) -> bool {
    &&& 0 <= h.0 <= b.len()
    &&& 0 <= h.1 <= b.len()
    &&& vstd::utf8::is_char_boundary(b, h.0)
    &&& vstd::utf8::is_char_boundary(b, h.1)
}

/// Each span ends no later than every later span starts.
pub open spec fn spans_ordered(s: Seq<Span>) -> bool {
    forall|j: int, k: int| #![trigger s[j], s[k]] 0 <= j < k < s.len() ==> s[j].1 <= s[k].0
}

proof fn lemma_snap_forward(b: Seq<u8>, x: int)
    requires
        vstd::utf8::valid_utf8(b),
        0 <= x <= b.len(),
    ensures
        x <= snap_forward(b, x) <= b.len(),
        vstd::utf8::is_char_boundary(b, snap_forward(b, x)),
    decreases b.len() - x,
{
    broadcast use vstd::utf8::is_char_boundary_start_end_of_seq;
    if x < b.len() && !vstd::utf8::is_char_boundary(b, x) {
        lemma_snap_forward(b, x + 1);
    }
}

proof fn lemma_snap_backward(b: Seq<u8>, x: int)
    requires
        vstd::utf8::valid_utf8(b),
        0 <= x <= b.len(),
    ensures
        0 <= snap_backward(b, x) <= x,
        vstd::utf8::is_char_boundary(b, snap_backward(b, x)),
    decreases x,
{
    broadcast use vstd::utf8::is_char_boundary_start_end_of_seq;
    if x > 0 && !vstd::utf8::is_char_boundary(b, x) {
        lemma_snap_backward(b, x - 1);
    }
}

proof fn lemma_filter_keeps_snapped(b: Seq<u8>, s: Seq<Span>, pred: spec_fn(Span) -> bool)
    requires
        forall|k: int| 0 <= k < s.len() ==> span_snapped(b, #[trigger] s[k]),
    ensures
        forall|k: int| 0 <= k < s.filter(pred).len() ==> span_snapped(b, #[trigger] s.filter(pred)[k]),
    decreases s.len(),
{
    reveal(Seq::filter);
    if s.len() > 0 {
        let d = s.drop_last();
        assert forall|k: int| 0 <= k < d.len() implies span_snapped(b, #[trigger] d[k]) by {
            assert(d[k] == s[k]);
        }
        lemma_filter_keeps_snapped(b, d, pred);
        let f0 = d.filter(pred);
        if pred(s.last()) {
            assert(s.filter(pred) == f0.push(s.last()));
            assert(s.last() == s[s.len() - 1]);
            assert forall|k: int| 0 <= k < f0.push(s.last()).len() implies span_snapped(b, #[trigger] f0.push(s.last())[k]) by {
                if k < f0.len() {
                    assert(f0.push(s.last())[k] == f0[k]);
                }
            }
        } else {
            assert(s.filter(pred) == f0);
        }
    }
}

proof fn lemma_filter_ordered(s: Seq<Span>, pred: spec_fn(Span) -> bool)
    requires
        spans_ordered(s),
    ensures
        spans_ordered(s.filter(pred)),
        forall|k: int| 0 <= k < s.filter(pred).len() ==> exists|j: int| 0 <= j < s.len() && #[trigger] s.filter(pred)[k] == s[j],
    decreases s.len(),
{
    reveal(Seq::filter);
    if s.len() > 0 {
        let d = s.drop_last();
        assert(spans_ordered(d));
        lemma_filter_ordered(d, pred);
        let f0 = d.filter(pred);
        if pred(s.last()) {
            let f = f0.push(s.last());
            assert(s.filter(pred) == f);
            assert forall|j: int, k: int| #![trigger f[j], f[k]] 0 <= j < k < f.len() implies f[j].1 <= f[k].0 by {
                if k == f0.len() {
                    assert(f[j] == f0[j]);
                    let jj = choose|jj: int| 0 <= jj < d.len() && #[trigger] f0[j] == d[jj];
                    assert(s[jj] == d[jj]);
                    assert(s[s.len() - 1] == s.last());
                } else {
                    assert(f[j] == f0[j] && f[k] == f0[k]);
                }
            }
            assert forall|k: int| 0 <= k < f.len() implies exists|j: int| 0 <= j < s.len() && #[trigger] f[k] == s[j] by {
                if k == f0.len() {
                    assert(f[k] == s[s.len() - 1]);
                } else {
                    let jj = choose|jj: int| 0 <= jj < d.len() && #[trigger] f0[k] == d[jj];
                    assert(f[k] == s[jj]);
                }
            }
        } else {
            assert(s.filter(pred) == f0);
            assert forall|k: int| 0 <= k < f0.len() implies exists|j: int| 0 <= j < s.len() && #[trigger] f0[k] == s[j] by {
                let jj = choose|jj: int| 0 <= jj < d.len() && #[trigger] f0[k] == d[jj];
                assert(f0[k] == s[jj]);
            }
        }
    }
}

proof fn lemma_insert_keeps_snapped(b: Seq<u8>, s: Seq<Span>, x: Span)
    requires
        forall|k: int| 0 <= k < s.len() ==> span_snapped(b, #[trigger] s[k]),
        span_snapped(b, x),
    ensures
        forall|k: int| 0 <= k < insert_by_start(s, x).len() ==> span_snapped(b, #[trigger] insert_by_start(s, x)[k]),
    decreases s.len(),
{
    if s.len() > 0 && s.last().0 > x.0 {
        lemma_insert_keeps_snapped(b, s.drop_last(), x);
        let r = insert_by_start(s.drop_last(), x);
        assert forall|k: int| 0 <= k < r.push(s.last()).len() implies span_snapped(b, #[trigger] r.push(s.last())[k]) by {
            if k == r.len() {
                assert(s.last() == s[s.len() - 1]);
            }
        }
    } else if s.len() > 0 {
        assert forall|k: int| 0 <= k < s.push(x).len() implies span_snapped(b, #[trigger] s.push(x)[k]) by {
        }
    }
}

proof fn lemma_sort_keeps_snapped(b: Seq<u8>, s: Seq<Span>)
    requires
        forall|k: int| 0 <= k < s.len() ==> span_snapped(b, #[trigger] s[k]),
    ensures
        forall|k: int| 0 <= k < sort_by_start(s).len() ==> span_snapped(b, #[trigger] sort_by_start(s)[k]),
    decreases s.len(),
{
    if s.len() > 0 {
        lemma_sort_keeps_snapped(b, s.drop_last());
        assert(s.last() == s[s.len() - 1]);
        lemma_insert_keeps_snapped(b, sort_by_start(s.drop_last()), s.last());
    }
}

proof fn lemma_clip(b: Seq<u8>, s: Seq<Span>, m: int)
    requires
        vstd::utf8::valid_utf8(b),
        0 <= m <= b.len(),
        forall|k: int| 0 <= k < s.len() ==> span_snapped(b, #[trigger] s[k]),
    ensures
        forall|k: int|
            0 <= k < clip_spans(b, s, m).len() ==> span_snapped(b, #[trigger] clip_spans(b, s, m)[k])
                && m <= clip_spans(b, s, m)[k].0 <= clip_spans(b, s, m)[k].1,
        spans_ordered(clip_spans(b, s, m)),
    decreases s.len(),
{
    if s.len() > 0 {
        let h = s[0];
        lemma_snap_forward(b, m);
        let st = if h.0 < m {
            snap_forward(b, m)
        } else {
            h.0
        };
        let en = if h.1 < st {
            st
        } else {
            h.1
        };
        let m2 = if m < en {
            en
        } else {
            m
        };
        let t = s.drop_first();
        assert forall|k: int| 0 <= k < t.len() implies span_snapped(b, #[trigger] t[k]) by {
            assert(t[k] == s[k + 1]);
        }
        lemma_clip(b, t, m2);
        let c = clip_spans(b, s, m);
        let ct = clip_spans(b, t, m2);
        assert(c == seq![(st, en, h.2)] + ct);
        assert forall|k: int| 0 <= k < c.len() implies span_snapped(b, #[trigger] c[k]) && m <= c[k].0 <= c[k].1 by {
            if k > 0 {
                assert(c[k] == ct[k - 1]);
            }
        }
        assert forall|j: int, k: int| #![trigger c[j], c[k]] 0 <= j < k < c.len() implies c[j].1 <= c[k].0 by {
            assert(c[k] == ct[k - 1]);
            if j > 0 {
                assert(c[j] == ct[j - 1]);
            }
        }
    }
}

proof fn lemma_filter_all(s: Seq<Span>, pred: spec_fn(Span) -> bool, p: spec_fn(Span) -> bool)
    requires
        forall|k: int| 0 <= k < s.len() ==> p(#[trigger] s[k]),
    ensures
        forall|k: int| 0 <= k < s.filter(pred).len() ==> p(#[trigger] s.filter(pred)[k]),
    decreases s.len(),
{
    reveal(Seq::filter);
    if s.len() > 0 {
        let d = s.drop_last();
        assert forall|k: int| 0 <= k < d.len() implies p(#[trigger] d[k]) by {
            assert(d[k] == s[k]);
        }
        lemma_filter_all(d, pred, p);
        let f0 = d.filter(pred);
        assert(s.last() == s[s.len() - 1]);
        if pred(s.last()) {
            assert(s.filter(pred) == f0.push(s.last()));
            assert forall|k: int| 0 <= k < f0.push(s.last()).len() implies p(#[trigger] f0.push(s.last())[k]) by {
                if k < f0.len() {
                    assert(f0.push(s.last())[k] == f0[k]);
                }
            }
        } else {
            assert(s.filter(pred) == f0);
        }
    }
}

proof fn lemma_insert_all(s: Seq<Span>, x: Span, p: spec_fn(Span) -> bool)
    requires
        forall|k: int| 0 <= k < s.len() ==> p(#[trigger] s[k]),
        p(x),
    ensures
        forall|k: int| 0 <= k < insert_by_start(s, x).len() ==> p(#[trigger] insert_by_start(s, x)[k]),
    decreases s.len(),
{
    if s.len() > 0 && s.last().0 > x.0 {
        let d = s.drop_last();
        assert forall|k: int| 0 <= k < d.len() implies p(#[trigger] d[k]) by {
            assert(d[k] == s[k]);
        }
        lemma_insert_all(d, x, p);
        let r = insert_by_start(d, x);
        assert(s.last() == s[s.len() - 1]);
        assert forall|k: int| 0 <= k < r.push(s.last()).len() implies p(#[trigger] r.push(s.last())[k]) by {
            if k < r.len() {
                assert(r.push(s.last())[k] == r[k]);
            }
        }
    } else if s.len() > 0 {
        assert forall|k: int| 0 <= k < s.push(x).len() implies p(#[trigger] s.push(x)[k]) by {
            if k < s.len() {
                assert(s.push(x)[k] == s[k]);
            }
        }
    }
}

proof fn lemma_sort_all(s: Seq<Span>, p: spec_fn(Span) -> bool)
    requires
        forall|k: int| 0 <= k < s.len() ==> p(#[trigger] s[k]),
    ensures
        forall|k: int| 0 <= k < sort_by_start(s).len() ==> p(#[trigger] sort_by_start(s)[k]),
    decreases s.len(),
{
    if s.len() > 0 {
        let d = s.drop_last();
        assert forall|k: int| 0 <= k < d.len() implies p(#[trigger] d[k]) by {
            assert(d[k] == s[k]);
        }
        lemma_sort_all(d, p);
        assert(s.last() == s[s.len() - 1]);
        lemma_insert_all(sort_by_start(d), s.last(), p);
    }
}

proof fn lemma_snap_forward_ge(b: Seq<u8>, x: int)
    ensures
        x <= snap_forward(b, x),
    decreases b.len() - x,
{
    if 0 <= x < b.len() && !vstd::utf8::is_char_boundary(b, x) {
        lemma_snap_forward_ge(b, x + 1);
    }
}

proof fn lemma_snap_backward_le(b: Seq<u8>, x: int)
    ensures
        snap_backward(b, x) <= x,
    decreases x,
{
    if x > 0 && !vstd::utf8::is_char_boundary(b, x) {
        lemma_snap_backward_le(b, x - 1);
    }
}

/// Clipping keeps each span's kind, only moves its start later, and keeps
/// the end of every span it leaves non-empty.
proof fn lemma_clip_tracks(b: Seq<u8>, s: Seq<Span>, m: int)
    ensures
        clip_spans(b, s, m).len() == s.len(),
        forall|k: int|
            0 <= k < s.len() ==> {
                let c = #[trigger] clip_spans(b, s, m)[k];
                &&& c.2 == s[k].2
                &&& s[k].0 <= c.0
                &&& (c.0 < c.1 ==> c.1 == s[k].1)
            },
    decreases s.len(),
{
    if s.len() > 0 {
        let h = s[0];
        lemma_snap_forward_ge(b, m);
        let st = if h.0 < m {
            snap_forward(b, m)
        } else {
            h.0
        };
        let en = if h.1 < st {
            st
        } else {
            h.1
        };
        let m2 = if m < en {
            en
        } else {
            m
        };
        let t = s.drop_first();
        lemma_clip_tracks(b, t, m2);
        let c = clip_spans(b, s, m);
        let ct = clip_spans(b, t, m2);
        assert(c == seq![(st, en, h.2)] + ct);
        assert forall|k: int| 0 <= k < s.len() implies {
            let x = #[trigger] clip_spans(b, s, m)[k];
            &&& x.2 == s[k].2
            &&& s[k].0 <= x.0
            &&& (x.0 < x.1 ==> x.1 == s[k].1)
        } by {
            if k > 0 {
                assert(c[k] == ct[k - 1]);
                assert(t[k - 1] == s[k]);
            }
        }
    }
}

/// Whether span `h` lies inside span `x` clamped to `len` bytes, with its
/// kind.
pub open spec fn within_input(h: Span, x: Span, len: int) -> bool {
    &&& h.2 == x.2
    &&& (if x.0 < len { x.0 } else { len }) <= h.0
    &&& h.1 <= (if x.1 < len { x.1 } else { len })
}

/// Whether every span of `out` lies inside one of `ins` (clamped to `len`
/// bytes), with its kind.
pub open spec fn spans_within_inputs(out: Seq<Span>, ins: Seq<Span>, len: int) -> bool {
    forall|k: int| 0 <= k < out.len() ==> exists|j: int| 0 <= j < ins.len() && within_input(#[trigger] out[k], ins[j], len)
}

/// Preparing highlights adds nothing of its own: no spans come out of none,
/// and every prepared span lies inside one of the given spans (clamped to
/// the text) and keeps that span's kind.
pub proof fn law_prepared_spans_come_from_inputs(b: Seq<u8>, hs: Seq<Span>)
    ensures
        hs.len() == 0 ==> prepared_spans(b, hs).len() == 0,
        spans_within_inputs(prepared_spans(b, hs), hs, b.len() as int),
{
    if hs.len() > 0 {
        let len = b.len() as int;
        let w = |h: Span| exists|j: int| 0 <= j < hs.len() && within_input(h, hs[j], len);
        let snapped = hs.map_values(|h: Span| snap_span(b, h));
        assert forall|k: int| 0 <= k < snapped.len() implies w(#[trigger] snapped[k]) by {
            let h = hs[k];
            lemma_snap_forward_ge(b, if h.0 < len { h.0 } else { len });
            lemma_snap_backward_le(b, if h.1 < len { h.1 } else { len });
            assert(within_input(snapped[k], hs[k], len));
        }
        let kept = snapped.filter(|h: Span| non_empty(h));
        lemma_filter_all(snapped, |h: Span| non_empty(h), w);
        let sorted = sort_by_start(kept);
        lemma_sort_all(kept, w);
        let clipped = clip_spans(b, sorted, 0);
        lemma_clip_tracks(b, sorted, 0);
        let q = |h: Span| non_empty(h) ==> w(h);
        assert forall|k: int| 0 <= k < clipped.len() implies q(#[trigger] clipped[k]) by {
            let c = clipped[k];
            let x = sorted[k];
            if non_empty(c) {
                assert(w(x));
                let j = choose|j: int| 0 <= j < hs.len() && within_input(x, hs[j], len);
                assert(within_input(c, hs[j], len));
            }
        }
        let r = clipped.filter(|h: Span| non_empty(h));
        lemma_filter_all(clipped, |h: Span| non_empty(h), q);
        assert forall|k: int| 0 <= k < r.len() implies exists|j: int|
            0 <= j < hs.len() && within_input(#[trigger] r[k], hs[j], len) by {
            clipped.lemma_filter_pred(|h: Span| non_empty(h), k);
            assert(q(r[k]));
            assert(w(r[k]));
        }
        assert(r == prepared_spans(b, hs));
    }
}

/// Prepared highlights are what a text layout can take without panicking:
/// for a text's bytes and spans with non-negative ends, every prepared span
/// covers at least one byte, lies inside the text, starts and ends on
/// character boundaries, and ends no later than the next one starts.
pub proof fn law_prepared_spans_are_clean(b: Seq<u8>, hs: Seq<Span>)
    requires
        vstd::utf8::valid_utf8(b),
        forall|k: int| 0 <= k < hs.len() ==> 0 <= (#[trigger] hs[k]).0 && 0 <= hs[k].1,
    ensures
        forall|k: int|
            0 <= k < prepared_spans(b, hs).len() ==> {
                let h = #[trigger] prepared_spans(b, hs)[k];
                &&& 0 <= h.0 < h.1 <= b.len()
                &&& vstd::utf8::is_char_boundary(b, h.0)
                &&& vstd::utf8::is_char_boundary(b, h.1)
            },
        spans_ordered(prepared_spans(b, hs)),
{
    if hs.len() > 0 {
        let snapped = hs.map_values(|h: Span| snap_span(b, h));
        assert forall|k: int| 0 <= k < snapped.len() implies span_snapped(b, #[trigger] snapped[k]) by {
            let h = hs[k];
            let len = b.len() as int;
            lemma_snap_forward(b, if h.0 < len { h.0 } else { len });
            lemma_snap_backward(b, if h.1 < len { h.1 } else { len });
        }
        let kept = snapped.filter(|h: Span| non_empty(h));
        lemma_filter_keeps_snapped(b, snapped, |h: Span| non_empty(h));
        let sorted = sort_by_start(kept);
        lemma_sort_keeps_snapped(b, kept);
        let clipped = clip_spans(b, sorted, 0);
        lemma_clip(b, sorted, 0);
        let r = clipped.filter(|h: Span| non_empty(h));
        assert forall|k: int| 0 <= k < clipped.len() implies span_snapped(b, #[trigger] clipped[k]) by {
        }
        lemma_filter_keeps_snapped(b, clipped, |h: Span| non_empty(h));
        lemma_filter_ordered(clipped, |h: Span| non_empty(h));
        assert forall|k: int| 0 <= k < r.len() implies {
            let h = #[trigger] r[k];
            &&& 0 <= h.0 < h.1 <= b.len()
            &&& vstd::utf8::is_char_boundary(b, h.0)
            &&& vstd::utf8::is_char_boundary(b, h.1)
        } by {
            clipped.lemma_filter_pred(|h: Span| non_empty(h), k);
        }
        assert(r == prepared_spans(b, hs));
    }
}

} // verus!
