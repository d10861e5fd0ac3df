//! Syntax highlighting of diffs by the reconstruct-then-parse pipeline: the
//! new-side and old-side sources are rebuilt from the diff lines, each side
//! is highlighted as a whole file, and the highlighted byte ranges are mapped
//! back onto the diff rows.
use vstd::prelude::*;
use crate::code_review::diff_view::{hunks_rows, rows_model, flatten_diff_for_copy, DiffRow, Highlight, HighlightKind, RowModel, spans_of};
use crate::syntax::theme::HIGHLIGHT_COUNT;
use crate::git::types::{DiffHunk, DiffLine, DiffLineType, FileDiff};
use crate::text::{chars_of, string_from_chars, utf8_len, lemma_utf8_len_concat, lemma_utf8_len_push,
    lemma_utf8_len_encoding, char_width};

verus! {

/// A reconstructed side: its text, the (byte start, byte end, flat row) of
/// each line put into it, and the line number of the last such line.
pub type SideModel = (Seq<char>, Seq<(int, int, int)>, Option<u32>);

/// Whether a diff line belongs to the new side (added and context lines) or
/// the old side (removed and context lines).
pub open spec fn on_side(l: DiffLine, new_side: bool) -> bool {
    if new_side {
        l.line_type == DiffLineType::Add || l.line_type == DiffLineType::Context
    } else {
        l.line_type == DiffLineType::Remove || l.line_type == DiffLineType::Context
    }
}

/// A line's number on the given side.
pub open spec fn side_lineno(l: DiffLine, new_side: bool) -> Option<u32> {
    if new_side {
        l.new_lineno
    } else {
        l.old_lineno
    }
}

/// Whether lines numbered `prev` and `cur` are not contiguous (a hunk
/// boundary), so a blank gap line separates them.
pub open spec fn gap_between(prev: Option<u32>, cur: Option<u32>) -> bool {
    match (prev, cur) {
        (Some(p), Some(c)) => c > p + 1,
        _ => false,
    }
}

/// A side after line `l` (at flat row `flat`): lines of the other side
/// leave it as it is; a line of this side gets a gap line first when it is
/// not contiguous with the previous one, then its content and a line feed.
pub open spec fn side_step(st: SideModel, l: DiffLine, flat: int, new_side: bool) -> SideModel {
    if !on_side(l, new_side) {
        st
    } else {
        let t0 = if gap_between(st.2, side_lineno(l, new_side)) {
            st.0.push('\n')
        } else {
            st.0
        };
        let t1 = t0 + l.content@;
        (
            t1.push('\n'),
            st.1.push((utf8_len(t0) as int, utf8_len(t1) as int, flat)),
            side_lineno(l, new_side),
        )
    }
}

/// A side after the lines of a hunk whose header is flat row `base`.
pub open spec fn side_of_lines(lines: Seq<DiffLine>, base: int, st: SideModel, new_side: bool) -> SideModel
    decreases lines.len(),
{
    if lines.len() == 0 {
        st
    } else {
        side_step(
            side_of_lines(lines.drop_last(), base, st, new_side),
            lines.last(),
            base + lines.len(),
            new_side,
        )
    }
}

/// The side reconstructed from a list of hunks.
pub open spec fn side_of_hunks(hunks: Seq<DiffHunk>, new_side: bool) -> SideModel
    decreases hunks.len(),
{
    if hunks.len() == 0 {
        (Seq::empty(), Seq::empty(), None)
    } else {
        side_of_lines(
            hunks.last().lines@,
            hunks_rows(hunks.drop_last()).len() as int,
            side_of_hunks(hunks.drop_last(), new_side),
            new_side,
        )
    }
}

/// Line offsets as integers.
pub open spec fn offsets_model(v: Seq<(usize, usize, usize)>) -> Seq<(int, int, int)> {
    v.map_values(|o: (usize, usize, usize)| (o.0 as int, o.1 as int, o.2 as int))
}

/// A side being built: its characters, its UTF-8 bytes, its line offsets,
/// and the last line number put into it.
struct SideBuilder {
    text: Vec<char>,
    bytes: Vec<u8>,
    offsets: Vec<(usize, usize, usize)>,
    prev: Option<u32>,
}

impl SideBuilder {
    spec fn model(&self) -> SideModel {
        (self.text@, offsets_model(self.offsets@), self.prev)
    }

    spec fn inv(&self) -> bool {
        self.bytes@.len() == utf8_len(self.text@)
    }

    fn new() -> (b: Self)
        ensures
            b.inv(),
            b.model() == (Seq::<char>::empty(), Seq::<(int, int, int)>::empty(), None::<u32>),
    {
        let b = SideBuilder { text: Vec::new(), bytes: Vec::new(), offsets: Vec::new(), prev: None };
        assert(offsets_model(b.offsets@) =~= Seq::<(int, int, int)>::empty());
        b
    }

    fn push_newline(&mut self)
        requires
            old(self).inv(),
        ensures
            final(self).inv(),
            final(self).text@ == old(self).text@.push('\n'),
            final(self).offsets == old(self).offsets,
            final(self).prev == old(self).prev,
    {
        proof {
            lemma_utf8_len_push(self.text@, '\n');
            assert(('\n' as u32) == 10u32);
            assert(char_width('\n') == 1);
        }
        self.text.push('\n');
        self.bytes.push(10u8);
    }

    fn push_str(&mut self, s: &str)
        requires
            old(self).inv(),
        ensures
            final(self).inv(),
            final(self).text@ == old(self).text@ + s@,
            final(self).offsets == old(self).offsets,
            final(self).prev == old(self).prev,
    {
        let cs = chars_of(s);
        let ghost t0 = self.text@;
        let mut i: usize = 0;
        while i < cs.len()
            invariant
                i <= cs@.len(),
                self.text@ == t0 + cs@.take(i as int),
                self.offsets == old(self).offsets,
                self.prev == old(self).prev,
                self.bytes == old(self).bytes,
            decreases cs@.len() - i,
        {
            self.text.push(cs[i]);
            assert(t0 + cs@.take(i + 1) =~= (t0 + cs@.take(i as int)).push(cs@[i as int]));
            i = i + 1;
        }
        assert(cs@.take(i as int) =~= cs@);
        let b = s.as_bytes();
        let ghost b0 = self.bytes@;
        let mut j: usize = 0;
        while j < b.len()
            invariant
                j <= b@.len(),
                self.bytes@ == b0 + b@.take(j as int),
                self.text@ == t0 + s@,
                self.offsets == old(self).offsets,
                self.prev == old(self).prev,
            decreases b@.len() - j,
        {
            self.bytes.push(b[j]);
            assert(b0 + b@.take(j + 1) =~= (b0 + b@.take(j as int)).push(b@[j as int]));
            j = j + 1;
        }
        assert(b@.take(j as int) =~= b@);
        proof {
            lemma_utf8_len_encoding(s@);
            lemma_utf8_len_concat(t0, s@);
        }
    }

    /// Put line `l` (at flat row `flat`) into the side, if it belongs there.
    fn push_line(&mut self, l: &DiffLine, flat: usize, new_side: bool)
        requires
            old(self).inv(),
        ensures
            final(self).inv(),
            final(self).model() == side_step(old(self).model(), *l, flat as int, new_side),
    {
        let belongs = if new_side {
            l.line_type == DiffLineType::Add || l.line_type == DiffLineType::Context
        } else {
            l.line_type == DiffLineType::Remove || l.line_type == DiffLineType::Context
        };
        if !belongs {
            return;
        }
        let cur = if new_side {
            l.new_lineno
        } else {
            l.old_lineno
        };
        let gap = match (self.prev, cur) {
            (Some(p), Some(c)) => c > p && c - p > 1,
            _ => false,
        };
        if gap {
            self.push_newline();
        }
        let start = self.bytes.len();
        self.push_str(l.content.as_str());
        let end = self.bytes.len();
        let ghost before = self.offsets@;
        self.offsets.push((start, end, flat));
        assert(offsets_model(self.offsets@) =~= offsets_model(before).push(
            (start as int, end as int, flat as int),
        ));
        self.push_newline();
        self.prev = cur;
    }
}

/// Reconstruct the new-side and old-side sources of a diff: (new side text,
/// new line offsets, old side text, old line offsets), each offset
/// (byte start, byte end, flat row index).
pub fn reconstruct_sides(file_diff: &FileDiff) -> (r: (
    String,
    Vec<(usize, usize, usize)>,
    String,
    Vec<(usize, usize, usize)>,
))
    requires
        hunks_rows(file_diff.hunks@).len() <= usize::MAX,
    ensures
        r.0@ == side_of_hunks(file_diff.hunks@, true).0,
        offsets_model(r.1@) == side_of_hunks(file_diff.hunks@, true).1,
        r.2@ == side_of_hunks(file_diff.hunks@, false).0,
        offsets_model(r.3@) == side_of_hunks(file_diff.hunks@, false).1,
        side_covers((r.0@, offsets_model(r.1@), None), hunks_rows(file_diff.hunks@), hunks_rows(file_diff.hunks@).len() as int, true),
        side_covers((r.2@, offsets_model(r.3@), None), hunks_rows(file_diff.hunks@), hunks_rows(file_diff.hunks@).len() as int, false),
        offsets_ok(offsets_model(r.1@), hunks_rows(file_diff.hunks@).len() as int),
        offsets_ok(offsets_model(r.3@), hunks_rows(file_diff.hunks@).len() as int),
{
    let ghost hunks = file_diff.hunks@;
    let mut new_side = SideBuilder::new();
    let mut old_side = SideBuilder::new();
    let mut flat_idx: usize = 0;
    let mut h: usize = 0;
    proof {
        lemma_hunks_rows_prefix(hunks, 0);
    }
    while h < file_diff.hunks.len()
        invariant
            hunks == file_diff.hunks@,
            hunks_rows(hunks).len() <= usize::MAX,
            h <= hunks.len(),
            flat_idx == hunks_rows(hunks.take(h as int)).len(),
            new_side.inv(),
            old_side.inv(),
            new_side.model() == side_of_hunks(hunks.take(h as int), true),
            old_side.model() == side_of_hunks(hunks.take(h as int), false),
        decreases hunks.len() - h,
    {
        let hunk = &file_diff.hunks[h];
        let ghost base = flat_idx as int;
        let ghost st_new = new_side.model();
        let ghost st_old = old_side.model();
        proof {
            lemma_hunks_rows_prefix(hunks, h + 1);
            assert(hunks.take(h + 1).drop_last() =~= hunks.take(h as int));
            assert(hunks.take(h + 1).last() == *hunk);
            assert(hunks_rows(hunks.take(h + 1)).len() == base + 1 + hunk.lines@.len());
        }
        flat_idx = flat_idx + 1;
        let mut k: usize = 0;
        while k < hunk.lines.len()
            invariant
                k <= hunk.lines@.len(),
                flat_idx == base + 1 + k,
                base + 1 + hunk.lines@.len() <= usize::MAX,
                new_side.inv(),
                old_side.inv(),
                new_side.model() == side_of_lines(hunk.lines@.take(k as int), base, st_new, true),
                old_side.model() == side_of_lines(hunk.lines@.take(k as int), base, st_old, false),
            decreases hunk.lines@.len() - k,
        {
            let line = &hunk.lines[k];
            proof {
                assert(hunk.lines@.take(k + 1).drop_last() =~= hunk.lines@.take(k as int));
                assert(hunk.lines@.take(k + 1).last() == *line);
            }
            new_side.push_line(line, flat_idx, true);
            old_side.push_line(line, flat_idx, false);
            flat_idx = flat_idx + 1;
            k = k + 1;
        }
        proof {
            assert(hunk.lines@.take(k as int) =~= hunk.lines@);
        }
        h = h + 1;
    }
    assert(hunks.take(h as int) =~= hunks);
    let new_text = string_from_chars(&new_side.text);
    let old_text = string_from_chars(&old_side.text);
    proof {
        law_sides_hold_their_lines(hunks, true);
        law_sides_hold_their_lines(hunks, false);
    }
    (new_text, new_side.offsets, old_text, old_side.offsets)
}

/// Row counts of prefixes of a hunk list grow by one header and the lines.
proof fn lemma_hunks_rows_prefix(hunks: Seq<DiffHunk>, h: int)
    requires
        0 <= h <= hunks.len(),
    ensures
        hunks_rows(hunks.take(h)).len() <= hunks_rows(hunks).len(),
        h > 0 ==> hunks_rows(hunks.take(h)).len() == hunks_rows(hunks.take(h - 1)).len() + 1
            + hunks[h - 1].lines@.len(),
    decreases hunks.len() - h,
{
    if h > 0 {
        assert(hunks.take(h).drop_last() =~= hunks.take(h - 1));
        assert(hunks.take(h).last() == hunks[h - 1]);
    }
    if h < hunks.len() {
        lemma_hunks_rows_prefix(hunks, h + 1);
        assert(hunks.take(h + 1).drop_last() =~= hunks.take(h));
    } else {
        assert(hunks.take(h) =~= hunks);
    }
}

/// One step of a highlighted document, as the highlighting engine reports
/// it: a source range, the start of a capture (by capture-name index), or
/// the end of the innermost capture.
#[derive(Debug, Clone, Copy, PartialEq, Eq, Structural)]
pub enum HlEvent {
    Source { start: usize, end: usize },
    Start(usize),
    End,
}

/// Line offsets fit for mapping: each line's start is at most its end, each
/// line ends before the next one starts, and each names a row below `rows`.
pub open spec fn offsets_ok(o: Seq<(int, int, int)>, rows: int) -> bool {
    &&& forall|i: int| 0 <= i < o.len() ==> (#[trigger] o[i]).0 <= o[i].1 && 0 <= o[i].2 < rows
    &&& forall|i: int, j: int| 0 <= i < j < o.len() ==> (#[trigger] o[i]).1 < (#[trigger] o[j]).0
}

/// Whether the source range `start..end` reaches line `o` (it ends after
/// the line starts and starts before the line ends).
pub open spec fn touches(o: (int, int, int), start: int, end: int) -> bool {
    o.1 > start && o.0 < end
}

/// The part of `start..end` on line `o`, in line-local bytes.
pub open spec fn local_range(o: (int, int, int), start: int, end: int) -> (int, int) {
    (
        if start > o.0 {
            start - o.0
        } else {
            0
        },
        if end < o.1 {
            end - o.0
        } else {
            o.1 - o.0
        },
    )
}

/// The spans a source range highlighted with capture `idx` puts on the
/// first `n` lines: (row, local start, local end, capture) for each line it
/// touches with a non-empty part, in line order.
pub open spec fn range_spans(o: Seq<(int, int, int)>, start: int, end: int, idx: usize, n: int) -> Seq<
    (int, int, int, usize),
>
    decreases n,
{
    if n <= 0 {
        Seq::empty()
    } else {
        let prev = range_spans(o, start, end, idx, n - 1);
        let l = o[n - 1];
        let r = local_range(l, start, end);
        if touches(l, start, end) && r.0 < r.1 {
            prev.push((l.2, r.0, r.1, idx))
        } else {
            prev
        }
    }
}

/// Per-row spans with `sp` added, each to the end of its row's list.
pub open spec fn add_spans(rows: Seq<Seq<(int, int, HighlightKind)>>, sp: Seq<(int, int, int, usize)>) -> Seq<
    Seq<(int, int, HighlightKind)>,
>
    decreases sp.len(),
{
    if sp.len() == 0 {
        rows
    } else {
        let r = add_spans(rows, sp.drop_last());
        let x = sp.last();
        r.update(x.0, r[x.0].push((x.1, x.2, HighlightKind::Syntax(x.3))))
    }
}

/// The capture stack and per-row spans after a list of events: captures
/// open and close (closing with none open does nothing); a source range
/// inside a capture with a colour adds its spans.
pub open spec fn events_state(events: Seq<HlEvent>, o: Seq<(int, int, int)>, rows: nat) -> (
    Seq<usize>,
    Seq<Seq<(int, int, HighlightKind)>>,
)
    decreases events.len(),
{
    if events.len() == 0 {
        (Seq::empty(), Seq::new(rows, |i: int| Seq::empty()))
    } else {
        let (stack, spans) = events_state(events.drop_last(), o, rows);
        match events.last() {
            HlEvent::Start(h) => (stack.push(h), spans),
            HlEvent::End => (
                if stack.len() > 0 {
                    stack.drop_last()
                } else {
                    stack
                },
                spans,
            ),
            HlEvent::Source { start, end } => if stack.len() > 0 && stack.last() < HIGHLIGHT_COUNT {
                (stack, add_spans(spans, range_spans(o, start as int, end as int, stack.last(), o.len() as int)))
            } else {
                (stack, spans)
            },
        }
    }
}

/// Per-row spans as plain triples.
pub open spec fn rows_spans(v: Seq<Vec<Highlight>>) -> Seq<Seq<(int, int, HighlightKind)>> {
    v.map_values(|r: Vec<Highlight>| spans_of(r@))
}

proof fn lemma_range_spans_rows(o: Seq<(int, int, int)>, start: int, end: int, idx: usize, n: int, rows: int)
    requires
        offsets_ok(o, rows),
        n <= o.len(),
    ensures
        forall|k: int| 0 <= k < range_spans(o, start, end, idx, n).len() ==> 0 <= (
        #[trigger] range_spans(o, start, end, idx, n)[k]).0 < rows,
    decreases n,
{
    if n > 0 {
        lemma_range_spans_rows(o, start, end, idx, n - 1, rows);
        let prev = range_spans(o, start, end, idx, n - 1);
        assert forall|k: int| 0 <= k < range_spans(o, start, end, idx, n).len() implies 0 <= (
        #[trigger] range_spans(o, start, end, idx, n)[k]).0 < rows by {
            if k < prev.len() {
                assert(range_spans(o, start, end, idx, n)[k] == prev[k]);
            }
        }
    }
}

proof fn lemma_add_spans_len(rows: Seq<Seq<(int, int, HighlightKind)>>, sp: Seq<(int, int, int, usize)>)
    requires
        forall|k: int| 0 <= k < sp.len() ==> 0 <= (#[trigger] sp[k]).0 < rows.len(),
    ensures
        add_spans(rows, sp).len() == rows.len(),
    decreases sp.len(),
{
    if sp.len() > 0 {
        lemma_add_spans_len(rows, sp.drop_last());
    }
}

/// Past the last line a source range reaches, it reaches no other.
proof fn lemma_range_spans_stop(o: Seq<(int, int, int)>, start: int, end: int, idx: usize, k: int, n: int, rows: int)
    requires
        offsets_ok(o, rows),
        0 <= k <= n <= o.len(),
        k < o.len() ==> end <= o[k].0,
    ensures
        range_spans(o, start, end, idx, n) == range_spans(o, start, end, idx, k),
    decreases n - k,
{
    if n > k {
        lemma_range_spans_stop(o, start, end, idx, k, n - 1, rows);
        if n - 1 > k {
            assert(o[k].1 < o[n - 1].0);
        }
    }
}

/// Before the first line a source range reaches, it reaches none.
proof fn lemma_range_spans_skip(o: Seq<(int, int, int)>, start: int, end: int, idx: usize, k: int)
    requires
        0 <= k <= o.len(),
        forall|i: int| 0 <= i < k ==> (#[trigger] o[i]).1 <= start,
    ensures
        range_spans(o, start, end, idx, k) == Seq::<(int, int, int, usize)>::empty(),
    decreases k,
{
    if k > 0 {
        lemma_range_spans_skip(o, start, end, idx, k - 1);
    }
}

/// The first line that ends after `start` (lines end in increasing order).
fn first_line_ending_after(offsets: &Vec<(usize, usize, usize)>, start: usize, Ghost(rows): Ghost<int>) -> (r: usize)
    requires
        offsets_ok(offsets_model(offsets@), rows),
    ensures
        r <= offsets@.len(),
        forall|i: int| 0 <= i < r ==> (#[trigger] offsets@[i]).1 <= start,
        r < offsets@.len() ==> offsets@[r as int].1 > start,
{
    let ghost o = offsets_model(offsets@);
    let mut lo: usize = 0;
    let mut hi: usize = offsets.len();
    while lo < hi
        invariant
            o == offsets_model(offsets@),
            offsets_ok(o, rows),
            lo <= hi <= offsets@.len(),
            forall|i: int| 0 <= i < lo ==> (#[trigger] offsets@[i]).1 <= start,
            forall|i: int| hi <= i < offsets@.len() ==> (#[trigger] offsets@[i]).1 > start,
        decreases hi - lo,
    {
        let mid = lo + (hi - lo) / 2;
        if offsets[mid].1 <= start {
            assert forall|i: int| 0 <= i < mid + 1 implies (#[trigger] offsets@[i]).1 <= start by {
                if i < mid {
                    assert(o[i].1 < o[mid as int].0);
                    assert(o[mid as int].0 <= o[mid as int].1);
                }
            }
            lo = mid + 1;
        } else {
            assert forall|i: int| mid <= i < offsets@.len() implies (#[trigger] offsets@[i]).1 > start by {
                if i > mid {
                    assert(o[mid as int].1 < o[i].0);
                    assert(o[i].0 <= o[i].1);
                }
            }
            hi = mid;
        }
    }
    lo
}

/// Map highlight events onto diff rows: for each source range inside a
/// capture that has a colour, the part of the range on each line it reaches
/// goes to that line's row, in line-local bytes.
pub fn spans_from_events(events: &Vec<HlEvent>, offsets: &Vec<(usize, usize, usize)>, total_rows: usize) -> (r: Vec<Vec<Highlight>>)
    requires
        offsets_ok(offsets_model(offsets@), total_rows as int),
    ensures
        rows_spans(r@) == events_state(events@, offsets_model(offsets@), total_rows as nat).1,
{
    let ghost o = offsets_model(offsets@);
    let mut result: Vec<Vec<Highlight>> = Vec::new();
    let mut t: usize = 0;
    while t < total_rows
        invariant
            t <= total_rows,
            rows_spans(result@) == Seq::new(t as nat, |i: int| Seq::<(int, int, HighlightKind)>::empty()),
        decreases total_rows - t,
    {
        let ghost prev = result@;
        result.push(Vec::new());
        proof {
            assert(spans_of(Seq::<Highlight>::empty()) =~= Seq::empty());
            assert(rows_spans(result@) =~= rows_spans(prev).push(Seq::empty()));
        }
        t = t + 1;
    }
    let mut stack: Vec<usize> = Vec::new();
    let mut e: usize = 0;
    assert(events@.take(0) =~= Seq::<HlEvent>::empty());
    while e < events.len()
        invariant
            o == offsets_model(offsets@),
            offsets_ok(o, total_rows as int),
            e <= events@.len(),
            result@.len() == total_rows,
            (stack@, rows_spans(result@)) == events_state(events@.take(e as int), o, total_rows as nat),
        decreases events@.len() - e,
    {
        proof {
            assert(events@.take(e + 1).drop_last() =~= events@.take(e as int));
            assert(events@.take(e + 1).last() == events@[e as int]);
        }
        match events[e] {
            HlEvent::Start(h) => {
                stack.push(h);
            },
            HlEvent::End => {
                if stack.len() > 0 {
                    stack.pop();
                }
            },
            HlEvent::Source { start, end } => {
                if stack.len() > 0 && stack[stack.len() - 1] < HIGHLIGHT_COUNT {
                    let idx = stack[stack.len() - 1];
                    let first = first_line_ending_after(offsets, start, Ghost(total_rows as int));
                    proof {
                        lemma_range_spans_skip(o, start as int, end as int, idx, first as int);
                    }
                    let ghost base = rows_spans(result@);
                    let mut k = first;
                    while k < offsets.len() && !(end <= offsets[k].0)
                        invariant
                            o == offsets_model(offsets@),
                            offsets_ok(o, total_rows as int),
                            first <= k <= offsets@.len(),
                            result@.len() == total_rows,
                            base.len() == total_rows,
                            forall|i: int| first <= i < k ==> (#[trigger] o[i]).1 > start,
                            first < offsets@.len() ==> o[first as int].1 > start,
                            rows_spans(result@) == add_spans(
                                base,
                                range_spans(o, start as int, end as int, idx, k as int),
                            ),
                        decreases offsets@.len() - k,
                    {
                        let (ls, le, flat) = offsets[k];
                        proof {
                            assert(o.len() == offsets@.len());
                            assert(o[k as int] == (ls as int, le as int, flat as int));
                            assert(o[k as int].0 <= o[k as int].1 && 0 <= o[k as int].2 < total_rows);
                            if k > first {
                                assert(o[first as int].1 < o[k as int].0);
                            }
                            assert(o[k as int].1 > start);
                        }
                        let local_start = if start > ls {
                            start - ls
                        } else {
                            0
                        };
                        let local_end = if end < le {
                            end - ls
                        } else {
                            le - ls
                        };
                        let ghost before = result@;
                        proof {
                            let x = (flat as int, local_start as int, local_end as int, idx);
                            assert(local_range(o[k as int], start as int, end as int) == (
                                local_start as int,
                                local_end as int,
                            ));
                            assert(touches(o[k as int], start as int, end as int));
                            if local_start < local_end {
                                assert(range_spans(o, start as int, end as int, idx, k + 1)
                                    == range_spans(o, start as int, end as int, idx, k as int).push(x));
                                assert(range_spans(o, start as int, end as int, idx, k as int).push(
                                    x,
                                ).drop_last() =~= range_spans(o, start as int, end as int, idx, k as int));
                            } else {
                                assert(range_spans(o, start as int, end as int, idx, k + 1)
                                    == range_spans(o, start as int, end as int, idx, k as int));
                            }
                        }
                        if local_start < local_end {
                            result[flat].push((local_start..local_end, HighlightKind::Syntax(idx)));
                            proof {
                                lemma_range_spans_rows(o, start as int, end as int, idx, k as int, total_rows as int);
                                lemma_add_spans_len(base, range_spans(o, start as int, end as int, idx, k as int));
                                assert(spans_of(result@[flat as int]@) =~= spans_of(before[flat as int]@).push(
                                    (local_start as int, local_end as int, HighlightKind::Syntax(idx)),
                                ));
                                assert(rows_spans(result@) =~= rows_spans(before).update(
                                    flat as int,
                                    rows_spans(before)[flat as int].push(
                                        (local_start as int, local_end as int, HighlightKind::Syntax(idx)),
                                    ),
                                ));
                            }
                        }
                        k = k + 1;
                    }
                    proof {
                        lemma_range_spans_stop(o, start as int, end as int, idx, k as int, o.len() as int, total_rows as int);
                    }
                }
            },
        }
        e = e + 1;
    }
    assert(events@.take(e as int) =~= events@);
    result
}

/// Merge the highlights of the two sides: a removed line (`removed[i]`)
/// takes the old side's spans, every other row the new side's.
pub fn merge_sides(new_rows: Vec<Vec<Highlight>>, old_rows: Vec<Vec<Highlight>>, removed: &Vec<bool>) -> (r: Vec<Vec<Highlight>>)
    requires
        new_rows@.len() == old_rows@.len(),
        removed@.len() == new_rows@.len(),
    ensures
        r@.len() == new_rows@.len(),
        rows_spans(r@) == merged_spans(rows_spans(new_rows@), rows_spans(old_rows@), removed@),
{
    let mut result: Vec<Vec<Highlight>> = Vec::new();
    let mut new_rows = new_rows;
    let mut old_rows = old_rows;
    let ghost n0 = new_rows@;
    let ghost o0 = old_rows@;
    let mut i: usize = 0;
    let n = new_rows.len();
    while i < n
        invariant
            n == n0.len(),
            n0.len() == o0.len(),
            removed@.len() == n,
            new_rows@.len() == n,
            old_rows@.len() == n,
            i <= n,
            result@.len() == i,
            forall|k: int| i <= k < n ==> new_rows@[k] == n0[k] && old_rows@[k] == o0[k],
            forall|k: int| 0 <= k < i ==> (#[trigger] result@[k]) == (if removed@[k] {
                o0[k]
            } else {
                n0[k]
            }),
        decreases n - i,
    {
        let mut taken_old: Vec<Highlight> = Vec::new();
        let mut taken_new: Vec<Highlight> = Vec::new();
        std::mem::swap(&mut taken_old, &mut old_rows[i]);
        std::mem::swap(&mut taken_new, &mut new_rows[i]);
        if removed[i] {
            result.push(taken_old);
        } else {
            result.push(taken_new);
        }
        i = i + 1;
    }
    proof {
        assert forall|k: int| 0 <= k < result@.len() implies (#[trigger] rows_spans(result@)[k]) == merged_spans(
            rows_spans(n0),
            rows_spans(o0),
            removed@,
        )[k] by {
            assert(result@[k] == (if removed@[k] {
                o0[k]
            } else {
                n0[k]
            }));
        }
        assert(rows_spans(result@) =~= merged_spans(rows_spans(n0), rows_spans(o0), removed@));
    }
    result
}

/// A side fit for mapping: its offsets fit `rows` rows and every line ends
/// before the text does.
pub open spec fn side_ok(st: SideModel, rows: int) -> bool {
    &&& offsets_ok(st.1, rows)
    &&& forall|i: int| 0 <= i < st.1.len() ==> (#[trigger] st.1[i]).1 < utf8_len(st.0)
}

proof fn lemma_newline_width(t: Seq<char>)
    ensures
        utf8_len(t.push('\n')) == utf8_len(t) + 1,
{
    lemma_utf8_len_push(t, '\n');
    assert(('\n' as u32) == 10u32);
}

proof fn lemma_side_step_ok(st: SideModel, l: DiffLine, flat: int, new_side: bool, rows: int)
    requires
        side_ok(st, rows),
        0 <= flat < rows,
    ensures
        side_ok(side_step(st, l, flat, new_side), rows),
{
    if on_side(l, new_side) {
        let t0 = if gap_between(st.2, side_lineno(l, new_side)) {
            st.0.push('\n')
        } else {
            st.0
        };
        lemma_newline_width(st.0);
        let t1 = t0 + l.content@;
        lemma_utf8_len_concat(t0, l.content@);
        lemma_newline_width(t1);
        let o = st.1.push((utf8_len(t0) as int, utf8_len(t1) as int, flat));
        let n = side_step(st, l, flat, new_side);
        assert(n.1 == o);
        assert forall|i: int, j: int| 0 <= i < j < o.len() implies (#[trigger] o[i]).1 < (
        #[trigger] o[j]).0 by {
            if j < st.1.len() {
                assert(o[i] == st.1[i] && o[j] == st.1[j]);
            } else {
                assert(o[i] == st.1[i]);
            }
        }
        assert forall|i: int| 0 <= i < o.len() implies (#[trigger] o[i]).0 <= o[i].1 && 0 <= o[i].2
            < rows by {
            if i < st.1.len() {
                assert(o[i] == st.1[i]);
            }
        }
        assert forall|i: int| 0 <= i < o.len() implies (#[trigger] o[i]).1 < utf8_len(n.0) by {
            if i < st.1.len() {
                assert(o[i] == st.1[i]);
            }
        }
    }
}

proof fn lemma_side_lines_ok(lines: Seq<DiffLine>, base: int, st: SideModel, new_side: bool, rows: int)
    requires
        side_ok(st, rows),
        0 <= base,
        base + lines.len() < rows,
    ensures
        side_ok(side_of_lines(lines, base, st, new_side), rows),
    decreases lines.len(),
{
    if lines.len() > 0 {
        lemma_side_lines_ok(lines.drop_last(), base, st, new_side, rows);
        lemma_side_step_ok(
            side_of_lines(lines.drop_last(), base, st, new_side),
            lines.last(),
            base + lines.len(),
            new_side,
            rows,
        );
    }
}

proof fn lemma_side_ok_widen(st: SideModel, rows: int, more: int)
    requires
        side_ok(st, rows),
        rows <= more,
    ensures
        side_ok(st, more),
{
}

/// The reconstructed sides are fit for mapping onto the diff's rows.
pub proof fn lemma_side_of_hunks_ok(hunks: Seq<DiffHunk>, new_side: bool)
    ensures
        side_ok(side_of_hunks(hunks, new_side), hunks_rows(hunks).len() as int),
    decreases hunks.len(),
{
    if hunks.len() == 0 {
        let e: SideModel = (Seq::empty(), Seq::empty(), None);
        assert(side_ok(e, 0));
    } else {
        let prefix = hunks.drop_last();
        lemma_side_of_hunks_ok(prefix, new_side);
        let rows = hunks_rows(hunks).len() as int;
        let base = hunks_rows(prefix).len() as int;
        assert(hunks_rows(hunks) == hunks_rows(prefix) + crate::code_review::diff_view::hunk_rows(
            hunks.last(),
        ));
        lemma_side_ok_widen(side_of_hunks(prefix, new_side), base, rows);
        lemma_side_lines_ok(hunks.last().lines@, base, side_of_hunks(prefix, new_side), new_side, rows);
    }
}

/// Every line offset of a side names a line row (never a hunk header) of
/// the rows `m`.
pub open spec fn offsets_on_lines(o: Seq<(int, int, int)>, m: Seq<RowModel>) -> bool {
    forall|k: int| 0 <= k < o.len() ==> 0 <= (#[trigger] o[k]).2 < m.len() && m[o[k].2] is Line
}

proof fn lemma_side_lines_on_lines(lines: Seq<DiffLine>, base: int, st: SideModel, new_side: bool, m: Seq<RowModel>)
    requires
        offsets_on_lines(st.1, m),
        0 <= base,
        base + lines.len() < m.len(),
        forall|j: int| 1 <= j <= lines.len() ==> #[trigger] m[base + j] is Line,
    ensures
        offsets_on_lines(side_of_lines(lines, base, st, new_side).1, m),
    decreases lines.len(),
{
    if lines.len() > 0 {
        let d = lines.drop_last();
        assert forall|j: int| 1 <= j <= d.len() implies #[trigger] m[base + j] is Line by {
            assert(m[base + j] is Line);
        }
        lemma_side_lines_on_lines(d, base, st, new_side, m);
        let prev = side_of_lines(d, base, st, new_side);
        let next = side_of_lines(lines, base, st, new_side);
        assert(m[base + lines.len()] is Line);
        if on_side(lines.last(), new_side) {
            assert forall|k: int| 0 <= k < next.1.len() implies 0 <= (#[trigger] next.1[k]).2 < m.len()
                && m[next.1[k].2] is Line by {
                if k < prev.1.len() {
                    assert(next.1[k] == prev.1[k]);
                }
            }
        }
    }
}

/// The line offsets of a reconstructed side name line rows of the diff,
/// never hunk headers.
pub proof fn lemma_side_offsets_on_lines(hunks: Seq<DiffHunk>, new_side: bool)
    ensures
        offsets_on_lines(side_of_hunks(hunks, new_side).1, hunks_rows(hunks)),
    decreases hunks.len(),
{
    if hunks.len() > 0 {
        let prefix = hunks.drop_last();
        lemma_side_offsets_on_lines(prefix, new_side);
        let pm = hunks_rows(prefix);
        let m = hunks_rows(hunks);
        let last = crate::code_review::diff_view::hunk_rows(hunks.last());
        assert(m == pm + last);
        let st = side_of_hunks(prefix, new_side);
        assert forall|k: int| 0 <= k < st.1.len() implies 0 <= (#[trigger] st.1[k]).2 < m.len()
            && m[st.1[k].2] is Line by {
            assert(m[st.1[k].2] == pm[st.1[k].2]);
        }
        let base = pm.len() as int;
        let lines = hunks.last().lines@;
        assert forall|j: int| 1 <= j <= lines.len() implies #[trigger] m[base + j] is Line by {
            assert(m[base + j] == last[j]);
            assert(last[j] == crate::code_review::diff_view::line_row(lines[j - 1]));
        }
        lemma_side_lines_on_lines(lines, base, st, new_side, m);
    }
}

/// Whether a line type belongs to the new side (added and context lines) or
/// the old side (removed and context lines).
pub open spec fn side_type(t: DiffLineType, new_side: bool) -> bool {
    if new_side {
        t == DiffLineType::Add || t == DiffLineType::Context
    } else {
        t == DiffLineType::Remove || t == DiffLineType::Context
    }
}

/// Whether the line `content` stands in `text` where the offset `o` says:
/// at some char position, followed by a line feed, with `o`'s byte start
/// and end at its first char and just after its last.
pub open spec fn line_in_text(text: Seq<char>, o: (int, int, int), content: Seq<char>) -> bool {
    exists|c: int|
        0 <= c && c + content.len() < text.len() && #[trigger] text.subrange(c, c + content.len()) == content
            && text[c + content.len()] == '\n' && o.0 == crate::text::byte_offset(text, c) && o.1
            == crate::text::byte_offset(text, c + content.len())
}

/// Whether offset `o` of a side with text `text` names a line row of `m` of
/// that side, standing in the text where `o` says.
pub open spec fn side_row_ok(text: Seq<char>, o: (int, int, int), m: Seq<RowModel>, new_side: bool) -> bool {
    &&& 0 <= o.2 < m.len()
    &&& m[o.2] is Line
    &&& side_type(m[o.2]->line_type, new_side)
    &&& line_in_text(text, o, m[o.2]->content)
}

/// Whether the side `st` holds, in row order, exactly the lines of its side
/// among the rows of `m` before `upto`.
pub open spec fn side_covers(st: SideModel, m: Seq<RowModel>, upto: int, new_side: bool) -> bool {
    &&& forall|k: int| 0 <= k < st.1.len() ==> side_row_ok(st.0, #[trigger] st.1[k], m, new_side) && st.1[k].2 < upto
    &&& forall|k: int, l: int| 0 <= k < l < st.1.len() ==> (#[trigger] st.1[k]).2 < (#[trigger] st.1[l]).2
    &&& forall|i: int|
        0 <= i < upto && #[trigger] m[i] is Line && side_type(m[i]->line_type, new_side) ==> exists|k: int|
            0 <= k < st.1.len() && #[trigger] st.1[k].2 == i
}

proof fn lemma_line_in_longer_text(t1: Seq<char>, t2: Seq<char>, o: (int, int, int), content: Seq<char>)
    requires
        line_in_text(t1, o, content),
        t1.len() <= t2.len(),
        t2.take(t1.len() as int) == t1,
    ensures
        line_in_text(t2, o, content),
{
    let c = choose|c: int|
        0 <= c && c + content.len() < t1.len() && #[trigger] t1.subrange(c, c + content.len()) == content
            && t1[c + content.len()] == '\n' && o.0 == crate::text::byte_offset(t1, c) && o.1
            == crate::text::byte_offset(t1, c + content.len());
    assert(t2.subrange(c, c + content.len()) =~= t1.subrange(c, c + content.len()));
    assert(t2[c + content.len()] == t2.take(t1.len() as int)[c + content.len()]);
    assert(t2.take(c) =~= t1.take(c));
    assert(t2.take(c + content.len()) =~= t1.take(c + content.len()));
}

proof fn lemma_new_line_in_text(t0: Seq<char>, content: Seq<char>, flat: int)
    ensures
        line_in_text(
            (t0 + content).push('\n'),
            (utf8_len(t0) as int, utf8_len(t0 + content) as int, flat),
            content,
        ),
{
    let t1 = t0 + content;
    let text = t1.push('\n');
    let c = t0.len() as int;
    let len = content.len();
    assert(text.subrange(c, c + len) =~= content);
    assert(text[c + len] == '\n');
    assert(text.take(c) =~= t0);
    assert(text.take(c + len) =~= t1);
}

#[verifier::rlimit(50)]
proof fn lemma_side_step_covers(st: SideModel, l: DiffLine, flat: int, new_side: bool, m: Seq<RowModel>)
    requires
        side_covers(st, m, flat, new_side),
        0 <= flat < m.len(),
        m[flat] == crate::code_review::diff_view::line_row(l),
    ensures
        side_covers(side_step(st, l, flat, new_side), m, flat + 1, new_side),
{
    let n = side_step(st, l, flat, new_side);
    if !on_side(l, new_side) {
        assert forall|i: int|
            0 <= i < flat + 1 && #[trigger] m[i] is Line && side_type(m[i]->line_type, new_side) implies exists|k: int|
            0 <= k < n.1.len() && #[trigger] n.1[k].2 == i by {
            if i < flat {
            } else {
                assert(m[i]->line_type == l.line_type);
            }
        }
    } else {
        let t0 = if gap_between(st.2, side_lineno(l, new_side)) {
            st.0.push('\n')
        } else {
            st.0
        };
        let t1 = t0 + l.content@;
        let text = t1.push('\n');
        let o = (utf8_len(t0) as int, utf8_len(t1) as int, flat);
        assert(n.0 == text);
        assert(n.1 == st.1.push(o));
        assert(text.take(st.0.len() as int) =~= st.0);
        assert(m[flat]->content == l.content@);
        lemma_new_line_in_text(t0, l.content@, flat);
        assert forall|k: int| 0 <= k < n.1.len() implies side_row_ok(n.0, #[trigger] n.1[k], m, new_side) && n.1[k].2
            < flat + 1 by {
            if k < st.1.len() {
                assert(n.1[k] == st.1[k]);
                lemma_line_in_longer_text(st.0, text, st.1[k], m[st.1[k].2]->content);
            }
        }
        assert forall|k: int, j: int| 0 <= k < j < n.1.len() implies (#[trigger] n.1[k]).2 < (#[trigger] n.1[j]).2 by {
            assert(n.1[k] == st.1[k]);
            if j < st.1.len() {
                assert(n.1[j] == st.1[j]);
            }
        }
        assert forall|i: int|
            0 <= i < flat + 1 && #[trigger] m[i] is Line && side_type(m[i]->line_type, new_side) implies exists|k: int|
            0 <= k < n.1.len() && #[trigger] n.1[k].2 == i by {
            if i < flat {
                let k = choose|k: int| 0 <= k < st.1.len() && #[trigger] st.1[k].2 == i;
                assert(n.1[k] == st.1[k]);
            } else {
                assert(n.1[st.1.len() as int].2 == i);
            }
        }
    }
}

proof fn lemma_side_lines_cover(lines: Seq<DiffLine>, base: int, st: SideModel, new_side: bool, m: Seq<RowModel>)
    requires
        side_covers(st, m, base + 1, new_side),
        0 <= base,
        base + lines.len() < m.len(),
        forall|j: int| 1 <= j <= lines.len() ==> #[trigger] m[base + j] == crate::code_review::diff_view::line_row(lines[j - 1]),
    ensures
        side_covers(side_of_lines(lines, base, st, new_side), m, base + lines.len() + 1, new_side),
    decreases lines.len(),
{
    if lines.len() > 0 {
        let d = lines.drop_last();
        assert forall|j: int| 1 <= j <= d.len() implies #[trigger] m[base + j] == crate::code_review::diff_view::line_row(d[j - 1]) by {
            assert(m[base + j] == crate::code_review::diff_view::line_row(lines[j - 1]));
        }
        lemma_side_lines_cover(d, base, st, new_side, m);
        assert(m[base + lines.len()] == crate::code_review::diff_view::line_row(lines[lines.len() - 1]));
        lemma_side_step_covers(side_of_lines(d, base, st, new_side), lines.last(), base + lines.len(), new_side, m);
    }
}

proof fn lemma_side_of_hunks_covers(hunks: Seq<DiffHunk>, new_side: bool)
    ensures
        side_covers(side_of_hunks(hunks, new_side), hunks_rows(hunks), hunks_rows(hunks).len() as int, new_side),
    decreases hunks.len(),
{
    if hunks.len() > 0 {
        let prefix = hunks.drop_last();
        lemma_side_of_hunks_covers(prefix, new_side);
        let pm = hunks_rows(prefix);
        let m = hunks_rows(hunks);
        let last = crate::code_review::diff_view::hunk_rows(hunks.last());
        assert(m == pm + last);
        let st = side_of_hunks(prefix, new_side);
        let base = pm.len() as int;
        assert(m[base] == last[0]);
        assert forall|k: int| 0 <= k < st.1.len() implies side_row_ok(st.0, #[trigger] st.1[k], m, new_side) && st.1[k].2
            < base + 1 by {
            assert(m[st.1[k].2] == pm[st.1[k].2]);
        }
        assert forall|i: int|
            0 <= i < base + 1 && #[trigger] m[i] is Line && side_type(m[i]->line_type, new_side) implies exists|k: int|
            0 <= k < st.1.len() && #[trigger] st.1[k].2 == i by {
            if i < base {
                assert(m[i] == pm[i]);
                assert(pm[i] is Line && side_type(pm[i]->line_type, new_side));
            }
        }
        let lines = hunks.last().lines@;
        assert forall|j: int| 1 <= j <= lines.len() implies #[trigger] m[base + j] == crate::code_review::diff_view::line_row(lines[j - 1]) by {
            assert(m[base + j] == last[j]);
        }
        lemma_side_lines_cover(lines, base, st, new_side, m);
    }
}

/// A reconstructed side lists, in row order, exactly the lines of its side
/// (added and context lines for the new side, removed and context lines for
/// the old): each offset names such a line row, the line's text stands in
/// the side's text at the offset's byte range followed by a line feed, the
/// ranges follow one another without overlap, and every such row has an
/// offset.
pub proof fn law_sides_hold_their_lines(hunks: Seq<DiffHunk>, new_side: bool)
    ensures
        side_covers(side_of_hunks(hunks, new_side), hunks_rows(hunks), hunks_rows(hunks).len() as int, new_side),
        offsets_ok(side_of_hunks(hunks, new_side).1, hunks_rows(hunks).len() as int),
{
    lemma_side_of_hunks_covers(hunks, new_side);
    lemma_side_of_hunks_ok(hunks, new_side);
}

proof fn lemma_range_spans_miss(o: Seq<(int, int, int)>, start: int, end: int, idx: usize, n: int, i: int)
    requires
        n <= o.len(),
        forall|k: int| 0 <= k < o.len() ==> (#[trigger] o[k]).2 != i,
    ensures
        forall|k: int| 0 <= k < range_spans(o, start, end, idx, n).len() ==> (
        #[trigger] range_spans(o, start, end, idx, n)[k]).0 != i,
    decreases n,
{
    if n > 0 {
        lemma_range_spans_miss(o, start, end, idx, n - 1, i);
        let prev = range_spans(o, start, end, idx, n - 1);
        assert forall|k: int| 0 <= k < range_spans(o, start, end, idx, n).len() implies (
        #[trigger] range_spans(o, start, end, idx, n)[k]).0 != i by {
            if k < prev.len() {
                assert(range_spans(o, start, end, idx, n)[k] == prev[k]);
            } else {
                assert(o[n - 1].2 != i);
            }
        }
    }
}

proof fn lemma_add_spans_miss(rows: Seq<Seq<(int, int, HighlightKind)>>, sp: Seq<(int, int, int, usize)>, i: int)
    requires
        0 <= i < rows.len(),
        forall|k: int| 0 <= k < sp.len() ==> 0 <= (#[trigger] sp[k]).0 < rows.len() && sp[k].0 != i,
    ensures
        add_spans(rows, sp)[i] == rows[i],
        add_spans(rows, sp).len() == rows.len(),
    decreases sp.len(),
{
    if sp.len() > 0 {
        lemma_add_spans_miss(rows, sp.drop_last(), i);
    }
}

/// A row that no line offset names gets no spans from a side's events.
proof fn lemma_events_miss(events: Seq<HlEvent>, o: Seq<(int, int, int)>, rows: nat, i: int)
    requires
        offsets_ok(o, rows as int),
        0 <= i < rows,
        forall|k: int| 0 <= k < o.len() ==> (#[trigger] o[k]).2 != i,
    ensures
        events_state(events, o, rows).1.len() == rows,
        events_state(events, o, rows).1[i].len() == 0,
    decreases events.len(),
{
    if events.len() > 0 {
        lemma_events_miss(events.drop_last(), o, rows, i);
        let (stack, spans) = events_state(events.drop_last(), o, rows);
        match events.last() {
            HlEvent::Source { start, end } => {
                if stack.len() > 0 && stack.last() < HIGHLIGHT_COUNT {
                    let sp = range_spans(o, start as int, end as int, stack.last(), o.len() as int);
                    lemma_range_spans_rows(o, start as int, end as int, stack.last(), o.len() as int, rows as int);
                    lemma_range_spans_miss(o, start as int, end as int, stack.last(), o.len() as int, i);
                    lemma_add_spans_miss(spans, sp, i);
                }
            },
            _ => {},
        }
    }
}

/// Hunk-header rows never get spans, whatever events either side gives.
pub proof fn law_headers_get_no_spans(
    hunks: Seq<DiffHunk>,
    new_events: Option<Seq<HlEvent>>,
    old_events: Option<Seq<HlEvent>>,
    i: int,
)
    requires
        0 <= i < hunks_rows(hunks).len(),
        hunks_rows(hunks)[i] is Header,
    ensures
        merged_spans(
            side_spans(new_events, side_of_hunks(hunks, true).1, hunks_rows(hunks).len()),
            side_spans(old_events, side_of_hunks(hunks, false).1, hunks_rows(hunks).len()),
            removed_rows(hunks_rows(hunks)),
        )[i].len() == 0,
{
    let n = hunks_rows(hunks).len();
    lemma_side_of_hunks_ok(hunks, true);
    lemma_side_of_hunks_ok(hunks, false);
    lemma_side_offsets_on_lines(hunks, true);
    lemma_side_offsets_on_lines(hunks, false);
    let no = side_of_hunks(hunks, true).1;
    let oo = side_of_hunks(hunks, false).1;
    assert forall|k: int| 0 <= k < no.len() implies (#[trigger] no[k]).2 != i by {
        assert(hunks_rows(hunks)[no[k].2] is Line);
    }
    assert forall|k: int| 0 <= k < oo.len() implies (#[trigger] oo[k]).2 != i by {
        assert(hunks_rows(hunks)[oo[k].2] is Line);
    }
    match new_events {
        Some(ev) => lemma_events_miss(ev, no, n, i),
        None => {},
    }
    match old_events {
        Some(ev) => lemma_events_miss(ev, oo, n, i),
        None => {},
    }
}

/// Largest side (in UTF-8 bytes) that gets highlighted; a diff with a
/// larger side is shown without syntax colours.
pub const MAX_HIGHLIGHT_BYTES: usize = 512000;

/// `n` rows without spans.
pub open spec fn no_spans(n: nat) -> Seq<Seq<(int, int, HighlightKind)>> {
    Seq::new(n, |i: int| Seq::<(int, int, HighlightKind)>::empty())
}

/// Events as a sequence.
pub open spec fn events_view(e: Option<Vec<HlEvent>>) -> Option<Seq<HlEvent>> {
    match e {
        Some(v) => Some(v@),
        None => None,
    }
}

/// The per-row spans of one side: those its events give, none without
/// events.
pub open spec fn side_spans(events: Option<Seq<HlEvent>>, offsets: Seq<(int, int, int)>, rows: nat) -> Seq<
    Seq<(int, int, HighlightKind)>,
> {
    match events {
        Some(ev) => events_state(ev, offsets, rows).1,
        None => no_spans(rows),
    }
}

/// Whether each row is a removed line.
pub open spec fn removed_rows(m: Seq<RowModel>) -> Seq<bool> {
    m.map_values(|r: RowModel| r matches RowModel::Line { line_type, .. } && line_type == DiffLineType::Remove)
}

/// The rows of the two sides merged: removed lines take the old side's
/// spans; added and context lines (and headers) take the new side's.
pub open spec fn merged_spans(
    new_rows: Seq<Seq<(int, int, HighlightKind)>>,
    old_rows: Seq<Seq<(int, int, HighlightKind)>>,
    removed: Seq<bool>,
) -> Seq<Seq<(int, int, HighlightKind)>> {
    Seq::new(
        new_rows.len(),
        |i: int|
            if removed[i] {
                old_rows[i]
            } else {
                new_rows[i]
            },
    )
}

/// Which rows are removed lines.
pub fn removed_flags(rows: &Vec<DiffRow>) -> (r: Vec<bool>)
    ensures
        r@ == removed_rows(rows_model(rows@)),
{
    let mut out: Vec<bool> = Vec::new();
    let mut i: usize = 0;
    while i < rows.len()
        invariant
            i <= rows@.len(),
            out@ == removed_rows(rows_model(rows@)).take(i as int),
        decreases rows@.len() - i,
    {
        let removed = match &rows[i] {
            DiffRow::Line { line_type, .. } => match line_type {
                DiffLineType::Remove => true,
                _ => false,
            },
            DiffRow::HunkHeader(_) => false,
        };
        proof {
            assert(rows_model(rows@)[i as int] == rows@[i as int]@);
        }
        out.push(removed);
        assert(out@ =~= removed_rows(rows_model(rows@)).take(i + 1));
        i = i + 1;
    }
    assert(removed_rows(rows_model(rows@)).take(i as int) =~= removed_rows(rows_model(rows@)));
    out
}

/// `n` rows without highlights.
pub fn empty_highlights(n: usize) -> (r: Vec<Vec<Highlight>>)
    ensures
        r@.len() == n,
        rows_spans(r@) == no_spans(n as nat),
{
    let mut result: Vec<Vec<Highlight>> = Vec::new();
    let mut t: usize = 0;
    while t < n
        invariant
            t <= n,
            result@.len() == t,
            rows_spans(result@) == no_spans(t as nat),
        decreases n - t,
    {
        let ghost prev = result@;
        result.push(Vec::new());
        proof {
            assert(spans_of(Seq::<Highlight>::empty()) =~= Seq::empty());
            assert(rows_spans(result@) =~= rows_spans(prev).push(Seq::empty()));
            assert(no_spans((t + 1) as nat) =~= no_spans(t as nat).push(Seq::empty()));
        }
        t = t + 1;
    }
    result
}

fn side_highlights(events: Option<Vec<HlEvent>>, offsets: &Vec<(usize, usize, usize)>, total_rows: usize) -> (r: Vec<Vec<Highlight>>)
    requires
        offsets_ok(offsets_model(offsets@), total_rows as int),
    ensures
        r@.len() == total_rows,
        rows_spans(r@) == side_spans(events_view(events), offsets_model(offsets@), total_rows as nat),
{
    let r = match events {
        Some(ev) => spans_from_events(&ev, offsets, total_rows),
        None => empty_highlights(total_rows),
    };
    assert(rows_spans(r@).len() == r@.len());
    proof {
        match events_view(events) {
            Some(ev) => {
                lemma_events_state_len(ev, offsets_model(offsets@), total_rows as nat);
            },
            None => {},
        }
    }
    r
}

proof fn lemma_events_state_len(events: Seq<HlEvent>, o: Seq<(int, int, int)>, rows: nat)
    requires
        offsets_ok(o, rows as int),
    ensures
        events_state(events, o, rows).1.len() == rows,
    decreases events.len(),
{
    if events.len() > 0 {
        lemma_events_state_len(events.drop_last(), o, rows);
        let (stack, spans) = events_state(events.drop_last(), o, rows);
        match events.last() {
            HlEvent::Source { start, end } => {
                if stack.len() > 0 && stack.last() < HIGHLIGHT_COUNT {
                    lemma_range_spans_rows(o, start as int, end as int, stack.last(), o.len() as int, rows as int);
                    lemma_add_spans_len(spans, range_spans(o, start as int, end as int, stack.last(), o.len() as int));
                }
            },
            _ => {},
        }
    }
}

/// The rows' highlights from the events of the two sides (each side's
/// events, if it was highlighted): each side's events mapped onto the rows
/// through its line offsets, then merged, removed lines taking the old
/// side's spans and every other row the new side's.
pub fn rows_from_events(
    total_rows: usize,
    removed: &Vec<bool>,
    new_offsets: &Vec<(usize, usize, usize)>,
    new_events: Option<Vec<HlEvent>>,
    old_offsets: &Vec<(usize, usize, usize)>,
    old_events: Option<Vec<HlEvent>>,
) -> (r: Vec<Vec<Highlight>>)
    requires
        removed@.len() == total_rows,
        offsets_ok(offsets_model(new_offsets@), total_rows as int),
        offsets_ok(offsets_model(old_offsets@), total_rows as int),
    ensures
        r@.len() == total_rows,
        rows_spans(r@) == merged_spans(
            side_spans(events_view(new_events), offsets_model(new_offsets@), total_rows as nat),
            side_spans(events_view(old_events), offsets_model(old_offsets@), total_rows as nat),
            removed@,
        ),
{
    let new_rows = side_highlights(new_events, new_offsets, total_rows);
    let old_rows = side_highlights(old_events, old_offsets, total_rows);
    merge_sides(new_rows, old_rows, removed)
}

} // verus!
