//! Intra-line change highlighting: a word-level LCS diff between a removed
//! line and the added line that replaces it, and the pairing of removed and
//! added lines inside each hunk.
use vstd::prelude::*;
use vstd::string::StrSliceExecFns;
use crate::code_review::diff_view::{DiffRow, Highlight, HighlightKind, RowModel, rows_model, spans_of};
use crate::git::types::DiffLineType;
use crate::text::{
    byte_offset, chars_of, lemma_byte_offset_bound, lemma_byte_offset_mono,
    lemma_byte_offset_step, utf8_len, utf8_len_of,
};

verus! {

/// What `char::is_alphanumeric` answers for `c` (Unicode Alphabetic or Numeric).
pub uninterp spec fn alphanumeric(c: char) -> bool;

/// Whether `c` is alphanumeric: on ASCII, a letter or a digit; elsewhere
/// what `char::is_alphanumeric` answers.
pub open spec fn alnum(c: char) -> bool {
    if (c as u32) < 128 {
        ('a' <= c && c <= 'z') || ('A' <= c && c <= 'Z') || ('0' <= c && c <= '9')
    } else {
        alphanumeric(c)
    }
}

/// `char::is_alphanumeric`: Unicode Alphabetic or Numeric; on ASCII, the
/// letters and digits.
#[verifier::external_body]
fn is_alphanumeric(c: char) -> (r: bool)
    ensures
        r == alphanumeric(c),
        (c as u32) < 128 ==> (r <==> (('a' <= c && c <= 'z') || ('A' <= c && c <= 'Z') || ('0' <= c && c <= '9'))),
{
    c.is_alphanumeric()
}

/// Word characters are alphanumerics and the underscore.
pub open spec fn is_word(c: char) -> bool {
    alnum(c) || c == '_'
}

fn is_word_char(c: char) -> (r: bool)
    ensures
        r == is_word(c),
{
    is_alphanumeric(c) || c == '_'
}

/// The first index at or after `k` whose character's class differs from `w`
/// (or the end of `cs`).
pub open spec fn run_end(cs: Seq<char>, w: bool, k: int) -> int
    decreases cs.len() - k,
{
    if k >= cs.len() {
        cs.len() as int
    } else if is_word(cs[k]) == w {
        run_end(cs, w, k + 1)
    } else {
        k
    }
}

/// The run of word (or non-word) characters from `k` stays within the text,
/// holds only characters of its kind, and stops at the first of the other kind.
pub proof fn lemma_run_end_bounds(cs: Seq<char>, w: bool, k: int)
    requires
        0 <= k <= cs.len(),
    ensures
        k <= run_end(cs, w, k) <= cs.len(),
        forall|x: int| k <= x < run_end(cs, w, k) ==> is_word(#[trigger] cs[x]) == w,
        run_end(cs, w, k) < cs.len() ==> is_word(cs[run_end(cs, w, k)]) != w,
    decreases cs.len() - k,
{
    if k < cs.len() && is_word(cs[k]) == w {
        lemma_run_end_bounds(cs, w, k + 1);
    }
}

/// The char ranges of the tokens of `cs` from index `i` on: maximal runs of
/// word or of non-word characters.
pub open spec fn token_ranges_from(cs: Seq<char>, i: int) -> Seq<(int, int)>
    decreases cs.len() - i,
{
    if i < 0 || i >= cs.len() {
        Seq::empty()
    } else {
        let e = run_end(cs, is_word(cs[i]), i + 1);
        if e <= i || e > cs.len() {
            Seq::empty()
        } else {
            seq![(i, e)] + token_ranges_from(cs, e)
        }
    }
}

/// The char ranges of all tokens of `cs`.
pub open spec fn token_ranges(cs: Seq<char>) -> Seq<(int, int)> {
    token_ranges_from(cs, 0)
}

/// The texts of the tokens of `cs`.
pub open spec fn token_texts(cs: Seq<char>) -> Seq<Seq<char>> {
    token_ranges(cs).map_values(|r: (int, int)| cs.subrange(r.0, r.1))
}

/// The tokens from `i` on partition `cs[i..]` into maximal runs of one class.
pub proof fn lemma_token_ranges_from(cs: Seq<char>, i: int)
    requires
        0 <= i <= cs.len(),
    ensures
        ({
            let r = token_ranges_from(cs, i);
            &&& (i < cs.len() ==> r.len() > 0 && r[0].0 == i)
            &&& (i == cs.len() ==> r.len() == 0)
            &&& (r.len() > 0 ==> r[r.len() - 1].1 == cs.len())
            &&& forall|k: int| 0 <= k < r.len() ==> i <= #[trigger] r[k].0 < r[k].1 <= cs.len()
            &&& forall|k: int| 0 <= k < r.len() - 1 ==> #[trigger] r[k].1 == r[k + 1].0
            &&& forall|k: int, x: int|
                0 <= k < r.len() && #[trigger] r[k].0 <= x < r[k].1 ==> is_word(#[trigger] cs[x])
                    == is_word(cs[r[k].0])
            &&& forall|k: int|
                0 <= k < r.len() - 1 ==> is_word(cs[#[trigger] r[k + 1].0]) != is_word(
                    cs[r[k].0],
                )
        }),
    decreases cs.len() - i,
{
    if i < cs.len() {
        let w = is_word(cs[i]);
        let e = run_end(cs, w, i + 1);
        lemma_run_end_bounds(cs, w, i + 1);
        lemma_token_ranges_from(cs, e);
        let rest = token_ranges_from(cs, e);
        let r = token_ranges_from(cs, i);
        assert(r == seq![(i, e)] + rest);
        assert forall|k: int| 0 <= k < r.len() - 1 implies #[trigger] r[k].1 == r[k + 1].0 by {
            if k > 0 {
                assert(r[k] == rest[k - 1]);
                assert(r[k + 1] == rest[k]);
            }
        }
        assert forall|k: int, x: int|
            0 <= k < r.len() && #[trigger] r[k].0 <= x < r[k].1 implies is_word(
                #[trigger] cs[x],
            ) == is_word(cs[r[k].0]) by {
            if k > 0 {
                assert(r[k] == rest[k - 1]);
            }
        }
        assert forall|k: int| 0 <= k < r.len() - 1 implies is_word(cs[#[trigger] r[k + 1].0])
            != is_word(cs[r[k].0]) by {
            if k > 0 {
                assert(r[k] == rest[k - 1]);
                assert(r[k + 1] == rest[k]);
            }
        }
    }
}

/// The char ranges of the tokens of `cs`, in order.
fn token_spans(cs: &Vec<char>) -> (spans: Vec<(usize, usize)>)
    ensures
        spans@.len() == token_ranges(cs@).len(),
        forall|k: int|
            0 <= k < spans@.len() ==> (#[trigger] spans@[k]).0 as int == token_ranges(cs@)[k].0
                && spans@[k].1 as int == token_ranges(cs@)[k].1,
{
    let mut spans: Vec<(usize, usize)> = Vec::new();
    let mut i: usize = 0;
    let ghost done: Seq<(int, int)> = Seq::empty();
    while i < cs.len()
        invariant
            i <= cs.len(),
            done + token_ranges_from(cs@, i as int) == token_ranges(cs@),
            spans@.len() == done.len(),
            forall|k: int|
                0 <= k < spans@.len() ==> (#[trigger] spans@[k]).0 as int == done[k].0
                    && spans@[k].1 as int == done[k].1,
        decreases cs.len() - i,
    {
        let w = is_word_char(cs[i]);
        let mut end = i + 1;
        while end < cs.len() && is_word_char(cs[end]) == w
            invariant
                i < end <= cs.len(),
                run_end(cs@, w, end as int) == run_end(cs@, w, i + 1),
            decreases cs.len() - end,
        {
            end = end + 1;
        }
        proof {
            lemma_run_end_bounds(cs@, w, i + 1);
            assert(token_ranges_from(cs@, i as int) == seq![(i as int, end as int)]
                + token_ranges_from(cs@, end as int));
            done = done.push((i as int, end as int));
            assert(done + token_ranges_from(cs@, end as int) =~= token_ranges(cs@));
        }
        spans.push((i, end));
        i = end;
    }
    proof {
        assert(done =~= token_ranges(cs@));
    }
    spans
}

/// A token of a line: its text and its byte offset in the line.
pub struct Token<'a> {
    pub text: &'a str,
    pub start: usize,
}

/// Tokenize a string into word and non-word tokens.
/// Word chars: alphanumeric + underscore. Non-word: everything else.
/// Concatenating all token texts reconstructs the original string.
pub fn tokenize(s: &str) -> (tokens: Vec<Token<'_>>)
    ensures
        tokens@.len() == token_ranges(s@).len(),
        forall|k: int|
            0 <= k < tokens@.len() ==> (#[trigger] tokens@[k]).text@ == s@.subrange(
                token_ranges(s@)[k].0,
                token_ranges(s@)[k].1,
            ) && tokens@[k].start == byte_offset(s@, token_ranges(s@)[k].0),
{
    let cs = chars_of(s);
    let spans = token_spans(&cs);
    let total = utf8_len_of(s);
    proof {
        lemma_token_ranges_from(cs@, 0);
    }
    let ghost r = token_ranges(cs@);
    let mut tokens: Vec<Token> = Vec::new();
    let mut ci: usize = 0;
    let mut pos: usize = 0;
    let mut k: usize = 0;
    assert(byte_offset(cs@, 0) == 0) by {
        assert(cs@.take(0) =~= Seq::<char>::empty());
    }
    while k < spans.len()
        invariant
            cs@ == s@,
            r == token_ranges(cs@),
            spans@.len() == r.len(),
            forall|q: int|
                0 <= q < spans@.len() ==> (#[trigger] spans@[q]).0 as int == r[q].0
                    && spans@[q].1 as int == r[q].1,
            forall|q: int| 0 <= q < r.len() ==> 0 <= #[trigger] r[q].0 < r[q].1 <= cs@.len(),
            forall|q: int| 0 <= q < r.len() - 1 ==> #[trigger] r[q].1 == r[q + 1].0,
            r.len() > 0 ==> r[0].0 == 0,
            total == utf8_len(cs@),
            k <= spans.len(),
            ci <= cs.len(),
            k < spans.len() ==> ci == spans@[k as int].0,
            pos == byte_offset(cs@, ci as int),
            tokens@.len() == k,
            forall|q: int|
                0 <= q < k ==> (#[trigger] tokens@[q]).text@ == s@.subrange(r[q].0, r[q].1)
                    && tokens@[q].start == byte_offset(s@, r[q].0),
        decreases spans.len() - k,
    {
        let (a, b) = spans[k];
        let text = s.substring_char(a, b);
        tokens.push(Token { text, start: pos });
        while ci < b
            invariant
                ci <= b <= cs.len(),
                pos == byte_offset(cs@, ci as int),
                total == utf8_len(cs@),
            decreases b - ci,
        {
            proof {
                lemma_byte_offset_step(cs@, ci as int);
                lemma_byte_offset_bound(cs@, ci + 1);
            }
            pos = pos + crate::text::utf8_width(cs[ci]);
            ci = ci + 1;
        }
        k = k + 1;
    }
    tokens
}

/// Length of a longest common subsequence of `a[..i]` and `b[..j]`.
pub open spec fn lcs(a: Seq<Seq<char>>, b: Seq<Seq<char>>, i: nat, j: nat) -> nat
    decreases i + j,
{
    if i == 0 || j == 0 {
        0
    } else if a[i - 1] == b[j - 1] {
        lcs(a, b, (i - 1) as nat, (j - 1) as nat) + 1
    } else {
        let up = lcs(a, b, (i - 1) as nat, j);
        let left = lcs(a, b, i, (j - 1) as nat);
        if up >= left {
            up
        } else {
            left
        }
    }
}

/// The pairs of token indices that the backtrack from `(i, j)` keeps as common:
/// equal tokens are matched; otherwise the walk steps up when that does not
/// shorten the common subsequence, and left otherwise.
pub open spec fn kept_pairs(a: Seq<Seq<char>>, b: Seq<Seq<char>>, i: nat, j: nat) -> Set<(int, int)>
    decreases i + j,
{
    if i == 0 || j == 0 {
        Set::empty()
    } else if a[i - 1] == b[j - 1] {
        kept_pairs(a, b, (i - 1) as nat, (j - 1) as nat).insert((i - 1, j - 1))
    } else if lcs(a, b, (i - 1) as nat, j) >= lcs(a, b, i, (j - 1) as nat) {
        kept_pairs(a, b, (i - 1) as nat, j)
    } else {
        kept_pairs(a, b, i, (j - 1) as nat)
    }
}

/// Old-side token indices kept as common by the backtrack from `(i, j)`.
pub open spec fn kept_old(a: Seq<Seq<char>>, b: Seq<Seq<char>>, i: nat, j: nat) -> Set<int>
    decreases i + j,
{
    if i == 0 || j == 0 {
        Set::empty()
    } else if a[i - 1] == b[j - 1] {
        kept_old(a, b, (i - 1) as nat, (j - 1) as nat).insert(i - 1)
    } else if lcs(a, b, (i - 1) as nat, j) >= lcs(a, b, i, (j - 1) as nat) {
        kept_old(a, b, (i - 1) as nat, j)
    } else {
        kept_old(a, b, i, (j - 1) as nat)
    }
}

/// New-side token indices kept as common by the backtrack from `(i, j)`.
pub open spec fn kept_new(a: Seq<Seq<char>>, b: Seq<Seq<char>>, i: nat, j: nat) -> Set<int>
    decreases i + j,
{
    if i == 0 || j == 0 {
        Set::empty()
    } else if a[i - 1] == b[j - 1] {
        kept_new(a, b, (i - 1) as nat, (j - 1) as nat).insert(j - 1)
    } else if lcs(a, b, (i - 1) as nat, j) >= lcs(a, b, i, (j - 1) as nat) {
        kept_new(a, b, (i - 1) as nat, j)
    } else {
        kept_new(a, b, i, (j - 1) as nat)
    }
}

/// The kept indices of the alignment of the first `i` and `j` tokens lie
/// below `i` and `j`.
pub proof fn lemma_kept_bounds(a: Seq<Seq<char>>, b: Seq<Seq<char>>, i: nat, j: nat)
    ensures
        forall|x: int| #[trigger] kept_old(a, b, i, j).contains(x) ==> 0 <= x < i,
        forall|y: int| #[trigger] kept_new(a, b, i, j).contains(y) ==> 0 <= y < j,
    decreases i + j,
{
    if i == 0 || j == 0 {
    } else if a[i - 1] == b[j - 1] {
        lemma_kept_bounds(a, b, (i - 1) as nat, (j - 1) as nat);
        let po = kept_old(a, b, (i - 1) as nat, (j - 1) as nat);
        let pn = kept_new(a, b, (i - 1) as nat, (j - 1) as nat);
        assert forall|x: int| #[trigger] kept_old(a, b, i, j).contains(x) implies 0 <= x < i by {
            if x != i - 1 {
                assert(po.contains(x));
            }
        }
        assert forall|y: int| #[trigger] kept_new(a, b, i, j).contains(y) implies 0 <= y < j by {
            if y != j - 1 {
                assert(pn.contains(y));
            }
        }
    } else if lcs(a, b, (i - 1) as nat, j) >= lcs(a, b, i, (j - 1) as nat) {
        lemma_kept_bounds(a, b, (i - 1) as nat, j);
        assert(kept_old(a, b, i, j) == kept_old(a, b, (i - 1) as nat, j));
        assert(kept_new(a, b, i, j) == kept_new(a, b, (i - 1) as nat, j));
    } else {
        lemma_kept_bounds(a, b, i, (j - 1) as nat);
        assert(kept_old(a, b, i, j) == kept_old(a, b, i, (j - 1) as nat));
        assert(kept_new(a, b, i, j) == kept_new(a, b, i, (j - 1) as nat));
    }
}

/// Each kept pair of the LCS alignment indexes both sequences.
pub proof fn lemma_kept_pairs_bounds(a: Seq<Seq<char>>, b: Seq<Seq<char>>, i: nat, j: nat)
    ensures
        forall|p: (int, int)|
            #[trigger] kept_pairs(a, b, i, j).contains(p) ==> 0 <= p.0 < i && 0 <= p.1 < j,
    decreases i + j,
{
    if i == 0 || j == 0 {
    } else if a[i - 1] == b[j - 1] {
        lemma_kept_pairs_bounds(a, b, (i - 1) as nat, (j - 1) as nat);
        let prev = kept_pairs(a, b, (i - 1) as nat, (j - 1) as nat);
        assert forall|p: (int, int)| #[trigger]
            kept_pairs(a, b, i, j).contains(p) implies 0 <= p.0 < i && 0 <= p.1 < j by {
            if p != (i - 1, j - 1) {
                assert(prev.contains(p));
            }
        }
    } else if lcs(a, b, (i - 1) as nat, j) >= lcs(a, b, i, (j - 1) as nat) {
        lemma_kept_pairs_bounds(a, b, (i - 1) as nat, j);
        assert(kept_pairs(a, b, i, j) == kept_pairs(a, b, (i - 1) as nat, j));
    } else {
        lemma_kept_pairs_bounds(a, b, i, (j - 1) as nat);
        assert(kept_pairs(a, b, i, j) == kept_pairs(a, b, i, (j - 1) as nat));
    }
}

/// The LCS length of the first `i` and `j` tokens is at most each of them.
pub proof fn lemma_lcs_bound(a: Seq<Seq<char>>, b: Seq<Seq<char>>, i: nat, j: nat)
    ensures
        lcs(a, b, i, j) <= i,
        lcs(a, b, i, j) <= j,
    decreases i + j,
{
    if i == 0 || j == 0 {
    } else if a[i - 1] == b[j - 1] {
        lemma_lcs_bound(a, b, (i - 1) as nat, (j - 1) as nat);
    } else {
        lemma_lcs_bound(a, b, (i - 1) as nat, j);
        lemma_lcs_bound(a, b, i, (j - 1) as nat);
    }
}

/// Whether `ps` is a common subsequence of the first `i` tokens of `a` and
/// the first `j` tokens of `b`: index pairs within range, strictly
/// increasing on both sides, each pairing equal tokens.
pub open spec fn common_subsequence(a: Seq<Seq<char>>, b: Seq<Seq<char>>, ps: Seq<(int, int)>, i: int, j: int) -> bool {
    &&& forall|k: int|
        0 <= k < ps.len() ==> 0 <= (#[trigger] ps[k]).0 < i && 0 <= ps[k].1 < j && a[ps[k].0] == b[ps[k].1]
    &&& forall|k: int, l: int| 0 <= k < l < ps.len() ==> (#[trigger] ps[k]).0 < (#[trigger] ps[l]).0 && ps[k].1 < ps[l].1
}

/// The pairs the backtrack from `(i, j)` keeps, in increasing order.
pub open spec fn kept_seq(a: Seq<Seq<char>>, b: Seq<Seq<char>>, i: nat, j: nat) -> Seq<(int, int)>
    decreases i + j,
{
    if i == 0 || j == 0 {
        Seq::empty()
    } else if a[i - 1] == b[j - 1] {
        kept_seq(a, b, (i - 1) as nat, (j - 1) as nat).push((i - 1, j - 1))
    } else if lcs(a, b, (i - 1) as nat, j) >= lcs(a, b, i, (j - 1) as nat) {
        kept_seq(a, b, (i - 1) as nat, j)
    } else {
        kept_seq(a, b, i, (j - 1) as nat)
    }
}

/// The backtrack's pairs form a common subsequence as long as the LCS, and
/// its kept indices are those of its pairs.
#[verifier::spinoff_prover]
proof fn lemma_kept_seq(a: Seq<Seq<char>>, b: Seq<Seq<char>>, i: nat, j: nat)
    ensures
        common_subsequence(a, b, kept_seq(a, b, i, j), i as int, j as int),
        kept_seq(a, b, i, j).len() == lcs(a, b, i, j),
        forall|x: int|
            #[trigger] kept_old(a, b, i, j).contains(x) <==> exists|k: int|
                0 <= k < kept_seq(a, b, i, j).len() && #[trigger] kept_seq(a, b, i, j)[k].0 == x,
        forall|y: int|
            #[trigger] kept_new(a, b, i, j).contains(y) <==> exists|k: int|
                0 <= k < kept_seq(a, b, i, j).len() && #[trigger] kept_seq(a, b, i, j)[k].1 == y,
    decreases i + j,
{
    if i == 0 || j == 0 {
    } else if a[i - 1] == b[j - 1] {
        let pi = (i - 1) as nat;
        let pj = (j - 1) as nat;
        lemma_kept_seq(a, b, pi, pj);
        let prev = kept_seq(a, b, pi, pj);
        let cur = kept_seq(a, b, i, j);
        assert(cur == prev.push((i - 1, j - 1)));
        assert forall|k: int, l: int| 0 <= k < l < cur.len() implies (#[trigger] cur[k]).0 < (#[trigger] cur[l]).0
            && cur[k].1 < cur[l].1 by {
            assert(cur[k] == prev[k]);
            if l < prev.len() {
                assert(cur[l] == prev[l]);
            }
        }
        assert forall|k: int| 0 <= k < cur.len() implies 0 <= (#[trigger] cur[k]).0 < i && 0 <= cur[k].1 < j
            && a[cur[k].0] == b[cur[k].1] by {
            if k < prev.len() {
                assert(cur[k] == prev[k]);
            }
        }
        assert forall|x: int| #[trigger] kept_old(a, b, i, j).contains(x) <==> exists|k: int|
            0 <= k < cur.len() && #[trigger] cur[k].0 == x by {
            if kept_old(a, b, i, j).contains(x) {
                if x == i - 1 {
                    assert(cur[prev.len() as int].0 == x);
                } else {
                    assert(kept_old(a, b, pi, pj).contains(x));
                    let k = choose|k: int| 0 <= k < prev.len() && #[trigger] prev[k].0 == x;
                    assert(cur[k] == prev[k]);
                }
            }
            if exists|k: int| 0 <= k < cur.len() && #[trigger] cur[k].0 == x {
                let k = choose|k: int| 0 <= k < cur.len() && #[trigger] cur[k].0 == x;
                if k < prev.len() {
                    assert(cur[k] == prev[k]);
                    assert(kept_old(a, b, pi, pj).contains(x));
                }
            }
        }
        assert forall|y: int| #[trigger] kept_new(a, b, i, j).contains(y) <==> exists|k: int|
            0 <= k < cur.len() && #[trigger] cur[k].1 == y by {
            if kept_new(a, b, i, j).contains(y) {
                if y == j - 1 {
                    assert(cur[prev.len() as int].1 == y);
                } else {
                    assert(kept_new(a, b, pi, pj).contains(y));
                    let k = choose|k: int| 0 <= k < prev.len() && #[trigger] prev[k].1 == y;
                    assert(cur[k] == prev[k]);
                }
            }
            if exists|k: int| 0 <= k < cur.len() && #[trigger] cur[k].1 == y {
                let k = choose|k: int| 0 <= k < cur.len() && #[trigger] cur[k].1 == y;
                if k < prev.len() {
                    assert(cur[k] == prev[k]);
                    assert(kept_new(a, b, pi, pj).contains(y));
                }
            }
        }
    } else if lcs(a, b, (i - 1) as nat, j) >= lcs(a, b, i, (j - 1) as nat) {
        lemma_kept_seq(a, b, (i - 1) as nat, j);
        assert(kept_seq(a, b, i, j) == kept_seq(a, b, (i - 1) as nat, j));
        assert(kept_old(a, b, i, j) == kept_old(a, b, (i - 1) as nat, j));
        assert(kept_new(a, b, i, j) == kept_new(a, b, (i - 1) as nat, j));
    } else {
        lemma_kept_seq(a, b, i, (j - 1) as nat);
        assert(kept_seq(a, b, i, j) == kept_seq(a, b, i, (j - 1) as nat));
        assert(kept_old(a, b, i, j) == kept_old(a, b, i, (j - 1) as nat));
        assert(kept_new(a, b, i, j) == kept_new(a, b, i, (j - 1) as nat));
    }
}

/// No common subsequence of the first `i` and `j` tokens is longer than
/// `lcs(a, b, i, j)`.
proof fn lemma_lcs_is_longest(a: Seq<Seq<char>>, b: Seq<Seq<char>>, ps: Seq<(int, int)>, i: nat, j: nat)
    requires
        common_subsequence(a, b, ps, i as int, j as int),
    ensures
        ps.len() <= lcs(a, b, i, j),
    decreases i + j,
{
    if ps.len() == 0 {
    } else if i == 0 || j == 0 {
        assert(0 <= ps[0].0 < i && 0 <= ps[0].1 < j);
    } else {
        let last = ps.last();
        assert(last == ps[ps.len() - 1]);
        let init = ps.drop_last();
        if a[i - 1] == b[j - 1] {
            assert forall|k: int| 0 <= k < init.len() implies 0 <= (#[trigger] init[k]).0 < i - 1 && 0 <= init[k].1
                < j - 1 && a[init[k].0] == b[init[k].1] by {
                assert(init[k] == ps[k]);
            }
            assert forall|k: int, l: int| 0 <= k < l < init.len() implies (#[trigger] init[k]).0 < (
            #[trigger] init[l]).0 && init[k].1 < init[l].1 by {
                assert(init[k] == ps[k] && init[l] == ps[l]);
            }
            lemma_lcs_is_longest(a, b, init, (i - 1) as nat, (j - 1) as nat);
        } else if last.0 < i - 1 {
            lemma_lcs_is_longest(a, b, ps, (i - 1) as nat, j);
        } else {
            assert(last.1 < j - 1);
            lemma_lcs_is_longest(a, b, ps, i, (j - 1) as nat);
        }
    }
}

/// How many of the indices `k..n` are in `keep`.
pub open spec fn count_in(keep: Set<int>, k: int, n: int) -> nat
    decreases n - k,
{
    if k >= n {
        0
    } else {
        (if keep.contains(k) {
            1nat
        } else {
            0nat
        }) + count_in(keep, k + 1, n)
    }
}

proof fn lemma_count_in_insert(keep: Set<int>, x: int, k: int, n: int)
    requires
        !keep.contains(x),
        k <= x < n,
    ensures
        count_in(keep.insert(x), k, n) == count_in(keep, k, n) + 1,
    decreases n - k,
{
    if k < x {
        lemma_count_in_insert(keep, x, k + 1, n);
    } else {
        lemma_count_in_same(keep, keep.insert(x), k + 1, n);
    }
}

proof fn lemma_count_in_same(s1: Set<int>, s2: Set<int>, k: int, n: int)
    requires
        forall|y: int| k <= y < n ==> (s1.contains(y) <==> s2.contains(y)),
    ensures
        count_in(s1, k, n) == count_in(s2, k, n),
    decreases n - k,
{
    if k < n {
        lemma_count_in_same(s1, s2, k + 1, n);
    }
}

/// The backtrack keeps `lcs` indices on each side.
proof fn lemma_kept_count(a: Seq<Seq<char>>, b: Seq<Seq<char>>, i: nat, j: nat, n: int, m: int)
    requires
        i <= n,
        j <= m,
    ensures
        count_in(kept_old(a, b, i, j), 0, n) == lcs(a, b, i, j),
        count_in(kept_new(a, b, i, j), 0, m) == lcs(a, b, i, j),
    decreases i + j,
{
    if i == 0 || j == 0 {
        lemma_count_in_same(Set::empty(), Set::empty(), 0, n);
        lemma_count_empty(0, n);
        lemma_count_empty(0, m);
    } else if a[i - 1] == b[j - 1] {
        lemma_kept_count(a, b, (i - 1) as nat, (j - 1) as nat, n, m);
        lemma_kept_bounds(a, b, (i - 1) as nat, (j - 1) as nat);
        lemma_count_in_insert(kept_old(a, b, (i - 1) as nat, (j - 1) as nat), i - 1, 0, n);
        lemma_count_in_insert(kept_new(a, b, (i - 1) as nat, (j - 1) as nat), j - 1, 0, m);
    } else if lcs(a, b, (i - 1) as nat, j) >= lcs(a, b, i, (j - 1) as nat) {
        lemma_kept_count(a, b, (i - 1) as nat, j, n, m);
    } else {
        lemma_kept_count(a, b, i, (j - 1) as nat, n, m);
    }
}

proof fn lemma_count_empty(k: int, n: int)
    ensures
        count_in(Set::<int>::empty(), k, n) == 0,
    decreases n - k,
{
    if k < n {
        lemma_count_empty(k + 1, n);
    }
}

/// One changed range per token from `k` on that is not kept.
proof fn lemma_unkept_count(cs: Seq<char>, keep: Set<int>, k: int)
    requires
        0 <= k <= token_ranges(cs).len(),
    ensures
        unkept_byte_ranges(cs, keep, k).len() + count_in(keep, k, token_ranges(cs).len() as int)
            == token_ranges(cs).len() - k,
    decreases token_ranges(cs).len() - k,
{
    if k < token_ranges(cs).len() {
        lemma_unkept_count(cs, keep, k + 1);
    }
}

/// The word diff keeps a longest common subsequence of the two lines'
/// tokens: the pairs it keeps (`kept_seq`) are a common subsequence, no
/// common subsequence is longer, the removed-line changes are exactly the
/// tokens of the old line outside it and the added-line changes those of the
/// new line outside it, so each side reports its token count less the
/// length of a longest common subsequence.
pub proof fn law_word_diff_keeps_a_longest_common_subsequence(old: Seq<char>, new: Seq<char>)
    requires
        old.len() > 0,
        new.len() > 0,
    ensures
        ({
            let a = token_texts(old);
            let b = token_texts(new);
            let c = kept_seq(a, b, a.len(), b.len());
            &&& common_subsequence(a, b, c, a.len() as int, b.len() as int)
            &&& c.len() == lcs(a, b, a.len(), b.len())
            &&& forall|ps: Seq<(int, int)>|
                common_subsequence(a, b, ps, a.len() as int, b.len() as int) ==> ps.len() <= c.len()
            &&& word_diff_spec(old, new).0 == unkept_byte_ranges(old, Set::new(|x: int| exists|k: int| 0 <= k < c.len() && c[k].0 == x), 0)
            &&& word_diff_spec(old, new).1 == unkept_byte_ranges(new, Set::new(|y: int| exists|k: int| 0 <= k < c.len() && c[k].1 == y), 0)
            &&& word_diff_spec(old, new).0.len() == a.len() - c.len()
            &&& word_diff_spec(old, new).1.len() == b.len() - c.len()
        }),
{
    let a = token_texts(old);
    let b = token_texts(new);
    let m = a.len();
    let n = b.len();
    let c = kept_seq(a, b, m, n);
    lemma_kept_seq(a, b, m, n);
    assert forall|ps: Seq<(int, int)>| common_subsequence(a, b, ps, m as int, n as int) implies ps.len() <= c.len() by {
        lemma_lcs_is_longest(a, b, ps, m, n);
    }
    let ko = Set::new(|x: int| exists|k: int| 0 <= k < c.len() && c[k].0 == x);
    let kn = Set::new(|y: int| exists|k: int| 0 <= k < c.len() && c[k].1 == y);
    assert(ko =~= kept_old(a, b, m, n));
    assert(kn =~= kept_new(a, b, m, n));
    lemma_kept_count(a, b, m, n, m as int, n as int);
    assert(a.len() == token_ranges(old).len());
    assert(b.len() == token_ranges(new).len());
    lemma_unkept_count(old, kept_old(a, b, m, n), 0);
    lemma_unkept_count(new, kept_new(a, b, m, n), 0);
}

/// The byte ranges of the tokens of `cs` whose indices are not in `keep`,
/// for the token indices `k..`.
pub open spec fn unkept_byte_ranges(cs: Seq<char>, keep: Set<int>, k: int) -> Seq<(nat, nat)>
    decreases token_ranges(cs).len() - k,
{
    if k < 0 || k >= token_ranges(cs).len() {
        Seq::empty()
    } else {
        let r = token_ranges(cs)[k];
        let rest = unkept_byte_ranges(cs, keep, k + 1);
        if keep.contains(k) {
            rest
        } else {
            seq![(byte_offset(cs, r.0), byte_offset(cs, r.1))] + rest
        }
    }
}

/// The changed byte ranges of both lines: the tokens the word diff does not
/// keep as common. Lines of which either is empty have none.
pub open spec fn word_diff_spec(old: Seq<char>, new: Seq<char>) -> (Seq<(nat, nat)>, Seq<(nat, nat)>) {
    if old.len() == 0 || new.len() == 0 {
        (Seq::empty(), Seq::empty())
    } else {
        let a = token_texts(old);
        let b = token_texts(new);
        let m = a.len();
        let n = b.len();
        (
            unkept_byte_ranges(old, kept_old(a, b, m, n), 0),
            unkept_byte_ranges(new, kept_new(a, b, m, n), 0),
        )
    }
}

/// Whether two char ranges hold the same text.
fn same_text(a: &Vec<char>, a0: usize, a1: usize, b: &Vec<char>, b0: usize, b1: usize) -> (r: bool)
    requires
        a0 <= a1 <= a@.len(),
        b0 <= b1 <= b@.len(),
    ensures
        r == (a@.subrange(a0 as int, a1 as int) == b@.subrange(b0 as int, b1 as int)),
{
    if a1 - a0 != b1 - b0 {
        assert(a@.subrange(a0 as int, a1 as int).len() != b@.subrange(b0 as int, b1 as int).len());
        return false;
    }
    let mut k: usize = 0;
    while k < a1 - a0
        invariant
            a0 <= a1 <= a@.len(),
            b0 <= b1 <= b@.len(),
            a1 - a0 == b1 - b0,
            k <= a1 - a0,
            forall|q: int| 0 <= q < k ==> #[trigger] a@.subrange(a0 as int, a1 as int)[q] == b@.subrange(b0 as int, b1 as int)[q],
        decreases a1 - a0 - k,
    {
        if a[a0 + k] != b[b0 + k] {
            assert(a@.subrange(a0 as int, a1 as int)[k as int] != b@.subrange(
                b0 as int,
                b1 as int,
            )[k as int]);
            return false;
        }
        k = k + 1;
    }
    assert(a@.subrange(a0 as int, a1 as int) =~= b@.subrange(b0 as int, b1 as int));
    true
}

/// The byte bounds of each token of `cs`, given its char spans.
fn token_byte_bounds(cs: &Vec<char>, spans: &Vec<(usize, usize)>, total: usize) -> (bounds: Vec<(usize, usize)>)
    requires
        total == utf8_len(cs@),
        spans@.len() == token_ranges(cs@).len(),
        forall|k: int|
            0 <= k < spans@.len() ==> (#[trigger] spans@[k]).0 as int == token_ranges(cs@)[k].0
                && spans@[k].1 as int == token_ranges(cs@)[k].1,
    ensures
        bounds@.len() == spans@.len(),
        forall|k: int|
            0 <= k < bounds@.len() ==> (#[trigger] bounds@[k]).0 == byte_offset(
                cs@,
                token_ranges(cs@)[k].0,
            ) && bounds@[k].1 == byte_offset(cs@, token_ranges(cs@)[k].1),
{
    proof {
        lemma_token_ranges_from(cs@, 0);
    }
    let ghost r = token_ranges(cs@);
    let mut bounds: Vec<(usize, usize)> = Vec::new();
    let mut ci: usize = 0;
    let mut pos: usize = 0;
    let mut k: usize = 0;
    assert(byte_offset(cs@, 0) == 0) by {
        assert(cs@.take(0) =~= Seq::<char>::empty());
    }
    while k < spans.len()
        invariant
            r == token_ranges(cs@),
            spans@.len() == r.len(),
            forall|q: int|
                0 <= q < spans@.len() ==> (#[trigger] spans@[q]).0 as int == r[q].0
                    && spans@[q].1 as int == r[q].1,
            forall|q: int| 0 <= q < r.len() ==> 0 <= #[trigger] r[q].0 < r[q].1 <= cs@.len(),
            forall|q: int| 0 <= q < r.len() - 1 ==> #[trigger] r[q].1 == r[q + 1].0,
            r.len() > 0 ==> r[0].0 == 0,
            total == utf8_len(cs@),
            k <= spans.len(),
            ci <= cs.len(),
            k < spans.len() ==> ci == spans@[k as int].0,
            pos == byte_offset(cs@, ci as int),
            bounds@.len() == k,
            forall|q: int|
                0 <= q < k ==> (#[trigger] bounds@[q]).0 == byte_offset(cs@, r[q].0)
                    && bounds@[q].1 == byte_offset(cs@, r[q].1),
        decreases spans.len() - k,
    {
        let (a, b) = spans[k];
        let start = pos;
        while ci < b
            invariant
                ci <= b <= cs.len(),
                pos == byte_offset(cs@, ci as int),
                total == utf8_len(cs@),
            decreases b - ci,
        {
            proof {
                lemma_byte_offset_step(cs@, ci as int);
                lemma_byte_offset_bound(cs@, ci + 1);
            }
            pos = pos + crate::text::utf8_width(cs[ci]);
            ci = ci + 1;
        }
        bounds.push((start, pos));
        k = k + 1;
    }
    bounds
}

/// Whether token `i` of `a` equals token `j` of `b`.
fn same_token(
    a: &Vec<char>,
    a_spans: &Vec<(usize, usize)>,
    i: usize,
    b: &Vec<char>,
    b_spans: &Vec<(usize, usize)>,
    j: usize,
) -> (r: bool)
    requires
        spans_match(a@, a_spans@),
        spans_match(b@, b_spans@),
        i < a_spans@.len(),
        j < b_spans@.len(),
    ensures
        r == (token_texts(a@)[i as int] == token_texts(b@)[j as int]),
{
    proof {
        lemma_token_ranges_from(a@, 0);
        lemma_token_ranges_from(b@, 0);
    }
    let (a0, a1) = a_spans[i];
    let (b0, b1) = b_spans[j];
    same_text(a, a0, a1, b, b0, b1)
}

/// `spans` are the char ranges of the tokens of `cs`.
pub open spec fn spans_match(cs: Seq<char>, spans: Seq<(usize, usize)>) -> bool {
    &&& spans.len() == token_ranges(cs).len()
    &&& forall|k: int|
        0 <= k < spans.len() ==> (#[trigger] spans[k]).0 as int == token_ranges(cs)[k].0
            && spans[k].1 as int == token_ranges(cs)[k].1
}

/// The LCS length table of the token sequences of `a` and `b`.
fn lcs_table(
    a: &Vec<char>,
    a_spans: &Vec<(usize, usize)>,
    b: &Vec<char>,
    b_spans: &Vec<(usize, usize)>,
) -> (dp: Vec<Vec<usize>>)
    requires
        spans_match(a@, a_spans@),
        spans_match(b@, b_spans@),
    ensures
        dp@.len() == a_spans@.len() + 1,
        forall|i: int|
            0 <= i < dp@.len() ==> (#[trigger] dp@[i])@.len() == b_spans@.len() + 1,
        forall|i: int, j: int|
            0 <= i < dp@.len() && 0 <= j <= b_spans@.len() ==> (#[trigger] dp@[i]@[j]) == lcs(
                token_texts(a@),
                token_texts(b@),
                i as nat,
                j as nat,
            ),
{
    let ghost ta = token_texts(a@);
    let ghost tb = token_texts(b@);
    let m = a_spans.len();
    let n = b_spans.len();
    let mut dp: Vec<Vec<usize>> = Vec::new();
    let mut first: Vec<usize> = Vec::new();
    first.push(0);
    let mut j: usize = 0;
    while j < n
        invariant
            j <= n,
            first@.len() == j + 1,
            forall|q: int| 0 <= q <= j ==> first@[q] == 0,
        decreases n - j,
    {
        first.push(0);
        j = j + 1;
    }
    dp.push(first);
    assert forall|q: int| 0 <= q <= n implies #[trigger] dp@[0]@[q] == lcs(ta, tb, 0, q as nat) by {
    }
    let mut i: usize = 0;
    while i < m
        invariant
            spans_match(a@, a_spans@),
            spans_match(b@, b_spans@),
            ta == token_texts(a@),
            tb == token_texts(b@),
            m == a_spans@.len(),
            n == b_spans@.len(),
            i <= m,
            dp@.len() == i + 1,
            forall|q: int| 0 <= q < dp@.len() ==> (#[trigger] dp@[q])@.len() == n + 1,
            forall|p: int, q: int|
                0 <= p < dp@.len() && 0 <= q <= n ==> (#[trigger] dp@[p]@[q]) == lcs(
                    ta,
                    tb,
                    p as nat,
                    q as nat,
                ),
        decreases m - i,
    {
        let mut row: Vec<usize> = Vec::new();
        row.push(0);
        let mut j: usize = 0;
        while j < n
            invariant
                spans_match(a@, a_spans@),
                spans_match(b@, b_spans@),
                ta == token_texts(a@),
                tb == token_texts(b@),
                m == a_spans@.len(),
                n == b_spans@.len(),
                i < m,
                j <= n,
                dp@.len() == i + 1,
                forall|q: int| 0 <= q < dp@.len() ==> (#[trigger] dp@[q])@.len() == n + 1,
                forall|p: int, q: int|
                    0 <= p < dp@.len() && 0 <= q <= n ==> (#[trigger] dp@[p]@[q]) == lcs(
                        ta,
                        tb,
                        p as nat,
                        q as nat,
                    ),
                row@.len() == j + 1,
                forall|q: int| 0 <= q <= j ==> (#[trigger] row@[q]) == lcs(ta, tb, (i + 1) as nat, q as nat),
            decreases n - j,
        {
            let prev = &dp[i];
            let v: usize;
            if same_token(a, a_spans, i, b, b_spans, j) {
                proof {
                    lemma_lcs_bound(ta, tb, i as nat, j as nat);
                }
                v = prev[j] + 1;
            } else {
                let up = prev[j + 1];
                let left = row[j];
                v = if up >= left {
                    up
                } else {
                    left
                };
            }
            row.push(v);
            j = j + 1;
        }
        dp.push(row);
        i = i + 1;
    }
    dp
}

/// Mark the tokens the backtrack through the LCS table keeps as common.
fn backtrack(
    a: &Vec<char>,
    a_spans: &Vec<(usize, usize)>,
    b: &Vec<char>,
    b_spans: &Vec<(usize, usize)>,
    dp: &Vec<Vec<usize>>,
) -> (r: (Vec<bool>, Vec<bool>))
    requires
        spans_match(a@, a_spans@),
        spans_match(b@, b_spans@),
        dp@.len() == a_spans@.len() + 1,
        forall|i: int| 0 <= i < dp@.len() ==> (#[trigger] dp@[i])@.len() == b_spans@.len() + 1,
        forall|i: int, j: int|
            0 <= i < dp@.len() && 0 <= j <= b_spans@.len() ==> (#[trigger] dp@[i]@[j]) == lcs(
                token_texts(a@),
                token_texts(b@),
                i as nat,
                j as nat,
            ),
    ensures
        r.0@.len() == a_spans@.len(),
        r.1@.len() == b_spans@.len(),
        forall|k: int|
            0 <= k < r.0@.len() ==> #[trigger] r.0@[k] == kept_old(
                token_texts(a@),
                token_texts(b@),
                a_spans@.len() as nat,
                b_spans@.len() as nat,
            ).contains(k),
        forall|k: int|
            0 <= k < r.1@.len() ==> #[trigger] r.1@[k] == kept_new(
                token_texts(a@),
                token_texts(b@),
                a_spans@.len() as nat,
                b_spans@.len() as nat,
            ).contains(k),
{
    let ghost ta = token_texts(a@);
    let ghost tb = token_texts(b@);
    let m = a_spans.len();
    let n = b_spans.len();
    let ghost ko = kept_old(ta, tb, m as nat, n as nat);
    let ghost kn = kept_new(ta, tb, m as nat, n as nat);
    let mut old_in: Vec<bool> = Vec::new();
    let mut q: usize = 0;
    while q < m
        invariant
            q <= m,
            old_in@.len() == q,
            forall|k: int| 0 <= k < q ==> !old_in@[k],
        decreases m - q,
    {
        old_in.push(false);
        q = q + 1;
    }
    let mut new_in: Vec<bool> = Vec::new();
    let mut q: usize = 0;
    while q < n
        invariant
            q <= n,
            new_in@.len() == q,
            forall|k: int| 0 <= k < q ==> !new_in@[k],
        decreases n - q,
    {
        new_in.push(false);
        q = q + 1;
    }
    let mut i = m;
    let mut j = n;
    proof {
        lemma_kept_bounds(ta, tb, m as nat, n as nat);
    }
    while i > 0 && j > 0
        invariant
            spans_match(a@, a_spans@),
            spans_match(b@, b_spans@),
            ta == token_texts(a@),
            tb == token_texts(b@),
            m == a_spans@.len(),
            n == b_spans@.len(),
            dp@.len() == m + 1,
            forall|p: int| 0 <= p < dp@.len() ==> (#[trigger] dp@[p])@.len() == n + 1,
            forall|p: int, r: int|
                0 <= p < dp@.len() && 0 <= r <= n ==> (#[trigger] dp@[p]@[r]) == lcs(
                    ta,
                    tb,
                    p as nat,
                    r as nat,
                ),
            ko == kept_old(ta, tb, m as nat, n as nat),
            kn == kept_new(ta, tb, m as nat, n as nat),
            i <= m,
            j <= n,
            old_in@.len() == m,
            new_in@.len() == n,
            forall|k: int| 0 <= k < m ==> #[trigger] old_in@[k] == (k >= i && ko.contains(k)),
            forall|k: int| 0 <= k < n ==> #[trigger] new_in@[k] == (k >= j && kn.contains(k)),
            forall|k: int| 0 <= k < i ==> #[trigger] ko.contains(k) == kept_old(ta, tb, i as nat, j as nat).contains(k),
            forall|k: int| 0 <= k < j ==> #[trigger] kn.contains(k) == kept_new(ta, tb, i as nat, j as nat).contains(k),
        decreases i + j,
    {
        proof {
            lemma_kept_bounds(ta, tb, (i - 1) as nat, (j - 1) as nat);
            lemma_kept_bounds(ta, tb, (i - 1) as nat, j as nat);
            lemma_kept_bounds(ta, tb, i as nat, (j - 1) as nat);
        }
        let ghost gi = i as nat;
        let ghost gj = j as nat;
        if same_token(a, a_spans, i - 1, b, b_spans, j - 1) {
            assert(kept_old(ta, tb, gi, gj) == kept_old(ta, tb, (gi - 1) as nat, (gj - 1) as nat).insert(i - 1));
            assert(kept_new(ta, tb, gi, gj) == kept_new(ta, tb, (gi - 1) as nat, (gj - 1) as nat).insert(j - 1));
            assert(ko.contains(i - 1));
            assert(kn.contains(j - 1));
            old_in.set(i - 1, true);
            new_in.set(j - 1, true);
            i = i - 1;
            j = j - 1;
        } else if dp[i - 1][j] >= dp[i][j - 1] {
            assert(kept_old(ta, tb, gi, gj) == kept_old(ta, tb, (gi - 1) as nat, gj));
            assert(kept_new(ta, tb, gi, gj) == kept_new(ta, tb, (gi - 1) as nat, gj));
            assert(!ko.contains(i - 1));
            i = i - 1;
        } else {
            assert(kept_old(ta, tb, gi, gj) == kept_old(ta, tb, gi, (gj - 1) as nat));
            assert(kept_new(ta, tb, gi, gj) == kept_new(ta, tb, gi, (gj - 1) as nat));
            assert(!kn.contains(j - 1));
            j = j - 1;
        }
    }
    proof {
        lemma_kept_bounds(ta, tb, i as nat, j as nat);
    }
    (old_in, new_in)
}

/// The byte ranges of the tokens whose flag is not set.
fn unkept_ranges(
    cs: &Vec<char>,
    bounds: &Vec<(usize, usize)>,
    flags: &Vec<bool>,
    Ghost(keep): Ghost<Set<int>>,
) -> (out: Vec<std::ops::Range<usize>>)
    requires
        bounds@.len() == token_ranges(cs@).len(),
        flags@.len() == bounds@.len(),
        forall|k: int|
            0 <= k < bounds@.len() ==> (#[trigger] bounds@[k]).0 == byte_offset(
                cs@,
                token_ranges(cs@)[k].0,
            ) && bounds@[k].1 == byte_offset(cs@, token_ranges(cs@)[k].1),
        forall|k: int| 0 <= k < flags@.len() ==> #[trigger] flags@[k] == keep.contains(k),
    ensures
        out@.len() == unkept_byte_ranges(cs@, keep, 0).len(),
        forall|k: int|
            0 <= k < out@.len() ==> (#[trigger] out@[k]).start == unkept_byte_ranges(cs@, keep, 0)[k].0
                && out@[k].end == unkept_byte_ranges(cs@, keep, 0)[k].1,
{
    let mut out: Vec<std::ops::Range<usize>> = Vec::new();
    let ghost mut done: Seq<(nat, nat)> = Seq::empty();
    let mut k: usize = 0;
    while k < bounds.len()
        invariant
            bounds@.len() == token_ranges(cs@).len(),
            flags@.len() == bounds@.len(),
            forall|q: int|
                0 <= q < bounds@.len() ==> (#[trigger] bounds@[q]).0 == byte_offset(
                    cs@,
                    token_ranges(cs@)[q].0,
                ) && bounds@[q].1 == byte_offset(cs@, token_ranges(cs@)[q].1),
            forall|q: int| 0 <= q < flags@.len() ==> #[trigger] flags@[q] == keep.contains(q),
            k <= bounds.len(),
            done + unkept_byte_ranges(cs@, keep, k as int) == unkept_byte_ranges(cs@, keep, 0),
            out@.len() == done.len(),
            forall|q: int|
                0 <= q < out@.len() ==> (#[trigger] out@[q]).start == done[q].0 && out@[q].end
                    == done[q].1,
        decreases bounds.len() - k,
    {
        let ghost rest = unkept_byte_ranges(cs@, keep, k + 1);
        if !flags[k] {
            let (st, en) = bounds[k];
            out.push(st..en);
            proof {
                let item = (byte_offset(cs@, token_ranges(cs@)[k as int].0), byte_offset(
                    cs@,
                    token_ranges(cs@)[k as int].1,
                ));
                assert(unkept_byte_ranges(cs@, keep, k as int) == seq![item] + rest);
                done = done.push(item);
                assert(done + rest =~= unkept_byte_ranges(cs@, keep, 0));
            }
        } else {
            assert(unkept_byte_ranges(cs@, keep, k as int) == rest);
        }
        k = k + 1;
    }
    proof {
        assert(unkept_byte_ranges(cs@, keep, k as int) == Seq::<(nat, nat)>::empty());
        assert(done =~= unkept_byte_ranges(cs@, keep, 0));
    }
    out
}

/// Compute changed byte ranges between old and new lines using LCS word diff.
/// Returns (old_changed_ranges, new_changed_ranges).
/// If either string is empty, returns empty vecs (no useful intra-line diff).
pub fn word_diff(old_line: &str, new_line: &str) -> (r: (
    Vec<std::ops::Range<usize>>,
    Vec<std::ops::Range<usize>>,
))
    ensures
        r.0@.len() == word_diff_spec(old_line@, new_line@).0.len(),
        r.1@.len() == word_diff_spec(old_line@, new_line@).1.len(),
        forall|k: int|
            0 <= k < r.0@.len() ==> (#[trigger] r.0@[k]).start == word_diff_spec(
                old_line@,
                new_line@,
            ).0[k].0 && r.0@[k].end == word_diff_spec(old_line@, new_line@).0[k].1,
        forall|k: int|
            0 <= k < r.1@.len() ==> (#[trigger] r.1@[k]).start == word_diff_spec(
                old_line@,
                new_line@,
            ).1[k].0 && r.1@[k].end == word_diff_spec(old_line@, new_line@).1[k].1,
{
    if old_line.is_empty() || new_line.is_empty() {
        return (Vec::new(), Vec::new());
    }
    let a = chars_of(old_line);
    let b = chars_of(new_line);
    let a_spans = token_spans(&a);
    let b_spans = token_spans(&b);
    let a_bounds = token_byte_bounds(&a, &a_spans, utf8_len_of(old_line));
    let b_bounds = token_byte_bounds(&b, &b_spans, utf8_len_of(new_line));
    let dp = lcs_table(&a, &a_spans, &b, &b_spans);
    let (old_in, new_in) = backtrack(&a, &a_spans, &b, &b_spans, &dp);
    let ghost ta = token_texts(a@);
    let ghost tb = token_texts(b@);
    let ghost m = a_spans@.len() as nat;
    let ghost n = b_spans@.len() as nat;
    let old_ranges = unkept_ranges(&a, &a_bounds, &old_in, Ghost(kept_old(ta, tb, m, n)));
    let new_ranges = unkept_ranges(&b, &b_bounds, &new_in, Ghost(kept_new(ta, tb, m, n)));
    (old_ranges, new_ranges)
}

/// The texts of the tokens from index `i` on, concatenated, are `cs[i..]`.
proof fn lemma_token_texts_from_concat(cs: Seq<char>, i: int)
    requires
        0 <= i <= cs.len(),
    ensures
        token_ranges_from(cs, i).map_values(|r: (int, int)| cs.subrange(r.0, r.1)).flatten()
            == cs.subrange(i, cs.len() as int),
    decreases cs.len() - i,
{
    let f = |r: (int, int)| cs.subrange(r.0, r.1);
    let r = token_ranges_from(cs, i);
    if i == cs.len() {
        assert(r.map_values(f) =~= Seq::<Seq<char>>::empty());
        assert(cs.subrange(i, cs.len() as int) =~= Seq::<char>::empty());
    } else {
        let w = is_word(cs[i]);
        let e = run_end(cs, w, i + 1);
        lemma_run_end_bounds(cs, w, i + 1);
        lemma_token_texts_from_concat(cs, e);
        let rest = token_ranges_from(cs, e);
        assert(r == seq![(i, e)] + rest);
        assert(r.map_values(f).drop_first() =~= rest.map_values(f));
        assert(r.map_values(f).first() == cs.subrange(i, e));
        assert(cs.subrange(i, cs.len() as int) =~= cs.subrange(i, e) + cs.subrange(
            e,
            cs.len() as int,
        ));
    }
}

/// Concatenating the texts of the tokens of a line gives back the line.
pub proof fn law_tokens_reconstruct_line(s: Seq<char>)
    ensures
        token_texts(s).flatten() == s,
{
    lemma_token_texts_from_concat(s, 0);
    assert(s.subrange(0, s.len() as int) =~= s);
}

/// Against itself, every token is kept.
proof fn lemma_kept_identical(a: Seq<Seq<char>>, i: nat)
    ensures
        forall|k: int| 0 <= k < i ==> #[trigger] kept_old(a, a, i, i).contains(k),
        forall|k: int| 0 <= k < i ==> #[trigger] kept_new(a, a, i, i).contains(k),
    decreases i,
{
    if i > 0 {
        lemma_kept_identical(a, (i - 1) as nat);
        assert(kept_old(a, a, i, i) == kept_old(a, a, (i - 1) as nat, (i - 1) as nat).insert(
            i - 1,
        ));
        assert(kept_new(a, a, i, i) == kept_new(a, a, (i - 1) as nat, (i - 1) as nat).insert(
            i - 1,
        ));
    }
}

/// When every token index from `k` on is kept, no range is reported.
proof fn lemma_unkept_all_kept(cs: Seq<char>, keep: Set<int>, k: int)
    requires
        0 <= k,
        forall|x: int| k <= x < token_ranges(cs).len() ==> #[trigger] keep.contains(x),
    ensures
        unkept_byte_ranges(cs, keep, k) == Seq::<(nat, nat)>::empty(),
    decreases token_ranges(cs).len() - k,
{
    if k < token_ranges(cs).len() {
        lemma_unkept_all_kept(cs, keep, k + 1);
    }
}

/// A line compared with itself has no changed words.
pub proof fn law_word_diff_identical(s: Seq<char>)
    ensures
        word_diff_spec(s, s).0.len() == 0,
        word_diff_spec(s, s).1.len() == 0,
{
    if s.len() > 0 {
        let a = token_texts(s);
        lemma_kept_identical(a, a.len());
        lemma_unkept_all_kept(s, kept_old(a, a, a.len(), a.len()), 0);
        lemma_unkept_all_kept(s, kept_new(a, a, a.len(), a.len()), 0);
    }
}

/// Whether a row is a diff line of type `t`.
pub open spec fn is_line_of(r: RowModel, t: DiffLineType) -> bool {
    match r {
        RowModel::Line { line_type, .. } => line_type == t,
        RowModel::Header(_) => false,
    }
}

/// The end of the run of `t` lines that starts at `i` (bounded by `end`).
pub open spec fn run_of(rows: Seq<RowModel>, i: int, end: int, t: DiffLineType) -> int
    decreases end - i,
{
    if i < end && is_line_of(rows[i], t) {
        run_of(rows, i + 1, end, t)
    } else {
        i
    }
}

/// A run of one line type covers only lines of that type and stops at the first other row.
pub proof fn lemma_run_of(rows: Seq<RowModel>, i: int, end: int, t: DiffLineType)
    requires
        i <= end,
    ensures
        i <= run_of(rows, i, end, t) <= end,
        forall|x: int| i <= x < run_of(rows, i, end, t) ==> is_line_of(#[trigger] rows[x], t),
        run_of(rows, i, end, t) < end ==> !is_line_of(rows[run_of(rows, i, end, t)], t),
    decreases end - i,
{
    if i < end && is_line_of(rows[i], t) {
        lemma_run_of(rows, i + 1, end, t);
    }
}

/// The removed/added line pairs within rows `i..end` of one hunk: each run of
/// Remove lines immediately followed by a run of Add lines is paired
/// positionally (first with first), up to the shorter run.
pub open spec fn pairs_in(rows: Seq<RowModel>, i: int, end: int) -> Seq<(int, int)>
    decreases end - i,
{
    if i >= end {
        Seq::empty()
    } else {
        let re = run_of(rows, i, end, DiffLineType::Remove);
        if re <= i || re > end {
            pairs_in(rows, i + 1, end)
        } else {
            let ae = run_of(rows, re, end, DiffLineType::Add);
            if ae <= re || ae > end {
                pairs_in(rows, re, end)
            } else {
                let c = if re - i < ae - re {
                    re - i
                } else {
                    ae - re
                };
                Seq::new(c as nat, |p: int| (i + p, re + p)) + pairs_in(rows, ae, end)
            }
        }
    }
}

/// Indices of the hunk-header rows among `rows`.
pub open spec fn header_positions(rows: Seq<RowModel>) -> Seq<int>
    decreases rows.len(),
{
    if rows.len() == 0 {
        Seq::empty()
    } else if rows.last() is Header {
        header_positions(rows.drop_last()).push(rows.len() - 1)
    } else {
        header_positions(rows.drop_last())
    }
}

/// The line rows of hunk `k`: after its header up to the next header or the end.
pub open spec fn hunk_bounds(rows: Seq<RowModel>, hs: Seq<int>, k: int) -> (int, int) {
    (hs[k] + 1, if k + 1 < hs.len() { hs[k + 1] } else { rows.len() as int })
}

/// The pairs of hunks `k..`.
pub open spec fn hunk_pairs_from(rows: Seq<RowModel>, hs: Seq<int>, k: int) -> Seq<(int, int)>
    decreases hs.len() - k,
{
    if k < 0 || k >= hs.len() {
        Seq::empty()
    } else {
        pairs_in(rows, hunk_bounds(rows, hs, k).0, hunk_bounds(rows, hs, k).1) + hunk_pairs_from(
            rows,
            hs,
            k + 1,
        )
    }
}

/// All pairs of a row list: per hunk; rows with no hunk header at all form
/// one hunk.
pub open spec fn all_pairs(rows: Seq<RowModel>) -> Seq<(int, int)> {
    let hs = header_positions(rows);
    if hs.len() == 0 {
        pairs_in(rows, 0, rows.len() as int)
    } else {
        hunk_pairs_from(rows, hs, 0)
    }
}

/// The content of a line row.
pub open spec fn content_of(r: RowModel) -> Seq<char> {
    match r {
        RowModel::Line { content, .. } => content,
        RowModel::Header(h) => h,
    }
}

/// Changed-word spans as highlight spans of kind `k`.
pub open spec fn tagged(ranges: Seq<(nat, nat)>, k: HighlightKind) -> Seq<(int, int, HighlightKind)> {
    ranges.map_values(|r: (nat, nat)| (r.0 as int, r.1 as int, k))
}

/// A line row with `extra` appended to its intra-line highlights.
pub open spec fn with_intra(r: RowModel, extra: Seq<(int, int, HighlightKind)>) -> RowModel {
    match r {
        RowModel::Line { old_lineno, new_lineno, content, line_type, highlights, intra } => RowModel::Line {
            old_lineno,
            new_lineno,
            content,
            line_type,
            highlights,
            intra: intra + extra,
        },
        RowModel::Header(h) => RowModel::Header(h),
    }
}

/// Highlight the changed words of one removed/added pair: the removed line's
/// changed words, then the added line's.
pub open spec fn apply_pair(rows: Seq<RowModel>, p: (int, int)) -> Seq<RowModel> {
    if rows[p.0] is Line && rows[p.1] is Line {
        let d = word_diff_spec(content_of(rows[p.0]), content_of(rows[p.1]));
        let first = rows.update(p.0, with_intra(rows[p.0], tagged(d.0, HighlightKind::RemovedWord)));
        first.update(p.1, with_intra(first[p.1], tagged(d.1, HighlightKind::AddedWord)))
    } else {
        rows
    }
}

/// Highlight the pairs in order.
pub open spec fn apply_pairs(rows: Seq<RowModel>, ps: Seq<(int, int)>) -> Seq<RowModel>
    decreases ps.len(),
{
    if ps.len() == 0 {
        rows
    } else {
        apply_pair(apply_pairs(rows, ps.drop_last()), ps.last())
    }
}

fn is_line_type(rows: &Vec<DiffRow>, i: usize, t: DiffLineType) -> (r: bool)
    requires
        i < rows@.len(),
    ensures
        r == is_line_of(rows_model(rows@)[i as int], t),
{
    match &rows[i] {
        DiffRow::Line { line_type, .. } => *line_type == t,
        DiffRow::HunkHeader(_) => false,
    }
}

/// Indices of the hunk-header rows.
fn header_indices(rows: &Vec<DiffRow>) -> (hs: Vec<usize>)
    ensures
        hs@.map_values(|x: usize| x as int) == header_positions(rows_model(rows@)),
{
    let ghost m = rows_model(rows@);
    let mut hs: Vec<usize> = Vec::new();
    let mut i: usize = 0;
    while i < rows.len()
        invariant
            m == rows_model(rows@),
            i <= rows@.len(),
            hs@.map_values(|x: usize| x as int) == header_positions(m.take(i as int)),
        decreases rows@.len() - i,
    {
        let is_header = match &rows[i] {
            DiffRow::HunkHeader(_) => true,
            DiffRow::Line { .. } => false,
        };
        proof {
            assert(m.take(i + 1).drop_last() =~= m.take(i as int));
            assert(m.take(i + 1).last() == m[i as int]);
        }
        let ghost prev = hs@;
        if is_header {
            hs.push(i);
            assert(hs@.map_values(|x: usize| x as int) =~= prev.map_values(|x: usize| x as int).push(
                i as int,
            ));
        }
        i = i + 1;
    }
    assert(m.take(i as int) =~= m);
    hs
}

/// The pairs as index pairs.
pub open spec fn pairs_model(ps: Seq<(usize, usize)>) -> Seq<(int, int)> {
    ps.map_values(|p: (usize, usize)| (p.0 as int, p.1 as int))
}

/// Append the pairs of rows `start..end` to `pairs`.
fn collect_pairs_in(rows: &Vec<DiffRow>, start: usize, end: usize, pairs: &mut Vec<(usize, usize)>)
    requires
        start <= end <= rows@.len(),
    ensures
        pairs_model(final(pairs)@) == pairs_model(old(pairs)@) + pairs_in(
            rows_model(rows@),
            start as int,
            end as int,
        ),
{
    let ghost m = rows_model(rows@);
    let ghost base = pairs_model(pairs@);
    let mut i = start;
    while i < end
        invariant
            m == rows_model(rows@),
            start <= i <= end <= rows@.len(),
            base + pairs_in(m, start as int, end as int) == pairs_model(pairs@) + pairs_in(
                m,
                i as int,
                end as int,
            ),
        decreases end - i,
    {
        let remove_start = i;
        while i < end && is_line_type(rows, i, DiffLineType::Remove)
            invariant
                m == rows_model(rows@),
                remove_start <= i <= end <= rows@.len(),
                run_of(m, i as int, end as int, DiffLineType::Remove) == run_of(
                    m,
                    remove_start as int,
                    end as int,
                    DiffLineType::Remove,
                ),
            decreases end - i,
        {
            i = i + 1;
        }
        proof {
            lemma_run_of(m, remove_start as int, end as int, DiffLineType::Remove);
        }
        let remove_count = i - remove_start;
        if remove_count == 0 {
            i = i + 1;
            continue;
        }
        let add_start = i;
        while i < end && is_line_type(rows, i, DiffLineType::Add)
            invariant
                m == rows_model(rows@),
                add_start <= i <= end <= rows@.len(),
                run_of(m, i as int, end as int, DiffLineType::Add) == run_of(
                    m,
                    add_start as int,
                    end as int,
                    DiffLineType::Add,
                ),
            decreases end - i,
        {
            i = i + 1;
        }
        proof {
            lemma_run_of(m, add_start as int, end as int, DiffLineType::Add);
        }
        let add_count = i - add_start;
        if add_count == 0 {
            continue;
        }
        let pair_count = if remove_count < add_count {
            remove_count
        } else {
            add_count
        };
        let ghost before = pairs_model(pairs@);
        let mut p: usize = 0;
        while p < pair_count
            invariant
                p <= pair_count,
                pair_count <= remove_count,
                pair_count <= add_count,
                add_start == remove_start + remove_count,
                add_start + add_count <= end,
                pairs_model(pairs@) == before + Seq::new(
                    p as nat,
                    |q: int| (remove_start + q, add_start + q),
                ),
            decreases pair_count - p,
        {
            let ghost prev = pairs@;
            pairs.push((remove_start + p, add_start + p));
            assert(pairs_model(pairs@) =~= pairs_model(prev).push(
                ((remove_start + p) as int, (add_start + p) as int),
            ));
            assert(before + Seq::new((p + 1) as nat, |q: int| (remove_start + q, add_start + q))
                =~= before + Seq::new(p as nat, |q: int| (remove_start + q, add_start + q)).push(
                ((remove_start + p) as int, (add_start + p) as int),
            ));
            p = p + 1;
        }
    }
    assert(pairs_in(m, i as int, end as int) =~= Seq::<(int, int)>::empty());
    assert(pairs_model(pairs@) =~= base + pairs_in(m, start as int, end as int));
}

/// The pairs of a row list, per hunk.
#[verifier::spinoff_prover]
#[verifier::rlimit(40)]
fn find_pairs(rows: &Vec<DiffRow>) -> (pairs: Vec<(usize, usize)>)
    ensures
        pairs_model(pairs@) == all_pairs(rows_model(rows@)),
        forall|k: int|
            0 <= k < pairs@.len() ==> (#[trigger] pairs@[k]).0 < rows@.len() && pairs@[k].1
                < rows@.len(),
{
    let ghost m = rows_model(rows@);
    let hs = header_indices(rows);
    let ghost hm = hs@.map_values(|x: usize| x as int);
    let mut pairs: Vec<(usize, usize)> = Vec::new();
    if hs.len() == 0 {
        collect_pairs_in(rows, 0, rows.len(), &mut pairs);
        assert(pairs_model(pairs@) =~= all_pairs(m));
    } else {
        proof {
            lemma_header_positions(m);
        }
        let mut k: usize = 0;
        assert(pairs_model(pairs@) =~= Seq::<(int, int)>::empty());
        while k < hs.len()
            invariant
                m == rows_model(rows@),
                hm == hs@.map_values(|x: usize| x as int),
                hm == header_positions(m),
                m.len() == rows@.len(),
                hs@.len() > 0,
                forall|q: int| 0 <= q < hm.len() ==> 0 <= #[trigger] hm[q] < m.len(),
                forall|q: int| 0 <= q < hm.len() - 1 ==> #[trigger] hm[q] < hm[q + 1],
                k <= hs@.len(),
                pairs_model(pairs@) + hunk_pairs_from(m, hm, k as int) == hunk_pairs_from(m, hm, 0),
            decreases hs@.len() - k,
        {
            assert(hm.len() == hs@.len());
            assert(hm[k as int] == hs@[k as int] as int);
            assert(hm[k as int] < m.len());
            let n_rows = rows.len();
            let start = hs[k] + 1;
            let end = if k + 1 < hs.len() {
                hs[k + 1]
            } else {
                n_rows
            };
            let ghost prev = pairs_model(pairs@);
            collect_pairs_in(rows, start, end, &mut pairs);
            proof {
                assert(hunk_bounds(m, hm, k as int) == (start as int, end as int));
                assert(hunk_pairs_from(m, hm, k as int) == pairs_in(m, start as int, end as int)
                    + hunk_pairs_from(m, hm, k + 1));
                assert(pairs_model(pairs@) + hunk_pairs_from(m, hm, k + 1) =~= prev
                    + hunk_pairs_from(m, hm, k as int));
            }
            k = k + 1;
        }
        assert(pairs_model(pairs@) =~= all_pairs(m));
    }
    proof {
        lemma_all_pairs_in_range(m);
        assert forall|k: int| 0 <= k < pairs@.len() implies (#[trigger] pairs@[k]).0 < rows@.len()
            && pairs@[k].1 < rows@.len() by {
            assert(pairs_model(pairs@)[k] == (pairs@[k].0 as int, pairs@[k].1 as int));
        }
    }
    pairs
}

/// Header positions are increasing indices of header rows.
proof fn lemma_header_positions(m: Seq<RowModel>)
    ensures
        forall|q: int|
            0 <= q < header_positions(m).len() ==> 0 <= #[trigger] header_positions(m)[q] < m.len(),
        forall|q: int|
            0 <= q < header_positions(m).len() - 1 ==> #[trigger] header_positions(m)[q]
                < header_positions(m)[q + 1],
    decreases m.len(),
{
    if m.len() > 0 {
        let d = m.drop_last();
        lemma_header_positions(d);
        let p = header_positions(d);
        let h = header_positions(m);
        if m.last() is Header {
            assert(h == p.push(m.len() - 1));
            assert forall|q: int| 0 <= q < h.len() implies 0 <= #[trigger] h[q] < m.len() by {
                if q < p.len() {
                    assert(h[q] == p[q]);
                }
            }
            assert forall|q: int| 0 <= q < h.len() - 1 implies #[trigger] h[q] < h[q + 1] by {
                assert(h[q] == p[q]);
                if q + 1 < p.len() {
                    assert(h[q + 1] == p[q + 1]);
                }
            }
        } else {
            assert(h == p);
        }
    }
}

proof fn lemma_header_positions_exact(m: Seq<RowModel>)
    ensures
        forall|q: int|
            0 <= q < header_positions(m).len() ==> 0 <= #[trigger] header_positions(m)[q] < m.len()
                && m[header_positions(m)[q]] is Header,
        forall|q1: int, q2: int|
            0 <= q1 < q2 < header_positions(m).len() ==> #[trigger] header_positions(m)[q1]
                < #[trigger] header_positions(m)[q2],
        forall|x: int| 0 <= x < m.len() && #[trigger] m[x] is Header ==> exists|q: int|
            0 <= q < header_positions(m).len() && header_positions(m)[q] == x,
    decreases m.len(),
{
    if m.len() > 0 {
        let d = m.drop_last();
        lemma_header_positions_exact(d);
        let p = header_positions(d);
        let h = header_positions(m);
        assert forall|x: int| 0 <= x < d.len() implies #[trigger] d[x] == m[x] by {}
        if m.last() is Header {
            assert(h == p.push(m.len() - 1));
            assert forall|q: int| 0 <= q < h.len() implies 0 <= #[trigger] h[q] < m.len() && m[h[q]] is Header by {
                if q < p.len() {
                    assert(h[q] == p[q]);
                    assert(d[p[q]] is Header);
                }
            }
            assert forall|q1: int, q2: int| 0 <= q1 < q2 < h.len() implies #[trigger] h[q1] < #[trigger] h[q2] by {
                assert(h[q1] == p[q1]);
                if q2 < p.len() {
                    assert(h[q2] == p[q2]);
                }
            }
            assert forall|x: int| 0 <= x < m.len() && #[trigger] m[x] is Header implies exists|q: int|
                0 <= q < h.len() && h[q] == x by {
                if x < d.len() {
                    assert(d[x] is Header);
                    let q = choose|q: int| 0 <= q < p.len() && p[q] == x;
                    assert(h[q] == p[q]);
                } else {
                    assert(h[p.len() as int] == x);
                }
            }
        } else {
            assert(h == p);
            assert forall|q: int| 0 <= q < h.len() implies 0 <= #[trigger] h[q] < m.len() && m[h[q]] is Header by {
                assert(d[p[q]] is Header);
            }
            assert forall|x: int| 0 <= x < m.len() && #[trigger] m[x] is Header implies exists|q: int|
                0 <= q < h.len() && h[q] == x by {
                if x < d.len() {
                    assert(d[x] is Header);
                } else {
                    assert(m[x] == m.last());
                }
            }
        }
    }
}

/// Whether rows `r0 .. re` are a run of removed lines that starts a run
/// (the row before, if any, is no removed line), and rows `re ..= j` are
/// added lines, as many after `re` as `i` is after `r0`: `j` is the added
/// line that the removed line `i` faces.
pub open spec fn faces(m: Seq<RowModel>, r0: int, i: int, re: int, j: int) -> bool {
    &&& 0 <= r0 <= i < re <= j < m.len()
    &&& (r0 == 0 || !is_line_of(m[r0 - 1], DiffLineType::Remove))
    &&& forall|x: int| r0 <= x < re ==> is_line_of(#[trigger] m[x], DiffLineType::Remove)
    &&& forall|x: int| re <= x <= j ==> is_line_of(#[trigger] m[x], DiffLineType::Add)
    &&& j - re == i - r0
}

proof fn lemma_pairs_in_finds(m: Seq<RowModel>, b: int, end: int, r0: int, i: int, re: int, j: int)
    requires
        faces(m, r0, i, re, j),
        0 <= b <= r0,
        j < end <= m.len(),
    ensures
        pairs_in(m, b, end).contains((i, j)),
    decreases r0 - b,
{
    let rb = run_of(m, b, end, DiffLineType::Remove);
    lemma_run_of(m, b, end, DiffLineType::Remove);
    if b < r0 {
        if rb <= b {
            lemma_pairs_in_finds(m, b + 1, end, r0, i, re, j);
        } else {
            assert(rb <= r0 - 1) by {
                if rb > r0 - 1 {
                    assert(is_line_of(m[r0 - 1], DiffLineType::Remove));
                }
            }
            let ab = run_of(m, rb, end, DiffLineType::Add);
            lemma_run_of(m, rb, end, DiffLineType::Add);
            if ab <= rb {
                lemma_pairs_in_finds(m, rb, end, r0, i, re, j);
            } else {
                assert(ab <= r0) by {
                    if ab > r0 {
                        assert(is_line_of(m[r0], DiffLineType::Add));
                        assert(is_line_of(m[r0], DiffLineType::Remove));
                    }
                }
                lemma_pairs_in_finds(m, ab, end, r0, i, re, j);
                let c = if rb - b < ab - rb {
                    rb - b
                } else {
                    ab - rb
                };
                let head = Seq::new(c as nat, |p: int| (b + p, rb + p));
                let tail = pairs_in(m, ab, end);
                assert(pairs_in(m, b, end) == head + tail);
                let k = choose|k: int| 0 <= k < tail.len() && tail[k] == (i, j);
                assert((head + tail)[head.len() + k] == (i, j));
            }
        }
    } else {
        assert(rb == re) by {
            if rb < re {
                assert(is_line_of(m[rb], DiffLineType::Remove));
            }
            if rb > re {
                assert(is_line_of(m[re], DiffLineType::Remove));
                assert(is_line_of(m[re], DiffLineType::Add));
            }
        }
        let ae = run_of(m, re, end, DiffLineType::Add);
        lemma_run_of(m, re, end, DiffLineType::Add);
        assert(ae > j) by {
            if ae <= j {
                assert(is_line_of(m[ae], DiffLineType::Add));
            }
        }
        let c = if re - b < ae - re {
            re - b
        } else {
            ae - re
        };
        let head = Seq::new(c as nat, |p: int| (b + p, re + p));
        let tail = pairs_in(m, ae, end);
        assert(pairs_in(m, b, end) == head + tail);
        assert((head + tail)[i - r0] == (i, j));
    }
}

proof fn lemma_hunk_pairs_find(m: Seq<RowModel>, hs: Seq<int>, k0: int, k: int, r0: int, i: int, re: int, j: int)
    requires
        0 <= k0 <= k < hs.len(),
        faces(m, r0, i, re, j),
        0 <= hunk_bounds(m, hs, k).0 <= r0,
        j < hunk_bounds(m, hs, k).1 <= m.len(),
    ensures
        hunk_pairs_from(m, hs, k0).contains((i, j)),
    decreases k - k0,
{
    let head = pairs_in(m, hunk_bounds(m, hs, k0).0, hunk_bounds(m, hs, k0).1);
    let tail = hunk_pairs_from(m, hs, k0 + 1);
    assert(hunk_pairs_from(m, hs, k0) == head + tail);
    if k0 == k {
        lemma_pairs_in_finds(m, hunk_bounds(m, hs, k).0, hunk_bounds(m, hs, k).1, r0, i, re, j);
        let x = choose|x: int| 0 <= x < head.len() && head[x] == (i, j);
        assert((head + tail)[x] == (i, j));
    } else {
        lemma_hunk_pairs_find(m, hs, k0 + 1, k, r0, i, re, j);
        let x = choose|x: int| 0 <= x < tail.len() && tail[x] == (i, j);
        assert((head + tail)[head.len() + x] == (i, j));
    }
}

proof fn lemma_last_header_before(hs: Seq<int>, k: int, r0: int) -> (q: int)
    requires
        0 <= k < hs.len(),
        hs[k] < r0,
    ensures
        k <= q < hs.len(),
        hs[q] < r0,
        q + 1 < hs.len() ==> hs[q + 1] >= r0,
    decreases hs.len() - k,
{
    if k + 1 < hs.len() && hs[k + 1] < r0 {
        lemma_last_header_before(hs, k + 1, r0)
    } else {
        k
    }
}

/// Whether the removed line `i` faces the added line `j` (see `faces`).
pub open spec fn faced(m: Seq<RowModel>, i: int, j: int) -> bool {
    exists|r0: int, re: int| #[trigger] faces(m, r0, i, re, j)
}

proof fn lemma_pairs_in_faced(m: Seq<RowModel>, b: int, end: int)
    requires
        0 <= b,
        end <= m.len(),
        b == 0 || b >= end || !is_line_of(m[b - 1], DiffLineType::Remove) || !is_line_of(m[b], DiffLineType::Remove),
    ensures
        forall|k: int| 0 <= k < pairs_in(m, b, end).len() ==> faced(m, #[trigger] pairs_in(m, b, end)[k].0, pairs_in(m, b, end)[k].1),
    decreases end - b,
{
    if b < end {
        let rb = run_of(m, b, end, DiffLineType::Remove);
        lemma_run_of(m, b, end, DiffLineType::Remove);
        if rb <= b || rb > end {
            lemma_pairs_in_faced(m, b + 1, end);
            assert(pairs_in(m, b, end) == pairs_in(m, b + 1, end));
        } else {
            let ab = run_of(m, rb, end, DiffLineType::Add);
            lemma_run_of(m, rb, end, DiffLineType::Add);
            if ab <= rb || ab > end {
                lemma_pairs_in_faced(m, rb, end);
                assert(pairs_in(m, b, end) == pairs_in(m, rb, end));
            } else {
                lemma_pairs_in_faced(m, ab, end);
                let c = if rb - b < ab - rb {
                    rb - b
                } else {
                    ab - rb
                };
                let head = Seq::new(c as nat, |p: int| (b + p, rb + p));
                let tail = pairs_in(m, ab, end);
                assert(pairs_in(m, b, end) == head + tail);
                assert forall|k: int| 0 <= k < (head + tail).len() implies faced(m, #[trigger] (head + tail)[k].0, (head + tail)[k].1) by {
                    if k < head.len() {
                        assert((head + tail)[k] == (b + k, rb + k));
                        assert(faces(m, b, b + k, rb, rb + k));
                    } else {
                        assert((head + tail)[k] == tail[k - head.len()]);
                    }
                }
            }
        }
    }
}

proof fn lemma_hunk_pairs_faced(m: Seq<RowModel>, hs: Seq<int>, k: int)
    requires
        0 <= k,
        forall|q: int| 0 <= q < hs.len() ==> 0 <= #[trigger] hs[q] < m.len() && m[hs[q]] is Header,
        forall|q: int| 0 <= q < hs.len() - 1 ==> #[trigger] hs[q] < hs[q + 1],
    ensures
        forall|x: int|
            0 <= x < hunk_pairs_from(m, hs, k).len() ==> faced(m, #[trigger] hunk_pairs_from(m, hs, k)[x].0, hunk_pairs_from(m, hs, k)[x].1),
    decreases hs.len() - k,
{
    if k < hs.len() {
        let bd = hunk_bounds(m, hs, k);
        assert(m[bd.0 - 1] is Header);
        lemma_pairs_in_faced(m, bd.0, bd.1);
        lemma_hunk_pairs_faced(m, hs, k + 1);
        let head = pairs_in(m, bd.0, bd.1);
        let tail = hunk_pairs_from(m, hs, k + 1);
        assert(hunk_pairs_from(m, hs, k) == head + tail);
        assert forall|x: int| 0 <= x < (head + tail).len() implies faced(m, #[trigger] (head + tail)[x].0, (head + tail)[x].1) by {
            if x < head.len() {
                assert((head + tail)[x] == head[x]);
            } else {
                assert((head + tail)[x] == tail[x - head.len()]);
            }
        }
    }
}

/// Intra-line pairing pairs nothing else: every pair joins a removed line
/// to the added line it faces.
pub proof fn law_pairs_are_facing_lines(m: Seq<RowModel>)
    ensures
        forall|k: int| 0 <= k < all_pairs(m).len() ==> faced(m, #[trigger] all_pairs(m)[k].0, all_pairs(m)[k].1),
{
    let hs = header_positions(m);
    if hs.len() == 0 {
        lemma_pairs_in_faced(m, 0, m.len() as int);
    } else {
        lemma_header_positions_exact(m);
        lemma_hunk_pairs_faced(m, hs, 0);
    }
}

/// Intra-line pairing reaches every hunk: in any hunk (the rows after a
/// header, or all rows when there is no header), a removed line faces the
/// added line as many rows into the run of added lines right after its run
/// of removed lines as it is into its own run, and that pair is highlighted.
pub proof fn law_every_hunk_is_paired(m: Seq<RowModel>, r0: int, i: int, re: int, j: int)
    requires
        faces(m, r0, i, re, j),
        header_positions(m).len() == 0 || exists|h: int| 0 <= h < r0 && #[trigger] m[h] is Header,
    ensures
        all_pairs(m).contains((i, j)),
{
    let hs = header_positions(m);
    if hs.len() == 0 {
        lemma_pairs_in_finds(m, 0, m.len() as int, r0, i, re, j);
    } else {
        lemma_header_positions_exact(m);
        let h = choose|h: int| 0 <= h < r0 && #[trigger] m[h] is Header;
        let q0 = choose|q: int| 0 <= q < hs.len() && hs[q] == h;
        assert(hs[0] < r0) by {
            if q0 > 0 {
                assert(hs[0] < hs[q0]);
            }
        }
        let k = lemma_last_header_before(hs, 0, r0);
        let bnd = hunk_bounds(m, hs, k);
        assert(j < bnd.1) by {
            if k + 1 < hs.len() {
                let nx = hs[k + 1];
                assert(m[nx] is Header);
                if nx <= j {
                    if nx < re {
                        assert(is_line_of(m[nx], DiffLineType::Remove));
                    } else {
                        assert(is_line_of(m[nx], DiffLineType::Add));
                    }
                }
            }
        }
        lemma_hunk_pairs_find(m, hs, 0, k, r0, i, re, j);
    }
}

/// Every pair of `pairs_in(i, end)` lies in `i..end`.
proof fn lemma_pairs_in_range(m: Seq<RowModel>, i: int, end: int)
    requires
        0 <= i,
    ensures
        forall|k: int|
            0 <= k < pairs_in(m, i, end).len() ==> i <= (#[trigger] pairs_in(m, i, end)[k]).0 < end
                && i <= pairs_in(m, i, end)[k].1 < end,
    decreases end - i,
{
    if i < end {
        let re = run_of(m, i, end, DiffLineType::Remove);
        lemma_run_of(m, i, end, DiffLineType::Remove);
        if re <= i || re > end {
            lemma_pairs_in_range(m, i + 1, end);
            assert(pairs_in(m, i, end) == pairs_in(m, i + 1, end));
        } else {
            let ae = run_of(m, re, end, DiffLineType::Add);
            lemma_run_of(m, re, end, DiffLineType::Add);
            if ae <= re || ae > end {
                lemma_pairs_in_range(m, re, end);
                assert(pairs_in(m, i, end) == pairs_in(m, re, end));
            } else {
                lemma_pairs_in_range(m, ae, end);
                let c = if re - i < ae - re {
                    re - i
                } else {
                    ae - re
                };
                let head = Seq::new(c as nat, |p: int| (i + p, re + p));
                let tail = pairs_in(m, ae, end);
                let all = pairs_in(m, i, end);
                assert(all == head + tail);
                assert forall|k: int| 0 <= k < all.len() implies i <= (#[trigger] all[k]).0 < end
                    && i <= all[k].1 < end by {
                    if k < head.len() {
                        assert(all[k] == head[k]);
                    } else {
                        assert(all[k] == tail[k - head.len()]);
                    }
                }
            }
        }
    }
}

/// Every pair indexes the row list.
pub proof fn lemma_all_pairs_in_range(m: Seq<RowModel>)
    ensures
        forall|k: int|
            0 <= k < all_pairs(m).len() ==> 0 <= (#[trigger] all_pairs(m)[k]).0 < m.len() && 0
                <= all_pairs(m)[k].1 < m.len(),
{
    let hs = header_positions(m);
    lemma_header_positions(m);
    if hs.len() == 0 {
        lemma_pairs_in_range(m, 0, m.len() as int);
    } else {
        lemma_hunk_pairs_in_range(m, hs, 0);
    }
}

proof fn lemma_hunk_pairs_in_range(m: Seq<RowModel>, hs: Seq<int>, k: int)
    requires
        0 <= k,
        forall|q: int| 0 <= q < hs.len() ==> 0 <= #[trigger] hs[q] < m.len(),
    ensures
        forall|x: int|
            0 <= x < hunk_pairs_from(m, hs, k).len() ==> 0 <= (
            #[trigger] hunk_pairs_from(m, hs, k)[x]).0 < m.len() && 0 <= hunk_pairs_from(m, hs, k)[x].1
                < m.len(),
    decreases hs.len() - k,
{
    if k < hs.len() {
        let b = hunk_bounds(m, hs, k);
        lemma_pairs_in_range(m, b.0, b.1);
        lemma_hunk_pairs_in_range(m, hs, k + 1);
        let head = pairs_in(m, b.0, b.1);
        let tail = hunk_pairs_from(m, hs, k + 1);
        assert forall|x: int| 0 <= x < hunk_pairs_from(m, hs, k).len() implies 0 <= (
        #[trigger] hunk_pairs_from(m, hs, k)[x]).0 < m.len() && 0 <= hunk_pairs_from(m, hs, k)[x].1
            < m.len() by {
            if x < head.len() {
                assert(hunk_pairs_from(m, hs, k)[x] == head[x]);
            } else {
                assert(hunk_pairs_from(m, hs, k)[x] == tail[x - head.len()]);
            }
        }
    }
}

/// A pair joins a removed line to a later added line with only removed and
/// added lines between them (so never across a hunk header).
pub open spec fn pair_is_change(m: Seq<RowModel>, p: (int, int)) -> bool {
    &&& 0 <= p.0 < p.1 < m.len()
    &&& is_line_of(m[p.0], DiffLineType::Remove)
    &&& is_line_of(m[p.1], DiffLineType::Add)
    &&& forall|x: int|
        p.0 < x < p.1 ==> is_line_of(#[trigger] m[x], DiffLineType::Remove) || is_line_of(
            m[x],
            DiffLineType::Add,
        )
}

proof fn lemma_pairs_in_are_changes(m: Seq<RowModel>, i: int, end: int)
    requires
        0 <= i,
        end <= m.len(),
    ensures
        forall|k: int| 0 <= k < pairs_in(m, i, end).len() ==> pair_is_change(m, #[trigger] pairs_in(m, i, end)[k]),
    decreases end - i,
{
    if i < end {
        let re = run_of(m, i, end, DiffLineType::Remove);
        lemma_run_of(m, i, end, DiffLineType::Remove);
        if re <= i || re > end {
            lemma_pairs_in_are_changes(m, i + 1, end);
            assert(pairs_in(m, i, end) == pairs_in(m, i + 1, end));
        } else {
            let ae = run_of(m, re, end, DiffLineType::Add);
            lemma_run_of(m, re, end, DiffLineType::Add);
            if ae <= re || ae > end {
                lemma_pairs_in_are_changes(m, re, end);
                assert(pairs_in(m, i, end) == pairs_in(m, re, end));
            } else {
                lemma_pairs_in_are_changes(m, ae, end);
                let c = if re - i < ae - re {
                    re - i
                } else {
                    ae - re
                };
                let head = Seq::new(c as nat, |p: int| (i + p, re + p));
                let tail = pairs_in(m, ae, end);
                let all = pairs_in(m, i, end);
                assert(all == head + tail);
                assert forall|k: int| 0 <= k < all.len() implies pair_is_change(m, #[trigger] all[k]) by {
                    if k < head.len() {
                        assert(all[k] == head[k]);
                        let r = i + k;
                        let a = re + k;
                        assert(is_line_of(m[r], DiffLineType::Remove));
                        assert(is_line_of(m[a], DiffLineType::Add));
                        assert forall|x: int| r < x < a implies is_line_of(#[trigger] m[x], DiffLineType::Remove)
                            || is_line_of(m[x], DiffLineType::Add) by {
                            if x < re {
                                assert(is_line_of(m[x], DiffLineType::Remove));
                            } else {
                                assert(is_line_of(m[x], DiffLineType::Add));
                            }
                        }
                    } else {
                        assert(all[k] == tail[k - head.len()]);
                    }
                }
            }
        }
    }
}

proof fn lemma_hunk_pairs_are_changes(m: Seq<RowModel>, hs: Seq<int>, k: int)
    requires
        0 <= k,
        forall|q: int| 0 <= q < hs.len() ==> 0 <= #[trigger] hs[q] < m.len(),
    ensures
        forall|x: int|
            0 <= x < hunk_pairs_from(m, hs, k).len() ==> pair_is_change(m, #[trigger] hunk_pairs_from(m, hs, k)[x]),
    decreases hs.len() - k,
{
    if k < hs.len() {
        let b = hunk_bounds(m, hs, k);
        lemma_pairs_in_are_changes(m, b.0, b.1);
        lemma_hunk_pairs_are_changes(m, hs, k + 1);
        let head = pairs_in(m, b.0, b.1);
        let tail = hunk_pairs_from(m, hs, k + 1);
        assert forall|x: int| 0 <= x < hunk_pairs_from(m, hs, k).len() implies pair_is_change(
            m,
            #[trigger] hunk_pairs_from(m, hs, k)[x],
        ) by {
            if x < head.len() {
                assert(hunk_pairs_from(m, hs, k)[x] == head[x]);
            } else {
                assert(hunk_pairs_from(m, hs, k)[x] == tail[x - head.len()]);
            }
        }
    }
}

/// Intra-line pairing never crosses a hunk: every pair joins a removed line
/// to a later added line, with only removed and added lines between them.
pub proof fn law_pairs_stay_within_a_change(m: Seq<RowModel>)
    ensures
        forall|k: int| 0 <= k < all_pairs(m).len() ==> pair_is_change(m, #[trigger] all_pairs(m)[k]),
{
    let hs = header_positions(m);
    lemma_header_positions(m);
    if hs.len() == 0 {
        lemma_pairs_in_are_changes(m, 0, m.len() as int);
    } else {
        lemma_hunk_pairs_are_changes(m, hs, 0);
    }
}

/// Ranges as highlight spans of kind `k`.
pub open spec fn ranges_tagged(rs: Seq<std::ops::Range<usize>>, k: HighlightKind) -> Seq<
    (int, int, HighlightKind),
> {
    rs.map_values(|r: std::ops::Range<usize>| (r.start as int, r.end as int, k))
}

/// Append each range, tagged `kind`, to a highlight list.
fn push_tagged(v: &mut Vec<Highlight>, ranges: &Vec<std::ops::Range<usize>>, kind: HighlightKind)
    ensures
        spans_of(final(v)@) == spans_of(old(v)@) + ranges_tagged(ranges@, kind),
{
    let ghost base = spans_of(v@);
    let mut i: usize = 0;
    while i < ranges.len()
        invariant
            i <= ranges@.len(),
            spans_of(v@) == base + ranges_tagged(ranges@.take(i as int), kind),
        decreases ranges@.len() - i,
    {
        let ghost prev = v@;
        let r = &ranges[i];
        v.push((r.start..r.end, kind));
        proof {
            assert(spans_of(v@) =~= spans_of(prev).push((r.start as int, r.end as int, kind)));
            assert(ranges_tagged(ranges@.take(i + 1), kind) =~= ranges_tagged(
                ranges@.take(i as int),
                kind,
            ).push((r.start as int, r.end as int, kind)));
        }
        i = i + 1;
    }
    assert(ranges@.take(i as int) =~= ranges@);
}

/// Append tagged ranges to a line row's intra-line highlights; a header row
/// is left as it is.
fn add_intra(row: &mut DiffRow, ranges: &Vec<std::ops::Range<usize>>, kind: HighlightKind)
    ensures
        final(row)@ == with_intra(old(row)@, ranges_tagged(ranges@, kind)),
{
    match row {
        DiffRow::Line { intra_line_highlights, .. } => {
            push_tagged(intra_line_highlights, ranges, kind);
        },
        DiffRow::HunkHeader(_) => {},
    }
}

/// Process the rows to detect adjacent Remove/Add pairs within each hunk,
/// compute word-level diffs, and append the changed words to the paired
/// lines' intra-line highlights.
///
/// Pair detection operates per hunk (not across HunkHeader boundaries).
/// Within each hunk, consecutive Remove lines followed by consecutive Add
/// lines are paired positionally: 1st remove with 1st add, etc. Excess
/// unpaired removes or adds get no intra-line highlights.
pub fn compute_intra_line_highlights(rows: &mut Vec<DiffRow>)
    ensures
        rows_model(final(rows)@) == apply_pairs(
            rows_model(old(rows)@),
            all_pairs(rows_model(old(rows)@)),
        ),
        final(rows)@.len() == old(rows)@.len(),
        forall|i: int|
            0 <= i < old(rows)@.len() ==> only_appended(
                rows_model(old(rows)@)[i],
                #[trigger] rows_model(final(rows)@)[i],
            ),
{
    let pairs = find_pairs(rows);
    let ghost m0 = rows_model(rows@);
    let ghost ps = pairs_model(pairs@);
    let mut j: usize = 0;
    while j < pairs.len()
        invariant
            j <= pairs@.len(),
            ps == pairs_model(pairs@),
            rows@.len() == m0.len(),
            forall|k: int|
                0 <= k < pairs@.len() ==> (#[trigger] pairs@[k]).0 < m0.len() && pairs@[k].1
                    < m0.len(),
            rows_model(rows@) == apply_pairs(m0, ps.take(j as int)),
        decreases pairs@.len() - j,
    {
        let (a, b) = pairs[j];
        let ghost cur = rows_model(rows@);
        proof {
            assert(ps.take(j + 1).drop_last() =~= ps.take(j as int));
            assert(ps.take(j + 1).last() == (a as int, b as int));
            assert(cur[a as int] == rows@[a as int]@);
            assert(cur[b as int] == rows@[b as int]@);
        }
        let diff = match &rows[a] {
            DiffRow::Line { content: old_content, .. } => match &rows[b] {
                DiffRow::Line { content: new_content, .. } => Some(
                    word_diff(old_content.as_str(), new_content.as_str()),
                ),
                DiffRow::HunkHeader(_) => None,
            },
            DiffRow::HunkHeader(_) => None,
        };
        if let Some((old_ranges, new_ranges)) = diff {
            let ghost d = word_diff_spec(content_of(cur[a as int]), content_of(cur[b as int]));
            proof {
                assert(ranges_tagged(old_ranges@, HighlightKind::RemovedWord) =~= tagged(
                    d.0,
                    HighlightKind::RemovedWord,
                ));
                assert(ranges_tagged(new_ranges@, HighlightKind::AddedWord) =~= tagged(
                    d.1,
                    HighlightKind::AddedWord,
                ));
            }
            add_intra(&mut rows[a], &old_ranges, HighlightKind::RemovedWord);
            let ghost mid = rows_model(rows@);
            proof {
                assert(mid =~= cur.update(
                    a as int,
                    with_intra(cur[a as int], tagged(d.0, HighlightKind::RemovedWord)),
                ));
            }
            add_intra(&mut rows[b], &new_ranges, HighlightKind::AddedWord);
            proof {
                assert(rows_model(rows@) =~= mid.update(
                    b as int,
                    with_intra(mid[b as int], tagged(d.1, HighlightKind::AddedWord)),
                ));
            }
        }
        j = j + 1;
    }
    assert(ps.take(j as int) =~= ps);
    proof {
        law_intra_line_only_appends(m0);
        assert(rows_model(rows@).len() == rows@.len());
    }
}

/// The changed ranges reported for the tokens from index `k` on lie inside
/// the line's bytes and are not empty.
proof fn lemma_unkept_in_bounds(cs: Seq<char>, keep: Set<int>, k: int)
    requires
        0 <= k,
    ensures
        forall|x: int|
            0 <= x < unkept_byte_ranges(cs, keep, k).len() ==> {
                let r = #[trigger] unkept_byte_ranges(cs, keep, k)[x];
                r.0 < r.1 <= utf8_len(cs)
            },
    decreases token_ranges(cs).len() - k,
{
    if k < token_ranges(cs).len() {
        lemma_unkept_in_bounds(cs, keep, k + 1);
        lemma_token_ranges_from(cs, 0);
        let t = token_ranges(cs)[k];
        assert(0 <= t.0 < t.1 <= cs.len());
        lemma_byte_offset_step(cs, t.0);
        crate::text::lemma_char_width_bounds(cs[t.0]);
        lemma_byte_offset_mono(cs, t.0 + 1, t.1);
        lemma_byte_offset_bound(cs, t.1);
        let rest = unkept_byte_ranges(cs, keep, k + 1);
        let all = unkept_byte_ranges(cs, keep, k);
        if !keep.contains(k) {
            assert forall|x: int| 0 <= x < all.len() implies {
                let r = #[trigger] all[x];
                r.0 < r.1 <= utf8_len(cs)
            } by {
                if x > 0 {
                    assert(all[x] == rest[x - 1]);
                }
            }
        }
    }
}

/// Whether `s` is a changed-word span of a line of type `t` with text
/// `content`: a non-empty byte range inside the line, removed words on
/// removed lines and added words on added lines.
pub open spec fn word_span_of(s: (int, int, HighlightKind), content: Seq<char>, t: DiffLineType) -> bool {
    &&& 0 <= s.0 < s.1 <= utf8_len(content)
    &&& ((t == DiffLineType::Remove && s.2 == HighlightKind::RemovedWord) || (t == DiffLineType::Add && s.2
        == HighlightKind::AddedWord))
}

/// Whether `after` is `before` with changed-word spans appended: a header
/// stays as it is; a line keeps its numbers, text, type and syntax spans,
/// and its intra-line spans only grow at the end, by changed-word spans.
pub open spec fn only_appended(before: RowModel, after: RowModel) -> bool {
    match before {
        RowModel::Header(_) => after == before,
        RowModel::Line { old_lineno, new_lineno, content, line_type, highlights, intra } => match after {
            RowModel::Line {
                old_lineno: o2,
                new_lineno: n2,
                content: c2,
                line_type: t2,
                highlights: h2,
                intra: i2,
            } => {
                &&& o2 == old_lineno
                &&& n2 == new_lineno
                &&& c2 == content
                &&& t2 == line_type
                &&& h2 == highlights
                &&& intra.len() <= i2.len()
                &&& i2.take(intra.len() as int) == intra
                &&& forall|k: int| intra.len() <= k < i2.len() ==> word_span_of(#[trigger] i2[k], content, line_type)
            },
            RowModel::Header(_) => false,
        },
    }
}

proof fn lemma_only_appended_trans(a: RowModel, b: RowModel, c: RowModel)
    requires
        only_appended(a, b),
        only_appended(b, c),
    ensures
        only_appended(a, c),
{
    match a {
        RowModel::Header(_) => {},
        RowModel::Line { content, line_type, intra, .. } => {
            let ib = b->intra;
            let ic = c->intra;
            assert(ic.take(intra.len() as int) =~= ic.take(ib.len() as int).take(intra.len() as int));
            assert forall|k: int| intra.len() <= k < ic.len() implies word_span_of(#[trigger] ic[k], content, line_type) by {
                if k < ib.len() {
                    assert(ic[k] == ic.take(ib.len() as int)[k]);
                    assert(ib[k] == ic[k]);
                }
            }
        },
    }
}

/// Appending changed-word spans of the line's own type, inside its bytes.
proof fn lemma_with_intra_appends(r: RowModel, d: Seq<(nat, nat)>, k: HighlightKind)
    requires
        r is Line,
        forall|x: int| 0 <= x < d.len() ==> (#[trigger] d[x]).0 < d[x].1 <= utf8_len(r->content),
        (r->line_type == DiffLineType::Remove && k == HighlightKind::RemovedWord) || (r->line_type
            == DiffLineType::Add && k == HighlightKind::AddedWord),
    ensures
        only_appended(r, with_intra(r, tagged(d, k))),
{
    let i1 = r->intra;
    let i2 = i1 + tagged(d, k);
    assert(i2.take(i1.len() as int) =~= i1);
    assert forall|x: int| i1.len() <= x < i2.len() implies word_span_of(#[trigger] i2[x], r->content, r->line_type) by {
        assert(i2[x] == tagged(d, k)[x - i1.len()]);
    }
}

proof fn lemma_only_appended_refl(r: RowModel)
    ensures
        only_appended(r, r),
{
    match r {
        RowModel::Header(_) => {},
        RowModel::Line { intra, .. } => {
            assert(intra.take(intra.len() as int) =~= intra);
        },
    }
}

proof fn lemma_apply_pairs_appends(m: Seq<RowModel>, ps: Seq<(int, int)>)
    requires
        forall|k: int| 0 <= k < ps.len() ==> pair_is_change(m, #[trigger] ps[k]),
    ensures
        apply_pairs(m, ps).len() == m.len(),
        forall|i: int| 0 <= i < m.len() ==> only_appended(m[i], #[trigger] apply_pairs(m, ps)[i]),
    decreases ps.len(),
{
    if ps.len() == 0 {
        assert forall|i: int| 0 <= i < m.len() implies only_appended(m[i], #[trigger] apply_pairs(m, ps)[i]) by {
            lemma_only_appended_refl(m[i]);
        }
    } else {
        let d0 = ps.drop_last();
        assert forall|k: int| 0 <= k < d0.len() implies pair_is_change(m, #[trigger] d0[k]) by {
            assert(d0[k] == ps[k]);
        }
        lemma_apply_pairs_appends(m, d0);
        let r = apply_pairs(m, d0);
        let p = ps.last();
        assert(p == ps[ps.len() - 1]);
        assert(pair_is_change(m, p));
        assert(only_appended(m[p.0], r[p.0]));
        assert(only_appended(m[p.1], r[p.1]));
        let out = apply_pair(r, p);
        assert(out == apply_pairs(m, ps));
        if r[p.0] is Line && r[p.1] is Line {
            let d = word_diff_spec(content_of(r[p.0]), content_of(r[p.1]));
            lemma_word_diff_in_bounds(content_of(r[p.0]), content_of(r[p.1]));
            let first = r.update(p.0, with_intra(r[p.0], tagged(d.0, HighlightKind::RemovedWord)));
            lemma_with_intra_appends(r[p.0], d.0, HighlightKind::RemovedWord);
            assert(first[p.1] == r[p.1]);
            lemma_with_intra_appends(r[p.1], d.1, HighlightKind::AddedWord);
            assert forall|i: int| 0 <= i < m.len() implies only_appended(m[i], #[trigger] out[i]) by {
                if i == p.0 {
                    lemma_only_appended_trans(m[i], r[i], out[i]);
                } else if i == p.1 {
                    lemma_only_appended_trans(m[i], r[i], out[i]);
                } else {
                    assert(out[i] == r[i]);
                }
            }
        }
    }
}

/// The changed ranges of both lines lie inside their bytes.
proof fn lemma_word_diff_in_bounds(old: Seq<char>, new: Seq<char>)
    ensures
        forall|x: int|
            0 <= x < word_diff_spec(old, new).0.len() ==> (#[trigger] word_diff_spec(old, new).0[x]).0
                < word_diff_spec(old, new).0[x].1 <= utf8_len(old),
        forall|x: int|
            0 <= x < word_diff_spec(old, new).1.len() ==> (#[trigger] word_diff_spec(old, new).1[x]).0
                < word_diff_spec(old, new).1[x].1 <= utf8_len(new),
{
    if old.len() > 0 && new.len() > 0 {
        let a = token_texts(old);
        let b = token_texts(new);
        lemma_unkept_in_bounds(old, kept_old(a, b, a.len(), b.len()), 0);
        lemma_unkept_in_bounds(new, kept_new(a, b, a.len(), b.len()), 0);
    }
}

/// Intra-line highlighting only appends: the rows keep their number, a
/// header row is unchanged, and a line row keeps everything but gains
/// changed-word spans after its intra-line spans, each inside the line's
/// bytes, removed words on removed lines and added words on added lines.
pub proof fn law_intra_line_only_appends(m: Seq<RowModel>)
    ensures
        apply_pairs(m, all_pairs(m)).len() == m.len(),
        forall|i: int| 0 <= i < m.len() ==> only_appended(m[i], #[trigger] apply_pairs(m, all_pairs(m))[i]),
{
    law_pairs_stay_within_a_change(m);
    lemma_apply_pairs_appends(m, all_pairs(m));
}

/// Highlighting changed words keeps the number of rows.
pub proof fn lemma_apply_pairs_len(rows: Seq<RowModel>, ps: Seq<(int, int)>)
    requires
        forall|k: int|
            0 <= k < ps.len() ==> 0 <= (#[trigger] ps[k]).0 < rows.len() && 0 <= ps[k].1 < rows.len(),
    ensures
        apply_pairs(rows, ps).len() == rows.len(),
    decreases ps.len(),
{
    if ps.len() > 0 {
        assert forall|k: int| 0 <= k < ps.drop_last().len() implies 0 <= (
        #[trigger] ps.drop_last()[k]).0 < rows.len() && 0 <= ps.drop_last()[k].1 < rows.len() by {
            assert(ps.drop_last()[k] == ps[k]);
        }
        lemma_apply_pairs_len(rows, ps.drop_last());
        let r = apply_pairs(rows, ps.drop_last());
        let p = ps.last();
        assert(p == ps[ps.len() - 1]);
        if r[p.0] is Line && r[p.1] is Line {
            let d = word_diff_spec(content_of(r[p.0]), content_of(r[p.1]));
            let first = r.update(p.0, with_intra(r[p.0], tagged(d.0, HighlightKind::RemovedWord)));
            assert(first.len() == r.len());
        }
    }
}

} // verus!
