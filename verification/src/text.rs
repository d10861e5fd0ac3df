//! Character-level helpers shared by the text-processing modules.
use vstd::prelude::*;
use vstd::std_specs::iter::IteratorSpec;

verus! {

broadcast use {vstd::string::axiom_spec_iter, vstd::string::next_postcondition};

/// The characters of `s`, in order.
pub fn chars_of(s: &str) -> (v: Vec<char>)
    ensures
        v@ == s@,
{
    let mut it = s.chars();
    let mut v: Vec<char> = Vec::new();
    loop
        invariant
            v@ + it.remaining() == s@,
            it.decrease() is Some,
        decreases it.decrease()->0,
    {
        let ghost before = it.remaining();
        match it.next() {
            Some(c) => {
                v.push(c);
                assert(v@ + it.remaining() =~= s@) by {
                    assert(before == seq![c] + it.remaining());
                }
            },
            None => {
                assert(v@ =~= s@);
                return v;
            },
        }
    }
}

/// Build a `String` from a sequence of characters (`String: FromIterator<char>`).
#[verifier::external_body]
pub(crate) fn string_from_chars(v: &Vec<char>) -> (s: String)
    ensures
        s@ == v@,
{
    String::from_iter(v.iter())
}

/// Whether the characters in `v` are exactly those of `lit`.
pub fn chars_equal(v: &Vec<char>, lit: &[char]) -> (r: bool)
    ensures
        r == (v@ == lit@),
{
    if v.len() != lit.len() {
        return false;
    }
    let mut i: usize = 0;
    while i < v.len()
        invariant
            v.len() == lit@.len(),
            i <= v.len(),
            forall|j: int| 0 <= j < i ==> v@[j] == lit@[j],
        decreases v.len() - i,
    {
        if v[i] != lit[i] {
            return false;
        }
        i = i + 1;
    }
    assert(v@ =~= lit@);
    true
}

/// Number of UTF-8 bytes that encode `c`.
pub open spec fn char_width(c: char) -> nat {
    vstd::utf8::encode_scalar(c as u32).len()
}

/// Number of UTF-8 bytes that encode `cs`, counted from the end.
pub open spec fn utf8_len(cs: Seq<char>) -> nat
    decreases cs.len(),
{
    if cs.len() == 0 {
        0
    } else {
        utf8_len(cs.drop_last()) + char_width(cs.last())
    }
}

/// Byte offset of the character at char index `i` in `cs`.
pub open spec fn byte_offset(cs: Seq<char>, i: int) -> nat {
    utf8_len(cs.take(i))
}

/// The number of UTF-8 bytes of a character.
pub fn utf8_width(c: char) -> (w: usize)
    ensures
        w == char_width(c),
        1 <= w <= 4,
{
    proof {
        vstd::utf8::char_is_scalar(c);
    }
    let u = c as u32;
    if u <= 0x7f {
        1
    } else if u <= 0x7ff {
        2
    } else if u <= 0xffff {
        3
    } else {
        4
    }
}

/// Every character takes one to four bytes.
pub proof fn lemma_char_width_bounds(c: char)
    ensures
        1 <= char_width(c) <= 4,
{
    vstd::utf8::char_is_scalar(c);
}

/// Appending one character adds its width.
pub proof fn lemma_utf8_len_push(cs: Seq<char>, c: char)
    ensures
        utf8_len(cs.push(c)) == utf8_len(cs) + char_width(c),
{
    assert(cs.push(c).drop_last() =~= cs);
}

/// The width of a prefix grows one character at a time.
pub proof fn lemma_byte_offset_step(cs: Seq<char>, i: int)
    requires
        0 <= i < cs.len(),
    ensures
        byte_offset(cs, i + 1) == byte_offset(cs, i) + char_width(cs[i]),
{
    assert(cs.take(i + 1) =~= cs.take(i).push(cs[i]));
    lemma_utf8_len_push(cs.take(i), cs[i]);
}

/// Width is additive over concatenation.
pub proof fn lemma_utf8_len_concat(a: Seq<char>, b: Seq<char>)
    ensures
        utf8_len(a + b) == utf8_len(a) + utf8_len(b),
    decreases b.len(),
{
    if b.len() == 0 {
        assert(a + b =~= a);
    } else {
        assert((a + b).drop_last() =~= a + b.drop_last());
        lemma_utf8_len_concat(a, b.drop_last());
    }
}

/// Prefix widths are monotone.
pub proof fn lemma_byte_offset_mono(cs: Seq<char>, i: int, j: int)
    requires
        0 <= i <= j <= cs.len(),
    ensures
        byte_offset(cs, i) <= byte_offset(cs, j),
    decreases j - i,
{
    if i < j {
        lemma_byte_offset_step(cs, j - 1);
        lemma_byte_offset_mono(cs, i, j - 1);
    }
}

/// A prefix is no wider than the whole.
pub proof fn lemma_byte_offset_bound(cs: Seq<char>, i: int)
    requires
        0 <= i <= cs.len(),
    ensures
        byte_offset(cs, i) <= utf8_len(cs),
{
    lemma_byte_offset_mono(cs, i, cs.len() as int);
    assert(cs.take(cs.len() as int) =~= cs);
}

/// `utf8_len` is the length of the UTF-8 encoding.
pub proof fn lemma_utf8_len_encoding(cs: Seq<char>)
    ensures
        utf8_len(cs) == vstd::utf8::encode_utf8(cs).len(),
    decreases cs.len(),
{
    if cs.len() > 0 {
        lemma_utf8_len_encoding(cs.drop_first());
        assert(cs =~= seq![cs[0]] + cs.drop_first());
        lemma_utf8_len_concat(seq![cs[0]], cs.drop_first());
        assert(seq![cs[0]].drop_last() =~= Seq::<char>::empty());
        assert(seq![cs[0]].last() == cs[0]);
        assert(utf8_len(Seq::<char>::empty()) == 0);
        assert(utf8_len(seq![cs[0]]) == utf8_len(seq![cs[0]].drop_last()) + char_width(cs[0]));
        assert(vstd::utf8::encode_utf8(cs) == vstd::utf8::encode_scalar(cs[0] as u32)
            + vstd::utf8::encode_utf8(cs.drop_first()));
    }
}

/// The UTF-8 length of a string is a `usize`.
pub fn utf8_len_of(s: &str) -> (n: usize)
    ensures
        n == utf8_len(s@),
{
    let b = s.as_bytes();
    proof {
        lemma_utf8_len_encoding(s@);
    }
    b.len()
}

/// The decimal digit character for `d` (`d < 10`).
pub open spec fn digit_char(d: nat) -> char {
    if d == 0 {
        '0'
    } else if d == 1 {
        '1'
    } else if d == 2 {
        '2'
    } else if d == 3 {
        '3'
    } else if d == 4 {
        '4'
    } else if d == 5 {
        '5'
    } else if d == 6 {
        '6'
    } else if d == 7 {
        '7'
    } else if d == 8 {
        '8'
    } else {
        '9'
    }
}

/// Decimal representation of `n`, most significant digit first.
pub open spec fn decimal_text(n: nat) -> Seq<char>
    decreases n,
{
    if n < 10 {
        seq![digit_char(n)]
    } else {
        decimal_text(n / 10) + seq![digit_char(n % 10)]
    }
}

fn digit(d: u64) -> (c: char)
    requires
        d < 10,
    ensures
        c == digit_char(d as nat),
{
    if d == 0 {
        '0'
    } else if d == 1 {
        '1'
    } else if d == 2 {
        '2'
    } else if d == 3 {
        '3'
    } else if d == 4 {
        '4'
    } else if d == 5 {
        '5'
    } else if d == 6 {
        '6'
    } else if d == 7 {
        '7'
    } else if d == 8 {
        '8'
    } else {
        '9'
    }
}

/// The decimal digits of `n`.
pub fn decimal_chars(n: u64) -> (v: Vec<char>)
    ensures
        v@ == decimal_text(n as nat),
    decreases n,
{
    if n < 10 {
        let v: Vec<char> = vec![digit(n)];
        assert(v@ =~= decimal_text(n as nat));
        v
    } else {
        let mut v = decimal_chars(n / 10);
        v.push(digit(n % 10));
        v
    }
}

/// The decimal representation of `n` as a string.
pub fn decimal_string(n: u64) -> (s: String)
    ensures
        s@ == decimal_text(n as nat),
{
    let v = decimal_chars(n);
    string_from_chars(&v)
}

/// Unicode White_Space, what `char::is_whitespace` answers: tab, line feed,
/// vertical tab, form feed, carriage return, space, next line, no-break
/// space, ogham space mark, the spaces U+2000..=U+200A, line and paragraph
/// separators, narrow no-break space, medium mathematical space and
/// ideographic space.
pub open spec fn is_white_space(c: char) -> bool {
    ||| ('\u{0009}' <= c && c <= '\u{000D}')
    ||| c == ' '
    ||| c == '\u{0085}'
    ||| c == '\u{00A0}'
    ||| c == '\u{1680}'
    ||| ('\u{2000}' <= c && c <= '\u{200A}')
    ||| c == '\u{2028}'
    ||| c == '\u{2029}'
    ||| c == '\u{202F}'
    ||| c == '\u{205F}'
    ||| c == '\u{3000}'
}

/// Whether `c` is Unicode white space.
pub fn is_whitespace_char(c: char) -> (r: bool)
    ensures
        r == is_white_space(c),
{
    ('\u{0009}' <= c && c <= '\u{000D}') || c == ' ' || c == '\u{0085}' || c == '\u{00A0}' || c
        == '\u{1680}' || ('\u{2000}' <= c && c <= '\u{200A}') || c == '\u{2028}' || c
        == '\u{2029}' || c == '\u{202F}' || c == '\u{205F}' || c == '\u{3000}'
}

/// Whether a text holds nothing but white space (it trims to nothing).
pub open spec fn is_blank(s: Seq<char>) -> bool {
    forall|k: int| 0 <= k < s.len() ==> is_white_space(#[trigger] s[k])
}

/// Whether `s` trims to the empty string.
pub fn blank(s: &str) -> (r: bool)
    ensures
        r == is_blank(s@),
{
    let cs = chars_of(s);
    let mut i: usize = 0;
    while i < cs.len()
        invariant
            cs@ == s@,
            i <= cs@.len(),
            forall|k: int| 0 <= k < i ==> is_white_space(#[trigger] cs@[k]),
        decreases cs@.len() - i,
    {
        if !is_whitespace_char(cs[i]) {
            return false;
        }
        i = i + 1;
    }
    true
}

/// The index of the first line feed at or after `from`, or the length.
pub open spec fn next_newline(s: Seq<char>, from: int) -> int
    decreases s.len() - from,
{
    if from >= s.len() || from < 0 {
        s.len() as int
    } else if s[from] == '\n' {
        from
    } else {
        next_newline(s, from + 1)
    }
}

/// The lines of `s` from `from` on, as `str::lines` splits them: at each
/// line feed, dropping a carriage return just before it; a final line feed
/// does not start another line.
pub open spec fn lines_from(s: Seq<char>, from: int) -> Seq<Seq<char>>
    decreases s.len() - from,
{
    if from < 0 || from >= s.len() {
        Seq::empty()
    } else {
        let e = next_newline(s, from);
        proof {
            lemma_next_newline(s, from);
        }
        if e >= s.len() {
            seq![s.subrange(from, s.len() as int)]
        } else {
            let line = s.subrange(from, e);
            let line = if line.len() > 0 && line.last() == '\r' {
                line.drop_last()
            } else {
                line
            };
            seq![line] + lines_from(s, e + 1)
        }
    }
}

/// The lines of `s`, as `str::lines` splits them.
pub open spec fn text_lines(s: Seq<char>) -> Seq<Seq<char>> {
    lines_from(s, 0)
}

/// `next_newline` finds the first line feed at or after `from`.
pub proof fn lemma_next_newline(s: Seq<char>, from: int)
    requires
        0 <= from <= s.len(),
    ensures
        from <= next_newline(s, from) <= s.len(),
        next_newline(s, from) < s.len() ==> s[next_newline(s, from)] == '\n',
        forall|k: int| from <= k < next_newline(s, from) ==> s[k] != '\n',
    decreases s.len() - from,
{
    if from < s.len() && s[from] != '\n' {
        lemma_next_newline(s, from + 1);
    }
}

/// The lines of `s`, as `str::lines` splits them.
pub fn lines_of(s: &str) -> (r: Vec<String>)
    ensures
        r@.map_values(|l: String| l@) == text_lines(s@),
{
    let cs = chars_of(s);
    let mut out: Vec<String> = Vec::new();
    let mut from: usize = 0;
    while from < cs.len()
        invariant
            cs@ == s@,
            from <= cs@.len(),
            out@.map_values(|l: String| l@) + lines_from(cs@, from as int) == text_lines(cs@),
        decreases cs@.len() - from,
    {
        let mut e = from;
        while e < cs.len() && cs[e] != '\n'
            invariant
                from <= e <= cs@.len(),
                next_newline(cs@, from as int) == next_newline(cs@, e as int),
            decreases cs@.len() - e,
        {
            e = e + 1;
        }
        proof {
            lemma_next_newline(cs@, from as int);
        }
        let mut end = e;
        if e < cs.len() && end > from && cs[end - 1] == '\r' {
            end = end - 1;
        }
        let mut line: Vec<char> = Vec::new();
        let mut k = from;
        while k < end
            invariant
                from <= k <= end <= cs@.len(),
                line@ == cs@.subrange(from as int, k as int),
            decreases end - k,
        {
            line.push(cs[k]);
            assert(cs@.subrange(from as int, k + 1) =~= cs@.subrange(from as int, k as int).push(
                cs@[k as int],
            ));
            k = k + 1;
        }
        let ghost prev = out@.map_values(|l: String| l@);
        let text = string_from_chars(&line);
        out.push(text);
        proof {
            assert(out@.map_values(|l: String| l@) =~= prev.push(line@));
            let full = cs@.subrange(from as int, e as int);
            if e < cs@.len() && end < e {
                assert(full.drop_last() =~= line@);
            }
            if e < cs@.len() {
                assert(lines_from(cs@, from as int) == seq![line@] + lines_from(cs@, e + 1));
                assert(prev.push(line@) + lines_from(cs@, e + 1) =~= prev + (seq![line@]
                    + lines_from(cs@, e + 1)));
            } else {
                assert(lines_from(cs@, from as int) == seq![line@]);
                assert(lines_from(cs@, e as int) =~= Seq::<Seq<char>>::empty());
                assert(prev.push(line@) + lines_from(cs@, e as int) =~= prev + seq![line@]);
            }
        }
        if e < cs.len() {
            from = e + 1;
        } else {
            from = e;
        }
    }
    assert(lines_from(cs@, from as int) =~= Seq::<Seq<char>>::empty());
    assert(out@.map_values(|l: String| l@) =~= text_lines(cs@));
    out
}

} // verus!
