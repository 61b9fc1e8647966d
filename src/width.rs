//! Display widths of text, in terminal cells.
use vstd::prelude::*;
use unicode_width::UnicodeWidthStr;
use crate::text::{
    byte_to_char, byte_to_char_of, push_range, lemma_line_end_at, lemma_line_start_at, line_end, line_end_of, line_start, MAX_CHARS,
};
use crate::edit_area::{lemma_line_end_bounds, lemma_line_end_same, lemma_line_start_bounds};

verus! {

/// Display width, in cells, of a run of chars.
pub uninterp spec fn text_width(s: Seq<char>) -> nat;

/// Relies on `unicode_width::UnicodeWidthStr::width`: the width of a string depends on
/// its chars alone, and the empty string has width 0.
#[verifier::external_body]
pub(crate) fn width_of(s: &[char], start: usize, end: usize) -> (r: usize)
    requires
        start <= end <= s@.len(),
    ensures
        r == text_width(s@.subrange(start as int, end as int)),
        start == end ==> r == 0,
{
    let t: String = s[start..end].iter().collect();
    t.width()
}

/// Byte length of the longest prefix of `line` that fits in `width` cells without
/// breaking a grapheme.
pub uninterp spec fn prefix_bytes(line: Seq<char>, width: nat) -> nat;

/// Relies on cursive's `utils::lines::simple::simple_prefix`: the byte length of the
/// longest grapheme-aligned prefix of the text within `width` cells, which depends on
/// the text and the width alone.
#[verifier::external_body]
fn simple_prefix_len(s: &[char], start: usize, end: usize, width: usize) -> (r: usize)
    requires
        start <= end <= s@.len(),
    ensures
        r == prefix_bytes(s@.subrange(start as int, end as int), width as nat),
{
    let t: String = s[start..end].iter().collect();
    cursive::utils::lines::simple::simple_prefix(&t, width).length
}

/// Number of chars of `line` that fit in `x` cells, whole graphemes only.
pub open spec fn fit_len(line: Seq<char>, x: nat) -> int {
    byte_to_char(line, prefix_bytes(line, x) as int)
}

/// Width of the widest line, among the lines that start at `k` or later.
pub open spec fn widest_from(s: Seq<char>, k: int) -> nat
    decreases s.len() - k,
{
    let e = line_end(s, k);
    let w = text_width(s.subrange(k, e));
    if k < 0 || e < k || e >= s.len() {
        w
    } else {
        let rest = widest_from(s, e + 1);
        if w >= rest { w } else { rest }
    }
}

/// Width of the widest line of the buffer.
pub open spec fn max_line_width(s: Seq<char>) -> nat {
    widest_from(s, 0)
}

/// Chars of `s[start..end]` that fit in `x` cells.
pub fn fit_prefix(s: &[char], start: usize, end: usize, x: usize) -> (r: usize)
    requires
        start <= end <= s@.len() <= MAX_CHARS,
    ensures
        r == fit_len(s@.subrange(start as int, end as int), x as nat),
        r <= end - start,
{
    let b = simple_prefix_len(s, start, end, x);
    let mut line: Vec<char> = Vec::new();
    push_range(&mut line, s, start, end);
    byte_to_char_of(line.as_slice(), b)
}

/// Width of the widest line of `s`.
pub fn widest_line(s: &[char]) -> (r: usize)
    requires
        s@.len() <= MAX_CHARS,
    ensures
        r == max_line_width(s@),
{
    let mut best: usize = 0;
    let mut k: usize = 0;
    loop
        invariant
            k <= s@.len(),
            max_line_width(s@) == (if best >= widest_from(s@, k as int) {
                best as nat
            } else {
                widest_from(s@, k as int)
            }),
        decreases s@.len() - k,
    {
        let e = line_end_of(s, k);
        let w = width_of(s, k, e);
        if e >= s.len() {
            return if w > best { w } else { best };
        }
        if w > best {
            best = w;
        }
        k = e + 1;
    }
}

} // verus!

verus! {

/// Whether `k` begins a line of `s`.
pub open spec fn is_line_start(s: Seq<char>, k: int) -> bool {
    0 <= k <= s.len() && (k == 0 || s[k - 1] == '\n')
}

/// After a char is inserted at `o`, the lines from `k` on (for `k` at or past `o`) are
/// those of the old buffer from `k` on, one place further.
proof fn lemma_widest_shift(s: Seq<char>, o: int, c: char, k: int)
    requires
        0 <= o <= k <= s.len(),
    ensures
        line_end(s.insert(o, c), k + 1) == line_end(s, k) + 1,
        widest_from(s.insert(o, c), k + 1) == widest_from(s, k),
    decreases s.len() - k,
{
    let s2 = s.insert(o, c);
    lemma_line_end_bounds(s, k);
    let e = line_end(s, k);
    assert forall|i: int| k + 1 <= i < e + 1 implies s2[i] != '\n' by {
        assert(s2[i] == s[i - 1]);
    }
    if e < s.len() {
        assert(s2[e + 1] == s[e]);
    }
    lemma_line_end_at(s2, k + 1, e + 1);
    assert(s2.subrange(k + 1, e + 1) =~= s.subrange(k, e));
    if e < s.len() {
        lemma_widest_shift(s, o, c, e + 1);
    }
}

/// Lines before the edited one keep their widths; the edited line is bounded by the
/// new widest line, and the new widest is no wider than the old or the edited line.
proof fn lemma_widest_insert_from(s: Seq<char>, o: int, c: char, j: int)
    requires
        0 <= o <= s.len(),
        c != '\n',
        is_line_start(s, j),
        j <= line_start(s, o),
    ensures
        ({
            let s2 = s.insert(o, c);
            let ls = line_start(s, o);
            let w2 = text_width(s2.subrange(ls, line_end(s2, ls)));
            w2 <= widest_from(s2, j) && (widest_from(s2, j) <= widest_from(s, j)
                || widest_from(s2, j) <= w2)
        }),
    decreases line_start(s, o) - j,
{
    let s2 = s.insert(o, c);
    let ls = line_start(s, o);
    lemma_line_start_bounds(s, o);
    lemma_line_end_bounds(s, ls);
    let le = line_end(s, ls);
    lemma_line_end_same(s, ls, o);
    lemma_line_end_bounds(s, o);
    if j < ls {
        let e = line_end(s, j);
        lemma_line_end_bounds(s, j);
        if e > ls - 1 {
            assert(s[ls - 1] != '\n');
        }
        assert forall|i: int| j <= i < e implies s2[i] != '\n' by {
            assert(s2[i] == s[i]);
        }
        assert(s2[e] == s[e]);
        lemma_line_end_at(s2, j, e);
        assert(s2.subrange(j, e) =~= s.subrange(j, e));
        lemma_widest_insert_from(s, o, c, e + 1);
    } else {
        assert forall|i: int| ls <= i < le + 1 implies s2[i] != '\n' by {
            if i < o {
                assert(s2[i] == s[i]);
            } else if i > o {
                assert(s2[i] == s[i - 1]);
            }
        }
        if le < s.len() {
            assert(s2[le + 1] == s[le]);
            lemma_widest_shift(s, o, c, le + 1);
        }
        lemma_line_end_at(s2, ls, le + 1);
    }
}

/// Inserting a char other than a newline: the line it lands on is at most as wide as the
/// new widest line, and when it reaches the old widest width it is the new widest line.
pub proof fn lemma_insert_widest(s: Seq<char>, o: int, c: char)
    requires
        0 <= o <= s.len(),
        c != '\n',
    ensures
        ({
            let s2 = s.insert(o, c);
            let w2 = text_width(s2.subrange(line_start(s2, o), line_end(s2, o)));
            &&& w2 <= max_line_width(s2)
            &&& w2 >= max_line_width(s) ==> max_line_width(s2) == w2
        }),
{
    let s2 = s.insert(o, c);
    let ls = line_start(s, o);
    lemma_line_start_bounds(s, o);
    assert forall|i: int| ls <= i < o implies s2[i] != '\n' by {
        assert(s2[i] == s[i]);
    }
    if ls > 0 {
        assert(s2[ls - 1] == s[ls - 1]);
    }
    lemma_line_start_at(s2, ls, o);
    lemma_line_end_same(s2, ls, o);
    lemma_widest_insert_from(s, o, c, 0);
}

} // verus!
