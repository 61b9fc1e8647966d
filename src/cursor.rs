//! A position in the buffer, held in four mutually consistent coordinates.
use vstd::prelude::*;
use crate::text::{
    char_to_byte, char_to_byte_of, char_to_line, char_to_line_of, line_start, line_start_of,
    MAX_CHARS,
};
use crate::width::{text_width, width_of};

verus! {

/// The cursor offset.
#[derive(Clone, Copy, Debug, PartialEq, Eq)]
pub struct Cursor {
    /// Vertical rows from top, rows are separated with a `\n`.
    pub row: usize,
    /// Cells from the start of the row to the cursor.
    pub column: usize,
    /// Byte offset of the cursor in the UTF-8 encoding of the content.
    pub byte_offset: usize,
    /// Char offset of the cursor in the content.
    pub char_offset: usize,
}

/// The cursor that stands at char offset `o` of `s`.
pub open spec fn cursor_at(s: Seq<char>, o: int) -> Cursor {
    Cursor {
        row: char_to_line(s, o) as usize,
        column: text_width(s.subrange(line_start(s, o), o)) as usize,
        byte_offset: char_to_byte(s, o) as usize,
        char_offset: o as usize,
    }
}

/// The cursor at char offset `o` of `s`, with every coordinate computed.
pub fn cursor_of(s: &[char], o: usize) -> (r: Cursor)
    requires
        o <= s@.len(),
        s@.len() <= MAX_CHARS,
    ensures
        r == cursor_at(s@, o as int),
{
    let ls = line_start_of(s, o);
    Cursor {
        row: char_to_line_of(s, o),
        column: width_of(s, ls, o),
        byte_offset: char_to_byte_of(s, o),
        char_offset: o,
    }
}

/// Number of decimal digits of `n`.
pub open spec fn digits(n: nat) -> nat
    decreases n,
{
    if n < 10 {
        1
    } else {
        1 + digits(n / 10)
    }
}

proof fn lemma_digits_bound(n: nat)
    ensures
        1 <= digits(n) <= n / 10 + 1,
    decreases n,
{
    if n >= 10 {
        lemma_digits_bound(n / 10);
    }
}

pub fn digits_of(n: usize) -> (r: usize)
    ensures
        r == digits(n as nat),
        1 <= r <= n / 10 + 1,
{
    proof {
        lemma_digits_bound(n as nat);
    }
    let mut m: usize = n;
    let mut d: usize = 1;
    while m >= 10
        invariant
            digits(n as nat) == d + digits(m as nat) - 1,
            1 <= d,
            1 <= digits(m as nat),
            digits(n as nat) <= n / 10 + 1,
        decreases m,
    {
        assert(digits(m as nat) == 1 + digits((m / 10) as nat));
        proof {
            lemma_digits_bound((m / 10) as nat);
        }
        m = m / 10;
        d = d + 1;
    }
    d
}

} // verus!
