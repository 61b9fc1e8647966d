//! The buffer's coordinate systems: char offsets, UTF-8 byte offsets and lines.
use vstd::prelude::*;

verus! {

/// The largest number of chars a buffer may hold, so that every byte offset fits a `usize`.
pub const MAX_CHARS: usize = 0x1fff_ffff;

/// Length of the UTF-8 encoding of one scalar value.
pub open spec fn char_len(c: char) -> nat {
    let v = c as u32;
    if v < 0x80 {
        1
    } else if v < 0x800 {
        2
    } else if v < 0x10000 {
        3
    } else {
        4
    }
}

/// Length of the UTF-8 encoding of a char sequence.
pub open spec fn byte_len(s: Seq<char>) -> nat
    decreases s.len(),
{
    if s.len() == 0 {
        0
    } else {
        byte_len(s.drop_last()) + char_len(s.last())
    }
}

/// Byte offset of the char offset `o`.
pub open spec fn char_to_byte(s: Seq<char>, o: int) -> nat {
    byte_len(s.take(o))
}

/// First char offset at or after `k` whose byte offset reaches `b`.
pub open spec fn byte_to_char_from(s: Seq<char>, b: int, k: int) -> int
    decreases s.len() - k,
{
    if k >= s.len() {
        s.len() as int
    } else if char_to_byte(s, k) >= b {
        k
    } else {
        byte_to_char_from(s, b, k + 1)
    }
}

/// Char offset of the byte offset `b`; an offset inside a char's encoding rounds up to
/// the next char, one past the end clamps to the end.
pub open spec fn byte_to_char(s: Seq<char>, b: int) -> int {
    byte_to_char_from(s, b, 0)
}

/// Number of `'\n'` in `s`.
pub open spec fn count_newlines(s: Seq<char>) -> nat
    decreases s.len(),
{
    if s.len() == 0 {
        0
    } else {
        count_newlines(s.drop_last()) + (if s.last() == '\n' { 1nat } else { 0nat })
    }
}

/// The line index of char offset `o`.
pub open spec fn char_to_line(s: Seq<char>, o: int) -> nat {
    count_newlines(s.take(o))
}

/// Number of lines: one more than the number of newlines.
pub open spec fn len_lines(s: Seq<char>) -> nat {
    count_newlines(s) + 1
}

/// Start of the line that holds char offset `o`.
pub open spec fn line_start(s: Seq<char>, o: int) -> int
    decreases o,
{
    if o <= 0 {
        0
    } else if s[o - 1] == '\n' {
        o
    } else {
        line_start(s, o - 1)
    }
}

/// End of the line that holds char offset `o`: the offset of its newline, or the
/// buffer's end on the last line.
pub open spec fn line_end(s: Seq<char>, o: int) -> int
    decreases s.len() - o,
{
    if o >= s.len() {
        s.len() as int
    } else if s[o] == '\n' {
        o
    } else {
        line_end(s, o + 1)
    }
}

/// Char offset where line `r` starts; the end of the buffer when there is no such line.
pub open spec fn line_to_char_from(s: Seq<char>, r: int, k: int) -> int
    decreases s.len() - k,
{
    if r <= 0 || k >= s.len() {
        if r <= 0 { k } else { s.len() as int }
    } else if s[k] == '\n' {
        line_to_char_from(s, r - 1, k + 1)
    } else {
        line_to_char_from(s, r, k + 1)
    }
}

pub open spec fn line_to_char(s: Seq<char>, r: int) -> int {
    line_to_char_from(s, r, 0)
}

pub proof fn lemma_byte_len_step(s: Seq<char>, i: int)
    requires
        0 <= i < s.len(),
    ensures
        char_to_byte(s, i + 1) == char_to_byte(s, i) + char_len(s[i]),
{
    assert(s.take(i + 1).drop_last() =~= s.take(i));
}

pub proof fn lemma_newlines_step(s: Seq<char>, i: int)
    requires
        0 <= i < s.len(),
    ensures
        char_to_line(s, i + 1) == char_to_line(s, i) + (if s[i] == '\n' { 1nat } else { 0nat }),
{
    assert(s.take(i + 1).drop_last() =~= s.take(i));
}

/// Byte offsets grow strictly with char offsets, and by at most four bytes per char.
pub proof fn lemma_char_to_byte_mono(s: Seq<char>, i: int, j: int)
    requires
        0 <= i <= j <= s.len(),
    ensures
        char_to_byte(s, i) + (j - i) <= char_to_byte(s, j),
        char_to_byte(s, j) <= char_to_byte(s, i) + 4 * (j - i),
    decreases j - i,
{
    if i < j {
        lemma_char_to_byte_mono(s, i, j - 1);
        lemma_byte_len_step(s, j - 1);
    }
}

proof fn lemma_byte_to_char_from(s: Seq<char>, o: int, k: int)
    requires
        0 <= k <= o <= s.len(),
    ensures
        byte_to_char_from(s, char_to_byte(s, o) as int, k) == o,
    decreases o - k,
{
    if k < o {
        lemma_char_to_byte_mono(s, k + 1, o);
        lemma_char_to_byte_mono(s, k, k + 1);
        lemma_byte_to_char_from(s, o, k + 1);
    }
}

/// Converting a char offset to bytes and back gives the char offset again.
pub proof fn lemma_byte_char_round_trip(s: Seq<char>, o: int)
    requires
        0 <= o <= s.len(),
    ensures
        byte_to_char(s, char_to_byte(s, o) as int) == o,
{
    lemma_byte_to_char_from(s, o, 0);
}

/// Exact UTF-8 length of one char.
pub fn utf8_len(c: char) -> (r: usize)
    ensures
        r == char_len(c),
{
    let v = c as u32;
    if v < 0x80 {
        1
    } else if v < 0x800 {
        2
    } else if v < 0x10000 {
        3
    } else {
        4
    }
}

/// Byte offset of char offset `o`.
pub fn char_to_byte_of(s: &[char], o: usize) -> (r: usize)
    requires
        o <= s@.len(),
        s@.len() <= MAX_CHARS,
    ensures
        r == char_to_byte(s@, o as int),
{
    let mut i: usize = 0;
    let mut acc: usize = 0;
    while i < o
        invariant
            i <= o <= s@.len() <= MAX_CHARS,
            acc == char_to_byte(s@, i as int),
        decreases o - i,
    {
        proof {
            lemma_byte_len_step(s@, i as int);
            lemma_char_to_byte_mono(s@, 0, i as int + 1);
        }
        acc = acc + utf8_len(s[i]);
        i = i + 1;
    }
    acc
}

/// Char offset of byte offset `b`, rounded up to a char boundary and clamped to the end.
pub fn byte_to_char_of(s: &[char], b: usize) -> (r: usize)
    requires
        s@.len() <= MAX_CHARS,
    ensures
        r == byte_to_char(s@, b as int),
        r <= s@.len(),
{
    let mut k: usize = 0;
    let mut acc: usize = 0;
    while k < s.len() && acc < b
        invariant
            k <= s@.len() <= MAX_CHARS,
            acc == char_to_byte(s@, k as int),
            byte_to_char(s@, b as int) == byte_to_char_from(s@, b as int, k as int),
        decreases s@.len() - k,
    {
        proof {
            lemma_byte_len_step(s@, k as int);
            lemma_char_to_byte_mono(s@, 0, k as int + 1);
        }
        acc = acc + utf8_len(s[k]);
        k = k + 1;
    }
    k
}

/// Line index of char offset `o`.
pub fn char_to_line_of(s: &[char], o: usize) -> (r: usize)
    requires
        o <= s@.len(),
    ensures
        r == char_to_line(s@, o as int),
{
    let mut i: usize = 0;
    let mut n: usize = 0;
    while i < o
        invariant
            i <= o <= s@.len(),
            n == char_to_line(s@, i as int),
            n <= i,
        decreases o - i,
    {
        proof {
            lemma_newlines_step(s@, i as int);
        }
        if s[i] == '\n' {
            n = n + 1;
        }
        i = i + 1;
    }
    n
}

/// Start of the line holding char offset `o`.
pub fn line_start_of(s: &[char], o: usize) -> (r: usize)
    requires
        o <= s@.len(),
    ensures
        r == line_start(s@, o as int),
        r <= o,
{
    let mut i: usize = o;
    while i > 0 && s[i - 1] != '\n'
        invariant
            i <= o <= s@.len(),
            line_start(s@, o as int) == line_start(s@, i as int),
        decreases i,
    {
        i = i - 1;
    }
    i
}

/// End of the line holding char offset `o`.
pub fn line_end_of(s: &[char], o: usize) -> (r: usize)
    requires
        o <= s@.len(),
    ensures
        r == line_end(s@, o as int),
        o <= r <= s@.len(),
{
    let mut i: usize = o;
    while i < s.len() && s[i] != '\n'
        invariant
            o <= i <= s@.len(),
            line_end(s@, o as int) == line_end(s@, i as int),
        decreases s@.len() - i,
    {
        i = i + 1;
    }
    i
}

/// Char offset where line `r` starts, or the buffer's end when there is no such line.
pub fn line_to_char_of(s: &[char], r: usize) -> (k: usize)
    ensures
        k == line_to_char(s@, r as int),
        k <= s@.len(),
{
    let mut k: usize = 0;
    let mut left: usize = r;
    while left > 0 && k < s.len()
        invariant
            k <= s@.len(),
            line_to_char(s@, r as int) == line_to_char_from(s@, left as int, k as int),
        decreases s@.len() - k,
    {
        if s[k] == '\n' {
            left = left - 1;
        }
        k = k + 1;
    }
    if left > 0 {
        s.len()
    } else {
        k
    }
}

} // verus!

verus! {

/// Relies on `str::chars`: the chars of a string, in order.
#[verifier::external_body]
pub(crate) fn chars_of(s: &str) -> (r: Vec<char>)
    ensures
        r@ == s@,
{
    s.chars().collect()
}

/// Relies on `String`'s `FromIterator<&char>`: the string made of the given chars, in order.
#[verifier::external_body]
pub(crate) fn string_of(v: &[char]) -> (r: String)
    ensures
        r@ == v@,
{
    v.iter().collect()
}

/// Appends `src[from..to]` to `dst`.
pub fn push_range(dst: &mut Vec<char>, src: &[char], from: usize, to: usize)
    requires
        from <= to <= src@.len(),
    ensures
        final(dst)@ == old(dst)@ + src@.subrange(from as int, to as int),
{
    let mut i: usize = from;
    while i < to
        invariant
            from <= i <= to <= src@.len(),
            dst@ == old(dst)@ + src@.subrange(from as int, i as int),
        decreases to - i,
    {
        dst.push(src[i]);
        assert(src@.subrange(from as int, i + 1) =~= src@.subrange(from as int, i as int).push(
            src@[i as int],
        ));
        i = i + 1;
    }
}

/// Whether two char runs are equal.
pub fn same_text(a: &[char], b: &[char]) -> (r: bool)
    ensures
        r == (a@ == b@),
{
    if a.len() != b.len() {
        return false;
    }
    let mut i: usize = 0;
    while i < a.len()
        invariant
            i <= a@.len() == b@.len(),
            forall|j: int| 0 <= j < i ==> a@[j] == b@[j],
        decreases a@.len() - i,
    {
        if a[i] != b[i] {
            return false;
        }
        i = i + 1;
    }
    assert(a@ =~= b@);
    true
}

} // verus!

verus! {

/// A line index never exceeds the char offset it belongs to.
pub proof fn lemma_newlines_bound(s: Seq<char>, o: int)
    requires
        0 <= o <= s.len(),
    ensures
        char_to_line(s, o) <= o,
    decreases o,
{
    if o > 0 {
        lemma_newlines_bound(s, o - 1);
        lemma_newlines_step(s, o - 1);
    }
}

} // verus!

verus! {

/// `t` inserted into `s` before char offset `o`.
pub open spec fn insert_text(s: Seq<char>, o: int, t: Seq<char>) -> Seq<char> {
    s.take(o) + t + s.skip(o)
}

/// `s` without the chars of the span `[from, to)`.
pub open spec fn removed_range(s: Seq<char>, from: int, to: int) -> Seq<char> {
    s.take(from) + s.skip(to)
}

/// Why a buffer operation was refused.
#[derive(Clone, Copy, Debug, PartialEq, Eq)]
pub enum BufferError {
    /// An offset lies past the end of the buffer.
    OutOfBounds,
    /// A range ends before it starts.
    InvalidRange,
}

/// Whether byte offset `b` starts a char of `s`, or is its byte length.
pub open spec fn on_char_boundary(s: Seq<char>, b: int) -> bool {
    exists|o: int| 0 <= o <= s.len() && #[trigger] char_to_byte(s, o) == b
}

/// A line-addressable text buffer.
pub struct TextBuffer {
    chars: Vec<char>,
}

impl View for TextBuffer {
    type V = Seq<char>;

    closed spec fn view(&self) -> Seq<char> {
        self.chars@
    }
}

impl TextBuffer {
    pub open spec fn wf(&self) -> bool {
        self@.len() <= MAX_CHARS
    }

    /// A buffer holding `text`.
    pub fn from_text(text: &str) -> (r: Self)
        requires
            text@.len() <= MAX_CHARS,
        ensures
            r@ == text@,
            r.wf(),
    {
        TextBuffer { chars: chars_of(text) }
    }

    /// The whole text.
    pub fn text(&self) -> (r: String)
        ensures
            r@ == self@,
    {
        string_of(self.chars.as_slice())
    }

    pub fn len_chars(&self) -> (r: usize)
        ensures
            r == self@.len(),
    {
        self.chars.len()
    }

    pub fn len_bytes(&self) -> (r: usize)
        requires
            self.wf(),
        ensures
            r == byte_len(self@),
    {
        proof {
            assert(self@.take(self@.len() as int) =~= self@);
        }
        char_to_byte_of(self.chars.as_slice(), self.chars.len())
    }

    pub fn len_lines(&self) -> (r: usize)
        requires
            self.wf(),
        ensures
            r == len_lines(self@),
    {
        proof {
            assert(self@.take(self@.len() as int) =~= self@);
            lemma_newlines_bound(self@, self@.len() as int);
        }
        char_to_line_of(self.chars.as_slice(), self.chars.len()) + 1
    }

    pub fn char_to_byte(&self, o: usize) -> (r: usize)
        requires
            self.wf(),
            o <= self@.len(),
        ensures
            r == char_to_byte(self@, o as int),
    {
        char_to_byte_of(self.chars.as_slice(), o)
    }

    /// Char offset of byte offset `b`, which must be a char boundary.
    pub fn byte_to_char(&self, b: usize) -> (r: usize)
        requires
            self.wf(),
            on_char_boundary(self@, b as int),
        ensures
            r == byte_to_char(self@, b as int),
            char_to_byte(self@, r as int) == b,
    {
        proof {
            let o = choose|o: int| 0 <= o <= self@.len() && #[trigger] char_to_byte(self@, o) == b;
            lemma_byte_char_round_trip(self@, o);
        }
        byte_to_char_of(self.chars.as_slice(), b)
    }

    pub fn char_to_line(&self, o: usize) -> (r: usize)
        requires
            o <= self@.len(),
        ensures
            r == char_to_line(self@, o as int),
    {
        char_to_line_of(self.chars.as_slice(), o)
    }

    /// Char offset where line `r` starts; `r` must be below the line count.
    pub fn line_to_char(&self, r: usize) -> (k: usize)
        requires
            r < len_lines(self@),
        ensures
            k == line_to_char(self@, r as int),
    {
        line_to_char_of(self.chars.as_slice(), r)
    }

    /// The text of line `i`, without its newline; `i` must be below the line count.
    pub fn line(&self, i: usize) -> (r: String)
        requires
            i < len_lines(self@),
        ensures
            r@ == self@.subrange(line_to_char(self@, i as int), line_end(self@, line_to_char(self@, i as int))),
    {
        let s = self.chars.as_slice();
        let k = line_to_char_of(s, i);
        let e = line_end_of(s, k);
        let mut v: Vec<char> = Vec::new();
        push_range(&mut v, s, k, e);
        string_of(v.as_slice())
    }

    /// Inserts `text` before char offset `o`.
    pub fn insert(&mut self, o: usize, text: &str) -> (r: Result<(), BufferError>)
        requires
            old(self).wf(),
            old(self)@.len() + text@.len() <= MAX_CHARS,
        ensures
            final(self).wf(),
            o <= old(self)@.len() ==> r is Ok && final(self)@ == insert_text(
                old(self)@,
                o as int,
                text@,
            ),
            o > old(self)@.len() ==> r == Err::<(), BufferError>(BufferError::OutOfBounds)
                && final(self)@ == old(self)@,
    {
        if o > self.chars.len() {
            return Err(BufferError::OutOfBounds);
        }
        let t = chars_of(text);
        let mut v: Vec<char> = Vec::new();
        push_range(&mut v, self.chars.as_slice(), 0, o);
        push_range(&mut v, t.as_slice(), 0, t.len());
        push_range(&mut v, self.chars.as_slice(), o, self.chars.len());
        proof {
            assert(t@.subrange(0, t@.len() as int) =~= t@);
            assert(v@ =~= insert_text(old(self)@, o as int, text@));
        }
        self.chars = v;
        Ok(())
    }

    /// Removes the chars of the half-open range `[from, to)`.
    pub fn remove(&mut self, from: usize, to: usize) -> (r: Result<(), BufferError>)
        requires
            old(self).wf(),
        ensures
            final(self).wf(),
            from <= to <= old(self)@.len() ==> r is Ok && final(self)@ == removed_range(
                old(self)@,
                from as int,
                to as int,
            ),
            from > to ==> r == Err::<(), BufferError>(BufferError::InvalidRange) && final(self)@
                == old(self)@,
            from <= to && to > old(self)@.len() ==> r == Err::<(), BufferError>(
                BufferError::OutOfBounds,
            ) && final(self)@ == old(self)@,
    {
        if from > to {
            return Err(BufferError::InvalidRange);
        }
        if to > self.chars.len() {
            return Err(BufferError::OutOfBounds);
        }
        let mut v: Vec<char> = Vec::new();
        push_range(&mut v, self.chars.as_slice(), 0, from);
        push_range(&mut v, self.chars.as_slice(), to, self.chars.len());
        proof {
            assert(v@ =~= removed_range(old(self)@, from as int, to as int));
        }
        self.chars = v;
        Ok(())
    }
}

} // verus!

verus! {

/// A line starts at `k` when `k` follows a newline (or is 0) and no newline lies
/// between `k` and `i`.
pub proof fn lemma_line_start_at(s: Seq<char>, k: int, i: int)
    requires
        0 <= k <= i <= s.len(),
        k == 0 || s[k - 1] == '\n',
        forall|j: int| k <= j < i ==> s[j] != '\n',
    ensures
        line_start(s, i) == k,
    decreases i - k,
{
    if i > k {
        lemma_line_start_at(s, k, i - 1);
    }
}

/// A line ends at `m` when `m` is a newline (or the end) and no newline lies between
/// `i` and `m`.
pub proof fn lemma_line_end_at(s: Seq<char>, i: int, m: int)
    requires
        0 <= i <= m <= s.len(),
        m == s.len() || s[m] == '\n',
        forall|j: int| i <= j < m ==> s[j] != '\n',
    ensures
        line_end(s, i) == m,
    decreases m - i,
{
    if i < m {
        lemma_line_end_at(s, i + 1, m);
    }
}

} // verus!

verus! {

/// Largest char offset, scanning from `k` on, whose byte offset does not pass `b`.
pub open spec fn byte_floor_from(s: Seq<char>, b: int, k: int) -> int
    decreases s.len() - k,
{
    if k >= s.len() {
        s.len() as int
    } else if char_to_byte(s, k + 1) > b {
        k
    } else {
        byte_floor_from(s, b, k + 1)
    }
}

/// The largest char boundary at or below byte offset `b`, as a char offset; the end of
/// the buffer when `b` passes its byte length.
pub open spec fn byte_floor(s: Seq<char>, b: int) -> int {
    byte_floor_from(s, b, 0)
}

/// Char offset of the largest char boundary at or below byte offset `b`.
pub fn byte_floor_of(s: &[char], b: usize) -> (r: usize)
    requires
        s@.len() <= MAX_CHARS,
    ensures
        r == byte_floor(s@, b as int),
        r <= s@.len(),
        char_to_byte(s@, r as int) <= b,
        r < s@.len() ==> char_to_byte(s@, r + 1) > b,
{
    let mut k: usize = 0;
    let mut acc: usize = 0;
    while k < s.len()
        invariant
            k <= s@.len() <= MAX_CHARS,
            acc == char_to_byte(s@, k as int),
            acc <= b,
            byte_floor(s@, b as int) == byte_floor_from(s@, b as int, k as int),
        decreases s@.len() - k,
    {
        proof {
            lemma_byte_len_step(s@, k as int);
            lemma_char_to_byte_mono(s@, 0, k as int + 1);
        }
        let next = acc + utf8_len(s[k]);
        if next > b {
            return k;
        }
        acc = next;
        k = k + 1;
    }
    k
}

} // verus!
