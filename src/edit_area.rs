//! The editing surface: a text buffer, its cursor, its viewport and the edit operations.
use vstd::prelude::*;
use vstd::string::StrSliceExecFns;
use crate::cursor::{cursor_at, cursor_of, digits, digits_of, Cursor};
use crate::text::{
    byte_floor, byte_floor_of, byte_to_char, byte_to_char_of, char_to_line, char_to_line_of, chars_of, insert_text,
    len_lines, line_end, line_end_of, line_start, line_start_of, line_to_char, line_to_char_of,
    push_range, same_text, string_of, MAX_CHARS,
};
use crate::width::{
    fit_len, fit_prefix, lemma_insert_widest, max_line_width, widest_line, width_of,
};

verus! {

/// Number of spaces that one indentation step adds or removes.
pub const INDENT: usize = 4;

/// Number of lines that a page step moves.
pub const PAGE_STEP: usize = 5;

/// What the host should be told after an operation.
#[derive(Clone, Copy, Debug, PartialEq, Eq)]
pub enum Notice {
    /// Nothing changed that the host tracks.
    Nothing,
    /// The cursor moved; the content is unchanged.
    Interact,
    /// The content changed.
    Edit,
    /// The viewport moved.
    Scroll,
}

/// The state of an edit area, as the contracts speak of it.
pub struct AreaView {
    pub content: Seq<char>,
    pub cursor: Cursor,
    pub enabled: bool,
    pub max_width: nat,
    pub scroll_x: usize,
    pub scroll_y: usize,
    pub width: usize,
    pub height: usize,
}

/// A multi-line text editing surface.
pub struct EditArea {
    content: Vec<char>,
    cursor: Cursor,
    enabled: bool,
    /// Width of the widest line.
    max_width: usize,
    scroll_x: usize,
    scroll_y: usize,
    /// Number of content cells a row of the viewport shows, the gutter not counted.
    width: usize,
    /// Number of rows the viewport shows.
    height: usize,
}

impl View for EditArea {
    type V = AreaView;

    closed spec fn view(&self) -> AreaView {
        AreaView {
            content: self.content@,
            cursor: self.cursor,
            enabled: self.enabled,
            max_width: self.max_width as nat,
            scroll_x: self.scroll_x,
            scroll_y: self.scroll_y,
            width: self.width,
            height: self.height,
        }
    }
}

/// The buffer fits its bounds, the cursor's four coordinates all name the same
/// position, and the width cache holds the widest line's width.
pub open spec fn view_wf(v: AreaView) -> bool {
    &&& v.content.len() <= MAX_CHARS
    &&& v.cursor.char_offset <= v.content.len()
    &&& v.cursor == cursor_at(v.content, v.cursor.char_offset as int)
    &&& v.max_width == max_line_width(v.content)
}

/// First visible row (or cell) after moving the viewport as little as possible so that
/// `row` shows, `h` rows being visible.
pub open spec fn keep_row(y: usize, h: usize, row: usize) -> usize {
    if row < y {
        row
    } else if h > 0 && row >= y + h {
        (row + 1 - h) as usize
    } else {
        y
    }
}

/// The state with content `s` and the cursor at char offset `o`, the viewport following
/// the cursor's row and column.
pub open spec fn placed(v: AreaView, s: Seq<char>, o: int) -> AreaView {
    AreaView {
        content: s,
        cursor: cursor_at(s, o),
        enabled: v.enabled,
        max_width: max_line_width(s),
        scroll_x: keep_row(v.scroll_x, v.width, cursor_at(s, o).column),
        scroll_y: keep_row(v.scroll_y, v.height, char_to_line(s, o) as usize),
        width: v.width,
        height: v.height,
    }
}

/// Width of the line-number gutter: the digits of the line count and one space.
pub open spec fn gutter(s: Seq<char>) -> nat {
    digits(len_lines(s)) + 1
}

/// Cells the line-number gutter takes: none while the area is disabled.
pub open spec fn shown_gutter(v: AreaView) -> nat {
    if v.enabled { gutter(v.content) } else { 0 }
}

/// Cursor target of a move up: the previous line, at the chars that fit in the cursor's
/// column; the same offset on the first line.
pub open spec fn up_target(s: Seq<char>, o: int) -> int {
    let ls = line_start(s, o);
    if ls <= 0 {
        o
    } else {
        let ps = line_start(s, ls - 1);
        ps + fit_len(s.subrange(ps, ls - 1), cursor_at(s, o).column as nat)
    }
}

/// Cursor target of a move down; the same offset on the last line.
pub open spec fn down_target(s: Seq<char>, o: int) -> int {
    let le = line_end(s, o);
    if le >= s.len() {
        o
    } else {
        let ns = le + 1;
        let ne = line_end(s, ns);
        ns + fit_len(s.subrange(ns, ne), cursor_at(s, o).column as nat)
    }
}

pub open spec fn ups(s: Seq<char>, o: int, n: nat) -> int
    decreases n,
{
    if n == 0 {
        o
    } else {
        ups(s, up_target(s, o), (n - 1) as nat)
    }
}

pub open spec fn downs(s: Seq<char>, o: int, n: nat) -> int
    decreases n,
{
    if n == 0 {
        o
    } else {
        downs(s, down_target(s, o), (n - 1) as nat)
    }
}

/// Char offset of a click at cell (`col`, `row`) of the content, gutter included.
pub open spec fn click_target(s: Seq<char>, col: nat, row: nat) -> int {
    let last = count_lines_minus_one(s);
    let r = if row > last { last } else { row };
    let ls = line_to_char(s, r as int);
    let le = line_end(s, ls);
    let x = if col >= gutter(s) { (col - gutter(s)) as nat } else { 0nat };
    ls + fit_len(s.subrange(ls, le), x)
}

pub open spec fn count_lines_minus_one(s: Seq<char>) -> nat {
    (len_lines(s) - 1) as nat
}

pub proof fn lemma_line_start_bounds(s: Seq<char>, o: int)
    requires
        0 <= o <= s.len(),
    ensures
        0 <= line_start(s, o) <= o,
        line_start(s, o) > 0 ==> s[line_start(s, o) - 1] == '\n',
        forall|i: int| line_start(s, o) <= i < o ==> s[i] != '\n',
    decreases o,
{
    if o > 0 && s[o - 1] != '\n' {
        lemma_line_start_bounds(s, o - 1);
    }
}

pub proof fn lemma_line_end_bounds(s: Seq<char>, o: int)
    requires
        0 <= o <= s.len(),
    ensures
        o <= line_end(s, o) <= s.len(),
        line_end(s, o) < s.len() ==> s[line_end(s, o)] == '\n',
        forall|i: int| o <= i < line_end(s, o) ==> s[i] != '\n',
    decreases s.len() - o,
{
    if o < s.len() && s[o] != '\n' {
        lemma_line_end_bounds(s, o + 1);
    }
}

/// The four spaces of one indentation step.
pub open spec fn indent_seq() -> Seq<char> {
    seq![' ', ' ', ' ', ' ']
}

/// Whether the line that starts at `ls` begins with a full indentation step.
pub open spec fn has_indent(s: Seq<char>, ls: int) -> bool {
    &&& line_end(s, ls) - ls >= INDENT
    &&& s.subrange(ls, ls + INDENT) == indent_seq()
}

/// Text that copying the line at `o` hands to the clipboard: the line, then a newline.
pub open spec fn line_text(s: Seq<char>, o: int) -> Seq<char> {
    s.subrange(line_start(s, o), line_end(s, o)).push('\n')
}

/// End of the span that cutting the line at `o` removes: past its newline, or the
/// buffer's end on the last line.
pub open spec fn cut_end(s: Seq<char>, o: int) -> int {
    let le = line_end(s, o);
    if le < s.len() { le + 1 } else { le }
}

/// Content after cutting the line at `o`.
pub open spec fn cut_content(s: Seq<char>, o: int) -> Seq<char> {
    s.take(line_start(s, o)) + s.skip(cut_end(s, o))
}

/// Content after swapping the line at `o` with the line above it.
pub open spec fn swap_up(s: Seq<char>, o: int) -> Seq<char> {
    let ls = line_start(s, o);
    let a = line_start(s, ls - 1);
    let e = line_end(s, o);
    s.take(a) + s.subrange(ls, e) + seq!['\n'] + s.subrange(a, ls - 1) + s.skip(e)
}

/// Content after swapping the line at `o` with the line below it.
pub open spec fn swap_down(s: Seq<char>, o: int) -> Seq<char> {
    let ls = line_start(s, o);
    let e = line_end(s, o);
    let ne = line_end(s, e + 1);
    s.take(ls) + s.subrange(e + 1, ne) + seq!['\n'] + s.subrange(ls, e) + s.skip(ne)
}

pub open spec fn moved_left(v: AreaView) -> AreaView {
    let o = v.cursor.char_offset as int;
    if o == 0 { v } else { placed(v, v.content, o - 1) }
}

pub open spec fn moved_right(v: AreaView) -> AreaView {
    let o = v.cursor.char_offset as int;
    if o >= v.content.len() { v } else { placed(v, v.content, o + 1) }
}

pub open spec fn moved_up(v: AreaView) -> AreaView {
    let o = v.cursor.char_offset as int;
    if line_start(v.content, o) == 0 { v } else { placed(v, v.content, up_target(v.content, o)) }
}

pub open spec fn moved_down(v: AreaView) -> AreaView {
    let o = v.cursor.char_offset as int;
    if line_end(v.content, o) >= v.content.len() {
        v
    } else {
        placed(v, v.content, down_target(v.content, o))
    }
}

pub open spec fn paged_up(v: AreaView) -> AreaView {
    placed(v, v.content, ups(v.content, v.cursor.char_offset as int, PAGE_STEP as nat))
}

pub open spec fn paged_down(v: AreaView) -> AreaView {
    placed(v, v.content, downs(v.content, v.cursor.char_offset as int, PAGE_STEP as nat))
}

/// The cursor at the first char of its line (`to_end` false) or at the end of its line,
/// before the line's newline (`to_end` true).
pub open spec fn moved_to_bound(v: AreaView, to_end: bool) -> AreaView {
    let o = v.cursor.char_offset as int;
    placed(v, v.content, if to_end { line_end(v.content, o) } else { line_start(v.content, o) })
}

pub open spec fn inserted(v: AreaView, c: char) -> AreaView {
    let o = v.cursor.char_offset as int;
    placed(v, v.content.insert(o, c), o + 1)
}

pub open spec fn deleted(v: AreaView) -> AreaView {
    let o = v.cursor.char_offset as int;
    if o >= v.content.len() { v } else { placed(v, v.content.remove(o), o) }
}

pub open spec fn backspaced(v: AreaView) -> AreaView {
    let o = v.cursor.char_offset as int;
    if o == 0 { v } else { placed(v, v.content.remove(o - 1), o - 1) }
}

pub open spec fn pasted(v: AreaView, t: Seq<char>) -> AreaView {
    let o = v.cursor.char_offset as int;
    if t.len() == 0 { v } else { placed(v, insert_text(v.content, o, t), o + t.len()) }
}

/// Whether cutting the line at the cursor removes anything.
pub open spec fn cut_changes(v: AreaView) -> bool {
    let o = v.cursor.char_offset as int;
    cut_end(v.content, o) > line_start(v.content, o)
}

pub open spec fn cut_view(v: AreaView) -> AreaView {
    let o = v.cursor.char_offset as int;
    if cut_changes(v) {
        placed(v, cut_content(v.content, o), line_start(v.content, o))
    } else {
        v
    }
}

pub open spec fn indented(v: AreaView) -> AreaView {
    let o = v.cursor.char_offset as int;
    let ls = line_start(v.content, o);
    placed(v, insert_text(v.content, ls, indent_seq()), o + INDENT)
}

pub open spec fn outdented(v: AreaView) -> AreaView {
    let o = v.cursor.char_offset as int;
    let ls = line_start(v.content, o);
    if has_indent(v.content, ls) {
        let back = if o - ls < INDENT { o - ls } else { INDENT as int };
        placed(v, v.content.take(ls) + v.content.skip(ls + INDENT), o - back)
    } else {
        v
    }
}

pub open spec fn line_moved_up(v: AreaView) -> AreaView {
    let s = v.content;
    let o = v.cursor.char_offset as int;
    let ls = line_start(s, o);
    if ls == 0 {
        v
    } else {
        placed(v, swap_up(s, o), line_start(s, ls - 1) + (o - ls))
    }
}

pub open spec fn line_moved_down(v: AreaView) -> AreaView {
    let s = v.content;
    let o = v.cursor.char_offset as int;
    let ls = line_start(s, o);
    let e = line_end(s, o);
    if e >= s.len() {
        v
    } else {
        placed(v, swap_down(s, o), ls + (line_end(s, e + 1) - (e + 1)) + 1 + (o - ls))
    }
}

pub open spec fn clicked(v: AreaView, col: nat, row: nat) -> AreaView {
    placed(v, v.content, click_target(v.content, col, row))
}

/// A state built by `placed` from a buffer within bounds is well formed.
pub proof fn lemma_placed_wf(v: AreaView, s: Seq<char>, o: int)
    requires
        0 <= o <= s.len() <= MAX_CHARS,
    ensures
        view_wf(placed(v, s, o)),
{
}

fn keep_visible(y: usize, h: usize, row: usize) -> (r: usize)
    ensures
        r == keep_row(y, h, row),
{
    if row < y {
        row
    } else if h > 0 && row - y >= h {
        row - h + 1
    } else {
        y
    }
}

fn up_of(s: &[char], o: usize) -> (r: usize)
    requires
        o <= s@.len() <= MAX_CHARS,
    ensures
        r == up_target(s@, o as int),
        r <= s@.len(),
{
    let ls = line_start_of(s, o);
    if ls == 0 {
        return o;
    }
    let ps = line_start_of(s, ls - 1);
    let col = cursor_of(s, o).column;
    ps + fit_prefix(s, ps, ls - 1, col)
}

fn down_of(s: &[char], o: usize) -> (r: usize)
    requires
        o <= s@.len() <= MAX_CHARS,
    ensures
        r == down_target(s@, o as int),
        r <= s@.len(),
{
    let le = line_end_of(s, o);
    if le >= s.len() {
        return o;
    }
    let ne = line_end_of(s, le + 1);
    let col = cursor_of(s, o).column;
    le + 1 + fit_prefix(s, le + 1, ne, col)
}

/// Every offset of a line has the same line end.
pub proof fn lemma_line_end_same(s: Seq<char>, a: int, b: int)
    requires
        0 <= a <= b <= s.len(),
        forall|i: int| a <= i < b ==> s[i] != '\n',
    ensures
        line_end(s, a) == line_end(s, b),
    decreases b - a,
{
    if a < b {
        lemma_line_end_same(s, a + 1, b);
    }
}

impl EditArea {
    pub open spec fn wf(&self) -> bool {
        view_wf(self@)
    }

    /// Creates a new, empty, enabled edit area.
    pub fn new() -> (r: Self)
        ensures
            r.wf(),
            r@.content.len() == 0,
            r@.cursor == cursor_at(Seq::empty(), 0),
            r@.enabled,
            r@.scroll_x == 0,
            r@.scroll_y == 0,
            r@.width == 0,
            r@.height == 0,
    {
        let content: Vec<char> = Vec::new();
        let cursor = cursor_of(content.as_slice(), 0);
        let max_width = widest_line(content.as_slice());
        EditArea {
            content,
            cursor,
            enabled: true,
            max_width,
            scroll_x: 0,
            scroll_y: 0,
            width: 0,
            height: 0,
        }
    }

    /// Moves the cursor to char offset `o` of the current content and lets the viewport
    /// follow it.
    fn place(&mut self, o: usize)
        requires
            o <= old(self)@.content.len(),
            old(self)@.content.len() <= MAX_CHARS,
        ensures
            final(self)@ == (AreaView {
                cursor: cursor_at(old(self)@.content, o as int),
                scroll_x: keep_row(
                    old(self)@.scroll_x,
                    old(self)@.width,
                    cursor_at(old(self)@.content, o as int).column,
                ),
                scroll_y: keep_row(
                    old(self)@.scroll_y,
                    old(self)@.height,
                    char_to_line(old(self)@.content, o as int) as usize,
                ),
                ..old(self)@
            }),
    {
        let c = cursor_of(self.content.as_slice(), o);
        self.cursor = c;
        let row = c.row;
        let y = self.scroll_y;
        let h = self.height;
        proof {
            crate::text::lemma_newlines_bound(self.content@, o as int);
        }
        self.scroll_y = keep_visible(y, h, row);
        self.scroll_x = keep_visible(self.scroll_x, self.width, c.column);
    }

    /// Replaces the content and places the cursor at char offset `o` of it.
    fn replace(&mut self, s: Vec<char>, o: usize)
        requires
            o <= s@.len() <= MAX_CHARS,
        ensures
            final(self)@ == placed(old(self)@, s@, o as int),
    {
        self.max_width = widest_line(s.as_slice());
        self.content = s;
        self.place(o);
    }

    /// Replaces the content; the cursor keeps its byte offset, clamped to the new byte
    /// length and moved back to the char boundary at or below it.
    pub fn set_content(&mut self, text: &str) -> (r: Notice)
        requires
            text@.len() <= MAX_CHARS,
        ensures
            final(self)@ == placed(
                old(self)@,
                text@,
                byte_floor(text@, old(self)@.cursor.byte_offset as int),
            ),
            final(self).wf(),
            r == Notice::Edit,
    {
        let s = chars_of(text);
        let o = byte_floor_of(s.as_slice(), self.cursor.byte_offset);
        self.replace(s, o);
        proof {
            lemma_placed_wf(old(self)@, text@, o as int);
        }
        Notice::Edit
    }

    /// The content, as a string.
    pub fn get_content(&self) -> (r: String)
        ensures
            r@ == self@.content,
    {
        string_of(self.content.as_slice())
    }

    /// The cursor.
    pub fn cursor(&self) -> (r: Cursor)
        ensures
            r == self@.cursor,
    {
        self.cursor
    }

    /// The scroll offset, horizontal then vertical.
    pub fn scroll(&self) -> (r: (usize, usize))
        ensures
            r == (self@.scroll_x, self@.scroll_y),
    {
        (self.scroll_x, self.scroll_y)
    }

    /// Moves the viewport to the given offset.
    pub fn set_scroll(&mut self, x: usize, y: usize) -> (r: Notice)
        requires
            old(self).wf(),
        ensures
            final(self).wf(),
            final(self)@ == (AreaView { scroll_x: x, scroll_y: y, ..old(self)@ }),
            r == Notice::Scroll,
    {
        self.scroll_x = x;
        self.scroll_y = y;
        Notice::Scroll
    }

    /// Moves the viewport as little as possible so that the content cell (`col`, `row`)
    /// shows.
    pub fn scroll_to(&mut self, col: usize, row: usize) -> (r: Notice)
        requires
            old(self).wf(),
        ensures
            final(self).wf(),
            final(self)@ == (AreaView {
                scroll_x: keep_row(old(self)@.scroll_x, old(self)@.width, col),
                scroll_y: keep_row(old(self)@.scroll_y, old(self)@.height, row),
                ..old(self)@
            }),
            r == Notice::Scroll,
    {
        self.scroll_x = keep_visible(self.scroll_x, self.width, col);
        self.scroll_y = keep_visible(self.scroll_y, self.height, row);
        Notice::Scroll
    }

    /// Sets how many content cells a row of the viewport shows.
    pub fn set_width(&mut self, w: usize)
        requires
            old(self).wf(),
        ensures
            final(self).wf(),
            final(self)@ == (AreaView { width: w, ..old(self)@ }),
    {
        self.width = w;
    }

    /// Sets how many rows the viewport shows.
    pub fn set_height(&mut self, h: usize)
        requires
            old(self).wf(),
        ensures
            final(self).wf(),
            final(self)@ == (AreaView { height: h, ..old(self)@ }),
    {
        self.height = h;
    }

    pub fn is_enabled(&self) -> (r: bool)
        ensures
            r == self@.enabled,
    {
        self.enabled
    }

    /// Lets the area take input.
    pub fn enable(&mut self)
        requires
            old(self).wf(),
        ensures
            final(self).wf(),
            final(self)@ == (AreaView { enabled: true, ..old(self)@ }),
    {
        self.enabled = true;
    }

    /// Makes the area ignore input.
    pub fn disable(&mut self)
        requires
            old(self).wf(),
        ensures
            final(self).wf(),
            final(self)@ == (AreaView { enabled: false, ..old(self)@ }),
    {
        self.enabled = false;
    }

    /// Places the cursor at byte offset `b`, rounded up to a char boundary and clamped
    /// to the end of the content.
    pub fn set_from_byte_offset(&mut self, b: usize) -> (r: Notice)
        requires
            old(self).wf(),
        ensures
            final(self).wf(),
            final(self)@ == placed(
                old(self)@,
                old(self)@.content,
                byte_to_char(old(self)@.content, b as int),
            ),
            r == Notice::Interact,
    {
        let o = byte_to_char_of(self.content.as_slice(), b);
        self.place(o);
        Notice::Interact
    }

    /// Moves the cursor to the position that `c` names by its char offset, clamped to
    /// the end of the content; the other coordinates are recomputed from it.
    pub fn set_cursor(&mut self, c: Cursor) -> (r: Notice)
        requires
            old(self).wf(),
        ensures
            final(self).wf(),
            final(self)@ == placed(
                old(self)@,
                old(self)@.content,
                if c.char_offset <= old(self)@.content.len() {
                    c.char_offset as int
                } else {
                    old(self)@.content.len() as int
                },
            ),
            r == Notice::Interact,
    {
        self.set_from_char_offset(c.char_offset)
    }

    /// Sets the content; chainable.
    pub fn content(self, text: &str) -> (r: Self)
        requires
            text@.len() <= MAX_CHARS,
        ensures
            r.wf(),
            r@ == placed(
                self@,
                text@,
                byte_floor(text@, self@.cursor.byte_offset as int),
            ),
    {
        let mut a = self;
        a.set_content(text);
        a
    }

    /// Places the cursor at char offset `o`, clamped to the end of the content.
    pub fn set_from_char_offset(&mut self, o: usize) -> (r: Notice)
        requires
            old(self).wf(),
        ensures
            final(self).wf(),
            final(self)@ == placed(
                old(self)@,
                old(self)@.content,
                if o <= old(self)@.content.len() {
                    o as int
                } else {
                    old(self)@.content.len() as int
                },
            ),
            r == Notice::Interact,
    {
        let k = if o <= self.content.len() {
            o
        } else {
            self.content.len()
        };
        self.place(k);
        Notice::Interact
    }
}

impl EditArea {
    /// Recomputes the width cache for the current content and places the cursor at `o`.
    fn commit(&mut self, o: usize)
        requires
            o <= old(self)@.content.len() <= MAX_CHARS,
        ensures
            final(self)@ == placed(old(self)@, old(self)@.content, o as int),
    {
        self.max_width = widest_line(self.content.as_slice());
        self.place(o);
    }

    /// Moves the cursor one char to the left; nothing at the start of the buffer.
    pub fn move_left(&mut self) -> (r: Notice)
        requires
            old(self).wf(),
        ensures
            final(self).wf(),
            final(self)@ == moved_left(old(self)@),
            r == (if old(self)@.cursor.char_offset == 0 { Notice::Nothing } else { Notice::Interact }),
    {
        let o = self.cursor.char_offset;
        if o == 0 {
            return Notice::Nothing;
        }
        self.place(o - 1);
        Notice::Interact
    }

    /// Moves the cursor one char to the right; nothing at the end of the buffer.
    pub fn move_right(&mut self) -> (r: Notice)
        requires
            old(self).wf(),
        ensures
            final(self).wf(),
            final(self)@ == moved_right(old(self)@),
            r == (if old(self)@.cursor.char_offset >= old(self)@.content.len() {
                Notice::Nothing
            } else {
                Notice::Interact
            }),
    {
        let o = self.cursor.char_offset;
        if o >= self.content.len() {
            return Notice::Nothing;
        }
        self.place(o + 1);
        Notice::Interact
    }

    /// Moves the cursor to the line above, keeping its column where the line is long
    /// enough; nothing on the first line.
    pub fn move_up(&mut self) -> (r: Notice)
        requires
            old(self).wf(),
        ensures
            final(self).wf(),
            final(self)@ == moved_up(old(self)@),
            r == (if line_start(old(self)@.content, old(self)@.cursor.char_offset as int) == 0 {
                Notice::Nothing
            } else {
                Notice::Interact
            }),
    {
        let o = self.cursor.char_offset;
        if line_start_of(self.content.as_slice(), o) == 0 {
            return Notice::Nothing;
        }
        let t = up_of(self.content.as_slice(), o);
        self.place(t);
        Notice::Interact
    }

    /// Moves the cursor to the line below, keeping its column where the line is long
    /// enough; nothing on the last line.
    pub fn move_down(&mut self) -> (r: Notice)
        requires
            old(self).wf(),
        ensures
            final(self).wf(),
            final(self)@ == moved_down(old(self)@),
            r == (if line_end(old(self)@.content, old(self)@.cursor.char_offset as int)
                >= old(self)@.content.len() {
                Notice::Nothing
            } else {
                Notice::Interact
            }),
    {
        let o = self.cursor.char_offset;
        if line_end_of(self.content.as_slice(), o) >= self.content.len() {
            return Notice::Nothing;
        }
        let t = down_of(self.content.as_slice(), o);
        self.place(t);
        Notice::Interact
    }

    /// Moves the cursor up by a page step of lines.
    pub fn page_up(&mut self) -> (r: Notice)
        requires
            old(self).wf(),
        ensures
            final(self).wf(),
            final(self)@ == paged_up(old(self)@),
            r == Notice::Interact,
    {
        let mut o = self.cursor.char_offset;
        let mut i: usize = 0;
        while i < PAGE_STEP
            invariant
                self.wf(),
                o <= self@.content.len(),
                i <= PAGE_STEP,
                ups(self@.content, self@.cursor.char_offset as int, PAGE_STEP as nat) == ups(
                    self@.content,
                    o as int,
                    (PAGE_STEP - i) as nat,
                ),
            decreases PAGE_STEP - i,
        {
            o = up_of(self.content.as_slice(), o);
            i = i + 1;
        }
        self.place(o);
        Notice::Interact
    }

    /// Moves the cursor down by a page step of lines.
    pub fn page_down(&mut self) -> (r: Notice)
        requires
            old(self).wf(),
        ensures
            final(self).wf(),
            final(self)@ == paged_down(old(self)@),
            r == Notice::Interact,
    {
        let mut o = self.cursor.char_offset;
        let mut i: usize = 0;
        while i < PAGE_STEP
            invariant
                self.wf(),
                o <= self@.content.len(),
                i <= PAGE_STEP,
                downs(self@.content, self@.cursor.char_offset as int, PAGE_STEP as nat) == downs(
                    self@.content,
                    o as int,
                    (PAGE_STEP - i) as nat,
                ),
            decreases PAGE_STEP - i,
        {
            o = down_of(self.content.as_slice(), o);
            i = i + 1;
        }
        self.place(o);
        Notice::Interact
    }

    /// Moves the cursor to the start of its line, or to its end (before the newline).
    pub fn move_cursor_end(&mut self, to_end: bool) -> (r: Notice)
        requires
            old(self).wf(),
        ensures
            final(self).wf(),
            final(self)@ == moved_to_bound(old(self)@, to_end),
            r == Notice::Interact,
    {
        let o = self.cursor.char_offset;
        let t = if to_end {
            line_end_of(self.content.as_slice(), o)
        } else {
            line_start_of(self.content.as_slice(), o)
        };
        self.place(t);
        Notice::Interact
    }

    /// Inserts `c` at the cursor and moves the cursor past it.
    pub fn insert(&mut self, c: char) -> (r: Notice)
        requires
            old(self).wf(),
            old(self)@.content.len() < MAX_CHARS,
        ensures
            final(self).wf(),
            final(self)@ == inserted(old(self)@, c),
            r == Notice::Edit,
    {
        let o = self.cursor.char_offset;
        self.content.insert(o, c);
        if c != '\n' {
            // A line that reaches the cached widest width is the new widest line.
            let ls = line_start_of(self.content.as_slice(), o);
            let le = line_end_of(self.content.as_slice(), o);
            let w = width_of(self.content.as_slice(), ls, le);
            if w >= self.max_width {
                proof {
                    lemma_insert_widest(old(self)@.content, o as int, c);
                }
                self.max_width = w;
                self.place(o + 1);
                return Notice::Edit;
            }
        }
        self.commit(o + 1);
        Notice::Edit
    }

    /// Removes the char at the cursor; nothing at the end of the buffer.
    pub fn delete(&mut self) -> (r: Notice)
        requires
            old(self).wf(),
        ensures
            final(self).wf(),
            final(self)@ == deleted(old(self)@),
            r == (if old(self)@.cursor.char_offset >= old(self)@.content.len() {
                Notice::Nothing
            } else {
                Notice::Edit
            }),
    {
        let o = self.cursor.char_offset;
        if o >= self.content.len() {
            return Notice::Nothing;
        }
        self.content.remove(o);
        self.commit(o);
        Notice::Edit
    }

    /// Removes the char before the cursor and moves the cursor onto its place; nothing
    /// at the start of the buffer.
    pub fn backspace(&mut self) -> (r: Notice)
        requires
            old(self).wf(),
        ensures
            final(self).wf(),
            final(self)@ == backspaced(old(self)@),
            r == (if old(self)@.cursor.char_offset == 0 { Notice::Nothing } else { Notice::Edit }),
    {
        let o = self.cursor.char_offset;
        if o == 0 {
            return Notice::Nothing;
        }
        self.content.remove(o - 1);
        self.commit(o - 1);
        Notice::Edit
    }

    /// The text that copying the cursor's line hands to the clipboard: the line, always
    /// followed by a newline.
    pub fn copy(&self) -> (r: String)
        requires
            self.wf(),
        ensures
            r@ == line_text(self@.content, self@.cursor.char_offset as int),
    {
        let s = self.content.as_slice();
        let o = self.cursor.char_offset;
        let ls = line_start_of(s, o);
        let le = line_end_of(s, o);
        let mut v: Vec<char> = Vec::new();
        push_range(&mut v, s, ls, le);
        v.push('\n');
        string_of(v.as_slice())
    }

    /// Removes the cursor's line, its newline included, and puts the cursor where the
    /// line started. Returns the line's text for the clipboard, as `copy` does.
    pub fn cut(&mut self) -> (r: (String, Notice))
        requires
            old(self).wf(),
        ensures
            final(self).wf(),
            final(self)@ == cut_view(old(self)@),
            r.0@ == line_text(old(self)@.content, old(self)@.cursor.char_offset as int),
            r.1 == (if cut_changes(old(self)@) { Notice::Edit } else { Notice::Nothing }),
    {
        let clip = self.copy();
        let o = self.cursor.char_offset;
        let ls = line_start_of(self.content.as_slice(), o);
        let le = line_end_of(self.content.as_slice(), o);
        let end = if le < self.content.len() { le + 1 } else { le };
        if end <= ls {
            return (clip, Notice::Nothing);
        }
        let mut v: Vec<char> = Vec::new();
        push_range(&mut v, self.content.as_slice(), 0, ls);
        push_range(&mut v, self.content.as_slice(), end, self.content.len());
        proof {
            let s = old(self)@.content;
            assert(v@ =~= cut_content(s, o as int));
        }
        self.content = v;
        self.commit(ls);
        (clip, Notice::Edit)
    }

    /// Inserts `text` at the cursor and moves the cursor past it; nothing for an empty
    /// text.
    pub fn paste(&mut self, text: &str) -> (r: Notice)
        requires
            old(self).wf(),
            old(self)@.content.len() + text@.len() <= MAX_CHARS,
        ensures
            final(self).wf(),
            final(self)@ == pasted(old(self)@, text@),
            r == (if text@.len() == 0 { Notice::Nothing } else { Notice::Edit }),
    {
        let t = chars_of(text);
        if t.len() == 0 {
            return Notice::Nothing;
        }
        let o = self.cursor.char_offset;
        let mut v: Vec<char> = Vec::new();
        push_range(&mut v, self.content.as_slice(), 0, o);
        push_range(&mut v, t.as_slice(), 0, t.len());
        push_range(&mut v, self.content.as_slice(), o, self.content.len());
        proof {
            let s = old(self)@.content;
            assert(t@.subrange(0, t@.len() as int) =~= t@);
            assert(v@ =~= insert_text(s, o as int, text@));
        }
        self.content = v;
        self.commit(o + t.len());
        Notice::Edit
    }
}

impl EditArea {
    /// Adds (`indent` true) or removes one indentation step at the start of the
    /// cursor's line. Removing needs the line to begin with a full step; the cursor
    /// moves back by the step, but not past the line's start.
    pub fn tabulator(&mut self, indent: bool) -> (r: Notice)
        requires
            old(self).wf(),
            indent ==> old(self)@.content.len() + INDENT <= MAX_CHARS,
        ensures
            final(self).wf(),
            indent ==> final(self)@ == indented(old(self)@) && r == Notice::Edit,
            !indent ==> final(self)@ == outdented(old(self)@),
            !indent ==> r == (if has_indent(
                old(self)@.content,
                line_start(old(self)@.content, old(self)@.cursor.char_offset as int),
            ) {
                Notice::Edit
            } else {
                Notice::Nothing
            }),
    {
        let o = self.cursor.char_offset;
        let ls = line_start_of(self.content.as_slice(), o);
        let ghost s = self@.content;
        proof {
            lemma_line_start_bounds(s, o as int);
        }
        if indent {
            let mut v: Vec<char> = Vec::new();
            push_range(&mut v, self.content.as_slice(), 0, ls);
            let mut i: usize = 0;
            while i < INDENT
                invariant
                    i <= INDENT,
                    v@ == s.take(ls as int) + indent_seq().take(i as int),
                decreases INDENT - i,
            {
                v.push(' ');
                assert(indent_seq().take(i + 1) =~= indent_seq().take(i as int).push(' '));
                i = i + 1;
            }
            push_range(&mut v, self.content.as_slice(), ls, self.content.len());
            proof {
                assert(indent_seq().take(INDENT as int) =~= indent_seq());
                assert(v@ =~= insert_text(s, ls as int, indent_seq()));
            }
            self.content = v;
            self.commit(o + INDENT);
            return Notice::Edit;
        }
        let le = line_end_of(self.content.as_slice(), o);
        let ghost ls_end = line_end(s, ls as int);
        proof {
            lemma_line_end_bounds(s, o as int);
            lemma_line_end_bounds(s, ls as int);
            lemma_line_end_same(s, ls as int, o as int);
        }
        if le - ls < INDENT {
            return Notice::Nothing;
        }
        let ghost pre = s.subrange(ls as int, ls + INDENT);
        let mut j: usize = 0;
        while j < INDENT
            invariant
                j <= INDENT,
                !indent,
                self@ == old(self)@,
                o == old(self)@.cursor.char_offset,
                ls == line_start(s, o as int),
                le == line_end(s, ls as int),
                self.wf(),
                ls + INDENT <= s.len(),
                s == self@.content,
                pre == s.subrange(ls as int, ls + INDENT),
                forall|q: int| 0 <= q < j ==> #[trigger] pre[q] == ' ',
            decreases INDENT - j,
        {
            if self.content[ls + j] != ' ' {
                proof {
                    assert(indent_seq()[j as int] == ' ');
                    assert(pre[j as int] != indent_seq()[j as int]);
                    assert(pre != indent_seq());
                    assert(!has_indent(s, ls as int));
                }
                return Notice::Nothing;
            }
            j = j + 1;
        }
        proof {
            assert(s.subrange(ls as int, ls + INDENT) =~= indent_seq());
        }
        let back = if o - ls < INDENT { o - ls } else { INDENT };
        let mut v: Vec<char> = Vec::new();
        push_range(&mut v, self.content.as_slice(), 0, ls);
        push_range(&mut v, self.content.as_slice(), ls + INDENT, self.content.len());
        proof {
            assert(v@ =~= s.take(ls as int) + s.skip(ls + INDENT));
        }
        self.content = v;
        self.commit(o - back);
        Notice::Edit
    }
}

impl EditArea {
    /// Swaps the cursor's line with the line above (`up` true) or below it. The cursor
    /// stays on the moved line, at the same offset within it. Nothing on the first line
    /// when moving up, nor on the last when moving down.
    #[verifier::spinoff_prover]
    #[verifier::rlimit(60)]
    pub fn move_line(&mut self, up: bool) -> (r: Notice)
        requires
            old(self).wf(),
        ensures
            final(self).wf(),
            up ==> final(self)@ == line_moved_up(old(self)@),
            !up ==> final(self)@ == line_moved_down(old(self)@),
            r == (if final(self)@.content == old(self)@.content {
                Notice::Nothing
            } else {
                Notice::Edit
            }),
    {
        let o = self.cursor.char_offset;
        let ghost s = self@.content;
        let ls = line_start_of(self.content.as_slice(), o);
        let e = line_end_of(self.content.as_slice(), o);
        proof {
            lemma_line_start_bounds(s, o as int);
            lemma_line_end_bounds(s, o as int);
        }
        let mut v: Vec<char> = Vec::new();
        let t;
        if up {
            if ls == 0 {
                return Notice::Nothing;
            }
            let a = line_start_of(self.content.as_slice(), ls - 1);
            push_range(&mut v, self.content.as_slice(), 0, a);
            push_range(&mut v, self.content.as_slice(), ls, e);
            v.push('\n');
            push_range(&mut v, self.content.as_slice(), a, ls - 1);
            push_range(&mut v, self.content.as_slice(), e, self.content.len());
            proof {
                assert(v@ =~= swap_up(s, o as int));
            }
            t = a + (o - ls);
        } else {
            if e >= self.content.len() {
                return Notice::Nothing;
            }
            let ne = line_end_of(self.content.as_slice(), e + 1);
            push_range(&mut v, self.content.as_slice(), 0, ls);
            push_range(&mut v, self.content.as_slice(), e + 1, ne);
            v.push('\n');
            push_range(&mut v, self.content.as_slice(), ls, e);
            push_range(&mut v, self.content.as_slice(), ne, self.content.len());
            proof {
                assert(v@ =~= swap_down(s, o as int));
            }
            t = ls + (ne - (e + 1)) + 1 + (o - ls);
        }
        let changed = !same_text(v.as_slice(), self.content.as_slice());
        self.content = v;
        self.commit(t);
        if changed {
            Notice::Edit
        } else {
            Notice::Nothing
        }
    }

    /// Places the cursor where a click at cell (`col`, `row`) of the content lands: the
    /// row is clamped to the last line, the gutter is taken off the column, and chars of
    /// the line are taken until the next would pass the column.
    pub fn click(&mut self, col: usize, row: usize) -> (r: Notice)
        requires
            old(self).wf(),
        ensures
            final(self).wf(),
            final(self)@ == clicked(old(self)@, col as nat, row as nat),
            r == Notice::Interact,
    {
        let s = self.content.as_slice();
        let last = char_to_line_of(s, s.len());
        proof {
            assert(s@.take(s@.len() as int) =~= s@);
            crate::text::lemma_newlines_bound(s@, s@.len() as int);
        }
        let r = if row > last { last } else { row };
        let ls = line_to_char_of(s, r);
        let le = line_end_of(s, ls);
        let g = digits_of(last + 1) + 1;
        let x = if col >= g { col - g } else { 0 };
        let t = ls + fit_prefix(s, ls, le, x);
        self.place(t);
        Notice::Interact
    }

    /// Size the content needs: the widest line plus, while the area is enabled, the
    /// gutter; and the number of lines. The width saturates at `usize::MAX`.
    pub fn required_size(&self) -> (r: (usize, usize))
        requires
            self.wf(),
        ensures
            r.0 == (if self@.max_width + shown_gutter(self@) > usize::MAX {
                usize::MAX as int
            } else {
                (self@.max_width + shown_gutter(self@)) as int
            }),
            r.1 == len_lines(self@.content),
    {
        let s = self.content.as_slice();
        let last = char_to_line_of(s, s.len());
        proof {
            assert(s@.take(s@.len() as int) =~= s@);
            crate::text::lemma_newlines_bound(s@, s@.len() as int);
        }
        let g = if self.enabled { digits_of(last + 1) + 1 } else { 0 };
        let w = if self.max_width > usize::MAX - g { usize::MAX } else { self.max_width + g };
        (w, last + 1)
    }
}

/// An input event, as the edit area sees it.
pub enum EditEvent {
    /// A typed char.
    Char(char),
    Enter,
    Backspace,
    Delete,
    Up,
    Down,
    Left,
    Right,
    PageUp,
    PageDown,
    /// To the start of the cursor's line.
    Home,
    /// To the end of the cursor's line.
    End,
    /// To the start of the buffer.
    DocStart,
    /// To the end of the buffer.
    DocEnd,
    /// A click at a cell (column, row) of the content, gutter included.
    Click(usize, usize),
    Copy,
    Cut,
    /// Paste of the given clipboard text.
    Paste(String),
    LineUp,
    LineDown,
    Indent,
    Outdent,
}

/// What handling an event came to.
pub enum Outcome {
    /// The event was not for this area.
    Ignored,
    /// The event was handled; the notice says what the host should hear.
    Consumed(Notice),
    /// The event was handled and this text goes to the clipboard.
    Clipboard(String, Notice),
}

/// State after an event, and the notice it gives (`None` when the event is ignored).
pub open spec fn event_result(v: AreaView, ev: EditEvent) -> (AreaView, Option<Notice>) {
    let s = v.content;
    let o = v.cursor.char_offset as int;
    if !v.enabled {
        (v, None)
    } else {
        match ev {
            EditEvent::Char(c) => if s.len() < MAX_CHARS {
                (inserted(v, c), Some(Notice::Edit))
            } else {
                (v, None)
            },
            EditEvent::Enter => if s.len() < MAX_CHARS {
                (inserted(v, '\n'), Some(Notice::Edit))
            } else {
                (v, None)
            },
            EditEvent::Backspace => if o > 0 {
                (backspaced(v), Some(Notice::Edit))
            } else {
                (v, None)
            },
            EditEvent::Delete => if o < s.len() {
                (deleted(v), Some(Notice::Edit))
            } else {
                (v, None)
            },
            EditEvent::Up => (
                moved_up(v),
                Some(if line_start(s, o) == 0 { Notice::Nothing } else { Notice::Interact }),
            ),
            EditEvent::Down => (
                moved_down(v),
                Some(if line_end(s, o) >= s.len() { Notice::Nothing } else { Notice::Interact }),
            ),
            EditEvent::Left => (
                moved_left(v),
                Some(if o == 0 { Notice::Nothing } else { Notice::Interact }),
            ),
            EditEvent::Right => (
                moved_right(v),
                Some(if o >= s.len() { Notice::Nothing } else { Notice::Interact }),
            ),
            EditEvent::PageUp => (paged_up(v), Some(Notice::Interact)),
            EditEvent::PageDown => (paged_down(v), Some(Notice::Interact)),
            EditEvent::Home => (moved_to_bound(v, false), Some(Notice::Interact)),
            EditEvent::End => (moved_to_bound(v, true), Some(Notice::Interact)),
            EditEvent::DocStart => (placed(v, s, 0), Some(Notice::Interact)),
            EditEvent::DocEnd => (placed(v, s, s.len() as int), Some(Notice::Interact)),
            EditEvent::Click(col, row) => (
                clicked(v, col as nat, row as nat),
                Some(Notice::Interact),
            ),
            EditEvent::Copy => (v, Some(Notice::Nothing)),
            EditEvent::Cut => (
                cut_view(v),
                Some(if cut_changes(v) { Notice::Edit } else { Notice::Nothing }),
            ),
            EditEvent::Paste(t) => if s.len() + t@.len() <= MAX_CHARS {
                (pasted(v, t@), Some(if t@.len() == 0 { Notice::Nothing } else { Notice::Edit }))
            } else {
                (v, None)
            },
            EditEvent::LineUp => {
                let n = line_moved_up(v);
                (n, Some(if n.content == s { Notice::Nothing } else { Notice::Edit }))
            },
            EditEvent::LineDown => {
                let n = line_moved_down(v);
                (n, Some(if n.content == s { Notice::Nothing } else { Notice::Edit }))
            },
            EditEvent::Indent => if s.len() + INDENT <= MAX_CHARS {
                (indented(v), Some(Notice::Edit))
            } else {
                (v, None)
            },
            EditEvent::Outdent => (
                outdented(v),
                Some(if has_indent(s, line_start(s, o)) { Notice::Edit } else { Notice::Nothing }),
            ),
        }
    }
}

/// Whether the event hands text to the clipboard when the area is enabled.
pub open spec fn to_clipboard(ev: EditEvent) -> bool {
    ev is Copy || ev is Cut
}

impl EditArea {
    /// Handles one input event: applies the operation it stands for and says which
    /// notice the host should get.
    #[verifier::spinoff_prover]
    #[verifier::rlimit(100)]
    pub fn on_event(&mut self, ev: EditEvent) -> (r: Outcome)
        requires
            old(self).wf(),
        ensures
            final(self).wf(),
            final(self)@ == event_result(old(self)@, ev).0,
            match r {
                Outcome::Ignored => event_result(old(self)@, ev).1 is None,
                Outcome::Consumed(n) => event_result(old(self)@, ev).1 == Some(n)
                    && !to_clipboard(ev),
                Outcome::Clipboard(t, n) => event_result(old(self)@, ev).1 == Some(n)
                    && to_clipboard(ev) && t@ == line_text(
                    old(self)@.content,
                    old(self)@.cursor.char_offset as int,
                ),
            },
            old(self)@.enabled && to_clipboard(ev) ==> r is Clipboard,
    {
        if !self.enabled {
            return Outcome::Ignored;
        }
        let o = self.cursor.char_offset;
        let len = self.content.len();
        match ev {
            EditEvent::Char(c) => {
                if len < MAX_CHARS {
                    Outcome::Consumed(self.insert(c))
                } else {
                    Outcome::Ignored
                }
            },
            EditEvent::Enter => {
                if len < MAX_CHARS {
                    Outcome::Consumed(self.insert('\n'))
                } else {
                    Outcome::Ignored
                }
            },
            EditEvent::Backspace => {
                if o > 0 {
                    Outcome::Consumed(self.backspace())
                } else {
                    Outcome::Ignored
                }
            },
            EditEvent::Delete => {
                if o < len {
                    Outcome::Consumed(self.delete())
                } else {
                    Outcome::Ignored
                }
            },
            EditEvent::Up => Outcome::Consumed(self.move_up()),
            EditEvent::Down => Outcome::Consumed(self.move_down()),
            EditEvent::Left => Outcome::Consumed(self.move_left()),
            EditEvent::Right => Outcome::Consumed(self.move_right()),
            EditEvent::PageUp => Outcome::Consumed(self.page_up()),
            EditEvent::PageDown => Outcome::Consumed(self.page_down()),
            EditEvent::Home => Outcome::Consumed(self.move_cursor_end(false)),
            EditEvent::End => Outcome::Consumed(self.move_cursor_end(true)),
            EditEvent::DocStart => Outcome::Consumed(self.set_from_char_offset(0)),
            EditEvent::DocEnd => Outcome::Consumed(self.set_from_char_offset(len)),
            EditEvent::Click(col, row) => Outcome::Consumed(self.click(col, row)),
            EditEvent::Copy => Outcome::Clipboard(self.copy(), Notice::Nothing),
            EditEvent::Cut => {
                let (t, n) = self.cut();
                Outcome::Clipboard(t, n)
            },
            EditEvent::Paste(t) => {
                let text = t.as_str();
                if text.unicode_len() <= MAX_CHARS - len {
                    Outcome::Consumed(self.paste(text))
                } else {
                    Outcome::Ignored
                }
            },
            EditEvent::LineUp => Outcome::Consumed(self.move_line(true)),
            EditEvent::LineDown => Outcome::Consumed(self.move_line(false)),
            EditEvent::Indent => {
                if len + INDENT <= MAX_CHARS {
                    Outcome::Consumed(self.tabulator(true))
                } else {
                    Outcome::Ignored
                }
            },
            EditEvent::Outdent => Outcome::Consumed(self.tabulator(false)),
        }
    }
}

impl EditArea {
    /// The text of line `i`, without its newline; `i` must be below the line count.
    pub fn line(&self, i: usize) -> (r: String)
        requires
            i < len_lines(self@.content),
        ensures
            r@ == self@.content.subrange(
                line_to_char(self@.content, i as int),
                line_end(self@.content, line_to_char(self@.content, i as int)),
            ),
    {
        let s = self.content.as_slice();
        let k = line_to_char_of(s, i);
        let e = line_end_of(s, k);
        let mut v: Vec<char> = Vec::new();
        push_range(&mut v, s, k, e);
        string_of(v.as_slice())
    }

    /// The text from the cursor to the end of its line, newline excluded: what the caret
    /// is drawn over.
    pub fn rest_of_line(&self) -> (r: String)
        requires
            self.wf(),
        ensures
            r@ == self@.content.subrange(
                self@.cursor.char_offset as int,
                line_end(self@.content, self@.cursor.char_offset as int),
            ),
    {
        let s = self.content.as_slice();
        let o = self.cursor.char_offset;
        let e = line_end_of(s, o);
        let mut v: Vec<char> = Vec::new();
        push_range(&mut v, s, o, e);
        string_of(v.as_slice())
    }

    /// Width of the line-number gutter.
    pub fn gutter_width(&self) -> (r: usize)
        requires
            self.wf(),
        ensures
            r == gutter(self@.content),
    {
        let s = self.content.as_slice();
        let last = char_to_line_of(s, s.len());
        proof {
            assert(s@.take(s@.len() as int) =~= s@);
            crate::text::lemma_newlines_bound(s@, s@.len() as int);
        }
        digits_of(last + 1) + 1
    }

    /// The lines the viewport shows: from the first visible line up to, not including,
    /// the second number.
    pub fn visible_lines(&self) -> (r: (usize, usize))
        requires
            self.wf(),
        ensures
            r.0 == self@.scroll_y,
            r.1 == (if self@.scroll_y + self@.height < len_lines(self@.content) {
                self@.scroll_y + self@.height
            } else if self@.scroll_y < len_lines(self@.content) {
                len_lines(self@.content) as int
            } else {
                self@.scroll_y as int
            }),
    {
        let s = self.content.as_slice();
        let last = char_to_line_of(s, s.len());
        proof {
            assert(s@.take(s@.len() as int) =~= s@);
            crate::text::lemma_newlines_bound(s@, s@.len() as int);
        }
        let n = last + 1;
        let y = self.scroll_y;
        let end = if y < n {
            if self.height < n - y { y + self.height } else { n }
        } else {
            y
        };
        (y, end)
    }
}

} // verus!
