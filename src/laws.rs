//! Properties that relate several operations of the edit area.
use vstd::prelude::*;
use crate::cursor::cursor_at;
use crate::edit_area::{
    cut_view, keep_row, line_moved_down, line_moved_up, moved_left, moved_right, placed,
    view_wf, AreaView, lemma_line_end_bounds, lemma_line_start_bounds,
};
use crate::text::{
    byte_len, byte_to_char, insert_text, lemma_line_end_at, lemma_line_start_at, line_end,
    line_start, removed_range,
};

verus! {

proof fn lemma_keep_row_twice(y: usize, h: usize, row: usize)
    ensures
        keep_row(keep_row(y, h, row), h, row) == keep_row(y, h, row),
{
}

/// Placing the cursor at the byte offset `b` twice leaves the same state, so the host
/// hears the same cursor, content and scroll offset both times.
pub proof fn lemma_set_byte_offset_idempotent(v: AreaView, b: int)
    ensures
        ({
            let once = placed(v, v.content, byte_to_char(v.content, b));
            placed(once, once.content, byte_to_char(once.content, b)) == once
        }),
{
    let o = byte_to_char(v.content, b);
    lemma_keep_row_twice(v.scroll_y, v.height, cursor_at(v.content, o).row);
    lemma_keep_row_twice(v.scroll_x, v.width, cursor_at(v.content, o).column);
}

/// Inserting a text and then removing the same span restores the buffer, and with it
/// its char and byte lengths.
pub proof fn lemma_insert_remove_round_trip(s: Seq<char>, o: int, t: Seq<char>)
    requires
        0 <= o <= s.len(),
    ensures
        removed_range(insert_text(s, o, t), o, o + t.len()) == s,
        removed_range(insert_text(s, o, t), o, o + t.len()).len() == s.len(),
        byte_len(removed_range(insert_text(s, o, t), o, o + t.len())) == byte_len(s),
{
    assert(removed_range(insert_text(s, o, t), o, o + t.len()) =~= s);
}

/// Moving left and then right from an offset past the start returns the cursor to where
/// it was, on unchanged content.
pub proof fn lemma_left_then_right(v: AreaView)
    requires
        view_wf(v),
        v.cursor.char_offset > 0,
    ensures
        moved_right(moved_left(v)).cursor == v.cursor,
        moved_right(moved_left(v)).content == v.content,
{
}

/// Cutting the only line of a buffer without newlines empties the buffer and puts the
/// cursor at offset 0.
pub proof fn lemma_cut_single_line(v: AreaView)
    requires
        view_wf(v),
        forall|i: int| 0 <= i < v.content.len() ==> v.content[i] != '\n',
    ensures
        cut_view(v).content.len() == 0,
        cut_view(v).cursor.char_offset == 0,
{
    let s = v.content;
    let o = v.cursor.char_offset as int;
    lemma_line_start_bounds(s, o);
    lemma_line_end_bounds(s, o);
    lemma_no_newline_start(s, o);
    lemma_no_newline_end(s, o);
    assert(s.take(0) + s.skip(s.len() as int) =~= Seq::<char>::empty());
}

proof fn lemma_no_newline_start(s: Seq<char>, o: int)
    requires
        0 <= o <= s.len(),
        forall|i: int| 0 <= i < s.len() ==> s[i] != '\n',
    ensures
        line_start(s, o) == 0,
    decreases o,
{
    if o > 0 {
        lemma_no_newline_start(s, o - 1);
    }
}

proof fn lemma_no_newline_end(s: Seq<char>, o: int)
    requires
        0 <= o <= s.len(),
        forall|i: int| 0 <= i < s.len() ==> s[i] != '\n',
    ensures
        line_end(s, o) == s.len(),
    decreases s.len() - o,
{
    if o < s.len() {
        lemma_no_newline_end(s, o + 1);
    }
}

/// Moving the cursor's line up and then down again restores the content exactly,
/// the last line's missing newline included, and puts the cursor back where it was.
/// This holds wherever moving up does something: the cursor is not on the first line.
pub proof fn lemma_move_line_up_down(v: AreaView)
    requires
        view_wf(v),
        line_start(v.content, v.cursor.char_offset as int) > 0,
    ensures
        line_moved_down(line_moved_up(v)).content == v.content,
        line_moved_down(line_moved_up(v)).cursor == v.cursor,
{
    let s = v.content;
    let o = v.cursor.char_offset as int;
    let ls = line_start(s, o);
    let e = line_end(s, o);
    lemma_line_start_bounds(s, o);
    lemma_line_end_bounds(s, o);
    let a = line_start(s, ls - 1);
    lemma_line_start_bounds(s, ls - 1);
    let n = crate::edit_area::swap_up(s, o);
    let o1 = a + (o - ls);
    let e1 = a + (e - ls);
    assert(n.len() == s.len());
    assert forall|i: int| 0 <= i < a implies n[i] == s[i] by {}
    assert forall|i: int| a <= i < e1 implies n[i] == s[ls + i - a] by {}
    assert(n[e1] == '\n');
    assert forall|i: int| e1 + 1 <= i < e implies n[i] == s[a + i - e1 - 1] by {}
    assert forall|i: int| e <= i < n.len() implies n[i] == s[i] by {}
    assert forall|j: int| a <= j < o1 implies n[j] != '\n' by {
        assert(n[j] == s[ls + j - a]);
    }
    lemma_line_start_at(n, a, o1);
    assert forall|j: int| o1 <= j < e1 implies n[j] != '\n' by {
        assert(n[j] == s[ls + j - a]);
    }
    lemma_line_end_at(n, o1, e1);
    assert forall|j: int| e1 + 1 <= j < e implies n[j] != '\n' by {
        assert(n[j] == s[a + j - e1 - 1]);
    }
    lemma_line_end_at(n, e1 + 1, e);
    let v1 = line_moved_up(v);
    assert(v1 == placed(v, n, o1));
    assert(v1.content == n);
    assert(v1.cursor.char_offset == o1);
    assert(crate::edit_area::swap_down(n, o1) =~= s);
}

} // verus!
