use editor_core::{EditArea, EditEvent, Notice, Outcome};

fn area(text: &str, offset: usize) -> EditArea {
    let mut a = EditArea::new();
    a.set_content(text);
    a.set_from_char_offset(offset);
    a
}

#[test]
fn move_line_up_scenario() {
    let mut a = area("ab\ncd\nef", 4);
    assert_eq!(a.move_line(true), Notice::Edit);
    assert_eq!(a.get_content(), "cd\nab\nef");
    let c = a.cursor();
    assert_eq!(c.char_offset, 1);
    assert_eq!(c.row, 0);
    assert_eq!(a.get_content().chars().nth(c.char_offset), Some('d'));
}

#[test]
fn tabulator_indent_scenario() {
    let mut a = area("hello", 5);
    assert_eq!(a.tabulator(true), Notice::Edit);
    assert_eq!(a.get_content(), "    hello");
    assert_eq!(a.cursor().char_offset, 9);
    assert_eq!(a.cursor().byte_offset, 9);
}

#[test]
fn insert_sequence_scenario() {
    let mut a = EditArea::new();
    a.insert('x');
    a.insert('\n');
    a.insert('y');
    assert_eq!(a.get_content(), "x\ny");
    assert_eq!(a.required_size().1, 2);
    let c = a.cursor();
    assert_eq!(c.char_offset, 3);
    assert_eq!(c.row, 1);
    assert_eq!(c.column, 1);
}

#[test]
fn cut_first_line_scenario() {
    let mut a = area("line1\nline2", 0);
    let (clip, notice) = a.cut();
    assert_eq!(clip, "line1\n");
    assert_eq!(notice, Notice::Edit);
    assert_eq!(a.get_content(), "line2");
    assert_eq!(a.cursor().char_offset, 0);
}

#[test]
fn cut_only_line_empties_buffer() {
    let mut a = area("hello", 2);
    let (clip, notice) = a.cut();
    assert_eq!(clip, "hello\n");
    assert_eq!(notice, Notice::Edit);
    assert_eq!(a.get_content(), "");
    assert_eq!(a.cursor().char_offset, 0);
    assert_eq!(a.cursor().byte_offset, 0);
}

#[test]
fn cut_empty_last_line_changes_nothing() {
    let mut a = area("ab\n", 3);
    let (clip, notice) = a.cut();
    assert_eq!(clip, "\n");
    assert_eq!(notice, Notice::Nothing);
    assert_eq!(a.get_content(), "ab\n");
}

#[test]
fn cut_last_line_keeps_previous_newline() {
    let mut a = area("a\nb", 2);
    a.cut();
    assert_eq!(a.get_content(), "a\n");
    assert_eq!(a.cursor().char_offset, 2);
}

#[test]
fn left_then_right_round_trip() {
    for o in 1..8 {
        let mut a = area("ab\nc€d\n", o);
        let before = a.cursor();
        assert_eq!(a.move_left(), Notice::Interact);
        assert_eq!(a.move_right(), Notice::Interact);
        assert_eq!(a.cursor(), before);
        assert_eq!(a.get_content(), "ab\nc€d\n");
    }
}

#[test]
fn left_at_start_and_right_at_end_do_nothing() {
    let mut a = area("ab", 0);
    assert_eq!(a.move_left(), Notice::Nothing);
    assert_eq!(a.cursor().char_offset, 0);
    a.set_from_char_offset(2);
    assert_eq!(a.move_right(), Notice::Nothing);
    assert_eq!(a.cursor().char_offset, 2);
}

#[test]
fn move_line_up_then_down_round_trip() {
    for o in 4..=13 {
        let text = "one\ntwo\nthree";
        let mut a = area(text, o);
        let before = a.cursor();
        a.move_line(true);
        a.move_line(false);
        assert_eq!(a.get_content(), text);
        assert_eq!(a.cursor(), before);
    }
}

#[test]
fn move_last_line_up_adds_its_newline() {
    let mut a = area("one\ntwo\nthree", 9);
    a.move_line(true);
    assert_eq!(a.get_content(), "one\nthree\ntwo");
    assert_eq!(a.cursor().char_offset, 5);
    assert_eq!(a.cursor().row, 1);
}

#[test]
fn move_line_at_bounds_does_nothing() {
    let mut a = area("ab\ncd", 1);
    assert_eq!(a.move_line(true), Notice::Nothing);
    assert_eq!(a.get_content(), "ab\ncd");
    a.set_from_char_offset(4);
    assert_eq!(a.move_line(false), Notice::Nothing);
    assert_eq!(a.get_content(), "ab\ncd");
}

#[test]
fn move_line_down_scenario() {
    let mut a = area("ab\ncd\nef", 1);
    assert_eq!(a.move_line(false), Notice::Edit);
    assert_eq!(a.get_content(), "cd\nab\nef");
    assert_eq!(a.cursor().char_offset, 4);
}

#[test]
fn move_line_between_equal_lines_reports_nothing() {
    let mut a = area("a\na", 2);
    assert_eq!(a.move_line(true), Notice::Nothing);
    assert_eq!(a.get_content(), "a\na");
    assert_eq!(a.cursor().char_offset, 0);
}

#[test]
fn set_byte_offset_twice_is_idempotent() {
    let mut a = area("a€b\ncd", 0);
    let n1 = a.set_from_byte_offset(5);
    let first = (a.cursor(), a.scroll(), a.get_content());
    let n2 = a.set_from_byte_offset(5);
    let second = (a.cursor(), a.scroll(), a.get_content());
    assert_eq!(n1, Notice::Interact);
    assert_eq!(n1, n2);
    assert_eq!(first, second);
    assert_eq!(first.0.char_offset, 3);
    assert_eq!(first.0.byte_offset, 5);
}

#[test]
fn byte_offset_inside_char_rounds_up() {
    let mut a = area("é", 0);
    a.set_from_byte_offset(1);
    assert_eq!(a.cursor().char_offset, 1);
    assert_eq!(a.cursor().byte_offset, 2);
    a.set_from_byte_offset(100);
    assert_eq!(a.cursor().char_offset, 1);
}

#[test]
fn insert_advances_bytes_by_utf8_length() {
    let mut a = EditArea::new();
    a.insert('é');
    assert_eq!(a.cursor().byte_offset, 2);
    a.insert('😀');
    assert_eq!(a.cursor().byte_offset, 6);
    assert_eq!(a.cursor().char_offset, 2);
}

#[test]
fn column_counts_display_cells() {
    let a = area("中a", 1);
    assert_eq!(a.cursor().column, 2);
    let b = area("xy\n中a", 5);
    assert_eq!(b.cursor().column, 3);
    assert_eq!(b.cursor().row, 1);
}

#[test]
fn vertical_moves_keep_column_when_possible() {
    let mut a = area("abcd\nab\nabcd", 3);
    assert_eq!(a.move_down(), Notice::Interact);
    assert_eq!(a.cursor().char_offset, 7);
    assert_eq!(a.move_down(), Notice::Interact);
    assert_eq!(a.cursor().char_offset, 10);
    assert_eq!(a.move_down(), Notice::Nothing);
    assert_eq!(a.move_up(), Notice::Interact);
    assert_eq!(a.cursor().char_offset, 7);
    a.set_from_char_offset(1);
    assert_eq!(a.move_up(), Notice::Nothing);
    assert_eq!(a.cursor().char_offset, 1);
}

#[test]
fn page_moves_step_five_lines() {
    let mut a = area("0\n1\n2\n3\n4\n5\n6", 0);
    assert_eq!(a.page_down(), Notice::Interact);
    assert_eq!(a.cursor().row, 5);
    assert_eq!(a.page_down(), Notice::Interact);
    assert_eq!(a.cursor().row, 6);
    assert_eq!(a.page_up(), Notice::Interact);
    assert_eq!(a.cursor().row, 1);
}

#[test]
fn line_bounds() {
    let mut a = area("ab\ncd", 4);
    a.move_cursor_end(false);
    assert_eq!(a.cursor().char_offset, 3);
    a.move_cursor_end(true);
    assert_eq!(a.cursor().char_offset, 5);
    a.set_from_char_offset(1);
    a.move_cursor_end(true);
    assert_eq!(a.cursor().char_offset, 2);
}

#[test]
fn click_maps_cells_to_offsets() {
    let mut a = area("abc\ndef", 0);
    assert_eq!(a.click(3, 1), Notice::Interact);
    assert_eq!(a.cursor().char_offset, 5);
    a.click(0, 0);
    assert_eq!(a.cursor().char_offset, 0);
    a.click(50, 9);
    assert_eq!(a.cursor().char_offset, 7);
}

#[test]
fn copy_appends_newline() {
    let a = area("abc\ndef", 5);
    assert_eq!(a.copy(), "def\n");
    let b = area("abc\ndef", 1);
    assert_eq!(b.copy(), "abc\n");
}

#[test]
fn outdent_removes_leading_step() {
    let mut a = area("      ab", 2);
    assert_eq!(a.tabulator(false), Notice::Edit);
    assert_eq!(a.get_content(), "  ab");
    assert_eq!(a.cursor().char_offset, 0);
    assert_eq!(a.tabulator(false), Notice::Nothing);
    assert_eq!(a.get_content(), "  ab");
    let mut b = area("x\n    yz", 8);
    assert_eq!(b.tabulator(false), Notice::Edit);
    assert_eq!(b.get_content(), "x\nyz");
    assert_eq!(b.cursor().char_offset, 4);
}

#[test]
fn paste_inserts_at_cursor() {
    let mut a = area("ad", 1);
    assert_eq!(a.paste("bc"), Notice::Edit);
    assert_eq!(a.get_content(), "abcd");
    assert_eq!(a.cursor().char_offset, 3);
    assert_eq!(a.paste(""), Notice::Nothing);
    assert_eq!(a.get_content(), "abcd");
}

#[test]
fn delete_and_backspace() {
    let mut a = area("ab\ncd", 2);
    assert_eq!(a.delete(), Notice::Edit);
    assert_eq!(a.get_content(), "abcd");
    assert_eq!(a.backspace(), Notice::Edit);
    assert_eq!(a.get_content(), "acd");
    assert_eq!(a.cursor().char_offset, 1);
    a.set_from_char_offset(3);
    assert_eq!(a.delete(), Notice::Nothing);
    a.set_from_char_offset(0);
    assert_eq!(a.backspace(), Notice::Nothing);
}

#[test]
fn required_size_has_gutter() {
    let a = area("ab\nabcd", 0);
    assert_eq!(a.required_size(), (6, 2));
    let b = area("\n\n\n\n\n\n\n\n\n\nxyz", 0);
    assert_eq!(b.required_size(), (6, 11));
}

#[test]
fn viewport_keeps_cursor_row_visible() {
    let mut a = area("0\n1\n2\n3\n4", 0);
    a.set_height(2);
    a.on_event(EditEvent::DocEnd);
    assert_eq!(a.scroll(), (0, 3));
    a.on_event(EditEvent::Up);
    assert_eq!(a.scroll(), (0, 3));
    a.on_event(EditEvent::DocStart);
    assert_eq!(a.scroll(), (0, 0));
    assert_eq!(a.set_scroll(2, 1), Notice::Scroll);
    assert_eq!(a.scroll(), (2, 1));
}

#[test]
fn events_dispatch_to_operations() {
    let mut a = area("line\nnext", 0);
    match a.on_event(EditEvent::Copy) {
        Outcome::Clipboard(t, n) => {
            assert_eq!(t, "line\n");
            assert_eq!(n, Notice::Nothing);
        }
        _ => panic!("copy gives clipboard text"),
    }
    assert!(matches!(a.on_event(EditEvent::Backspace), Outcome::Ignored));
    assert!(matches!(a.on_event(EditEvent::Char('x')), Outcome::Consumed(Notice::Edit)));
    assert!(matches!(a.on_event(EditEvent::Enter), Outcome::Consumed(Notice::Edit)));
    assert_eq!(a.get_content(), "x\nline\nnext");
    assert!(matches!(a.on_event(EditEvent::Paste("yz".to_string())), Outcome::Consumed(Notice::Edit)));
    assert_eq!(a.get_content(), "x\nyzline\nnext");
    assert!(matches!(a.on_event(EditEvent::Indent), Outcome::Consumed(Notice::Edit)));
    assert_eq!(a.get_content(), "x\n    yzline\nnext");
    assert!(matches!(a.on_event(EditEvent::Outdent), Outcome::Consumed(Notice::Edit)));
    assert!(matches!(a.on_event(EditEvent::LineDown), Outcome::Consumed(Notice::Edit)));
    assert_eq!(a.get_content(), "x\nnext\nyzline");
    assert!(matches!(a.on_event(EditEvent::DocEnd), Outcome::Consumed(Notice::Interact)));
    assert!(matches!(a.on_event(EditEvent::Delete), Outcome::Ignored));
    match a.on_event(EditEvent::Cut) {
        Outcome::Clipboard(t, n) => {
            assert_eq!(t, "yzline\n");
            assert_eq!(n, Notice::Edit);
        }
        _ => panic!("cut gives clipboard text"),
    }
    assert_eq!(a.get_content(), "x\nnext\n");
}

#[test]
fn disabled_area_ignores_input() {
    let mut a = area("ab", 1);
    a.disable();
    assert!(!a.is_enabled());
    assert!(matches!(a.on_event(EditEvent::Char('x')), Outcome::Ignored));
    assert!(matches!(a.on_event(EditEvent::Left), Outcome::Ignored));
    assert_eq!(a.get_content(), "ab");
    assert_eq!(a.cursor().char_offset, 1);
    a.enable();
    assert!(a.is_enabled());
    assert!(matches!(a.on_event(EditEvent::Left), Outcome::Consumed(Notice::Interact)));
}

#[test]
fn set_content_clamps_cursor() {
    let mut a = area("abcdef", 6);
    assert_eq!(a.set_content("ab"), Notice::Edit);
    assert_eq!(a.cursor().char_offset, 2);
    let b = EditArea::new().content("xyz");
    assert_eq!(b.get_content(), "xyz");
    assert_eq!(b.cursor().char_offset, 0);
}

#[test]
fn set_cursor_recomputes_coordinates() {
    let mut a = area("ab\n€d", 0);
    let mut c = a.cursor();
    c.char_offset = 4;
    c.row = 0;
    assert_eq!(a.set_cursor(c), Notice::Interact);
    let got = a.cursor();
    assert_eq!(got.char_offset, 4);
    assert_eq!(got.row, 1);
    assert_eq!(got.byte_offset, 6);
    assert_eq!(got.column, 1);
}

#[test]
fn viewport_follows_cursor_column() {
    let mut a = area("abcdefgh\nab", 0);
    a.set_width(3);
    a.move_cursor_end(true);
    assert_eq!(a.scroll(), (6, 0));
    a.move_down();
    assert_eq!(a.cursor().char_offset, 11);
    assert_eq!(a.scroll(), (2, 0));
    a.move_cursor_end(false);
    assert_eq!(a.scroll(), (0, 0));
}

#[test]
fn width_cache_follows_edits() {
    let mut a = area("ab\nabcd", 2);
    assert_eq!(a.required_size(), (6, 2));
    a.insert('x');
    a.insert('y');
    assert_eq!(a.required_size(), (6, 2));
    a.insert('中');
    assert_eq!(a.required_size(), (8, 2));
    a.backspace();
    assert_eq!(a.required_size(), (6, 2));
    a.insert('\n');
    assert_eq!(a.get_content(), "abxy\n\nabcd");
    assert_eq!(a.required_size(), (6, 3));
}

#[test]
fn scroll_to_moves_minimally() {
    let mut a = area("0\n1\n2\n3\n4\n5", 0);
    a.set_width(4);
    a.set_height(2);
    assert_eq!(a.scroll_to(10, 4), Notice::Scroll);
    assert_eq!(a.scroll(), (7, 3));
    a.scroll_to(8, 3);
    assert_eq!(a.scroll(), (7, 3));
    a.scroll_to(1, 0);
    assert_eq!(a.scroll(), (1, 0));
}

#[test]
fn set_content_keeps_byte_offset() {
    let mut a = area("éa", 1);
    assert_eq!(a.cursor().byte_offset, 2);
    a.set_content("ab");
    assert_eq!(a.cursor().byte_offset, 2);
    assert_eq!(a.cursor().char_offset, 2);
    let mut b = area("aé", 1);
    assert_eq!(b.cursor().byte_offset, 1);
    b.set_content("éx");
    assert_eq!(b.cursor().byte_offset, 0);
    assert_eq!(b.cursor().char_offset, 0);
    let mut c = area("a€b", 3);
    assert_eq!(c.cursor().byte_offset, 5);
    c.set_content("€€");
    assert_eq!(c.cursor().byte_offset, 3);
    assert_eq!(c.cursor().char_offset, 1);
}

#[test]
fn disabled_area_needs_no_gutter() {
    let mut a = area("ab\nabcd", 0);
    a.disable();
    assert_eq!(a.required_size(), (4, 2));
    a.enable();
    assert_eq!(a.required_size(), (6, 2));
}

#[test]
fn click_keeps_wide_graphemes_whole() {
    let mut a = area("中文", 0);
    a.click(3, 0);
    assert_eq!(a.cursor().char_offset, 0);
    a.click(4, 0);
    assert_eq!(a.cursor().char_offset, 1);
}
