use editor_core::{BufferError, Entry, EntryType, TextBuffer, TreeEntry};

#[test]
fn char_byte_round_trip() {
    let b = TextBuffer::from_text("aé€😀\nb");
    let expected = [0, 1, 3, 6, 10, 11, 12];
    for o in 0..=b.len_chars() {
        let byte = b.char_to_byte(o);
        assert_eq!(byte, expected[o]);
        assert_eq!(b.byte_to_char(byte), o);
    }
    assert_eq!(b.len_bytes(), 12);
}

#[test]
fn insert_then_remove_round_trip() {
    let mut b = TextBuffer::from_text("ab\ncd");
    let bytes = b.len_bytes();
    assert_eq!(b.insert(2, "xy€"), Ok(()));
    assert_eq!(b.text(), "abxy€\ncd");
    assert_eq!(b.remove(2, 5), Ok(()));
    assert_eq!(b.text(), "ab\ncd");
    assert_eq!(b.len_chars(), 5);
    assert_eq!(b.len_bytes(), bytes);
}

#[test]
fn buffer_errors() {
    let mut b = TextBuffer::from_text("abc");
    assert_eq!(b.insert(4, "x"), Err(BufferError::OutOfBounds));
    assert_eq!(b.remove(2, 1), Err(BufferError::InvalidRange));
    assert_eq!(b.remove(1, 9), Err(BufferError::OutOfBounds));
    assert_eq!(b.text(), "abc");
}

#[test]
fn line_addressing() {
    let b = TextBuffer::from_text("ab\n\ncd");
    assert_eq!(b.len_lines(), 3);
    assert_eq!(b.line_to_char(0), 0);
    assert_eq!(b.line_to_char(1), 3);
    assert_eq!(b.line_to_char(2), 4);
    assert_eq!(b.char_to_line(5), 2);
    assert_eq!(b.line(0), "ab");
    assert_eq!(b.line(1), "");
    assert_eq!(b.line(2), "cd");
    let e = TextBuffer::from_text("");
    assert_eq!(e.len_lines(), 1);
    assert_eq!(e.len_bytes(), 0);
}

#[test]
fn entries_keep_their_text() {
    let f = Entry::file("src/main.rs".to_string());
    assert_eq!(f.str, "src/main.rs");
    assert_eq!(f.ty, EntryType::File);
    let c = Entry::command("info".to_string());
    assert_eq!(c.ty, EntryType::Command);
    let t = TreeEntry::default();
    assert_eq!(t.name, "");
    assert!(t.dir.is_none());
}
