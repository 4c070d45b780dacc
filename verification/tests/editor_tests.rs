use tally::editor::{Buffer, Pos, Selection};

#[test]
fn test_basic_editing() {
    let mut buf = Buffer::from_string("hello world");
    assert_eq!(buf.lines, vec!["hello world"]);
    buf.cursor = Pos::new(0, 5);
    buf.insert_char('!');
    assert_eq!(buf.lines[0], "hello! world");
}

#[test]
fn test_enter_splits_line() {
    let mut buf = Buffer::from_string("hello world");
    buf.cursor = Pos::new(0, 5);
    buf.enter();
    assert_eq!(buf.lines, vec!["hello", " world"]);
}

#[test]
fn test_backspace_joins_lines() {
    let mut buf = Buffer::from_string("hello\nworld");
    buf.cursor = Pos::new(1, 0);
    buf.backspace();
    assert_eq!(buf.lines, vec!["helloworld"]);
    assert_eq!(buf.cursor, Pos::new(0, 5));
}

#[test]
fn test_multiline_selection() {
    let mut buf = Buffer::from_string("aaa\nbbb\nccc");
    buf.selection = Some(Selection {
        anchor: Pos::new(0, 1),
        cursor: Pos::new(2, 2),
    });
    buf.cursor = Pos::new(2, 2);
    let text = buf.selected_text().unwrap();
    assert_eq!(text, "aa\nbbb\ncc");
}

#[test]
fn test_delete_multiline_selection() {
    let mut buf = Buffer::from_string("aaa\nbbb\nccc");
    buf.selection = Some(Selection {
        anchor: Pos::new(0, 1),
        cursor: Pos::new(2, 2),
    });
    buf.cursor = Pos::new(2, 2);
    buf.delete_selection();
    assert_eq!(buf.lines, vec!["ac"]);
    assert_eq!(buf.cursor, Pos::new(0, 1));
}

#[test]
fn test_smart_enter_list() {
    let mut buf = Buffer::from_string("- hello");
    buf.cursor = Pos::new(0, 7);
    buf.enter();
    assert_eq!(buf.lines, vec!["- hello", "- "]);
    assert_eq!(buf.cursor.col, 2);
}

#[test]
fn test_undo_redo() {
    let mut buf = Buffer::from_string("hello");
    buf.cursor = Pos::new(0, 5);
    buf.force_undo_snapshot();
    buf.insert_char('!');
    assert_eq!(buf.lines[0], "hello!");
    buf.undo();
    assert_eq!(buf.lines[0], "hello");
    buf.redo();
    assert_eq!(buf.lines[0], "hello!");
}
