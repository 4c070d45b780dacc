use chrono::{Datelike, NaiveDate};
use tally::editor::{batches, Buffer, Pos, Selection};
use tally::finished::{complete_item, find_date_insert_position, recover_item, Date};

#[test]
fn load_after_save_keeps_lines() {
    let mut b = Buffer::from_string("# Todo\n\n- one\n  - two");
    b.cursor = Pos::new(2, 5);
    b.insert_char('!');
    let saved = b.to_string();
    let again = Buffer::from_string(&saved);
    assert_eq!(again.lines, b.lines);
}

#[test]
fn save_after_load_keeps_text() {
    for s in ["", "a", "a\nb", "\n\nx", "tab\there\n- item"] {
        assert_eq!(Buffer::from_string(s).to_string(), s);
    }
}

#[test]
fn reload_drops_a_final_newline() {
    assert_eq!(Buffer::from_string("a\n").to_string(), "a");
}

#[test]
fn redo_after_undo_restores_text() {
    let mut b = Buffer::from_string("abc");
    b.cursor = Pos::new(0, 3);
    b.force_undo_snapshot();
    b.backspace();
    assert_eq!(b.lines, vec!["ab"]);
    b.undo();
    assert_eq!(b.lines, vec!["abc"]);
    b.redo();
    assert_eq!(b.lines, vec!["ab"]);
    b.undo();
    assert_eq!(b.lines, vec!["abc"]);
}

#[test]
fn undo_after_forward_delete() {
    let mut b = Buffer::from_string("ab\ncd");
    b.cursor = Pos::new(0, 2);
    b.force_undo_snapshot();
    b.delete();
    assert_eq!(b.lines, vec!["abcd"]);
    b.undo();
    assert_eq!(b.lines, vec!["ab", "cd"]);
}

#[test]
fn select_all_selects_whole_text() {
    let mut b = Buffer::from_string("one\ntwo\nthree");
    b.select_all();
    assert_eq!(b.selected_text().as_deref(), Some("one\ntwo\nthree"));
    let mut e = Buffer::from_string("");
    e.select_all();
    assert_eq!(e.selected_text(), None);
}

#[test]
fn search_lands_on_match() {
    let b = Buffer::from_string("Hello\nworld HELLO");
    let p = b.find_next("hello", Pos::new(0, 1)).unwrap();
    assert_eq!(p, Pos::new(1, 6));
    let line = b.lines[p.line].to_lowercase();
    assert_eq!(&line[p.col..p.col + 5], "hello");
    assert_eq!(b.find_prev("hello", Pos::new(1, 3)), Some(Pos::new(0, 0)));
    assert_eq!(b.find_next("", Pos::new(0, 0)), None);
}

#[test]
fn recover_after_complete_gives_item_back() {
    let d = Date { days_from_ce: NaiveDate::from_ymd_opt(2024, 2, 1).unwrap().num_days_from_ce() };
    let mut todo = Buffer::from_string("- Home\n  - paint (blue) wall");
    let mut fin = Buffer::from_string("");
    todo.cursor = Pos::new(1, 0);
    assert!(complete_item(&mut todo, &mut fin, d));
    let at = fin.lines.iter().position(|l| l.starts_with("- paint")).unwrap();
    assert!(fin.lines[..at].contains(&"## 2024-02-01".to_string()));
    fin.cursor = Pos::new(at, 0);
    assert!(recover_item(&mut fin, &mut todo));
    assert_eq!(todo.lines, vec!["- Home", "- paint (blue) wall"]);
}

#[test]
fn recover_strips_an_own_paren_group_without_breadcrumb() {
    let mut fin = Buffer::from_string("- buy (milk)");
    let mut todo = Buffer::from_string("");
    assert!(recover_item(&mut fin, &mut todo));
    assert_eq!(todo.lines, vec!["- buy"]);
}

#[test]
fn paste_after_cut_restores_text() {
    let mut b = Buffer::from_string("abc\ndef\nghi");
    b.selection = Some(Selection { anchor: Pos::new(2, 1), cursor: Pos::new(0, 2) });
    let cut = b.delete_selection().unwrap();
    assert_eq!(cut, "c\ndef\ng");
    assert_eq!(b.lines, vec!["abhi"]);
    b.insert_str(&cut);
    assert_eq!(b.lines, vec!["abc", "def", "ghi"]);
    assert_eq!(b.cursor, Pos::new(2, 1));
    assert!(b.selection.is_none());
    assert!(b.dirty);
}

#[test]
fn new_day_header_goes_before_older_days() {
    let lines: Vec<String> =
        ["## 2024-01-09", "- a", "", "## 2024-01-05", "- b"].iter().map(|s| s.to_string()).collect();
    let d = |y: i32, m: u32, dd: u32| Date { days_from_ce: NaiveDate::from_ymd_opt(y, m, dd).unwrap().num_days_from_ce() };
    assert_eq!(find_date_insert_position(&lines, d(2024, 1, 10)), 0);
    assert_eq!(find_date_insert_position(&lines, d(2024, 1, 7)), 3);
    assert_eq!(find_date_insert_position(&lines, d(2024, 1, 1)), 5);
}

#[test]
fn outdent_after_indent_restores_line() {
    let mut b = Buffer::from_string("x\n- item");
    b.cursor = Pos::new(1, 3);
    b.indent_line();
    assert_eq!(b.lines, vec!["x", "  - item"]);
    b.outdent_line();
    assert_eq!(b.lines, vec!["x", "- item"]);
    assert_eq!(b.cursor, Pos::new(1, 3));
}

#[test]
fn edits_batch_within_three_hundred_ms() {
    assert!(batches(0, 1));
    assert!(batches(299, 4));
    assert!(!batches(300, 4));
    assert!(!batches(10, 0));
}

#[test]
fn empty_selection_is_deleted_as_nothing_wherever_it_lies() {
    let mut b = Buffer::from_string("ab");
    b.selection = Some(Selection { anchor: Pos::new(7, 9), cursor: Pos::new(7, 9) });
    assert_eq!(b.selected_text(), None);
    assert_eq!(b.delete_selection(), None);
    assert_eq!(b.lines, vec!["ab"]);
    assert!(!b.dirty);
}
