use chrono::{Datelike, NaiveDate};
use tally::editor::{Buffer, Pos};
use tally::finished::{
    complete_item, fill_empty_days, fill_empty_days_checked, find_date_insert_position,
    insert_into_finished, migrate_inline_log, recover_item, Date, MAX_DAY, MIN_DAY,
};

fn day(y: i32, m: u32, d: u32) -> Date {
    Date { days_from_ce: NaiveDate::from_ymd_opt(y, m, d).unwrap().num_days_from_ce() }
}

#[test]
fn day_range_matches_chrono() {
    assert_eq!(NaiveDate::MIN.num_days_from_ce(), MIN_DAY);
    assert_eq!(NaiveDate::MAX.num_days_from_ce(), MAX_DAY);
}

#[test]
fn complete_item_files_with_breadcrumb() {
    let mut todo = Buffer::from_string("- Work\n  - Backend\n    - Fix bug");
    let mut fin = Buffer::from_string("");
    todo.cursor = Pos::new(2, 3);
    assert!(complete_item(&mut todo, &mut fin, day(2024, 1, 5)));
    assert_eq!(todo.lines, vec!["- Work", "  - Backend"]);
    assert_eq!(todo.cursor, Pos::new(1, 3));
    assert!(todo.dirty);
    assert_eq!(fin.lines, vec!["## 2024-01-05", "- Fix bug (Work > Backend)"]);
}

#[test]
fn complete_item_under_existing_header() {
    let mut todo = Buffer::from_string("- task");
    let mut fin = Buffer::from_string("## 2024-01-05\n- old\n\n## 2024-01-04\n- older");
    assert!(complete_item(&mut todo, &mut fin, day(2024, 1, 5)));
    assert_eq!(todo.lines, vec![""]);
    assert_eq!(
        fin.lines,
        vec!["## 2024-01-05", "- old", "- task", "", "## 2024-01-04", "- older"]
    );
}

#[test]
fn complete_item_rejects_non_item() {
    let mut todo = Buffer::from_string("plain");
    let mut fin = Buffer::from_string("");
    assert!(!complete_item(&mut todo, &mut fin, day(2024, 1, 5)));
    assert_eq!(todo.lines, vec!["plain"]);
    assert!(!todo.dirty);
    assert_eq!(fin.lines, vec![""]);
}

#[test]
fn recover_item_strips_breadcrumb() {
    let mut fin = Buffer::from_string("## 2024-01-05\n- Fix bug (Work > Backend)");
    let mut todo = Buffer::from_string("");
    fin.cursor = Pos::new(1, 0);
    assert!(recover_item(&mut fin, &mut todo));
    assert_eq!(fin.lines, vec!["## 2024-01-05"]);
    assert_eq!(fin.cursor.line, 0);
    assert_eq!(todo.lines, vec!["- Fix bug"]);

    let mut fin = Buffer::from_string("- a (b) c");
    let mut todo = Buffer::from_string("- x");
    assert!(recover_item(&mut fin, &mut todo));
    assert_eq!(todo.lines, vec!["- x", "- a (b) c"]);
    assert_eq!(fin.lines, vec![""]);
}

#[test]
fn insert_into_empty_finished() {
    let mut fin = Buffer::from_string("text");
    insert_into_finished(&mut fin, "## 2024-01-01", "- e");
    assert_eq!(fin.lines, vec!["## 2024-01-01", "- e", "", "text"]);
}

#[test]
fn fill_empty_days_inserts_missing() {
    let mut fin = Buffer::from_string("## 2024-01-03\n- a\n\n## 2024-01-01\n- b");
    fill_empty_days(&mut fin, day(2024, 1, 4));
    assert_eq!(
        fin.lines,
        vec![
            "## 2024-01-04", "", "## 2024-01-03", "- a", "", "## 2024-01-02", "",
            "## 2024-01-01", "- b"
        ]
    );
    let mut none = Buffer::from_string("no headers");
    assert!(fill_empty_days_checked(&mut none, day(2024, 1, 4)));
    assert_eq!(none.lines, vec!["no headers"]);
}

#[test]
fn date_insert_position_newest_first() {
    let lines: Vec<String> = vec!["## 2024-01-03".to_string(), "x".to_string(), "## 2024-01-01".to_string()];
    assert_eq!(find_date_insert_position(&lines, day(2024, 1, 2)), 2);
    assert_eq!(find_date_insert_position(&lines, day(2024, 1, 9)), 0);
    assert_eq!(find_date_insert_position(&lines, day(2023, 1, 1)), 3);
}

#[test]
fn migrate_splits_log() {
    let (todo, fin) = migrate_inline_log("- a\n\n## 2024-01-01\n- b");
    assert_eq!(todo, "- a");
    assert_eq!(fin, "## 2024-01-01\n- b");
    let (todo, fin) = migrate_inline_log("- a\n## notadate\n");
    assert_eq!(todo, "- a\n## notadate");
    assert_eq!(fin, "");
}

#[test]
fn starting_texts_move_dated_sections_once() {
    let (t, f) = tally::finished::starting_texts("- a\n\n## 2024-01-02\n- done", "");
    assert_eq!(t, "- a");
    assert_eq!(f, "## 2024-01-02\n- done");
    let (t, f) = tally::finished::starting_texts("- a\n## 2024-01-02", "## 2024-01-01");
    assert_eq!(t, "- a\n## 2024-01-02");
    assert_eq!(f, "## 2024-01-01");
}

#[test]
fn insert_into_empty_file_writes_header_and_entry() {
    let mut buf = Buffer::from_string("");
    insert_into_finished(&mut buf, "## 2024-01-02", "- c");
    assert_eq!(buf.lines, vec!["## 2024-01-02", "- c"]);
    assert!(buf.dirty);
    let mut blank = Buffer::from_string("\n  \n");
    insert_into_finished(&mut blank, "## 2024-01-02", "- c");
    assert_eq!(blank.lines, vec!["", "  ", "## 2024-01-02", "- c", ""]);
    let mut text = Buffer::from_string("\n## 2024-01-01\n- b");
    insert_into_finished(&mut text, "## 2024-01-02", "- c");
    assert_eq!(text.lines, vec!["", "## 2024-01-02", "- c", "", "## 2024-01-01", "- b"]);
}

#[test]
fn filing_after_blank_lines_keeps_them() {
    let mut buf = Buffer::from_string("\n\n\n");
    buf.cursor = Pos::new(2, 0);
    insert_into_finished(&mut buf, "## 2024-01-02", "- c");
    assert_eq!(buf.lines, vec!["", "", "", "## 2024-01-02", "- c", ""]);
    assert_eq!(buf.cursor, Pos::new(2, 0));
}
