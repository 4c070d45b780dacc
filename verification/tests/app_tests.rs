use chrono::{Datelike, NaiveDate};
use std::path::PathBuf;
use tally::app::{App, Effect, FocusPane};
use tally::editor::{Buffer, Pos, Selection};
use tally::finished::Date;
use tally::keys::{Action, InputMode};

fn app(todo: &str, finished: &str) -> App {
    App::new(
        Buffer::from_string(todo),
        Buffer::from_string(finished),
        PathBuf::from("todo.md"),
        PathBuf::from("finished.md"),
    )
}

fn day(y: i32, m: u32, d: u32) -> Date {
    Date { days_from_ce: NaiveDate::from_ymd_opt(y, m, d).unwrap().num_days_from_ce() }
}

#[test]
fn new_app_starts_in_todo_edit_mode() {
    let a = app("- a", "");
    assert_eq!(a.focus, FocusPane::Todo);
    assert!(a.todo_pane.editing);
    assert!(!a.finished_pane.editing);
    assert_eq!(a.input_mode, InputMode::Normal);
    assert!(a.message.is_none());
    assert!(a.folded.is_empty());
    assert!(!a.should_quit);
}

#[test]
fn typing_edits_only_in_edit_mode() {
    let mut a = app("ab", "");
    a.todo_buf.cursor = Pos::new(0, 1);
    assert_eq!(a.update(Action::InsertChar('x'), 20), Effect::Nothing);
    assert_eq!(a.todo_buf.lines, vec!["axb"]);
    a.update(Action::ToggleEdit, 20);
    assert_eq!(a.message.as_deref(), Some("Preview mode"));
    a.update(Action::InsertChar('y'), 20);
    assert_eq!(a.todo_buf.lines, vec!["axb"]);
    assert!(a.message.is_none());
    a.update(Action::ToggleEdit, 20);
    assert_eq!(a.message.as_deref(), Some("Edit mode"));
}

#[test]
fn left_and_right_move_only_in_edit_mode() {
    let mut a = app("abc", "");
    a.todo_buf.cursor = Pos::new(0, 1);
    a.update(Action::CursorRight, 20);
    assert_eq!(a.todo_buf.cursor, Pos::new(0, 2));
    a.update(Action::ToggleEdit, 20);
    a.update(Action::CursorLeft, 20);
    assert_eq!(a.todo_buf.cursor, Pos::new(0, 2));
}

#[test]
fn quit_leaves_search_first() {
    let mut a = app("x", "");
    a.update(Action::Search, 20);
    assert_eq!(a.input_mode, InputMode::Search);
    assert_eq!(a.message.as_deref(), Some("Search:"));
    a.update(Action::SearchInsertChar('x'), 20);
    a.update(Action::Quit, 20);
    assert_eq!(a.input_mode, InputMode::Normal);
    assert_eq!(a.search_query, "");
    assert!(!a.should_quit);
    a.update(Action::Quit, 20);
    assert!(a.should_quit);
}

#[test]
fn search_jumps_to_matches_ignoring_case() {
    let mut a = app("alpha\nBeta\nbeta", "");
    a.update(Action::Search, 20);
    a.update(Action::SearchInsertChar('b'), 20);
    assert_eq!(a.todo_buf.cursor, Pos::new(1, 0));
    a.update(Action::SearchInsertChar('E'), 20);
    assert_eq!(a.search_query, "bE");
    assert_eq!(a.todo_buf.cursor, Pos::new(1, 0));
    a.update(Action::SearchNext, 20);
    assert_eq!(a.todo_buf.cursor, Pos::new(2, 0));
    a.update(Action::SearchNext, 20);
    assert_eq!(a.todo_buf.cursor, Pos::new(1, 0));
    a.update(Action::SearchPrev, 20);
    assert_eq!(a.todo_buf.cursor, Pos::new(2, 0));
    a.update(Action::SearchBackspace, 20);
    assert_eq!(a.search_query, "b");
    a.update(Action::SearchConfirm, 20);
    assert_eq!(a.input_mode, InputMode::Normal);
    assert_eq!(a.todo_buf.cursor, Pos::new(1, 0));
    a.update(Action::SearchCancel, 20);
    assert_eq!(a.search_query, "");
}

#[test]
fn search_with_no_match_keeps_cursor() {
    let mut a = app("abc", "");
    a.todo_buf.cursor = Pos::new(0, 2);
    a.update(Action::Search, 20);
    a.update(Action::SearchInsertChar('z'), 20);
    assert_eq!(a.todo_buf.cursor, Pos::new(0, 2));
}

#[test]
fn copy_takes_selection_or_line() {
    let mut a = app("hello world\nsecond", "");
    assert_eq!(a.update(Action::Copy, 20), Effect::CopyToClipboard("hello world".to_string()));
    assert_eq!(a.last_copied.as_deref(), Some("hello world"));
    assert_eq!(a.message.as_deref(), Some("Copied"));
    a.todo_buf.selection = Some(Selection { anchor: Pos::new(0, 6), cursor: Pos::new(1, 3) });
    assert_eq!(a.update(Action::Copy, 20), Effect::CopyToClipboard("world\nsec".to_string()));
}

#[test]
fn cut_takes_selection_or_line() {
    let mut a = app("one\ntwo\nthree", "");
    a.todo_buf.cursor = Pos::new(1, 1);
    assert_eq!(a.update(Action::Cut, 20), Effect::CopyToClipboard("two".to_string()));
    assert_eq!(a.todo_buf.lines, vec!["one", "three"]);
    assert_eq!(a.message.as_deref(), Some("Cut"));
    a.todo_buf.selection = Some(Selection { anchor: Pos::new(0, 1), cursor: Pos::new(0, 3) });
    assert_eq!(a.update(Action::Cut, 20), Effect::CopyToClipboard("ne".to_string()));
    assert_eq!(a.todo_buf.lines, vec!["o", "three"]);
}

#[test]
fn cut_in_preview_without_selection_does_nothing() {
    let mut a = app("one", "");
    a.update(Action::ToggleEdit, 20);
    assert_eq!(a.update(Action::Cut, 20), Effect::Nothing);
    assert_eq!(a.todo_buf.lines, vec!["one"]);
    assert!(a.message.is_none());
}

#[test]
fn paste_prefers_system_clipboard() {
    let mut a = app("ab", "");
    a.todo_buf.cursor = Pos::new(0, 1);
    assert_eq!(a.update(Action::Paste, 20), Effect::ReadClipboard);
    a.paste(Some("XY".to_string()));
    assert_eq!(a.todo_buf.lines, vec!["aXYb"]);
    assert_eq!(a.todo_buf.cursor, Pos::new(0, 3));
    assert_eq!(a.message.as_deref(), Some("Pasted"));
    a.last_copied = Some("Q".to_string());
    a.paste(None);
    assert_eq!(a.todo_buf.lines, vec!["aXYQb"]);
}

#[test]
fn paste_with_nothing_says_so() {
    let mut a = app("ab", "");
    a.paste(None);
    assert_eq!(a.todo_buf.lines, vec!["ab"]);
    assert_eq!(a.message.as_deref(), Some("Nothing to paste"));
}

#[test]
fn paste_in_preview_reads_nothing() {
    let mut a = app("ab", "");
    a.update(Action::ToggleEdit, 20);
    assert_eq!(a.update(Action::Paste, 20), Effect::Nothing);
}

#[test]
fn cut_then_paste_restores_line_text() {
    let mut a = app("keep\nmove me", "");
    a.todo_buf.cursor = Pos::new(1, 0);
    let cut = match a.update(Action::Cut, 20) {
        Effect::CopyToClipboard(t) => t,
        other => panic!("unexpected {:?}", other),
    };
    assert_eq!(a.todo_buf.lines, vec!["keep"]);
    a.todo_buf.cursor = Pos::new(0, 4);
    a.update(Action::Enter, 20);
    a.paste(Some(cut));
    assert_eq!(a.todo_buf.lines, vec!["keep", "move me"]);
}

#[test]
fn save_reports_texts_and_enters_preview() {
    let mut a = app("a\nb", "## 2024-01-01");
    a.update(Action::InsertChar('z'), 20);
    assert!(a.todo_buf.dirty);
    let eff = a.update(Action::Save, 20);
    assert_eq!(
        eff,
        Effect::Save { todo: "za\nb".to_string(), finished: "## 2024-01-01".to_string() }
    );
    assert!(!a.todo_buf.dirty);
    assert!(!a.finished_buf.dirty);
    assert!(!a.todo_pane.editing);
    assert!(!a.finished_pane.editing);
    assert_eq!(a.message.as_deref(), Some("Saved"));
}

#[test]
fn switch_pane_twice_comes_back() {
    let mut a = app("a", "b");
    a.update(Action::SwitchPane, 20);
    assert_eq!(a.focus, FocusPane::Finished);
    a.update(Action::SwitchPane, 20);
    assert_eq!(a.focus, FocusPane::Todo);
}

#[test]
fn fold_only_headings() {
    let mut a = app("# Title\ntext", "");
    a.update(Action::ToggleFold, 20);
    assert!(a.folded.contains(&0));
    a.update(Action::ToggleFold, 20);
    assert!(a.folded.is_empty());
    a.todo_buf.cursor = Pos::new(1, 0);
    a.update(Action::ToggleFold, 20);
    assert!(a.folded.is_empty());
}

#[test]
fn complete_and_recover_move_items() {
    let mut a = app("- task\n- other", "");
    a.complete(day(2024, 3, 9));
    assert_eq!(a.message.as_deref(), Some("Completed!"));
    assert_eq!(a.todo_buf.lines, vec!["- other"]);
    assert_eq!(a.finished_buf.lines, vec!["## 2024-03-09", "- task"]);
    a.update(Action::SwitchPane, 20);
    a.finished_buf.cursor = Pos::new(1, 0);
    a.update(Action::Complete, 20);
    assert_eq!(a.message.as_deref(), Some("Recovered to todo"));
    assert_eq!(a.todo_buf.lines, vec!["- other", "- task"]);
    a.finished_buf.cursor = Pos::new(0, 0);
    a.update(Action::Complete, 20);
    assert_eq!(a.message.as_deref(), Some("Not a list item"));
}

#[test]
fn complete_rejects_plain_line() {
    let mut a = app("plain", "");
    a.update(Action::Complete, 20);
    assert_eq!(a.message.as_deref(), Some("Not a list item (- )"));
    assert_eq!(a.todo_buf.lines, vec!["plain"]);
}

#[test]
fn complete_uses_today() {
    let mut a = app("- now", "");
    a.update(Action::Complete, 20);
    let today = chrono::Local::now().date_naive().format("## %Y-%m-%d").to_string();
    assert!(a.finished_buf.lines.contains(&today));
}

#[test]
fn mouse_click_places_cursor() {
    let mut a = app("abc\ndefgh", "");
    a.todo_buf.selection = Some(Selection { anchor: Pos::new(0, 0), cursor: Pos::new(0, 1) });
    a.update(Action::MouseClick(3, 2), 20);
    assert_eq!(a.todo_buf.cursor, Pos::new(1, 2));
    assert!(a.todo_buf.selection.is_none());
    a.update(Action::MouseClick(40, 1), 20);
    assert_eq!(a.todo_buf.cursor, Pos::new(0, 3));
    a.update(Action::MouseClick(1, 9), 20);
    assert_eq!(a.todo_buf.cursor, Pos::new(0, 3));
}

#[test]
fn mouse_drag_extends_selection() {
    let mut a = app("abc\ndefgh", "");
    a.update(Action::MouseClick(2, 1), 20);
    a.update(Action::MouseDrag(4, 2), 20);
    assert_eq!(a.todo_buf.cursor, Pos::new(1, 3));
    assert_eq!(
        a.todo_buf.selection,
        Some(Selection { anchor: Pos::new(0, 1), cursor: Pos::new(1, 3) })
    );
}

#[test]
fn mouse_scroll_saturates() {
    let mut a = app("a", "");
    a.update(Action::MouseScroll(3, 0, 0), 20);
    assert_eq!(a.todo_pane.scroll, 3);
    a.update(Action::MouseScroll(-5, 0, 0), 20);
    assert_eq!(a.todo_pane.scroll, 0);
    a.todo_pane.scroll = usize::MAX - 1;
    a.update(Action::MouseScroll(7, 0, 0), 20);
    assert_eq!(a.todo_pane.scroll, usize::MAX);
}

#[test]
fn undo_and_redo_through_update() {
    let mut a = app("hello", "");
    a.todo_buf.cursor = Pos::new(0, 5);
    a.todo_buf.force_undo_snapshot();
    a.update(Action::InsertChar('!'), 20);
    assert_eq!(a.todo_buf.lines, vec!["hello!"]);
    a.update(Action::Undo, 20);
    assert_eq!(a.todo_buf.lines, vec!["hello"]);
    a.update(Action::Redo, 20);
    assert_eq!(a.todo_buf.lines, vec!["hello!"]);
}

#[test]
fn status_text_shows_mode_message_and_search() {
    let mut a = app("x", "");
    let help = "^S:save  ^E:edit/preview  ^Enter:complete  ^F:search  ^Tab:switch  ^Z:undo  Esc:quit";
    assert_eq!(a.status_text(), format!(" [EDIT] {}", help));
    a.update(Action::ToggleEdit, 20);
    assert_eq!(a.status_text(), format!(" [PREVIEW] Preview mode  │  {}", help));
    a.update(Action::Search, 20);
    a.update(Action::SearchInsertChar('q'), 20);
    assert_eq!(a.status_text(), " Search: q█  (Enter/↑↓:navigate  Esc:cancel)");
}

#[test]
fn keep_cursors_visible_scrolls_both_panes() {
    let mut a = app("1\n2\n3\n4\n5\n6", "a\nb\nc");
    a.todo_buf.cursor = Pos::new(5, 0);
    a.finished_pane.scroll = 2;
    a.finished_buf.cursor = Pos::new(0, 0);
    a.keep_cursors_visible(3);
    assert_eq!(a.todo_pane.scroll, 3);
    assert_eq!(a.finished_pane.scroll, 0);
}

#[test]
fn selection_valid_checks_focused_buffer() {
    let mut a = app("a\nb", "");
    assert!(a.selection_valid());
    a.todo_buf.selection = Some(Selection { anchor: Pos::new(0, 0), cursor: Pos::new(5, 0) });
    assert!(!a.selection_valid());
}

#[test]
fn can_update_checks_what_actions_read() {
    let mut a = app("ab\ncd", "");
    assert!(a.can_update(Action::Copy, 20));
    a.todo_buf.selection = Some(Selection { anchor: Pos::new(0, 0), cursor: Pos::new(9, 0) });
    assert!(!a.can_update(Action::Copy, 20));
    assert!(a.can_update(Action::CursorUp, 20));
    a.todo_buf.selection = None;
    a.todo_buf.cursor = Pos::new(0, 7);
    assert!(!a.can_update(Action::Backspace, 20));
    assert!(!a.can_update(Action::CursorWordLeft, 20));
    a.update(Action::ToggleEdit, 20);
    assert!(a.can_update(Action::Backspace, 20));
    assert!(!a.can_update(Action::MouseScroll(i32::MIN, 0, 0), 20));
    assert!(a.can_update(Action::CursorPageDown, usize::MAX));
    a.todo_buf.cursor = Pos::new(1, 0);
    assert!(!a.can_update(Action::CursorPageDown, usize::MAX));
}

#[test]
fn can_paste_checks_the_selection() {
    let mut a = app("ab", "");
    assert!(a.can_paste(&Some("x\ny".to_string())));
    assert!(a.can_paste(&None));
    a.todo_buf.selection = Some(Selection { anchor: Pos::new(0, 0), cursor: Pos::new(3, 0) });
    assert!(!a.can_paste(&Some("x".to_string())));
}
