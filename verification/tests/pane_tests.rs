use std::collections::HashSet;
use tally::editor::{Buffer, Pos, Selection};
use tally::pane::{render_pane, Look, PaneState, Piece};

fn piece(t: &str, look: Look) -> Piece {
    Piece { text: t.to_string(), look }
}

fn looks(pieces: &[Piece]) -> Vec<Look> {
    pieces.iter().map(|p| p.look).collect()
}

#[test]
fn ensure_cursor_visible_scrolls_minimally() {
    let mut p = PaneState::new();
    assert_eq!(p, PaneState { scroll: 0, editing: true });
    p.ensure_cursor_visible(10, 5);
    assert_eq!(p.scroll, 6);
    p.ensure_cursor_visible(8, 5);
    assert_eq!(p.scroll, 6);
    p.ensure_cursor_visible(2, 5);
    assert_eq!(p.scroll, 2);
    p.ensure_cursor_visible(100, 0);
    assert_eq!(p.scroll, 2);
}

#[test]
fn edit_mode_marks_cursor_selection_and_matches() {
    let mut b = Buffer::from_string("abcab\nxy");
    b.cursor = Pos::new(0, 0);
    b.selection = Some(Selection { anchor: Pos::new(0, 3), cursor: Pos::new(0, 1) });
    let st = PaneState { scroll: 0, editing: true };
    let r = render_pane(&b, &st, 10, true, "todo.md", Some("AB"), &HashSet::new());
    assert_eq!(r.title, " todo.md [EDIT] ");
    assert_eq!(r.rows.len(), 2);
    assert_eq!(r.rows[0].line, 0);
    assert_eq!(
        looks(&r.rows[0].pieces),
        vec![Look::Cursor, Look::Selected, Look::Selected, Look::Match, Look::Match]
    );
    assert_eq!(r.rows[0].pieces[1], piece("b", Look::Selected));
    assert_eq!(looks(&r.rows[1].pieces), vec![Look::Plain, Look::Plain]);
    assert!(!r.rows[0].highlight);
}

#[test]
fn edit_mode_cursor_past_end_gets_a_cell() {
    let mut b = Buffer::from_string("ab");
    b.cursor = Pos::new(0, 2);
    let st = PaneState { scroll: 0, editing: true };
    let r = render_pane(&b, &st, 5, true, "t", None, &HashSet::new());
    assert_eq!(r.rows[0].pieces.len(), 3);
    assert_eq!(r.rows[0].pieces[2], piece(" ", Look::Cursor));
    let unfocused = render_pane(&b, &st, 5, false, "t", None, &HashSet::new());
    assert_eq!(unfocused.rows[0].pieces.len(), 2);
}

#[test]
fn preview_styles_markdown() {
    let mut b = Buffer::from_string("# Title\n- **bold** item\n> quoted");
    b.cursor = Pos::new(1, 0);
    b.dirty = true;
    let st = PaneState { scroll: 0, editing: false };
    let r = render_pane(&b, &st, 10, true, "todo.md", None, &HashSet::new());
    assert_eq!(r.title, " todo.md [+] ");
    assert_eq!(r.rows[0].pieces, vec![piece("# ", Look::Title), piece("Title", Look::Title)]);
    assert_eq!(
        r.rows[1].pieces,
        vec![piece("- ", Look::Dim), piece("**bold**", Look::Bold), piece(" item", Look::Plain)]
    );
    assert!(r.rows[1].highlight);
    assert!(!r.rows[0].highlight);
    assert_eq!(r.rows[2].pieces, vec![piece("> ", Look::Dim), piece("quoted", Look::Quote)]);
}

#[test]
fn preview_empty_cursor_line_shows_a_blank() {
    let b = Buffer::from_string("");
    let st = PaneState { scroll: 0, editing: false };
    let r = render_pane(&b, &st, 3, true, "t", None, &HashSet::new());
    assert_eq!(r.rows[0].pieces, vec![piece(" ", Look::Plain)]);
    assert!(r.rows[0].highlight);
}

#[test]
fn folded_heading_hides_its_section() {
    let mut b = Buffer::from_string("# A\na1\na2\n# B\nb1");
    b.cursor = Pos::new(3, 0);
    let st = PaneState { scroll: 0, editing: false };
    let mut folded = HashSet::new();
    folded.insert(0usize);
    let r = render_pane(&b, &st, 10, true, "t", None, &folded);
    let lines: Vec<usize> = r.rows.iter().map(|row| row.line).collect();
    assert_eq!(lines, vec![0, 3, 4]);
    assert_eq!(r.rows[0].pieces.last().unwrap(), &piece(" ...", Look::Dim));
}

#[test]
fn rows_follow_the_cursor() {
    let mut b = Buffer::from_string("0\n1\n2\n3\n4\n5\n6\n7");
    b.cursor = Pos::new(6, 0);
    let st = PaneState { scroll: 0, editing: true };
    let r = render_pane(&b, &st, 3, true, "t", None, &HashSet::new());
    let lines: Vec<usize> = r.rows.iter().map(|row| row.line).collect();
    assert_eq!(lines, vec![4, 5, 6]);
    let st = PaneState { scroll: 7, editing: true };
    let r = render_pane(&b, &st, 3, true, "t", None, &HashSet::new());
    let lines: Vec<usize> = r.rows.iter().map(|row| row.line).collect();
    assert_eq!(lines, vec![6, 7]);
}

#[test]
fn cursor_past_the_text_is_drawn_nowhere() {
    let mut b = Buffer::from_string("ab\ncd");
    b.cursor = Pos::new(9, 4);
    let st = PaneState { scroll: 0, editing: true };
    assert!(tally::pane::can_render(&b, &st, 5, &HashSet::new()));
    let r = render_pane(&b, &st, 5, true, "t", None, &HashSet::new());
    assert_eq!(r.rows.len(), 2);
    assert!(r.rows.iter().all(|row| row.pieces.iter().all(|p| p.look != Look::Cursor)));
    let pv = PaneState { scroll: 0, editing: false };
    let r = render_pane(&b, &pv, 5, true, "t", None, &HashSet::new());
    assert!(r.rows.iter().all(|row| !row.highlight));
}

#[test]
fn can_render_checks_rows_for_the_cursor() {
    let b = Buffer::from_string("ab");
    assert!(!tally::pane::can_render(&b, &PaneState { scroll: 0, editing: true }, 0, &HashSet::new()));
    assert!(tally::pane::can_render(&b, &PaneState { scroll: 3, editing: true }, 0, &HashSet::new()));
    let mut c = Buffer::from_string("ab\ncd");
    c.cursor = Pos::new(1, 0);
    assert!(!tally::pane::can_render(&c, &PaneState { scroll: 1, editing: true }, usize::MAX, &HashSet::new()));
    assert!(tally::pane::can_render(&c, &PaneState { scroll: 1, editing: true }, 3, &HashSet::new()));
}
