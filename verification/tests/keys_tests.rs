use tally::keys::{map_key, map_mouse, Action, InputMode, KeyCode, KeyInput, MouseInput, MouseKind};

fn key(code: KeyCode, ctrl: bool, shift: bool) -> KeyInput {
    KeyInput { code, ctrl, shift }
}

#[test]
fn normal_keys() {
    let n = InputMode::Normal;
    assert_eq!(map_key(key(KeyCode::Char('s'), true, false), &n), Action::Save);
    assert_eq!(map_key(key(KeyCode::Enter, true, false), &n), Action::Complete);
    assert_eq!(map_key(key(KeyCode::Char('Z'), true, true), &n), Action::Redo);
    assert_eq!(map_key(key(KeyCode::Left, true, true), &n), Action::SelectWordLeft);
    assert_eq!(map_key(key(KeyCode::Char('A'), false, true), &n), Action::InsertChar('A'));
    assert_eq!(map_key(key(KeyCode::BackTab, false, true), &n), Action::IndentLeft);
    assert_eq!(map_key(key(KeyCode::Tab, false, false), &n), Action::IndentRight);
    assert_eq!(map_key(key(KeyCode::Tab, true, false), &n), Action::SwitchPane);
    assert_eq!(map_key(key(KeyCode::Esc, false, false), &n), Action::Quit);
    assert_eq!(map_key(key(KeyCode::Char('k'), true, false), &n), Action::Noop);
    assert_eq!(map_key(key(KeyCode::Other, false, false), &n), Action::Noop);
}

#[test]
fn search_keys() {
    let s = InputMode::Search;
    assert_eq!(map_key(key(KeyCode::Char('q'), false, false), &s), Action::SearchInsertChar('q'));
    assert_eq!(map_key(key(KeyCode::Char('g'), true, false), &s), Action::SearchNext);
    assert_eq!(map_key(key(KeyCode::Char('h'), true, false), &s), Action::Noop);
    assert_eq!(map_key(key(KeyCode::Enter, false, false), &s), Action::SearchConfirm);
    assert_eq!(map_key(key(KeyCode::Esc, false, false), &s), Action::SearchCancel);
    assert_eq!(map_key(key(KeyCode::Up, false, false), &s), Action::SearchPrev);
    assert_eq!(map_key(key(KeyCode::Tab, false, false), &s), Action::SearchNext);
    assert_eq!(map_key(key(KeyCode::Backspace, false, false), &s), Action::SearchBackspace);
}

#[test]
fn mouse_events() {
    let m = |kind| MouseInput { kind, column: 4, row: 7 };
    assert_eq!(map_mouse(m(MouseKind::Down)), Action::MouseClick(4, 7));
    assert_eq!(map_mouse(m(MouseKind::Drag)), Action::MouseDrag(4, 7));
    assert_eq!(map_mouse(m(MouseKind::ScrollUp)), Action::MouseScroll(-3, 4, 7));
    assert_eq!(map_mouse(m(MouseKind::ScrollDown)), Action::MouseScroll(3, 4, 7));
    assert_eq!(map_mouse(m(MouseKind::Other)), Action::Noop);
}
