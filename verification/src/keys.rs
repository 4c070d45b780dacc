use vstd::prelude::*;

verus! {

/// What the editor does in answer to a key or a mouse event.
#[derive(Debug, Clone, Copy, PartialEq, Eq, Structural)]
pub enum Action {
    // Cursor movement
    CursorUp,
    CursorDown,
    CursorLeft,
    CursorRight,
    CursorWordLeft,
    CursorWordRight,
    CursorHome,
    CursorEnd,
    CursorPageUp,
    CursorPageDown,
    CursorDocStart,
    CursorDocEnd,
    // Selection (the same moves, extending the selection)
    SelectUp,
    SelectDown,
    SelectLeft,
    SelectRight,
    SelectWordLeft,
    SelectWordRight,
    SelectHome,
    SelectEnd,
    SelectPageUp,
    SelectPageDown,
    SelectAll,
    // Editing
    InsertChar(char),
    Backspace,
    DeleteChar,
    DeleteWord,
    Enter,
    IndentRight,
    IndentLeft,
    DeleteLine,
    // Clipboard
    Cut,
    Copy,
    Paste,
    // Commands
    Save,
    Complete,
    ToggleFold,
    Undo,
    Redo,
    Search,
    SearchNext,
    SearchPrev,
    SwitchPane,
    ToggleEdit,
    Quit,
    // Search input
    SearchInsertChar(char),
    SearchBackspace,
    SearchConfirm,
    SearchCancel,
    // Mouse: column and row; for scrolling, the lines first
    MouseClick(u16, u16),
    MouseDrag(u16, u16),
    MouseScroll(i32, u16, u16),
    Noop,
}

/// Whether keys edit the text or the search query.
#[derive(Debug, Clone, Copy, PartialEq, Eq, Structural)]
pub enum InputMode {
    Normal,
    Search,
}

/// A key, as the terminal reports it.
#[derive(Debug, Clone, Copy, PartialEq, Eq, Structural)]
pub enum KeyCode {
    Left,
    Right,
    Up,
    Down,
    Home,
    End,
    PageUp,
    PageDown,
    Enter,
    Tab,
    BackTab,
    Backspace,
    Delete,
    Esc,
    Char(char),
    /// Any other key.
    Other,
}

/// A key press with the modifiers that the editor reads.
#[derive(Debug, Clone, Copy, PartialEq, Eq, Structural)]
pub struct KeyInput {
    pub code: KeyCode,
    pub ctrl: bool,
    pub shift: bool,
}

/// What the mouse did.
#[derive(Debug, Clone, Copy, PartialEq, Eq, Structural)]
pub enum MouseKind {
    Down,
    Drag,
    ScrollUp,
    ScrollDown,
    /// Anything else (release, move, sideways scrolling).
    Other,
}

/// A mouse event at a terminal cell.
#[derive(Debug, Clone, Copy, PartialEq, Eq, Structural)]
pub struct MouseInput {
    pub kind: MouseKind,
    pub column: u16,
    pub row: u16,
}

/// The action of a key in normal mode.
pub open spec fn normal_action(e: KeyInput) -> Action {
    if e.ctrl && e.shift {
        match e.code {
            KeyCode::Left => Action::SelectWordLeft,
            KeyCode::Right => Action::SelectWordRight,
            KeyCode::Char(c) => if c == 'z' || c == 'Z' {
                Action::Redo
            } else {
                Action::Noop
            },
            _ => Action::Noop,
        }
    } else if e.ctrl {
        match e.code {
            KeyCode::Char(c) => if c == 's' {
                Action::Save
            } else if c == 'd' {
                Action::DeleteLine
            } else if c == 'f' {
                Action::Search
            } else if c == 'x' {
                Action::Cut
            } else if c == 'c' {
                Action::Copy
            } else if c == 'v' {
                Action::Paste
            } else if c == 'a' {
                Action::SelectAll
            } else if c == 'z' {
                Action::Undo
            } else if c == 'y' {
                Action::Redo
            } else if c == 'q' {
                Action::Quit
            } else if c == 'e' {
                Action::ToggleEdit
            } else {
                Action::Noop
            },
            KeyCode::Enter => Action::Complete,
            KeyCode::Left => Action::CursorWordLeft,
            KeyCode::Right => Action::CursorWordRight,
            KeyCode::Home => Action::CursorDocStart,
            KeyCode::End => Action::CursorDocEnd,
            KeyCode::Backspace => Action::DeleteWord,
            KeyCode::Tab => Action::SwitchPane,
            _ => Action::Noop,
        }
    } else if e.shift {
        match e.code {
            KeyCode::Left => Action::SelectLeft,
            KeyCode::Right => Action::SelectRight,
            KeyCode::Up => Action::SelectUp,
            KeyCode::Down => Action::SelectDown,
            KeyCode::Home => Action::SelectHome,
            KeyCode::End => Action::SelectEnd,
            KeyCode::PageUp => Action::SelectPageUp,
            KeyCode::PageDown => Action::SelectPageDown,
            KeyCode::BackTab => Action::IndentLeft,
            KeyCode::Char(c) => Action::InsertChar(c),
            _ => Action::Noop,
        }
    } else {
        match e.code {
            KeyCode::Up => Action::CursorUp,
            KeyCode::Down => Action::CursorDown,
            KeyCode::Left => Action::CursorLeft,
            KeyCode::Right => Action::CursorRight,
            KeyCode::Home => Action::CursorHome,
            KeyCode::End => Action::CursorEnd,
            KeyCode::PageUp => Action::CursorPageUp,
            KeyCode::PageDown => Action::CursorPageDown,
            KeyCode::Enter => Action::Enter,
            KeyCode::Tab => Action::IndentRight,
            KeyCode::Backspace => Action::Backspace,
            KeyCode::Delete => Action::DeleteChar,
            KeyCode::Esc => Action::Quit,
            KeyCode::Char(c) => Action::InsertChar(c),
            _ => Action::Noop,
        }
    }
}

/// The action of a key while the search query is typed.
pub open spec fn search_action(e: KeyInput) -> Action {
    match e.code {
        KeyCode::Esc => Action::SearchCancel,
        KeyCode::Enter => Action::SearchConfirm,
        KeyCode::Backspace => Action::SearchBackspace,
        KeyCode::Char(c) => if e.ctrl {
            if c == 'g' {
                Action::SearchNext
            } else {
                Action::Noop
            }
        } else {
            Action::SearchInsertChar(c)
        },
        KeyCode::Down | KeyCode::Tab => Action::SearchNext,
        KeyCode::Up | KeyCode::BackTab => Action::SearchPrev,
        _ => Action::Noop,
    }
}

/// The action of a mouse event.
pub open spec fn mouse_action(e: MouseInput) -> Action {
    match e.kind {
        MouseKind::Down => Action::MouseClick(e.column, e.row),
        MouseKind::Drag => Action::MouseDrag(e.column, e.row),
        MouseKind::ScrollUp => Action::MouseScroll(-3i32, e.column, e.row),
        MouseKind::ScrollDown => Action::MouseScroll(3i32, e.column, e.row),
        MouseKind::Other => Action::Noop,
    }
}

/// The action of a key in the given input mode.
pub fn map_key(event: KeyInput, mode: &InputMode) -> (a: Action)
    ensures
        a == match *mode {
            InputMode::Normal => normal_action(event),
            InputMode::Search => search_action(event),
        },
{
    match mode {
        InputMode::Normal => map_normal(event),
        InputMode::Search => map_search(event),
    }
}

/// The action of a mouse event.
pub fn map_mouse(event: MouseInput) -> (a: Action)
    ensures
        a == mouse_action(event),
{
    match event.kind {
        MouseKind::Down => Action::MouseClick(event.column, event.row),
        MouseKind::Drag => Action::MouseDrag(event.column, event.row),
        MouseKind::ScrollUp => Action::MouseScroll(-3, event.column, event.row),
        MouseKind::ScrollDown => Action::MouseScroll(3, event.column, event.row),
        MouseKind::Other => Action::Noop,
    }
}

fn map_normal(event: KeyInput) -> (a: Action)
    ensures
        a == normal_action(event),
{
    let ctrl = event.ctrl;
    let shift = event.shift;
    if ctrl && shift {
        return match event.code {
            KeyCode::Left => Action::SelectWordLeft,
            KeyCode::Right => Action::SelectWordRight,
            KeyCode::Char(c) => if c == 'z' || c == 'Z' {
                Action::Redo
            } else {
                Action::Noop
            },
            _ => Action::Noop,
        };
    }
    if ctrl {
        return match event.code {
            KeyCode::Char(c) => if c == 's' {
                Action::Save
            } else if c == 'd' {
                Action::DeleteLine
            } else if c == 'f' {
                Action::Search
            } else if c == 'x' {
                Action::Cut
            } else if c == 'c' {
                Action::Copy
            } else if c == 'v' {
                Action::Paste
            } else if c == 'a' {
                Action::SelectAll
            } else if c == 'z' {
                Action::Undo
            } else if c == 'y' {
                Action::Redo
            } else if c == 'q' {
                Action::Quit
            } else if c == 'e' {
                Action::ToggleEdit
            } else {
                Action::Noop
            },
            KeyCode::Enter => Action::Complete,
            KeyCode::Left => Action::CursorWordLeft,
            KeyCode::Right => Action::CursorWordRight,
            KeyCode::Home => Action::CursorDocStart,
            KeyCode::End => Action::CursorDocEnd,
            KeyCode::Backspace => Action::DeleteWord,
            KeyCode::Tab => Action::SwitchPane,
            _ => Action::Noop,
        };
    }
    if shift {
        return match event.code {
            KeyCode::Left => Action::SelectLeft,
            KeyCode::Right => Action::SelectRight,
            KeyCode::Up => Action::SelectUp,
            KeyCode::Down => Action::SelectDown,
            KeyCode::Home => Action::SelectHome,
            KeyCode::End => Action::SelectEnd,
            KeyCode::PageUp => Action::SelectPageUp,
            KeyCode::PageDown => Action::SelectPageDown,
            KeyCode::BackTab => Action::IndentLeft,
            KeyCode::Char(c) => Action::InsertChar(c),
            _ => Action::Noop,
        };
    }
    match event.code {
        KeyCode::Up => Action::CursorUp,
        KeyCode::Down => Action::CursorDown,
        KeyCode::Left => Action::CursorLeft,
        KeyCode::Right => Action::CursorRight,
        KeyCode::Home => Action::CursorHome,
        KeyCode::End => Action::CursorEnd,
        KeyCode::PageUp => Action::CursorPageUp,
        KeyCode::PageDown => Action::CursorPageDown,
        KeyCode::Enter => Action::Enter,
        KeyCode::Tab => Action::IndentRight,
        KeyCode::Backspace => Action::Backspace,
        KeyCode::Delete => Action::DeleteChar,
        KeyCode::Esc => Action::Quit,
        KeyCode::Char(c) => Action::InsertChar(c),
        _ => Action::Noop,
    }
}

fn map_search(event: KeyInput) -> (a: Action)
    ensures
        a == search_action(event),
{
    match event.code {
        KeyCode::Esc => Action::SearchCancel,
        KeyCode::Enter => Action::SearchConfirm,
        KeyCode::Backspace => Action::SearchBackspace,
        KeyCode::Char(c) => {
            if event.ctrl {
                if c == 'g' {
                    Action::SearchNext
                } else {
                    Action::Noop
                }
            } else {
                Action::SearchInsertChar(c)
            }
        },
        KeyCode::Down | KeyCode::Tab => Action::SearchNext,
        KeyCode::Up | KeyCode::BackTab => Action::SearchPrev,
        _ => Action::Noop,
    }
}

} // verus!
