use vstd::prelude::*;
use std::collections::HashSet;
use std::path::PathBuf;
use crate::editor;
use crate::editor::{Buffer, BufferView, Pos};
use crate::finished;
use crate::finished::{complete_item, recover_item, Date};
use crate::keys::{Action, InputMode};
use crate::markdown;
use crate::markdown::{classify_line, LineKind};
use crate::pane;
use crate::pane::PaneState;
use crate::text;
use crate::text::{chars_of, push_str, split_newlines, string_of_range};

verus! {

broadcast use vstd::std_specs::hash::group_hash_axioms;

/// A file path, carried through to the code that saves.
#[verifier::external_type_specification]
#[verifier::external_body]
pub struct ExPathBuf(PathBuf);

/// Which pane keys go to.
#[derive(Debug, Clone, Copy, PartialEq, Eq, Structural)]
pub enum FocusPane {
    Todo,
    Finished,
}

/// What `App::update` leaves for its caller to do outside.
#[derive(Debug, PartialEq, Eq)]
pub enum Effect {
    Nothing,
    /// Put the text on the system clipboard.
    CopyToClipboard(String),
    /// Read the system clipboard and hand what it holds to `App::paste`.
    ReadClipboard,
    /// Write the texts to the todo and finished files.
    Save { todo: String, finished: String },
}

/// The editor: a todo pane and a finished pane, search, clipboard and fold
/// state.
pub struct App {
    pub todo_buf: Buffer,
    pub finished_buf: Buffer,
    pub focus: FocusPane,
    pub todo_pane: PaneState,
    pub finished_pane: PaneState,
    pub todo_path: PathBuf,
    pub finished_path: PathBuf,
    pub should_quit: bool,
    pub message: Option<String>,
    pub input_mode: InputMode,
    pub search_query: String,
    pub last_copied: Option<String>,
    pub folded: HashSet<usize>,
}

/// The app's state as values.
pub struct AppView {
    pub todo: BufferView,
    pub finished: BufferView,
    pub focus: FocusPane,
    pub todo_pane: PaneState,
    pub finished_pane: PaneState,
    pub todo_path: PathBuf,
    pub finished_path: PathBuf,
    pub should_quit: bool,
    pub message: Option<Seq<char>>,
    pub input_mode: InputMode,
    pub search_query: Seq<char>,
    pub last_copied: Option<Seq<char>>,
    pub folded: Set<usize>,
}

pub open spec fn opt_text(o: Option<String>) -> Option<Seq<char>> {
    match o {
        Some(s) => Some(s@),
        None => None,
    }
}

impl View for App {
    type V = AppView;

    open spec fn view(&self) -> AppView {
        AppView {
            todo: self.todo_buf@,
            finished: self.finished_buf@,
            focus: self.focus,
            todo_pane: self.todo_pane,
            finished_pane: self.finished_pane,
            todo_path: self.todo_path,
            finished_path: self.finished_path,
            should_quit: self.should_quit,
            message: opt_text(self.message),
            input_mode: self.input_mode,
            search_query: self.search_query@,
            last_copied: opt_text(self.last_copied),
            folded: self.folded@,
        }
    }
}

impl AppView {
    /// The buffer of the focused pane.
    pub open spec fn active(self) -> BufferView {
        match self.focus {
            FocusPane::Todo => self.todo,
            FocusPane::Finished => self.finished,
        }
    }

    /// The state of the focused pane.
    pub open spec fn pane(self) -> PaneState {
        match self.focus {
            FocusPane::Todo => self.todo_pane,
            FocusPane::Finished => self.finished_pane,
        }
    }

    pub open spec fn with_active(self, b: BufferView) -> AppView {
        match self.focus {
            FocusPane::Todo => AppView { todo: b, ..self },
            FocusPane::Finished => AppView { finished: b, ..self },
        }
    }

    pub open spec fn with_pane(self, p: PaneState) -> AppView {
        match self.focus {
            FocusPane::Todo => AppView { todo_pane: p, ..self },
            FocusPane::Finished => AppView { finished_pane: p, ..self },
        }
    }

    /// Both buffers well formed.
    pub open spec fn wf(self) -> bool {
        self.todo.wf() && self.finished.wf()
    }
}

// ---------------------------------------------------------------------------
// Actions on the focused buffer
// ---------------------------------------------------------------------------

/// Whether the action works on the focused buffer alone.
pub open spec fn is_buffer_action(a: Action) -> bool {
    match a {
        Action::CursorUp | Action::CursorDown | Action::CursorLeft | Action::CursorRight
        | Action::CursorWordLeft | Action::CursorWordRight | Action::CursorHome
        | Action::CursorEnd | Action::CursorPageUp | Action::CursorPageDown
        | Action::CursorDocStart | Action::CursorDocEnd | Action::SelectUp
        | Action::SelectDown | Action::SelectLeft | Action::SelectRight
        | Action::SelectWordLeft | Action::SelectWordRight | Action::SelectHome
        | Action::SelectEnd | Action::SelectPageUp | Action::SelectPageDown
        | Action::SelectAll | Action::InsertChar(_) | Action::Backspace | Action::DeleteChar
        | Action::DeleteWord | Action::Enter | Action::IndentRight | Action::IndentLeft
        | Action::DeleteLine | Action::Undo | Action::Redo => true,
        _ => false,
    }
}

/// What a buffer action needs of the buffer (its own preconditions).
pub open spec fn buffer_ok(v: BufferView, a: Action, ps: usize, editing: bool) -> bool {
    &&& v.wf()
    &&& match a {
        Action::CursorWordLeft | Action::SelectWordLeft => v.col_in_line(),
        Action::CursorPageDown | Action::SelectPageDown => v.cursor.line + ps <= usize::MAX,
        Action::InsertChar(_) => editing ==> v.insert_char_ok(),
        Action::Backspace | Action::DeleteWord => editing ==> v.backspace_ok(),
        Action::DeleteChar | Action::Enter => editing ==> v.sel_valid(),
        Action::IndentRight => editing ==> v.cursor.col + 2 <= usize::MAX,
        _ => true,
    }
}

/// `w` is the buffer `v` after the buffer action `a` (page size `ps`); the
/// edits, and moving left or right, happen only in edit mode.
pub open spec fn buffer_post(v: BufferView, w: BufferView, a: Action, ps: usize, editing: bool) -> bool {
    match a {
        Action::CursorUp => w == v.after_move_up(false),
        Action::CursorDown => w == v.after_move_down(false),
        Action::CursorLeft => w == if editing { v.after_move_left(false) } else { v },
        Action::CursorRight => w == if editing { v.after_move_right(false) } else { v },
        Action::CursorWordLeft => w == v.after_move_word_left(false),
        Action::CursorWordRight => w == v.after_move_word_right(false),
        Action::CursorHome => w == v.after_move_home(false),
        Action::CursorEnd => w == v.after_move_end(false),
        Action::CursorPageUp => w == v.after_move_page_up(ps, false),
        Action::CursorPageDown => w == v.after_move_page_down(ps, false),
        Action::CursorDocStart => w == v.after_move_doc_start(false),
        Action::CursorDocEnd => w == v.after_move_doc_end(false),
        Action::SelectUp => w == v.after_move_up(true),
        Action::SelectDown => w == v.after_move_down(true),
        Action::SelectLeft => w == v.after_move_left(true),
        Action::SelectRight => w == v.after_move_right(true),
        Action::SelectWordLeft => w == v.after_move_word_left(true),
        Action::SelectWordRight => w == v.after_move_word_right(true),
        Action::SelectHome => w == v.after_move_home(true),
        Action::SelectEnd => w == v.after_move_end(true),
        Action::SelectPageUp => w == v.after_move_page_up(ps, true),
        Action::SelectPageDown => w == v.after_move_page_down(ps, true),
        Action::SelectAll => w == v.after_select_all(),
        Action::InsertChar(c) => if editing { editor::insert_char_post(v, w, c) } else { w == v },
        Action::Backspace => if editing { editor::backspace_post(v, w) } else { w == v },
        Action::DeleteChar => if editing { editor::delete_post(v, w) } else { w == v },
        Action::DeleteWord => w == if editing { v.after_delete_word_back() } else { v },
        Action::Enter => w == if editing { v.after_enter() } else { v },
        Action::IndentRight => if editing { editor::indent_post(v, w) } else { w == v },
        Action::IndentLeft => if editing { editor::outdent_post(v, w) } else { w == v },
        Action::DeleteLine => w == if editing { v.after_delete_line() } else { v },
        Action::Undo => w == v.after_undo(),
        Action::Redo => w == v.after_redo(),
        _ => w == v,
    }
}

/// Applies a buffer action to `buf`.
pub fn apply_buffer_action(buf: &mut Buffer, action: Action, page_size: usize, editing: bool)
    requires
        buffer_ok(old(buf)@, action, page_size, editing),
    ensures
        final(buf)@.wf(),
        buffer_post(old(buf)@, final(buf)@, action, page_size, editing),
{
    match action {
        Action::CursorUp => buf.move_up(false),
        Action::CursorDown => buf.move_down(false),
        Action::CursorLeft => {
            if editing {
                buf.move_left(false);
            }
        },
        Action::CursorRight => {
            if editing {
                buf.move_right(false);
            }
        },
        Action::CursorWordLeft => buf.move_word_left(false),
        Action::CursorWordRight => buf.move_word_right(false),
        Action::CursorHome => buf.move_home(false),
        Action::CursorEnd => buf.move_end(false),
        Action::CursorPageUp => buf.move_page_up(page_size, false),
        Action::CursorPageDown => buf.move_page_down(page_size, false),
        Action::CursorDocStart => buf.move_doc_start(false),
        Action::CursorDocEnd => buf.move_doc_end(false),
        Action::SelectUp => buf.move_up(true),
        Action::SelectDown => buf.move_down(true),
        Action::SelectLeft => buf.move_left(true),
        Action::SelectRight => buf.move_right(true),
        Action::SelectWordLeft => buf.move_word_left(true),
        Action::SelectWordRight => buf.move_word_right(true),
        Action::SelectHome => buf.move_home(true),
        Action::SelectEnd => buf.move_end(true),
        Action::SelectPageUp => buf.move_page_up(page_size, true),
        Action::SelectPageDown => buf.move_page_down(page_size, true),
        Action::SelectAll => buf.select_all(),
        Action::InsertChar(c) => {
            if editing {
                buf.insert_char(c);
            }
        },
        Action::Backspace => {
            if editing {
                buf.backspace();
            }
        },
        Action::DeleteChar => {
            if editing {
                buf.delete();
            }
        },
        Action::DeleteWord => {
            if editing {
                buf.delete_word_back();
            }
        },
        Action::Enter => {
            if editing {
                buf.enter();
            }
        },
        Action::IndentRight => {
            if editing {
                buf.indent_line();
            }
        },
        Action::IndentLeft => {
            if editing {
                buf.outdent_line();
            }
        },
        Action::DeleteLine => {
            if editing {
                buf.delete_line();
            }
        },
        Action::Undo => buf.undo(),
        Action::Redo => buf.redo(),
        _ => {},
    }
}


// ---------------------------------------------------------------------------
// The other actions, as values
// ---------------------------------------------------------------------------

/// What cutting takes: the selected text; without a selection, in edit
/// mode, the cursor's line.
pub open spec fn cut_text(b: BufferView, editing: bool) -> Option<Seq<char>> {
    if b.selection.is_some() {
        b.selected()
    } else if editing {
        Some(b.text[b.cursor.line as int])
    } else {
        None
    }
}

/// The buffer once cut: the selection deleted; without a selection, in edit
/// mode, the cursor's line deleted.
pub open spec fn after_cut(b: BufferView, editing: bool) -> BufferView {
    if b.selection.is_some() {
        b.after_delete_selection()
    } else if editing {
        b.after_delete_line()
    } else {
        b
    }
}

/// What copying takes: the selected text, else the cursor's line.
pub open spec fn copy_text(b: BufferView) -> Seq<char> {
    match b.selected() {
        Some(t) => t,
        None => b.text[b.cursor.line as int],
    }
}

/// What pasting inserts: the system clipboard's text, else the last text
/// copied here.
pub open spec fn paste_text(system: Option<Seq<char>>, last: Option<Seq<char>>) -> Option<Seq<char>> {
    match system {
        Some(s) => Some(s),
        None => last,
    }
}

/// The next case-insensitive match of `q` from `from`; none for an empty
/// query.
pub open spec fn search_next(b: BufferView, q: Seq<char>, from: Pos) -> Option<Pos> {
    if q.len() == 0 {
        None
    } else {
        editor::next_match(editor::lowered(b.text), text::lowercase(q), from)
    }
}

/// The previous case-insensitive match of `q` from `from`; none for an empty
/// query.
pub open spec fn search_prev(b: BufferView, q: Seq<char>, from: Pos) -> Option<Pos> {
    if q.len() == 0 {
        None
    } else {
        editor::prev_match(editor::lowered(b.text), text::lowercase(q), from)
    }
}

/// The cursor moved to a match found, the selection dropped.
pub open spec fn jumped(b: BufferView, found: Option<Pos>) -> BufferView {
    match found {
        Some(p) => BufferView { cursor: p, selection: None, ..b },
        None => b,
    }
}

/// The text line under screen row `y` (row 0 is the pane's border).
pub open spec fn row_line(scroll: usize, y: u16) -> int {
    scroll + if y >= 1 { y - 1 } else { 0 }
}

/// The cursor position for screen column `x` on `line`: clamped to the line.
pub open spec fn col_pos(b: BufferView, line: int, x: u16) -> Pos {
    let c: int = if x >= 1 { x - 1 } else { 0 };
    let len = b.text[line].len();
    Pos { line: line as usize, col: if c <= len { c as usize } else { len as usize } }
}

/// A click on `line`, column `x`: the cursor there, the selection dropped;
/// nothing below the text.
pub open spec fn clicked(b: BufferView, line: int, x: u16) -> BufferView {
    if line < b.text.len() {
        BufferView { cursor: col_pos(b, line, x), selection: None, ..b }
    } else {
        b
    }
}

/// A drag to `line`, column `x`: the selection started (or kept) and its
/// cursor end moved there; nothing below the text.
pub open spec fn dragged(b: BufferView, line: int, x: u16) -> BufferView {
    if line < b.text.len() {
        BufferView { cursor: col_pos(b, line, x), ..b.after_start_selection() }.after_update_selection()
    } else {
        b
    }
}

/// The first line shown after scrolling by `delta` lines, held to the range
/// of `usize`.
pub open spec fn scrolled(scroll: usize, delta: i32) -> usize {
    if delta > 0 {
        if scroll + delta > usize::MAX { usize::MAX } else { (scroll + delta) as usize }
    } else {
        if scroll + delta < 0 { 0 } else { (scroll + delta) as usize }
    }
}

impl AppView {
    /// Whether the focused pane is in edit mode.
    pub open spec fn editing(self) -> bool {
        self.pane().editing
    }

    /// The message cleared, as every action starts.
    pub open spec fn cleared(self) -> AppView {
        AppView { message: None, ..self }
    }

    pub open spec fn after_quit(self) -> AppView {
        if self.input_mode == InputMode::Search {
            AppView { input_mode: InputMode::Normal, search_query: Seq::empty(), ..self }
        } else {
            AppView { should_quit: true, ..self }
        }
    }

    pub open spec fn after_cut(self) -> AppView {
        let b = self.active();
        let w = self.with_active(after_cut(b, self.editing()));
        match cut_text(b, self.editing()) {
            Some(t) => AppView { last_copied: Some(t), message: Some("Cut"@), ..w },
            None => w,
        }
    }

    pub open spec fn after_copy(self) -> AppView {
        AppView { last_copied: Some(copy_text(self.active())), message: Some("Copied"@), ..self }
    }

    /// Both buffers marked saved, both panes in preview.
    pub open spec fn after_save(self) -> AppView {
        AppView {
            todo: BufferView { dirty: false, ..self.todo },
            finished: BufferView { dirty: false, ..self.finished },
            todo_pane: PaneState { editing: false, ..self.todo_pane },
            finished_pane: PaneState { editing: false, ..self.finished_pane },
            message: Some("Saved"@),
            ..self
        }
    }

    /// From the todo pane the item is completed on `day`; from the finished
    /// pane it is recovered to the todo list.
    pub open spec fn after_complete(self, day: int) -> AppView {
        match self.focus {
            FocusPane::Todo => {
                let (t, f) = finished::completed(self.todo, self.finished, day);
                let ok = markdown::is_item(self.todo.text[self.todo.cursor.line as int]);
                AppView {
                    todo: t,
                    finished: f,
                    message: Some(if ok { "Completed!"@ } else { "Not a list item (- )"@ }),
                    ..self
                }
            },
            FocusPane::Finished => {
                let (f, t) = finished::recovered(self.finished, self.todo);
                let ok = markdown::is_item(self.finished.text[self.finished.cursor.line as int]);
                AppView {
                    todo: t,
                    finished: f,
                    message: Some(if ok { "Recovered to todo"@ } else { "Not a list item"@ }),
                    ..self
                }
            },
        }
    }

    /// The cursor's line unfolded if folded, else folded if it is a heading.
    pub open spec fn after_toggle_fold(self) -> AppView {
        let line = self.active().cursor.line;
        if self.folded.contains(line) {
            AppView { folded: self.folded.remove(line), ..self }
        } else if markdown::classify(self.active().text[line as int], false) is Heading {
            AppView { folded: self.folded.insert(line), ..self }
        } else {
            self
        }
    }

    pub open spec fn after_toggle_edit(self) -> AppView {
        let p = PaneState { editing: !self.editing(), ..self.pane() };
        AppView {
            message: Some(if p.editing { "Edit mode"@ } else { "Preview mode"@ }),
            ..self.with_pane(p)
        }
    }

    pub open spec fn after_switch(self) -> AppView {
        AppView {
            focus: match self.focus {
                FocusPane::Todo => FocusPane::Finished,
                FocusPane::Finished => FocusPane::Todo,
            },
            ..self
        }
    }

    pub open spec fn after_search_start(self) -> AppView {
        AppView {
            input_mode: InputMode::Search,
            search_query: Seq::empty(),
            message: Some("Search:"@),
            ..self
        }
    }

    /// The query grown by `c`, the cursor on its first match from the cursor.
    pub open spec fn after_search_char(self, c: char) -> AppView {
        let q = self.search_query.push(c);
        let b = self.active();
        AppView { search_query: q, ..self.with_active(jumped(b, search_next(b, q, b.cursor))) }
    }

    pub open spec fn after_search_backspace(self) -> AppView {
        let q = self.search_query;
        AppView { search_query: if q.len() > 0 { q.drop_last() } else { q }, ..self }
    }

    /// The cursor on the next match after the current one; `confirm` also
    /// leaves search input.
    pub open spec fn after_search_next(self, confirm: bool) -> AppView {
        let b = self.active();
        let from = Pos { line: b.cursor.line, col: (b.cursor.col + 1) as usize };
        let w = self.with_active(jumped(b, search_next(b, self.search_query, from)));
        if confirm {
            AppView { input_mode: InputMode::Normal, ..w }
        } else {
            w
        }
    }

    pub open spec fn after_search_prev(self) -> AppView {
        let b = self.active();
        self.with_active(jumped(b, search_prev(b, self.search_query, b.cursor)))
    }

    pub open spec fn after_search_cancel(self) -> AppView {
        AppView { input_mode: InputMode::Normal, search_query: Seq::empty(), ..self }
    }

    pub open spec fn after_click(self, x: u16, y: u16) -> AppView {
        self.with_active(clicked(self.active(), row_line(self.pane().scroll, y), x))
    }

    pub open spec fn after_drag(self, x: u16, y: u16) -> AppView {
        self.with_active(dragged(self.active(), row_line(self.pane().scroll, y), x))
    }

    pub open spec fn after_scroll(self, delta: i32) -> AppView {
        self.with_pane(PaneState { scroll: scrolled(self.pane().scroll, delta), ..self.pane() })
    }

    /// The text chosen by `paste_text` inserted at the cursor, or a message
    /// that there is nothing to paste.
    pub open spec fn after_paste(self, system: Option<Seq<char>>) -> AppView {
        match paste_text(system, self.last_copied) {
            Some(t) => AppView {
                message: Some("Pasted"@),
                ..self.with_active(self.active().after_insert_str(t))
            },
            None => AppView { message: Some("Nothing to paste"@), ..self },
        }
    }
}

/// What `App::update` needs: both buffers well formed, and what the action
/// itself needs (a valid selection to cut or copy, room for the numbers it
/// computes).
pub open spec fn update_ok(v: AppView, a: Action, ps: usize) -> bool {
    &&& v.wf()
    &&& is_buffer_action(a) ==> buffer_ok(v.active(), a, ps, v.editing())
    &&& match a {
        Action::Cut | Action::Copy => v.active().sel_valid(),
        Action::SearchConfirm | Action::SearchNext => v.active().cursor.col < usize::MAX,
        Action::MouseClick(_, y) => row_line(v.pane().scroll, y) <= usize::MAX,
        Action::MouseDrag(_, y) => row_line(v.pane().scroll, y) <= usize::MAX,
        Action::MouseScroll(d, _, _) => d != i32::MIN,
        _ => true,
    }
}

/// `w` is the app `v` after `App::update(a, ps)`. Completing files the item
/// under the day the clock gave, some day chrono can represent.
pub open spec fn update_post(v: AppView, w: AppView, a: Action, ps: usize) -> bool {
    let u = v.cleared();
    if is_buffer_action(a) {
        &&& buffer_post(u.active(), w.active(), a, ps, u.editing())
        &&& w == u.with_active(w.active())
    } else {
        match a {
            Action::Quit => w == u.after_quit(),
            Action::Cut => w == u.after_cut(),
            Action::Copy => w == u.after_copy(),
            Action::Save => w == u.after_save(),
            Action::Complete => exists|d: int| finished::valid_day(d) && w == u.after_complete(d),
            Action::ToggleFold => w == u.after_toggle_fold(),
            Action::ToggleEdit => w == u.after_toggle_edit(),
            Action::SwitchPane => w == u.after_switch(),
            Action::Search => w == u.after_search_start(),
            Action::SearchInsertChar(c) => w == u.after_search_char(c),
            Action::SearchBackspace => w == u.after_search_backspace(),
            Action::SearchConfirm => w == u.after_search_next(true),
            Action::SearchNext => w == u.after_search_next(false),
            Action::SearchPrev => w == u.after_search_prev(),
            Action::SearchCancel => w == u.after_search_cancel(),
            Action::MouseClick(x, y) => w == u.after_click(x, y),
            Action::MouseDrag(x, y) => w == u.after_drag(x, y),
            Action::MouseScroll(d, _, _) => w == u.after_scroll(d),
            _ => w == u,
        }
    }
}

/// What `App::update(a, ..)` from `v` leaves to do outside.
pub open spec fn effect_post(v: AppView, a: Action, r: Effect) -> bool {
    let u = v.cleared();
    match a {
        Action::Cut => match cut_text(u.active(), u.editing()) {
            Some(t) => r matches Effect::CopyToClipboard(s) && s@ == t,
            None => r is Nothing,
        },
        Action::Copy => r matches Effect::CopyToClipboard(s) && s@ == copy_text(u.active()),
        Action::Paste => if u.editing() { r is ReadClipboard } else { r is Nothing },
        Action::Save => r matches Effect::Save { todo, finished } && todo@ == text::join_nl(u.todo.text)
            && finished@ == text::join_nl(u.finished.text),
        _ => r is Nothing,
    }
}


// ---------------------------------------------------------------------------
// The app
// ---------------------------------------------------------------------------

/// `Local::now().date_naive()`, as its day number: today's date in the
/// machine's time zone. Nothing is stated of which day it is, only that
/// chrono's dates lie in its range.
#[verifier::external_body]
fn local_today() -> (d: Date)
    ensures
        finished::valid_day(d.days_from_ce as int),
{
    Date { days_from_ce: chrono::Datelike::num_days_from_ce(&chrono::Local::now().date_naive()) }
}

impl App {
    pub fn new(todo_buf: Buffer, finished_buf: Buffer, todo_path: PathBuf, finished_path: PathBuf) -> (app: App)
        ensures
            app@ == (AppView {
                todo: todo_buf@,
                finished: finished_buf@,
                focus: FocusPane::Todo,
                todo_pane: PaneState { scroll: 0, editing: true },
                finished_pane: PaneState { scroll: 0, editing: false },
                todo_path,
                finished_path,
                should_quit: false,
                message: None,
                input_mode: InputMode::Normal,
                search_query: Seq::empty(),
                last_copied: None,
                folded: Set::empty(),
            }),
    {
        App {
            todo_buf,
            finished_buf,
            focus: FocusPane::Todo,
            todo_pane: PaneState::new(),
            finished_pane: PaneState { scroll: 0, editing: false },
            todo_path,
            finished_path,
            should_quit: false,
            message: None,
            input_mode: InputMode::Normal,
            search_query: String::new(),
            last_copied: None,
            folded: HashSet::new(),
        }
    }

    fn active_buf(&self) -> (b: &Buffer)
        ensures
            b@ == self@.active(),
    {
        match self.focus {
            FocusPane::Todo => &self.todo_buf,
            FocusPane::Finished => &self.finished_buf,
        }
    }

    /// The state of the focused pane.
    pub fn active_pane(&self) -> (p: &PaneState)
        ensures
            *p == self@.pane(),
    {
        match self.focus {
            FocusPane::Todo => &self.todo_pane,
            FocusPane::Finished => &self.finished_pane,
        }
    }

    fn is_editing(&self) -> (r: bool)
        ensures
            r == self@.editing(),
    {
        self.active_pane().editing
    }

    /// Whether the focused buffer's selection lies within its text.
    pub fn selection_valid(&self) -> (r: bool)
        ensures
            r == self@.active().sel_valid(),
    {
        let b = self.active_buf();
        match b.selection {
            Some(s) => s.anchor.line < b.lines.len() && s.cursor.line < b.lines.len(),
            None => true,
        }
    }

    /// Marks both buffers saved and puts both panes in preview; returns the
    /// texts to write to the todo and finished files.
    pub fn save(&mut self) -> (r: (String, String))
        ensures
            final(self)@ == old(self)@.after_save(),
            r.0@ == text::join_nl(old(self)@.todo.text),
            r.1@ == text::join_nl(old(self)@.finished.text),
    {
        let todo = self.todo_buf.to_string();
        self.todo_buf.dirty = false;
        let done = self.finished_buf.to_string();
        self.finished_buf.dirty = false;
        self.todo_pane.editing = false;
        self.finished_pane.editing = false;
        self.message = Some("Saved".to_owned());
        (todo, done)
    }
}



impl App {
    fn active_buf_mut(&mut self) -> (b: &mut Buffer)
        ensures
            b@ == old(self)@.active(),
            final(self)@ == old(self)@.with_active(final(b)@),
    {
        match self.focus {
            FocusPane::Todo => &mut self.todo_buf,
            FocusPane::Finished => &mut self.finished_buf,
        }
    }

    fn active_pane_mut(&mut self) -> (p: &mut PaneState)
        ensures
            *p == old(self)@.pane(),
            final(self)@ == old(self)@.with_pane(*final(p)),
    {
        match self.focus {
            FocusPane::Todo => &mut self.todo_pane,
            FocusPane::Finished => &mut self.finished_pane,
        }
    }

    /// Moves the focused buffer's cursor to `found`, if any, dropping the
    /// selection.
    fn jump_to(&mut self, found: Option<Pos>)
        requires
            old(self)@.wf(),
            found matches Some(p) ==> p.line < old(self)@.active().text.len(),
        ensures
            final(self)@ == old(self)@.with_active(jumped(old(self)@.active(), found)),
            final(self)@.wf(),
    {
        match found {
            Some(p) => {
                let b = self.active_buf_mut();
                b.cursor = p;
                b.clear_selection();
            },
            None => {},
        }
    }
}


impl App {
    fn cut(&mut self) -> (r: Effect)
        requires
            old(self)@.wf(),
            old(self)@.active().sel_valid(),
        ensures
            final(self)@ == old(self)@.after_cut(),
            final(self)@.wf(),
            match cut_text(old(self)@.active(), old(self)@.editing()) {
                Some(t) => r matches Effect::CopyToClipboard(s) && s@ == t,
                None => r is Nothing,
            },
    {
        let editing = self.is_editing();
        let b = self.active_buf_mut();
        let text = if b.selection.is_some() {
            b.delete_selection()
        } else if editing {
            let line = b.lines[b.cursor.line].clone();
            b.delete_line();
            Some(line)
        } else {
            None
        };
        match text {
            Some(t) => {
                self.last_copied = Some(t.clone());
                self.message = Some("Cut".to_owned());
                Effect::CopyToClipboard(t)
            },
            None => Effect::Nothing,
        }
    }

    fn copy(&mut self) -> (r: Effect)
        requires
            old(self)@.wf(),
            old(self)@.active().sel_valid(),
        ensures
            final(self)@ == old(self)@.after_copy(),
            r matches Effect::CopyToClipboard(s) && s@ == copy_text(old(self)@.active()),
    {
        let b = self.active_buf();
        let t = match b.selected_text() {
            Some(t) => t,
            None => b.lines[b.cursor.line].clone(),
        };
        self.last_copied = Some(t.clone());
        self.message = Some("Copied".to_owned());
        Effect::CopyToClipboard(t)
    }

    /// Pastes at the cursor of the focused buffer: the system clipboard's
    /// text when there is one (read outside and handed in as `system`),
    /// else the last text copied here.
    pub fn paste(&mut self, system: Option<String>)
        requires
            old(self)@.wf(),
            paste_text(opt_text(system), old(self)@.last_copied) matches Some(t)
                ==> old(self)@.active().insert_str_ok(t),
        ensures
            final(self)@ == old(self)@.after_paste(opt_text(system)),
            final(self)@.wf(),
    {
        let use_system = match &system {
            Some(s) => match &self.last_copied {
                Some(lc) => !(*lc == *s),
                None => true,
            },
            None => false,
        };
        let text = if use_system {
            system
        } else {
            match &self.last_copied {
                Some(lc) => Some(lc.clone()),
                None => None,
            }
        };
        match text {
            Some(t) => {
                self.active_buf_mut().insert_str(t.as_str());
                self.message = Some("Pasted".to_owned());
            },
            None => {
                self.message = Some("Nothing to paste".to_owned());
            },
        }
    }

    /// Completes the todo item at the cursor on `today`, or, from the
    /// finished pane, recovers the finished item to the todo list.
    pub fn complete(&mut self, today: Date)
        requires
            old(self)@.wf(),
            finished::valid_day(today.days_from_ce as int),
        ensures
            final(self)@ == old(self)@.after_complete(today.days_from_ce as int),
            final(self)@.wf(),
    {
        match self.focus {
            FocusPane::Todo => {
                if complete_item(&mut self.todo_buf, &mut self.finished_buf, today) {
                    self.message = Some("Completed!".to_owned());
                } else {
                    self.message = Some("Not a list item (- )".to_owned());
                }
            },
            FocusPane::Finished => {
                if recover_item(&mut self.finished_buf, &mut self.todo_buf) {
                    self.message = Some("Recovered to todo".to_owned());
                } else {
                    self.message = Some("Not a list item".to_owned());
                }
            },
        }
    }

    fn toggle_fold(&mut self)
        requires
            old(self)@.wf(),
        ensures
            final(self)@ == old(self)@.after_toggle_fold(),
    {
        let line = self.active_buf().cursor.line;
        if self.folded.contains(&line) {
            self.folded.remove(&line);
        } else {
            let kind = classify_line(self.active_buf().lines[line].as_str(), false);
            if matches!(kind, LineKind::Heading(_)) {
                self.folded.insert(line);
            }
        }
    }

    fn toggle_edit(&mut self)
        ensures
            final(self)@ == old(self)@.after_toggle_edit(),
    {
        let pane = self.active_pane_mut();
        pane.editing = !pane.editing;
        let editing = pane.editing;
        if editing {
            self.message = Some("Edit mode".to_owned());
        } else {
            self.message = Some("Preview mode".to_owned());
        }
    }
}


impl App {
    fn search_insert_char(&mut self, c: char)
        requires
            old(self)@.wf(),
        ensures
            final(self)@ == old(self)@.after_search_char(c),
            final(self)@.wf(),
    {
        text::push_char(&mut self.search_query, c);
        let b = self.active_buf();
        let found = b.find_next(self.search_query.as_str(), b.cursor);
        let n = b.lines.len();
        proof {
            assert(editor::lowered(b@.text).len() == n);
            editor::lemma_match_line(
                editor::lowered(b@.text),
                text::lowercase(self.search_query@),
                b.cursor,
            );
        }
        self.jump_to(found);
    }

    fn search_backspace(&mut self)
        ensures
            final(self)@ == old(self)@.after_search_backspace(),
    {
        let cs = chars_of(self.search_query.as_str());
        if cs.len() > 0 {
            self.search_query = string_of_range(cs.as_slice(), 0, cs.len() - 1);
            assert(self.search_query@ =~= old(self)@.search_query.drop_last());
        }
    }

    fn search_next(&mut self, confirm: bool)
        requires
            old(self)@.wf(),
            old(self)@.active().cursor.col < usize::MAX,
        ensures
            final(self)@ == old(self)@.after_search_next(confirm),
            final(self)@.wf(),
    {
        let b = self.active_buf();
        let from = Pos { line: b.cursor.line, col: b.cursor.col + 1 };
        let found = b.find_next(self.search_query.as_str(), from);
        let n = b.lines.len();
        proof {
            assert(editor::lowered(b@.text).len() == n);
            editor::lemma_match_line(
                editor::lowered(b@.text),
                text::lowercase(self.search_query@),
                from,
            );
        }
        self.jump_to(found);
        if confirm {
            self.input_mode = InputMode::Normal;
        }
    }

    fn search_prev(&mut self)
        requires
            old(self)@.wf(),
        ensures
            final(self)@ == old(self)@.after_search_prev(),
            final(self)@.wf(),
    {
        let b = self.active_buf();
        let found = b.find_prev(self.search_query.as_str(), b.cursor);
        let n = b.lines.len();
        proof {
            assert(editor::lowered(b@.text).len() == n);
            editor::lemma_match_line(
                editor::lowered(b@.text),
                text::lowercase(self.search_query@),
                b.cursor,
            );
        }
        self.jump_to(found);
    }

    fn handle_mouse_click(&mut self, x: u16, y: u16)
        requires
            old(self)@.wf(),
            row_line(old(self)@.pane().scroll, y) <= usize::MAX,
        ensures
            final(self)@ == old(self)@.after_click(x, y),
            final(self)@.wf(),
    {
        let scroll = self.active_pane().scroll;
        let line = scroll + y.saturating_sub(1) as usize;
        let b = self.active_buf_mut();
        if line < b.lines.len() {
            let col = x.saturating_sub(1) as usize;
            let max_col = chars_of(b.lines[line].as_str()).len();
            b.cursor.line = line;
            b.cursor.col = if col <= max_col { col } else { max_col };
            b.clear_selection();
        }
    }

    fn handle_mouse_drag(&mut self, x: u16, y: u16)
        requires
            old(self)@.wf(),
            row_line(old(self)@.pane().scroll, y) <= usize::MAX,
        ensures
            final(self)@ == old(self)@.after_drag(x, y),
            final(self)@.wf(),
    {
        let scroll = self.active_pane().scroll;
        let line = scroll + y.saturating_sub(1) as usize;
        let b = self.active_buf_mut();
        if line < b.lines.len() {
            b.start_or_extend_selection();
            let col = x.saturating_sub(1) as usize;
            let max_col = chars_of(b.lines[line].as_str()).len();
            b.cursor.line = line;
            b.cursor.col = if col <= max_col { col } else { max_col };
            b.update_selection_cursor();
        }
    }

    fn handle_mouse_scroll(&mut self, delta: i32)
        requires
            delta != i32::MIN,
        ensures
            final(self)@ == old(self)@.after_scroll(delta),
    {
        let pane = self.active_pane_mut();
        if delta > 0 {
            pane.scroll = pane.scroll.saturating_add(delta as usize);
        } else {
            pane.scroll = pane.scroll.saturating_sub((-delta) as usize);
        }
    }
}


impl App {
    /// Applies one action. The message is cleared first; what must happen
    /// outside (the clipboard, the files) is returned. For `Paste` in edit
    /// mode the caller reads the system clipboard and hands it to `paste`.
    pub fn update(&mut self, action: Action, page_size: usize) -> (r: Effect)
        requires
            update_ok(old(self)@, action, page_size),
        ensures
            final(self)@.wf(),
            update_post(old(self)@, final(self)@, action, page_size),
            effect_post(old(self)@, action, r),
    {
        self.message = None;
        if is_buffer_act(action) {
            let editing = self.is_editing();
            let b = self.active_buf_mut();
            apply_buffer_action(b, action, page_size, editing);
            return Effect::Nothing;
        }
        match action {
            Action::Quit => {
                if self.input_mode == InputMode::Search {
                    self.input_mode = InputMode::Normal;
                    self.search_query = String::new();
                } else {
                    self.should_quit = true;
                }
                Effect::Nothing
            },
            Action::Cut => self.cut(),
            Action::Copy => self.copy(),
            Action::Paste => {
                if self.is_editing() {
                    Effect::ReadClipboard
                } else {
                    Effect::Nothing
                }
            },
            Action::Save => {
                let (todo, finished) = self.save();
                Effect::Save { todo, finished }
            },
            Action::Complete => {
                let today = local_today();
                self.complete(today);
                Effect::Nothing
            },
            Action::ToggleFold => {
                self.toggle_fold();
                Effect::Nothing
            },
            Action::ToggleEdit => {
                self.toggle_edit();
                Effect::Nothing
            },
            Action::SwitchPane => {
                self.focus = match self.focus {
                    FocusPane::Todo => FocusPane::Finished,
                    FocusPane::Finished => FocusPane::Todo,
                };
                Effect::Nothing
            },
            Action::Search => {
                self.input_mode = InputMode::Search;
                self.search_query = String::new();
                self.message = Some("Search:".to_owned());
                Effect::Nothing
            },
            Action::SearchInsertChar(c) => {
                self.search_insert_char(c);
                Effect::Nothing
            },
            Action::SearchBackspace => {
                self.search_backspace();
                Effect::Nothing
            },
            Action::SearchConfirm => {
                self.search_next(true);
                Effect::Nothing
            },
            Action::SearchNext => {
                self.search_next(false);
                Effect::Nothing
            },
            Action::SearchPrev => {
                self.search_prev();
                Effect::Nothing
            },
            Action::SearchCancel => {
                self.input_mode = InputMode::Normal;
                self.search_query = String::new();
                Effect::Nothing
            },
            Action::MouseClick(x, y) => {
                self.handle_mouse_click(x, y);
                Effect::Nothing
            },
            Action::MouseDrag(x, y) => {
                self.handle_mouse_drag(x, y);
                Effect::Nothing
            },
            Action::MouseScroll(delta, _x, _y) => {
                self.handle_mouse_scroll(delta);
                Effect::Nothing
            },
            _ => Effect::Nothing,
        }
    }
}

/// Whether the action works on the focused buffer alone.
fn is_buffer_act(a: Action) -> (r: bool)
    ensures
        r == is_buffer_action(a),
{
    match a {
        Action::CursorUp | Action::CursorDown | Action::CursorLeft | Action::CursorRight
        | Action::CursorWordLeft | Action::CursorWordRight | Action::CursorHome
        | Action::CursorEnd | Action::CursorPageUp | Action::CursorPageDown
        | Action::CursorDocStart | Action::CursorDocEnd | Action::SelectUp
        | Action::SelectDown | Action::SelectLeft | Action::SelectRight
        | Action::SelectWordLeft | Action::SelectWordRight | Action::SelectHome
        | Action::SelectEnd | Action::SelectPageUp | Action::SelectPageDown
        | Action::SelectAll | Action::InsertChar(_) | Action::Backspace | Action::DeleteChar
        | Action::DeleteWord | Action::Enter | Action::IndentRight | Action::IndentLeft
        | Action::DeleteLine | Action::Undo | Action::Redo => true,
        _ => false,
    }
}


// ---------------------------------------------------------------------------
// Around the drawing
// ---------------------------------------------------------------------------

/// The key help of the status bar.
pub open spec fn help_text() -> Seq<char> {
    "^S:save  ^E:edit/preview  ^Enter:complete  ^F:search  ^Tab:switch  ^Z:undo  Esc:quit"@
}

/// The status bar: the search query while searching; else the focused
/// pane's mode, the message if there is one, and the key help.
pub open spec fn status_of(v: AppView) -> Seq<char> {
    if v.input_mode == InputMode::Search {
        " Search: "@ + v.search_query + "█  (Enter/↑↓:navigate  Esc:cancel)"@
    } else {
        let mode = if v.editing() { "EDIT"@ } else { "PREVIEW"@ };
        let msg = match v.message {
            Some(m) => m,
            None => Seq::<char>::empty(),
        };
        if msg.len() > 0 {
            " ["@ + mode + "] "@ + msg + "  │  "@ + help_text()
        } else {
            " ["@ + mode + "] "@ + help_text()
        }
    }
}

impl App {
    /// The text of the status bar.
    pub fn status_text(&self) -> (r: String)
        ensures
            r@ == status_of(self@),
    {
        if self.input_mode == InputMode::Search {
            let mut s = " Search: ".to_owned();
            push_str(&mut s, self.search_query.as_str());
            push_str(&mut s, "█  (Enter/↑↓:navigate  Esc:cancel)");
            return s;
        }
        let mode = if self.is_editing() { "EDIT" } else { "PREVIEW" };
        let help = "^S:save  ^E:edit/preview  ^Enter:complete  ^F:search  ^Tab:switch  ^Z:undo  Esc:quit";
        let mut s = " [".to_owned();
        push_str(&mut s, mode);
        push_str(&mut s, "] ");
        match &self.message {
            Some(m) => {
                if !m.as_str().is_empty() {
                    push_str(&mut s, m.as_str());
                    push_str(&mut s, "  │  ");
                }
            },
            None => {},
        }
        push_str(&mut s, help);
        s
    }

    /// Whether `keep_cursors_visible(inner_height)` may be called: scrolling
    /// to a cursor below a pane's first line stays within `usize`.
    pub fn can_keep_cursors_visible(&self, inner_height: usize) -> (r: bool)
        ensures
            r == ((inner_height > 0 && self.todo_buf.cursor.line >= self.todo_pane.scroll
                ==> self.todo_pane.scroll + inner_height <= usize::MAX) && (inner_height > 0
                && self.finished_buf.cursor.line >= self.finished_pane.scroll
                ==> self.finished_pane.scroll + inner_height <= usize::MAX)),
    {
        let h = inner_height;
        let todo_ok = h == 0 || self.todo_buf.cursor.line < self.todo_pane.scroll
            || self.todo_pane.scroll <= usize::MAX - h;
        let finished_ok = h == 0 || self.finished_buf.cursor.line < self.finished_pane.scroll
            || self.finished_pane.scroll <= usize::MAX - h;
        todo_ok && finished_ok
    }

    /// Scrolls both panes just enough for their cursors to show among
    /// `inner_height` rows.
    pub fn keep_cursors_visible(&mut self, inner_height: usize)
        requires
            inner_height > 0 && old(self).todo_buf.cursor.line >= old(self).todo_pane.scroll
                ==> old(self).todo_pane.scroll + inner_height <= usize::MAX,
            inner_height > 0 && old(self).finished_buf.cursor.line >= old(self).finished_pane.scroll
                ==> old(self).finished_pane.scroll + inner_height <= usize::MAX,
        ensures
            final(self)@ == (AppView {
                todo_pane: pane::scrolled_to(old(self)@.todo_pane, old(self)@.todo.cursor.line, inner_height),
                finished_pane: pane::scrolled_to(
                    old(self)@.finished_pane,
                    old(self)@.finished.cursor.line,
                    inner_height,
                ),
                ..old(self)@
            }),
    {
        let tl = self.todo_buf.cursor.line;
        self.todo_pane.ensure_cursor_visible(tl, inner_height);
        let fl = self.finished_buf.cursor.line;
        self.finished_pane.ensure_cursor_visible(fl, inner_height);
    }
}


// ---------------------------------------------------------------------------
// Laws
// ---------------------------------------------------------------------------

/// Switching panes twice comes back to the same state.
pub proof fn law_switch_twice(v: AppView)
    ensures
        v.after_switch().after_switch() == v,
{
}

/// Toggling edit mode twice gives the pane its mode back; only the message
/// tells what happened last.
pub proof fn law_toggle_edit_twice(v: AppView)
    ensures
        v.after_toggle_edit().after_toggle_edit() == (AppView {
            message: Some(if v.editing() { "Edit mode"@ } else { "Preview mode"@ }),
            ..v
        }),
{
}

/// Folding twice on the same line gives the folds back, unless the line is
/// folded while no longer a heading (then the first toggle unfolds it and
/// the second cannot fold it again).
pub proof fn law_toggle_fold_twice(v: AppView)
    requires
        v.active().cursor.line < v.active().text.len(),
        v.folded.contains(v.active().cursor.line) ==> markdown::classify(
            v.active().text[v.active().cursor.line as int],
            false,
        ) is Heading,
    ensures
        v.after_toggle_fold().after_toggle_fold() == v,
{
    let l = v.active().cursor.line;
    if v.folded.contains(l) {
        assert(v.folded.remove(l).insert(l) =~= v.folded);
    } else {
        assert(v.folded.insert(l).remove(l) =~= v.folded);
    }
}


// ---------------------------------------------------------------------------
// Checking what an action needs
// ---------------------------------------------------------------------------

/// The column an edit starts at: the selection's start once a non-empty
/// selection is deleted, else the cursor's column.
fn edit_pos(b: &Buffer) -> (p: Pos)
    requires
        b@.wf(),
    ensures
        p == b@.pre_edit().cursor,
{
    match b.selection {
        Some(s) => {
            let (start, end) = s.ordered();
            if start == end {
                b.cursor
            } else {
                start
            }
        },
        None => b.cursor,
    }
}

impl App {
    /// Whether `update(action, page_size)` may be called: what
    /// `update_ok` asks of a well-formed app.
    pub fn can_update(&self, action: Action, page_size: usize) -> (r: bool)
        requires
            self@.wf(),
        ensures
            r == update_ok(self@, action, page_size),
    {
        let b = self.active_buf();
        let editing = self.is_editing();
        let n = b.lines.len();
        let sel_ok = match b.selection {
            Some(s) => s.anchor.line < n && s.cursor.line < n,
            None => true,
        };
        let len = chars_of(b.lines[b.cursor.line].as_str()).len();
        let col_ok = b.cursor.col <= len;
        match action {
            Action::CursorWordLeft | Action::SelectWordLeft => col_ok,
            Action::CursorPageDown | Action::SelectPageDown => b.cursor.line <= usize::MAX - page_size,
            Action::InsertChar(_) => !editing || (sel_ok && edit_pos(b).col < usize::MAX),
            Action::Backspace | Action::DeleteWord => !editing || (sel_ok && (b.selection.is_some() || col_ok)),
            Action::DeleteChar | Action::Enter => !editing || sel_ok,
            Action::IndentRight => !editing || b.cursor.col <= usize::MAX - 2,
            Action::Cut | Action::Copy => sel_ok,
            Action::SearchConfirm | Action::SearchNext => b.cursor.col < usize::MAX,
            Action::MouseClick(_, y) | Action::MouseDrag(_, y) => {
                let row = y.saturating_sub(1) as usize;
                self.active_pane().scroll <= usize::MAX - row
            },
            Action::MouseScroll(d, _, _) => d != i32::MIN,
            _ => true,
        }
    }

    /// Whether `paste(system)` may be called: the text it would insert fits
    /// at the cursor (see `insert_str_ok`).
    pub fn can_paste(&self, system: &Option<String>) -> (r: bool)
        requires
            self@.wf(),
        ensures
            r == (paste_text(opt_text(*system), self@.last_copied) matches Some(t) ==> self@.active().insert_str_ok(t)),
    {
        let t = match system {
            Some(s) => s,
            None => match &self.last_copied {
                Some(l) => l,
                None => return true,
            },
        };
        let b = self.active_buf();
        let n = b.lines.len();
        let sel_ok = match b.selection {
            Some(s) => s.anchor.line < n && s.cursor.line < n,
            None => true,
        };
        if !sel_ok {
            return false;
        }
        let p = edit_pos(b);
        let parts = split_newlines(chars_of(t.as_str()).as_slice());
        proof {
            text::lemma_split_nl_len(t@);
        }
        if parts.len() == 1 {
            p.col <= usize::MAX - parts[0].len()
        } else {
            p.line <= usize::MAX - (parts.len() - 1)
        }
    }
}

} // verus!
