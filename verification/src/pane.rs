use vstd::prelude::*;
use std::collections::HashSet;
use crate::editor;
use crate::editor::{Buffer, BufferView, Pos};
use crate::markdown;
use crate::markdown::{classify_lines, heading_section_range, parse_inline_spans, LineKind, SpanKind};
use crate::text;
use crate::text::{chars_of, match_here, push_char, push_str, string_of_range, to_lowercase};

verus! {

broadcast use vstd::std_specs::hash::group_hash_axioms;

/// How a pane shows its buffer: the first line shown, and whether the text
/// is edited raw or previewed with markdown styling.
#[derive(Debug, Clone, Copy, PartialEq, Eq, Structural)]
pub struct PaneState {
    pub scroll: usize,
    pub editing: bool,
}

/// The pane scrolled just enough for `line` to show among `height` rows.
pub open spec fn scrolled_to(p: PaneState, line: usize, height: usize) -> PaneState {
    if height == 0 || (p.scroll <= line && line < p.scroll + height) {
        p
    } else if line < p.scroll {
        PaneState { scroll: line, ..p }
    } else {
        PaneState { scroll: (line - height + 1) as usize, ..p }
    }
}

impl PaneState {
    pub fn new() -> (p: PaneState)
        ensures
            p == (PaneState { scroll: 0, editing: true }),
    {
        PaneState { scroll: 0, editing: true }
    }

    /// Scrolls just enough for `cursor_line` to show among `height` lines.
    pub fn ensure_cursor_visible(&mut self, cursor_line: usize, height: usize)
        requires
            height > 0 && cursor_line >= old(self).scroll ==> old(self).scroll + height <= usize::MAX,
        ensures
            *final(self) == scrolled_to(*old(self), cursor_line, height),
            final(self).editing == old(self).editing,
            height == 0 ==> final(self).scroll == old(self).scroll,
            height > 0 ==> final(self).scroll <= cursor_line < final(self).scroll + height,
            height > 0 ==> final(self).scroll == if cursor_line < old(self).scroll {
                cursor_line
            } else if cursor_line >= old(self).scroll + height {
                (cursor_line - height + 1) as usize
            } else {
                old(self).scroll
            },
    {
        if height == 0 {
            return;
        }
        if cursor_line < self.scroll {
            self.scroll = cursor_line;
        } else if cursor_line >= self.scroll + height {
            self.scroll = cursor_line - height + 1;
        }
    }
}


// ---------------------------------------------------------------------------
// What a pane shows
// ---------------------------------------------------------------------------

/// How a piece of a pane is drawn.
#[derive(Debug, Clone, Copy, PartialEq, Eq, Structural)]
pub enum Look {
    Plain,
    /// The cursor's cell in edit mode (inverted).
    Cursor,
    /// A selected character.
    Selected,
    /// A character of a search match.
    Match,
    /// Text of a level 1 heading: cyan, bold.
    Title,
    /// Text of a level 2 heading: cyan.
    Subtitle,
    /// Text of a lower heading: blue.
    Heading,
    /// Markers and the fold mark: dark gray.
    Dim,
    /// Quoted text: dark gray, italic.
    Quote,
    Bold,
    Italic,
    Code,
}

/// A run of text drawn one way.
#[derive(Debug, PartialEq, Eq)]
pub struct Piece {
    pub text: String,
    pub look: Look,
}

/// One screen row: the buffer line it shows, its pieces, and whether the
/// whole row is highlighted (the cursor's line in preview).
#[derive(Debug, PartialEq, Eq)]
pub struct Row {
    pub line: usize,
    pub pieces: Vec<Piece>,
    pub highlight: bool,
}

/// What a pane shows: its title and its rows, top first.
pub struct PaneRender {
    pub title: String,
    pub rows: Vec<Row>,
}

pub struct RowView {
    pub line: usize,
    pub pieces: Seq<(Seq<char>, Look)>,
    pub highlight: bool,
}

impl View for Piece {
    type V = (Seq<char>, Look);

    open spec fn view(&self) -> (Seq<char>, Look) {
        (self.text@, self.look)
    }
}

impl View for Row {
    type V = RowView;

    open spec fn view(&self) -> RowView {
        RowView {
            line: self.line,
            pieces: self.pieces@.map_values(|p: Piece| p@),
            highlight: self.highlight,
        }
    }
}

impl View for PaneRender {
    type V = (Seq<char>, Seq<RowView>);

    open spec fn view(&self) -> (Seq<char>, Seq<RowView>) {
        (self.title@, self.rows@.map_values(|r: Row| r@))
    }
}

// ---------------------------------------------------------------------------
// Folding and scrolling
// ---------------------------------------------------------------------------

/// The line shown after line `i`: past the section of a folded heading,
/// else the next line.
pub open spec fn fold_next(ls: Seq<Seq<char>>, folded: Set<usize>, i: int) -> int {
    let kinds = markdown::classify_all(ls);
    match kinds[i] {
        LineKind::Heading(level) => if folded.contains(i as usize) {
            markdown::section_end(kinds, level, i + 1)
        } else {
            i + 1
        },
        _ => i + 1,
    }
}

pub proof fn lemma_fold_next(ls: Seq<Seq<char>>, folded: Set<usize>, i: int)
    requires
        0 <= i < ls.len(),
    ensures
        i < fold_next(ls, folded, i) <= ls.len(),
{
    let kinds = markdown::classify_all(ls);
    if let LineKind::Heading(level) = kinds[i] {
        markdown::lemma_section_end_bounds(kinds, level, i + 1);
    }
}

/// The lines shown from line `i` on: every line, except that the lines of
/// a folded heading's section after the heading are hidden.
pub open spec fn visible_from(ls: Seq<Seq<char>>, folded: Set<usize>, i: int) -> Seq<usize>
    decreases ls.len() - i,
{
    if i < 0 || i >= ls.len() {
        Seq::empty()
    } else {
        proof {
            lemma_fold_next(ls, folded, i);
        }
        seq![i as usize] + visible_from(ls, folded, fold_next(ls, folded, i))
    }
}

pub proof fn lemma_visible_bounds(ls: Seq<Seq<char>>, folded: Set<usize>, i: int)
    requires
        0 <= i,
        ls.len() <= usize::MAX,
    ensures
        forall|k: int| 0 <= k < visible_from(ls, folded, i).len()
            ==> i <= #[trigger] visible_from(ls, folded, i)[k] < ls.len(),
    decreases ls.len() - i,
{
    if i < ls.len() {
        lemma_fold_next(ls, folded, i);
        let next = fold_next(ls, folded, i);
        lemma_visible_bounds(ls, folded, next);
        let v = visible_from(ls, folded, i);
        let rest = visible_from(ls, folded, next);
        assert(v == seq![i as usize] + rest);
        assert forall|k: int| 0 <= k < v.len() implies i <= #[trigger] v[k] < ls.len() by {
            if k > 0 {
                assert(v[k] == rest[k - 1]);
            }
        }
    }
}

/// The place of `x` in `vis` from `k` on; 0 when it is not there.
pub open spec fn index_from(vis: Seq<usize>, x: usize, k: int) -> int
    decreases vis.len() - k,
{
    if k < 0 || k >= vis.len() {
        0
    } else if vis[k] == x {
        k
    } else {
        index_from(vis, x, k + 1)
    }
}

pub proof fn lemma_index_from(vis: Seq<usize>, x: usize, k: int)
    requires
        0 <= k,
        vis.len() > 0,
    ensures
        0 <= index_from(vis, x, k) < vis.len(),
    decreases vis.len() - k,
{
    if k < vis.len() && vis[k] != x {
        lemma_index_from(vis, x, k + 1);
    }
}

/// The first row shown: the pane's own scroll, moved just enough for the
/// cursor's row `cv` to show among `h` rows.
pub open spec fn view_scroll(cv: int, scroll: int, h: int) -> int {
    if cv < scroll {
        cv
    } else if cv >= scroll + h {
        if cv - (h - 1) < 0 { 0 } else { cv - (h - 1) }
    } else {
        scroll
    }
}

/// The lines shown in the pane's text.
fn visible_lines(lines: &Vec<String>, folded: &HashSet<usize>) -> (r: Vec<usize>)
    ensures
        r@ == visible_from(editor::text_of(lines@), folded@, 0),
{
    let ghost ls = editor::text_of(lines@);
    assert(markdown::lines_view(lines@) =~= ls);
    let mut r: Vec<usize> = Vec::new();
    let n = lines.len();
    let mut i: usize = 0;
    while i < n
        invariant
            i <= n == lines@.len() == ls.len(),
            ls == editor::text_of(lines@),
            markdown::lines_view(lines@) == ls,
            r@ + visible_from(ls, folded@, i as int) == visible_from(ls, folded@, 0),
        decreases n - i,
    {
        let ghost before = r@;
        proof {
            lemma_fold_next(ls, folded@, i as int);
        }
        r.push(i);
        let mut next = i + 1;
        if folded.contains(&i) {
            match heading_section_range(lines.as_slice(), i) {
                Some((_, end)) => {
                    next = end;
                },
                None => {},
            }
        }
        assert(next == fold_next(ls, folded@, i as int));
        assert(r@ + visible_from(ls, folded@, next as int) =~= before + visible_from(ls, folded@, i as int));
        i = next;
    }
    assert(r@ =~= visible_from(ls, folded@, 0));
    r
}


// ---------------------------------------------------------------------------
// Rows in edit mode
// ---------------------------------------------------------------------------

/// Character `ci` lies within a match of the (non-empty) query `q` in `ll`.
pub open spec fn in_match(ll: Seq<char>, q: Seq<char>, ci: int) -> bool {
    q.len() > 0 && exists|p: int| #[trigger] text::matches_at(ll, q, p) && p <= ci < p + q.len()
}

/// Position `p` lies in the selection (its start included, its end not).
pub open spec fn in_selection(sel: Option<editor::Selection>, p: Pos) -> bool {
    match sel {
        Some(s) => editor::pos_le(editor::sel_ordered(s).0, p) && !editor::pos_le(editor::sel_ordered(s).1, p),
        None => false,
    }
}

/// The look of a character: the cursor first, then the selection, then a
/// search match.
pub open spec fn cell_look(cursor: bool, selected: bool, hit: bool) -> Look {
    if cursor {
        Look::Cursor
    } else if selected {
        Look::Selected
    } else if hit {
        Look::Match
    } else {
        Look::Plain
    }
}

/// The cells of line `li` in edit mode: one per character; on the cursor's
/// line past its end, a cursor cell. The cursor and the selection show only
/// in the focused pane; `lq` is the search query in lower case, matched
/// against the line in lower case.
pub open spec fn edit_cells(b: BufferView, li: int, focused: bool, lq: Option<Seq<char>>) -> Seq<(Seq<char>, Look)> {
    let line = b.text[li];
    let cur_line = focused && li == b.cursor.line;
    let sel = if focused { b.selection } else { None };
    let ll = text::lowercase(line);
    let cells = Seq::new(
        line.len(),
        |ci: int|
            (
                seq![line[ci]],
                cell_look(
                    cur_line && ci == b.cursor.col,
                    in_selection(sel, Pos { line: li as usize, col: ci as usize }),
                    lq matches Some(q) && in_match(ll, q, ci),
                ),
            ),
    );
    if cur_line && b.cursor.col >= line.len() {
        cells.push((seq![' '], Look::Cursor))
    } else {
        cells
    }
}

/// Whether character `ci` lies within a match of `q` in `ll`.
fn hit_at(ll: &Vec<char>, q: &Vec<char>, ci: usize) -> (r: bool)
    requires
        ci < usize::MAX,
    ensures
        r == in_match(ll@, q@, ci as int),
{
    let qn = q.len();
    if qn == 0 {
        return false;
    }
    let n = ll.len();
    let lo = if ci + 1 >= qn { ci + 1 - qn } else { 0 };
    let mut p = lo;
    while p <= ci && qn <= n && p <= n - qn
        invariant
            lo <= p,
            qn == q@.len() > 0,
            n == ll@.len(),
            lo == if ci + 1 >= qn { ci + 1 - qn } else { 0 },
            forall|j: int| lo <= j < p ==> !text::matches_at(ll@, q@, j),
        decreases ci + 1 - p,
    {
        if match_here(ll, q, p) {
            assert(text::matches_at(ll@, q@, p as int));
            return true;
        }
        p = p + 1;
    }
    assert forall|j: int| text::matches_at(ll@, q@, j) implies !(j <= ci < j + qn) by {
        if lo <= j && j <= ci {
            assert(j < p);
        }
    }
    false
}

fn edit_row(b: &Buffer, li: usize, focused: bool, lq: &Option<Vec<char>>) -> (r: Row)
    requires
        li < b@.text.len(),
    ensures
        r@ == (RowView {
            line: li,
            pieces: edit_cells(b@, li as int, focused, match lq {
                Some(q) => Some(q@),
                None => None,
            }),
            highlight: false,
        }),
{
    let ghost glq: Option<Seq<char>> = match lq {
        Some(q) => Some(q@),
        None => None,
    };
    let line = b.lines[li].as_str();
    let chars = chars_of(line);
    let ll = chars_of(to_lowercase(line).as_str());
    let cur_line = focused && li == b.cursor.line;
    let sel = if focused { b.selection } else { None };
    let n = chars.len();
    let mut pieces: Vec<Piece> = Vec::new();
    let mut ci: usize = 0;
    while ci < n
        invariant
            ci <= n == chars@.len(),
            li < b@.text.len(),
            glq == (match lq {
                Some(q) => Some(q@),
                None => None,
            }),
            chars@ == b@.text[li as int],
            ll@ == text::lowercase(b@.text[li as int]),
            cur_line == (focused && li == b.cursor.line),
            sel == (if focused { b@.selection } else { None }),
            pieces@.map_values(|p: Piece| p@) == edit_cells(b@, li as int, focused, glq).take(ci as int),
        decreases n - ci,
    {
        let in_sel = match sel {
            Some(s) => {
                let (start, end) = s.ordered();
                let p = Pos::new(li, ci);
                start.le(&p) && !end.le(&p)
            },
            None => false,
        };
        let hit = match lq {
            Some(q) => hit_at(&ll, q, ci),
            None => false,
        };
        let look = if cur_line && ci == b.cursor.col {
            Look::Cursor
        } else if in_sel {
            Look::Selected
        } else if hit {
            Look::Match
        } else {
            Look::Plain
        };
        let mut t = String::new();
        push_char(&mut t, chars[ci]);
        let ghost before = pieces@.map_values(|p: Piece| p@);
        pieces.push(Piece { text: t, look });
        proof {
            let cells = edit_cells(b@, li as int, focused, glq);
            assert(in_sel == in_selection(sel, Pos { line: li, col: ci }));
            assert(hit == (glq matches Some(q) && in_match(ll@, q, ci as int)));
            assert(cells[ci as int] == (seq![chars@[ci as int]], look));
            assert(pieces@.map_values(|p: Piece| p@) =~= before.push(cells[ci as int]));
            assert(cells.take(ci + 1) =~= cells.take(ci as int).push(cells[ci as int]));
        }
        ci = ci + 1;
    }
    proof {
        let cells = edit_cells(b@, li as int, focused, glq);
        assert(cells.take(n as int) =~= Seq::new(
            n as nat,
            |k: int|
                (
                    seq![chars@[k]],
                    cell_look(
                        cur_line && k == b.cursor.col,
                        in_selection(sel, Pos { line: li, col: k as usize }),
                        glq matches Some(q) && in_match(ll@, q, k),
                    ),
                ),
        ));
    }
    if cur_line && b.cursor.col >= n {
        let mut t = String::new();
        push_char(&mut t, ' ');
        pieces.push(Piece { text: t, look: Look::Cursor });
    }
    assert(pieces@.map_values(|p: Piece| p@) =~= edit_cells(b@, li as int, focused, glq));
    Row { line: li, pieces, highlight: false }
}


// ---------------------------------------------------------------------------
// Rows in preview
// ---------------------------------------------------------------------------

/// The look of a span of kind `sk` on a line of kind `lk`.
pub open spec fn span_look(sk: SpanKind, lk: LineKind) -> Look {
    match sk {
        SpanKind::HeadingMarker => match lk {
            LineKind::Heading(1) => Look::Title,
            LineKind::Heading(2) => Look::Subtitle,
            _ => Look::Dim,
        },
        SpanKind::Normal => match lk {
            LineKind::Heading(1) => Look::Title,
            LineKind::Heading(2) => Look::Subtitle,
            LineKind::Heading(_) => Look::Heading,
            LineKind::Blockquote => Look::Quote,
            _ => Look::Plain,
        },
        SpanKind::ListBullet | SpanKind::BlockquoteMarker => Look::Dim,
        SpanKind::Bold => Look::Bold,
        SpanKind::Italic => Look::Italic,
        SpanKind::Code => Look::Code,
    }
}

fn look_of(sk: SpanKind, lk: &LineKind) -> (l: Look)
    ensures
        l == span_look(sk, *lk),
{
    match sk {
        SpanKind::HeadingMarker => match lk {
            LineKind::Heading(1) => Look::Title,
            LineKind::Heading(2) => Look::Subtitle,
            _ => Look::Dim,
        },
        SpanKind::Normal => match lk {
            LineKind::Heading(1) => Look::Title,
            LineKind::Heading(2) => Look::Subtitle,
            LineKind::Heading(_) => Look::Heading,
            LineKind::Blockquote => Look::Quote,
            _ => Look::Plain,
        },
        SpanKind::ListBullet | SpanKind::BlockquoteMarker => Look::Dim,
        SpanKind::Bold => Look::Bold,
        SpanKind::Italic => Look::Italic,
        SpanKind::Code => Look::Code,
    }
}

/// The pieces of a line of kind `kind` in preview: one per markdown span,
/// then ` ...` on a folded line; an empty cursor line shows one blank.
pub open spec fn preview_cells(line: Seq<char>, kind: LineKind, folded: bool, cur_line: bool) -> Seq<(Seq<char>, Look)> {
    let spans = markdown::line_spans(line, kind);
    let ps = Seq::new(
        spans.len(),
        |k: int| (line.subrange(spans[k].start as int, spans[k].end as int), span_look(spans[k].kind, kind)),
    );
    let ps = if folded { ps.push((" ..."@, Look::Dim)) } else { ps };
    if cur_line && ps.len() == 0 {
        seq![(seq![' '], Look::Plain)]
    } else {
        ps
    }
}

fn preview_row(line: &str, li: usize, kind: &LineKind, folded: bool, cur_line: bool) -> (r: Row)
    requires
        kind matches LineKind::ListItem(indent) ==> indent + 2 <= usize::MAX,
    ensures
        r@ == (RowView { line: li, pieces: preview_cells(line@, *kind, folded, cur_line), highlight: cur_line }),
{
    let spans = parse_inline_spans(line, kind);
    let chars = chars_of(line);
    let ghost sp = markdown::line_spans(line@, *kind);
    let ghost cells = Seq::new(
        sp.len(),
        |k: int| (line@.subrange(sp[k].start as int, sp[k].end as int), span_look(sp[k].kind, *kind)),
    );
    proof {
        markdown::lemma_line_spans_within(line@, *kind);
    }
    let mut pieces: Vec<Piece> = Vec::new();
    let mut k: usize = 0;
    while k < spans.len()
        invariant
            k <= spans@.len() == sp.len() == cells.len(),
            spans@ == sp,
            chars@ == line@,
            markdown::spans_within(sp, 0, line@.len() as int),
            cells == Seq::new(
                sp.len(),
                |k: int| (line@.subrange(sp[k].start as int, sp[k].end as int), span_look(sp[k].kind, *kind)),
            ),
            pieces@.map_values(|p: Piece| p@) == cells.take(k as int),
        decreases spans@.len() - k,
    {
        let s = spans[k];
        let t = string_of_range(chars.as_slice(), s.start, s.end);
        let look = look_of(s.kind, kind);
        let ghost before = pieces@.map_values(|p: Piece| p@);
        pieces.push(Piece { text: t, look });
        proof {
            assert(pieces@.map_values(|p: Piece| p@) =~= before.push(cells[k as int]));
            assert(cells.take(k + 1) =~= cells.take(k as int).push(cells[k as int]));
        }
        k = k + 1;
    }
    assert(cells.take(spans@.len() as int) =~= cells);
    if folded {
        pieces.push(Piece { text: " ...".to_owned(), look: Look::Dim });
    }
    if cur_line && pieces.len() == 0 {
        let mut t = String::new();
        push_char(&mut t, ' ');
        pieces.push(Piece { text: t, look: Look::Plain });
    }
    assert(pieces@.map_values(|p: Piece| p@) =~= preview_cells(line@, *kind, folded, cur_line));
    Row { line: li, pieces, highlight: cur_line }
}


// ---------------------------------------------------------------------------
// The pane
// ---------------------------------------------------------------------------

/// The row that shows line `li`: raw text with cursor, selection and search
/// matches in edit mode; markdown styling in preview, the cursor's line
/// highlighted when the pane is focused.
pub open spec fn row_at(
    b: BufferView,
    li: int,
    editing: bool,
    focused: bool,
    lq: Option<Seq<char>>,
    folded: Set<usize>,
) -> RowView {
    if editing {
        RowView { line: li as usize, pieces: edit_cells(b, li, focused, lq), highlight: false }
    } else {
        let cur = focused && li == b.cursor.line;
        RowView {
            line: li as usize,
            pieces: preview_cells(
                b.text[li],
                markdown::classify_all(b.text)[li],
                folded.contains(li as usize),
                cur,
            ),
            highlight: cur,
        }
    }
}

/// The pane's title: the name, ` [EDIT]` in edit mode, ` [+]` when the
/// buffer has unsaved changes, padded with a blank on each side.
pub open spec fn pane_title(title: Seq<char>, editing: bool, dirty: bool) -> Seq<char> {
    seq![' '] + title + (if editing { " [EDIT]"@ } else { Seq::<char>::empty() }) + (if dirty {
        " [+]"@
    } else {
        Seq::<char>::empty()
    }) + seq![' ']
}

/// The rows shown among `h`: the visible lines from the first row that
/// keeps the cursor's row on screen.
pub open spec fn pane_rows(
    b: BufferView,
    st: PaneState,
    h: usize,
    focused: bool,
    lq: Option<Seq<char>>,
    folded: Set<usize>,
) -> Seq<RowView> {
    let vis = visible_from(b.text, folded, 0);
    let scroll = view_scroll(index_from(vis, b.cursor.line, 0), st.scroll as int, h as int);
    let end = if scroll + h <= vis.len() { scroll + h } else { vis.len() as int };
    Seq::new((end - scroll) as nat, |k: int| row_at(b, vis[scroll + k] as int, st.editing, focused, lq, folded))
}

/// What `render_pane` needs: a text of at least one line (the cursor may lie
/// anywhere; when its line is not shown, row 0 counts as its row); rows to
/// show the cursor's row in (none is enough only while that row lies above
/// the pane's scroll); and, for the preview, list indentation that leaves
/// room to count past the bullet.
pub open spec fn render_ok(b: BufferView, st: PaneState, h: usize, folded: Set<usize>) -> bool {
    let vis = visible_from(b.text, folded, 0);
    let cv = index_from(vis, b.cursor.line, 0);
    &&& b.text.len() > 0
    &&& cv >= st.scroll ==> h > 0 && st.scroll + h <= usize::MAX
    &&& view_scroll(cv, st.scroll as int, h as int) + h <= usize::MAX
    &&& !st.editing ==> forall|i: int|
        0 <= i < b.text.len() ==> (#[trigger] markdown::classify_all(b.text)[i] matches LineKind::ListItem(n)
            ==> n + 2 <= usize::MAX)
}

/// The row of `line` among the shown lines; 0 when it is not shown.
fn cursor_row(visible: &Vec<usize>, line: usize) -> (cv: usize)
    ensures
        cv == index_from(visible@, line, 0),
{
    let nvis = visible.len();
    let mut j: usize = 0;
    while j < nvis && visible[j] != line
        invariant
            j <= nvis == visible@.len(),
            index_from(visible@, line, 0) == index_from(visible@, line, j as int),
        decreases nvis - j,
    {
        j = j + 1;
    }
    if j < nvis {
        j
    } else {
        0
    }
}

/// Whether `render_pane` may be called: `render_ok`.
pub fn can_render(buf: &Buffer, state: &PaneState, inner_height: usize, folded_lines: &HashSet<usize>) -> (r: bool)
    ensures
        r == render_ok(buf@, *state, inner_height, folded_lines@),
{
    let n = buf.lines.len();
    if n == 0 {
        return false;
    }
    let visible = visible_lines(&buf.lines, folded_lines);
    let cv = cursor_row(&visible, buf.cursor.line);
    let h = inner_height;
    if cv >= state.scroll && (h == 0 || state.scroll > usize::MAX - h) {
        return false;
    }
    let scroll = if cv < state.scroll {
        cv
    } else if cv >= state.scroll + h {
        cv.saturating_sub(h - 1)
    } else {
        state.scroll
    };
    if scroll > usize::MAX - h {
        return false;
    }
    if state.editing {
        return true;
    }
    let kinds = classify_lines(buf.lines.as_slice());
    let ghost ls = buf@.text;
    assert(markdown::lines_view(buf.lines@) =~= ls);
    let mut i: usize = 0;
    while i < n
        invariant
            i <= n == kinds@.len() == ls.len(),
            ls == buf@.text,
            !state.editing,
            kinds@ == markdown::classify_all(ls),
            forall|j: int| 0 <= j < i ==> (#[trigger] markdown::classify_all(ls)[j] matches LineKind::ListItem(m)
                ==> m + 2 <= usize::MAX),
        decreases n - i,
    {
        match kinds[i] {
            LineKind::ListItem(m) => {
                if m > usize::MAX - 2 {
                    assert(markdown::classify_all(ls)[i as int] == LineKind::ListItem(m));
                    return false;
                }
            },
            _ => {},
        }
        i = i + 1;
    }
    true
}

/// What a pane shows of `buf` in `inner_height` rows: its title and rows.
/// `search_query` is matched without regard to case; `folded_lines` hides
/// the sections of the headings it holds.
pub fn render_pane(
    buf: &Buffer,
    state: &PaneState,
    inner_height: usize,
    focused: bool,
    title: &str,
    search_query: Option<&str>,
    folded_lines: &HashSet<usize>,
) -> (r: PaneRender)
    requires
        render_ok(buf@, *state, inner_height, folded_lines@),
    ensures
        r@.0 == pane_title(title@, state.editing, buf@.dirty),
        r@.1 == pane_rows(
            buf@,
            *state,
            inner_height,
            focused,
            match search_query {
                Some(q) => Some(text::lowercase(q@)),
                None => None,
            },
            folded_lines@,
        ),
{
    let ghost ls = buf@.text;
    let ghost glq: Option<Seq<char>> = match search_query {
        Some(q) => Some(text::lowercase(q@)),
        None => None,
    };
    let kinds = classify_lines(buf.lines.as_slice());
    assert(markdown::lines_view(buf.lines@) =~= ls);
    let visible = visible_lines(&buf.lines, folded_lines);
    let nlines = buf.lines.len();
    proof {
        lemma_visible_bounds(ls, folded_lines@, 0);
        lemma_index_from(visible@, buf.cursor.line, 0);
    }
    let nvis = visible.len();
    let cv = cursor_row(&visible, buf.cursor.line);
    assert(cv == index_from(visible@, buf.cursor.line, 0));
    let scroll = if cv < state.scroll {
        cv
    } else if cv >= state.scroll + inner_height {
        cv.saturating_sub(inner_height - 1)
    } else {
        state.scroll
    };
    let end = if scroll + inner_height <= nvis { scroll + inner_height } else { nvis };
    let lq: Option<Vec<char>> = match search_query {
        Some(q) => Some(chars_of(to_lowercase(q).as_str())),
        None => None,
    };
    let ghost want = pane_rows(buf@, *state, inner_height, focused, glq, folded_lines@);
    let mut rows: Vec<Row> = Vec::new();
    let mut k = scroll;
    while k < end
        invariant
            scroll <= k <= end <= nvis == visible@.len(),
            nlines == buf@.text.len() == kinds@.len(),
            ls == buf@.text,
            kinds@ == markdown::classify_all(ls),
            render_ok(buf@, *state, inner_height, folded_lines@),
            forall|i: int| 0 <= i < visible@.len() ==> #[trigger] visible@[i] < nlines,
            visible@ == visible_from(ls, folded_lines@, 0),
            glq == (match lq {
                Some(q) => Some(q@),
                None => None,
            }),
            want == pane_rows(buf@, *state, inner_height, focused, glq, folded_lines@),
            want.len() == end - scroll,
            forall|i: int| 0 <= i < want.len() ==> #[trigger] want[i] == row_at(buf@, visible@[scroll + i] as int, state.editing, focused, glq, folded_lines@),
            rows@.map_values(|r: Row| r@) == want.take(k - scroll),
        decreases end - k,
    {
        let li = visible[k];
        let row = if state.editing {
            edit_row(buf, li, focused, &lq)
        } else {
            preview_row(
                buf.lines[li].as_str(),
                li,
                &kinds[li],
                folded_lines.contains(&li),
                focused && li == buf.cursor.line,
            )
        };
        let ghost before = rows@.map_values(|r: Row| r@);
        rows.push(row);
        proof {
            assert(want[k - scroll] == row_at(buf@, li as int, state.editing, focused, glq, folded_lines@));
            assert(rows@.map_values(|r: Row| r@) =~= before.push(want[k - scroll]));
            assert(want.take(k + 1 - scroll) =~= want.take(k - scroll).push(want[k - scroll]));
        }
        k = k + 1;
    }
    assert(want.take(end - scroll) =~= want);
    let mut t = String::new();
    push_char(&mut t, ' ');
    push_str(&mut t, title);
    if state.editing {
        push_str(&mut t, " [EDIT]");
    }
    if buf.dirty {
        push_str(&mut t, " [+]");
    }
    push_char(&mut t, ' ');
    PaneRender { title: t, rows }
}


proof fn lemma_index_found(vis: Seq<usize>, x: usize, k: int)
    requires
        0 <= k,
        exists|j: int| k <= j < vis.len() && vis[j] == x,
    ensures
        k <= index_from(vis, x, k) < vis.len(),
        vis[index_from(vis, x, k)] == x,
    decreases vis.len() - k,
{
    if vis[k] != x {
        let j = choose|j: int| k <= j < vis.len() && vis[j] == x;
        assert(j != k);
        lemma_index_found(vis, x, k + 1);
    }
}

/// The pane shows the cursor's line, when it is not folded away and there
/// is at least one row.
pub proof fn law_cursor_line_shown(
    b: BufferView,
    st: PaneState,
    h: usize,
    focused: bool,
    lq: Option<Seq<char>>,
    folded: Set<usize>,
)
    requires
        h > 0,
        visible_from(b.text, folded, 0).contains(b.cursor.line),
    ensures
        exists|k: int|
            0 <= k < pane_rows(b, st, h, focused, lq, folded).len() && (#[trigger] pane_rows(
                b,
                st,
                h,
                focused,
                lq,
                folded,
            )[k]).line == b.cursor.line,
{
    let vis = visible_from(b.text, folded, 0);
    lemma_index_found(vis, b.cursor.line, 0);
    let cv = index_from(vis, b.cursor.line, 0);
    let scroll = view_scroll(cv, st.scroll as int, h as int);
    let rows = pane_rows(b, st, h, focused, lq, folded);
    assert(scroll <= cv < scroll + h);
    let k = cv - scroll;
    assert(rows[k] == row_at(b, vis[cv] as int, st.editing, focused, lq, folded));
    assert(rows[k].line == b.cursor.line);
}


proof fn lemma_index_absent(vis: Seq<usize>, x: usize, k: int)
    requires
        !vis.contains(x),
    ensures
        index_from(vis, x, k) == 0,
    decreases vis.len() - k,
{
    if 0 <= k < vis.len() {
        assert(vis[k] != x);
        lemma_index_absent(vis, x, k + 1);
    }
}

/// When the cursor's line is not shown (it lies past the text, or in a
/// folded section), row 0 counts as the cursor's row for scrolling, and no
/// row is marked as the cursor's: none is highlighted and no cell is drawn
/// as the cursor.
pub proof fn law_hidden_cursor(
    b: BufferView,
    st: PaneState,
    h: usize,
    focused: bool,
    lq: Option<Seq<char>>,
    folded: Set<usize>,
)
    requires
        0 < b.text.len() <= usize::MAX,
        !visible_from(b.text, folded, 0).contains(b.cursor.line),
    ensures
        index_from(visible_from(b.text, folded, 0), b.cursor.line, 0) == 0,
        forall|k: int|
            0 <= k < pane_rows(b, st, h, focused, lq, folded).len() ==> !(#[trigger] pane_rows(
                b,
                st,
                h,
                focused,
                lq,
                folded,
            )[k]).highlight,
        forall|k: int, j: int|
            0 <= k < pane_rows(b, st, h, focused, lq, folded).len() && 0 <= j < pane_rows(
                b,
                st,
                h,
                focused,
                lq,
                folded,
            )[k].pieces.len() ==> (#[trigger] pane_rows(b, st, h, focused, lq, folded)[k].pieces[j]).1
                != Look::Cursor,
{
    let vis = visible_from(b.text, folded, 0);
    lemma_index_absent(vis, b.cursor.line, 0);
    lemma_visible_bounds(b.text, folded, 0);
    assert(vis.len() > 0);
    let rows = pane_rows(b, st, h, focused, lq, folded);
    let scroll = view_scroll(0, st.scroll as int, h as int);
    let end = if scroll + h <= vis.len() { scroll + h } else { vis.len() as int };
    assert(scroll >= 0);
    assert(rows.len() == (end - scroll) as nat);
    assert forall|k: int| 0 <= k < rows.len() implies !(#[trigger] rows[k]).highlight && forall|j: int|
        0 <= j < rows[k].pieces.len() ==> rows[k].pieces[j].1 != Look::Cursor by {
        assert(0 <= scroll + k < vis.len());
        let li = vis[scroll + k];
        assert(vis.contains(li));
        assert(li != b.cursor.line);
        assert(rows[k] == row_at(b, li as int, st.editing, focused, lq, folded));
        if st.editing {
            let line = b.text[li as int];
            assert forall|j: int| 0 <= j < rows[k].pieces.len() implies rows[k].pieces[j].1 != Look::Cursor by {
                assert(rows[k].pieces[j] == edit_cells(b, li as int, focused, lq)[j]);
            }
        } else {
            let kind = markdown::classify_all(b.text)[li as int];
            assert forall|j: int| 0 <= j < rows[k].pieces.len() implies rows[k].pieces[j].1 != Look::Cursor by {
                let spans = markdown::line_spans(b.text[li as int], kind);
                if j < spans.len() {
                    assert(rows[k].pieces[j].1 == span_look(spans[j].kind, kind));
                }
            }
        }
    }
}

} // verus!
