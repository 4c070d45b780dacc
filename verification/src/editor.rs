use vstd::prelude::*;
use crate::text;
use crate::text::{
    chars_of, find_first, find_last, to_lowercase, count_lead_ws, prefix_byte_len, push_char, push_range, push_str, split_newlines,
    str_byte_len, string_of, string_of_range,
};

verus! {

// ---------------------------------------------------------------------------
// Positions and selections
// ---------------------------------------------------------------------------

/// A place in the text: a line index and a character offset in that line.
#[derive(Debug, Clone, Copy, PartialEq, Eq, Structural, PartialOrd, Ord, Hash)]
pub struct Pos {
    pub line: usize,
    pub col: usize,
}

/// `a` comes no later than `b` (line first, then column).
pub open spec fn pos_le(a: Pos, b: Pos) -> bool {
    a.line < b.line || (a.line == b.line && a.col <= b.col)
}

impl Pos {
    pub fn new(line: usize, col: usize) -> (p: Pos)
        ensures
            p == (Pos { line, col }),
    {
        Pos { line, col }
    }

    pub fn zero() -> (p: Pos)
        ensures
            p == (Pos { line: 0, col: 0 }),
    {
        Pos { line: 0, col: 0 }
    }

    /// Whether `self` comes no later than `other`.
    pub fn le(&self, other: &Pos) -> (r: bool)
        ensures
            r == pos_le(*self, *other),
    {
        self.line < other.line || (self.line == other.line && self.col <= other.col)
    }
}

/// A selection runs from where it was started (`anchor`) to the cursor.
#[derive(Debug, Clone, Copy, PartialEq, Eq, Structural)]
pub struct Selection {
    pub anchor: Pos,
    pub cursor: Pos,
}

/// The two ends of a selection, earlier first.
pub open spec fn sel_ordered(s: Selection) -> (Pos, Pos) {
    if pos_le(s.anchor, s.cursor) {
        (s.anchor, s.cursor)
    } else {
        (s.cursor, s.anchor)
    }
}

impl Selection {
    pub fn ordered(&self) -> (r: (Pos, Pos))
        ensures
            r == sel_ordered(*self),
            pos_le(r.0, r.1),
    {
        if self.anchor.le(&self.cursor) {
            (self.anchor, self.cursor)
        } else {
            (self.cursor, self.anchor)
        }
    }
}

// ---------------------------------------------------------------------------
// Time, for batching undo snapshots
// ---------------------------------------------------------------------------

#[verifier::external_type_specification]
#[verifier::external_body]
pub struct ExInstant(std::time::Instant);

/// `std::time::Instant::now`. Nothing is stated of the clock.
#[verifier::external_body]
fn instant_now() -> std::time::Instant {
    std::time::Instant::now()
}

/// `Instant::duration_since`: the time from `earlier` to `later` (zero when
/// `later` is not after it). Nothing is stated: it reads the clock's values.
#[verifier::external_body]
fn duration_since(later: &std::time::Instant, earlier: &std::time::Instant) -> std::time::Duration {
    later.duration_since(*earlier)
}

/// `Duration::as_millis`: the whole milliseconds of a duration. Nothing is
/// stated of the number.
#[verifier::external_body]
fn whole_millis(d: &std::time::Duration) -> u128 {
    d.as_millis()
}

// ---------------------------------------------------------------------------
// The buffer
// ---------------------------------------------------------------------------

/// A saved state for undo and redo: the text and the cursor.
pub type Snap = (Seq<Seq<char>>, Pos);

struct Snapshot {
    lines: Vec<String>,
    cursor: Pos,
}

/// Undo and redo stacks, and when the last undo snapshot was taken.
pub struct History {
    undo_stack: Vec<Snapshot>,
    redo_stack: Vec<Snapshot>,
    last_snapshot_time: std::time::Instant,
}

/// The saved states of a history, oldest first.
pub struct HistoryView {
    pub undo: Seq<Snap>,
    pub redo: Seq<Snap>,
}

/// The text of a list of lines.
pub open spec fn text_of(lines: Seq<String>) -> Seq<Seq<char>> {
    lines.map_values(|l: String| l@)
}

/// The lines of `content` (`str::lines`).
pub fn split_lines(content: &str) -> (lines: Vec<String>)
    ensures
        text_of(lines@) == text::lines_of(content@),
{
    let v = chars_of(content);
    let mut lines: Vec<String> = Vec::new();
    if v.len() == 0 {
        assert(text_of(lines@) =~= text::lines_of(content@));
        return lines;
    }
    let parts = split_newlines(v.as_slice());
    proof {
        text::lemma_split_nl_len(v@);
        if v@.last() == '\n' {
            assert(v@.drop_last().push('\n') =~= v@);
            text::lemma_split_nl_len(v@.drop_last());
        }
    }
    let n = if v[v.len() - 1] == '\n' { parts.len() - 1 } else { parts.len() };
    let ghost p = text::split_nl(v@);
    let mut i: usize = 0;
    while i < n
        invariant
            n <= parts@.len(),
            parts@.len() == p.len(),
            forall|k: int| 0 <= k < parts@.len() ==> #[trigger] parts@[k]@ == p[k],
            i <= n,
            lines@.len() == i,
            forall|k: int| 0 <= k < i ==> #[trigger] lines@[k]@ == text::lines_of(v@)[k],
            v@.len() > 0,
            p == text::split_nl(v@),
            n == if v@.last() == '\n' { p.len() - 1 } else { p.len() as int },
        decreases n - i,
    {
        let part = &parts[i];
        let strip = i + 1 < parts.len() && part.len() > 0 && part[part.len() - 1] == '\r';
        let s = if strip {
            string_of_range(part.as_slice(), 0, part.len() - 1)
        } else {
            string_of(part.as_slice())
        };
        proof {
            if strip {
                assert(part@.subrange(0, part@.len() - 1) =~= part@.drop_last());
            }
        }
        lines.push(s);
        i = i + 1;
    }
    assert(text_of(lines@) =~= text::lines_of(v@));
    lines
}

/// A line-based text buffer with cursor, selection and undo/redo.
pub struct Buffer {
    pub lines: Vec<String>,
    pub cursor: Pos,
    pub selection: Option<Selection>,
    pub desired_col: Option<usize>,
    pub dirty: bool,
    pub history: History,
}

/// Everything that the buffer's operations read and change, as values.
pub struct BufferView {
    pub text: Seq<Seq<char>>,
    pub cursor: Pos,
    pub selection: Option<Selection>,
    pub desired_col: Option<usize>,
    pub dirty: bool,
    pub undo: Seq<Snap>,
    pub redo: Seq<Snap>,
}

spec fn snaps_of(s: Seq<Snapshot>) -> Seq<Snap> {
    s.map_values(|x: Snapshot| (text_of(x.lines@), x.cursor))
}

impl View for History {
    type V = HistoryView;

    closed spec fn view(&self) -> HistoryView {
        HistoryView { undo: snaps_of(self.undo_stack@), redo: snaps_of(self.redo_stack@) }
    }
}

impl View for Buffer {
    type V = BufferView;

    open spec fn view(&self) -> BufferView {
        BufferView {
            text: text_of(self.lines@),
            cursor: self.cursor,
            selection: self.selection,
            desired_col: self.desired_col,
            dirty: self.dirty,
            undo: self.history@.undo,
            redo: self.history@.redo,
        }
    }
}

impl BufferView {
    /// The saved state that an undo snapshot of this buffer holds.
    pub open spec fn snap(self) -> Snap {
        (self.text, self.cursor)
    }

    /// Number of characters of line `i`, zero past the end.
    pub open spec fn line_len(self, i: int) -> int {
        if 0 <= i < self.text.len() {
            self.text[i].len() as int
        } else {
            0
        }
    }

    /// The cursor column, clamped to its line.
    pub open spec fn col_at(self) -> int {
        let l = self.line_len(self.cursor.line as int);
        if self.cursor.col <= l {
            self.cursor.col as int
        } else {
            l
        }
    }

    /// What every operation keeps: at least one line, the cursor on a line,
    /// and every saved state with at least one line.
    pub open spec fn wf(self) -> bool {
        &&& 0 < self.text.len()
        &&& self.cursor.line < self.text.len()
        &&& forall|i: int| 0 <= i < self.undo.len() ==> (#[trigger] self.undo[i]).0.len() > 0
        &&& forall|i: int| 0 <= i < self.redo.len() ==> (#[trigger] self.redo[i]).0.len() > 0
    }

    /// The same state with other undo/redo history, dirty flag and text.
    pub open spec fn with_text(self, text: Seq<Seq<char>>) -> BufferView {
        BufferView { text, ..self }
    }
}

/// The undo history after an edit that saves `snap` for undo: either a new
/// entry, or, for an edit shortly after the previous one, the newest entry
/// with its cursor replaced.
pub open spec fn undo_after_edit(before: Seq<Snap>, snap: Snap, after: Seq<Snap>) -> bool {
    ||| after == before.push(snap)
    ||| (before.len() > 0 && after == before.update(
        before.len() - 1,
        (before.last().0, snap.1),
    ))
}

/// Clamps a cursor into a text with at least one line.
pub open spec fn clamp_pos(text: Seq<Seq<char>>, p: Pos) -> Pos {
    let line = if p.line < text.len() {
        p.line
    } else {
        (text.len() - 1) as usize
    };
    let len = text[line as int].len();
    Pos { line, col: if p.col <= len { p.col } else { len as usize } }
}

/// The text of a buffer built from `content`.
pub open spec fn text_from(content: Seq<char>) -> Seq<Seq<char>> {
    if content.len() == 0 {
        seq![Seq::<char>::empty()]
    } else {
        text::lines_of(content)
    }
}

pub proof fn lemma_lines_of_nonempty(s: Seq<char>)
    requires
        s.len() > 0,
    ensures
        text::lines_of(s).len() > 0,
{
    text::lemma_split_nl_len(s);
    if s.last() == '\n' {
        text::lemma_split_nl_len(s.drop_last());
    }
}


/// A column clamped to the length of its line.
pub open spec fn clamp_col(line: Seq<char>, c: usize) -> int {
    if c <= line.len() {
        c as int
    } else {
        line.len() as int
    }
}

/// Lines, each followed by a newline.
pub open spec fn lines_nl(s: Seq<Seq<char>>) -> Seq<char>
    decreases s.len(),
{
    if s.len() == 0 {
        Seq::<char>::empty()
    } else {
        lines_nl(s.drop_last()) + s.last() + seq!['\n']
    }
}

/// The text from `a` to `b` (`a` not after `b`), with newlines between lines
/// and the columns clamped to their lines.
pub open spec fn region(t: Seq<Seq<char>>, a: Pos, b: Pos) -> Seq<char> {
    let ca = clamp_col(t[a.line as int], a.col);
    let cb = clamp_col(t[b.line as int], b.col);
    if a.line == b.line {
        t[a.line as int].subrange(ca, cb)
    } else {
        t[a.line as int].skip(ca) + seq!['\n'] + lines_nl(t.subrange(a.line + 1, b.line as int))
            + t[b.line as int].take(cb)
    }
}

/// The text with the part from `a` to `b` removed, the two ends joined.
pub open spec fn cut_region(t: Seq<Seq<char>>, a: Pos, b: Pos) -> Seq<Seq<char>> {
    let ca = clamp_col(t[a.line as int], a.col);
    let cb = clamp_col(t[b.line as int], b.col);
    t.take(a.line as int) + seq![t[a.line as int].take(ca) + t[b.line as int].skip(cb)] + t.skip(
        b.line + 1,
    )
}

impl BufferView {
    /// Both ends of the selection, if any, lie on lines of the text.
    pub open spec fn sel_valid(self) -> bool {
        self.selection matches Some(s) ==> s.anchor.line < self.text.len() && s.cursor.line
            < self.text.len()
    }

    /// The selection can be read: there is none, its ends coincide, or both
    /// ends lie on lines of the text.
    pub open spec fn sel_readable(self) -> bool {
        (self.selection matches Some(s) && s.anchor != s.cursor) ==> self.sel_valid()
    }

    /// The selected text; none without a selection or when its ends coincide.
    pub open spec fn selected(self) -> Option<Seq<char>> {
        match self.selection {
            None => None,
            Some(s) => {
                let (a, b) = sel_ordered(s);
                if a == b {
                    None
                } else {
                    Some(region(self.text, a, b))
                }
            },
        }
    }

    /// The state after the selected text is deleted (unchanged when nothing is
    /// selected): the selection's ends joined, the cursor at its start, the
    /// previous state saved for undo.
    pub open spec fn after_delete_selection(self) -> BufferView {
        match self.selected() {
            None => self,
            Some(_) => {
                let (a, b) = sel_ordered(self.selection.unwrap());
                BufferView {
                    text: cut_region(self.text, a, b),
                    cursor: a,
                    selection: None,
                    dirty: true,
                    undo: self.undo.push(self.snap()),
                    redo: Seq::empty(),
                    ..self
                }
            },
        }
    }

    /// The selection once it is started or extended from the cursor `from`
    /// (with `extend`) or dropped (without), then moved to the cursor `to`.
    pub open spec fn moved_selection(self, from: Pos, to: Pos, extend: bool) -> Option<Selection> {
        if extend {
            match self.selection {
                Some(s) => Some(Selection { anchor: s.anchor, cursor: to }),
                None => Some(Selection { anchor: from, cursor: to }),
            }
        } else {
            None
        }
    }
}


/// Moves `p` back over the spaces just before it.
pub open spec fn skip_spaces_back(s: Seq<char>, p: int) -> int
    decreases p,
{
    if 0 < p <= s.len() && s[p - 1] == ' ' {
        skip_spaces_back(s, p - 1)
    } else {
        p
    }
}

/// Moves `p` back over the non-spaces just before it.
pub open spec fn skip_word_back(s: Seq<char>, p: int) -> int
    decreases p,
{
    if 0 < p <= s.len() && s[p - 1] != ' ' {
        skip_word_back(s, p - 1)
    } else {
        p
    }
}

/// Start of the word before `p`: back over spaces, then over the word.
pub open spec fn word_back(s: Seq<char>, p: int) -> int {
    skip_word_back(s, skip_spaces_back(s, p))
}

/// Moves `p` forward over non-spaces.
pub open spec fn skip_word_fwd(s: Seq<char>, p: int) -> int
    decreases s.len() - p,
{
    if 0 <= p < s.len() && s[p] != ' ' {
        skip_word_fwd(s, p + 1)
    } else {
        p
    }
}

/// Moves `p` forward over spaces.
pub open spec fn skip_spaces_fwd(s: Seq<char>, p: int) -> int
    decreases s.len() - p,
{
    if 0 <= p < s.len() && s[p] == ' ' {
        skip_spaces_fwd(s, p + 1)
    } else {
        p
    }
}

/// Start of the next word after `p`: over the rest of the word, then spaces.
pub open spec fn word_fwd(s: Seq<char>, p: int) -> int {
    skip_spaces_fwd(s, skip_word_fwd(s, p))
}

/// Number of leading `' '` characters.
pub open spec fn lead_spaces(s: Seq<char>) -> int
    decreases s.len(),
{
    if s.len() > 0 && s[0] == ' ' {
        1 + lead_spaces(s.drop_first())
    } else {
        0
    }
}

/// Column of the first character that is not a space, zero if there is none.
pub open spec fn first_non_space(s: Seq<char>) -> int {
    if lead_spaces(s) < s.len() {
        lead_spaces(s)
    } else {
        0
    }
}

pub proof fn lemma_skip_back_bounds(s: Seq<char>, p: int)
    requires
        0 <= p <= s.len(),
    ensures
        0 <= skip_spaces_back(s, p) <= p,
        0 <= skip_word_back(s, p) <= p,
        0 <= word_back(s, p) <= p,
    decreases p,
{
    if p > 0 {
        lemma_skip_back_bounds(s, p - 1);
    }
    let q = skip_spaces_back(s, p);
    lemma_skip_word_back_bounds(s, q);
}

pub proof fn lemma_skip_word_back_bounds(s: Seq<char>, p: int)
    requires
        0 <= p <= s.len(),
    ensures
        0 <= skip_word_back(s, p) <= p,
    decreases p,
{
    if p > 0 {
        lemma_skip_word_back_bounds(s, p - 1);
    }
}

pub proof fn lemma_skip_fwd_bounds(s: Seq<char>, p: int)
    requires
        0 <= p <= s.len(),
    ensures
        p <= skip_word_fwd(s, p) <= s.len(),
        p <= skip_spaces_fwd(s, p) <= s.len(),
    decreases s.len() - p,
{
    if p < s.len() {
        lemma_skip_fwd_bounds(s, p + 1);
    }
}

pub proof fn lemma_lead_spaces_bound(s: Seq<char>)
    ensures
        0 <= lead_spaces(s) <= s.len(),
        forall|i: int| 0 <= i < lead_spaces(s) ==> #[trigger] s[i] == ' ',
    decreases s.len(),
{
    if s.len() > 0 && s[0] == ' ' {
        lemma_lead_spaces_bound(s.drop_first());
        assert forall|i: int| 0 <= i < lead_spaces(s) implies #[trigger] s[i] == ' ' by {
            if i > 0 {
                assert(s[i] == s.drop_first()[i - 1]);
            }
        }
    }
}

/// Computes `word_back`.
fn find_word_back(v: &Vec<char>, p: usize) -> (r: usize)
    requires
        p <= v@.len(),
    ensures
        r == word_back(v@, p as int),
{
    let mut pos = p;
    while pos > 0 && v[pos - 1] == ' '
        invariant
            pos <= p <= v@.len(),
            skip_spaces_back(v@, p as int) == skip_spaces_back(v@, pos as int),
        decreases pos,
    {
        pos = pos - 1;
    }
    let ghost q = pos;
    while pos > 0 && v[pos - 1] != ' '
        invariant
            pos <= q <= p <= v@.len(),
            skip_word_back(v@, q as int) == skip_word_back(v@, pos as int),
        decreases pos,
    {
        pos = pos - 1;
    }
    pos
}

/// Computes `word_fwd`.
fn find_word_fwd(v: &Vec<char>, p: usize) -> (r: usize)
    requires
        p <= v@.len(),
    ensures
        r == word_fwd(v@, p as int),
        p <= r <= v@.len(),
{
    let mut pos = p;
    while pos < v.len() && v[pos] != ' '
        invariant
            p <= pos <= v@.len(),
            skip_word_fwd(v@, p as int) == skip_word_fwd(v@, pos as int),
        decreases v@.len() - pos,
    {
        pos = pos + 1;
    }
    let ghost q = pos;
    while pos < v.len() && v[pos] == ' '
        invariant
            q <= pos <= v@.len(),
            skip_spaces_fwd(v@, q as int) == skip_spaces_fwd(v@, pos as int),
        decreases v@.len() - pos,
    {
        pos = pos + 1;
    }
    pos
}

/// Computes `lead_spaces`.
fn count_lead_spaces(v: &Vec<char>) -> (r: usize)
    ensures
        r == lead_spaces(v@),
{
    let mut i: usize = 0;
    assert(v@.skip(0) =~= v@);
    while i < v.len() && v[i] == ' '
        invariant
            i <= v@.len(),
            lead_spaces(v@) == i + lead_spaces(v@.skip(i as int)),
        decreases v@.len() - i,
    {
        assert(v@.skip(i as int).drop_first() =~= v@.skip(i + 1));
        i = i + 1;
    }
    i
}

impl BufferView {
    /// The cursor one character left, wrapping to the end of the previous line.
    pub open spec fn left_pos(self) -> Pos {
        let c = self.cursor;
        if c.col > 0 {
            Pos { line: c.line, col: (c.col - 1) as usize }
        } else if c.line > 0 {
            Pos { line: (c.line - 1) as usize, col: self.line_len(c.line - 1) as usize }
        } else {
            c
        }
    }

    /// The cursor one character right, wrapping to the start of the next line.
    pub open spec fn right_pos(self) -> Pos {
        let c = self.cursor;
        if c.col < self.line_len(c.line as int) {
            Pos { line: c.line, col: (c.col + 1) as usize }
        } else if c.line + 1 < self.text.len() {
            Pos { line: (c.line + 1) as usize, col: 0 }
        } else {
            c
        }
    }

    /// The column that vertical moves aim at.
    pub open spec fn goal_col(self) -> usize {
        match self.desired_col {
            Some(d) => d,
            None => self.cursor.col,
        }
    }

    /// Line `line` at the goal column, clamped to the line's length.
    pub open spec fn at_goal(self, line: int) -> Pos {
        let d = self.goal_col();
        Pos {
            line: line as usize,
            col: if d <= self.line_len(line) { d } else { self.line_len(line) as usize },
        }
    }

    /// The cursor after a word move left.
    pub open spec fn word_left_pos(self) -> Pos {
        let c = self.cursor;
        if c.col == 0 {
            if c.line > 0 {
                Pos { line: (c.line - 1) as usize, col: self.line_len(c.line - 1) as usize }
            } else {
                c
            }
        } else {
            Pos { line: c.line, col: word_back(self.text[c.line as int], c.col as int) as usize }
        }
    }

    /// The cursor after a word move right.
    pub open spec fn word_right_pos(self) -> Pos {
        let c = self.cursor;
        if c.col >= self.line_len(c.line as int) {
            if c.line + 1 < self.text.len() {
                Pos { line: (c.line + 1) as usize, col: 0 }
            } else {
                c
            }
        } else {
            Pos { line: c.line, col: word_fwd(self.text[c.line as int], c.col as int) as usize }
        }
    }

    /// The cursor after Home: the first non-space, or column zero when already there.
    pub open spec fn home_pos(self) -> Pos {
        let f = first_non_space(self.text[self.cursor.line as int]);
        Pos { line: self.cursor.line, col: if self.cursor.col == f { 0 } else { f as usize } }
    }

    /// The state after a move of the cursor to `to`, the selection following
    /// it when `extend` and dropped otherwise, the goal column set to `goal`.
    pub open spec fn moved(self, to: Pos, extend: bool, goal: Option<usize>) -> BufferView {
        BufferView {
            cursor: to,
            selection: self.moved_selection(self.cursor, to, extend),
            desired_col: goal,
            ..self
        }
    }
}


/// The prefix that continues a list item on a new line: the item's leading
/// white space, as many spaces as it has bytes, then `- `.
pub open spec fn list_prefix(line: Seq<char>) -> Option<Seq<char>> {
    if text::starts_with(text::trim_start(line), seq!['-', ' ']) {
        Some(
            Seq::new(text::byte_len(line.take(text::lead_ws(line) as int)), |i: int| ' ') + seq![
                '-',
                ' ',
            ],
        )
    } else {
        None
    }
}

/// The prefix to use for a new list item after `line`: `"  - foo"` gives
/// `"  - "`, a line that is not a list item gives none.
pub fn list_continuation_prefix(line: &str) -> (r: Option<String>)
    ensures
        r.is_some() == list_prefix(line@).is_some(),
        r matches Some(p) ==> p@ == list_prefix(line@).unwrap(),
{
    let v = chars_of(line);
    let n = count_lead_ws(v.as_slice());
    proof {
        text::lemma_lead_ws_bound(v@);
        assert(text::trim_start(v@) =~= v@.skip(n as int));
    }
    if n < v.len() && v.len() - n >= 2 && v[n] == '-' && v[n + 1] == ' ' {
        let total = str_byte_len(line);
        proof {
            assert(v@ =~= v@.take(n as int) + v@.skip(n as int));
            text::lemma_byte_len_add(v@.take(n as int), v@.skip(n as int));
            assert(v@.skip(n as int).take(2) =~= seq!['-', ' ']);
        }
        let indent = prefix_byte_len(v.as_slice(), n);
        let mut s = String::new();
        let mut i: usize = 0;
        while i < indent
            invariant
                i <= indent,
                s@ == Seq::new(i as nat, |k: int| ' '),
            decreases indent - i,
        {
            push_char(&mut s, ' ');
            assert(s@ =~= Seq::new((i + 1) as nat, |k: int| ' '));
            i = i + 1;
        }
        push_char(&mut s, '-');
        push_char(&mut s, ' ');
        assert(s@ =~= list_prefix(v@).unwrap());
        Some(s)
    } else {
        proof {
            if text::starts_with(text::trim_start(v@), seq!['-', ' ']) {
                assert(v@.skip(n as int).take(2)[0] == v@[n as int]);
                assert(v@.skip(n as int).take(2)[1] == v@[n + 1]);
            }
        }
        None
    }
}

/// All saved states hold at least one line.
pub open spec fn snaps_nonempty(s: Seq<Snap>) -> bool {
    forall|i: int| 0 <= i < s.len() ==> (#[trigger] s[i]).0.len() > 0
}

pub proof fn lemma_undo_after_edit_nonempty(before: Seq<Snap>, snap: Snap, after: Seq<Snap>)
    requires
        snaps_nonempty(before),
        snap.0.len() > 0,
        undo_after_edit(before, snap, after),
    ensures
        snaps_nonempty(after),
{
    assert forall|i: int| 0 <= i < after.len() implies (#[trigger] after[i]).0.len() > 0 by {
        if i < before.len() {
            assert(after[i] == before[i] || after[i].0 == before[i].0);
        }
    }
}

impl BufferView {
    /// The state an edit works on: the selection, if any, deleted first.
    pub open spec fn pre_edit(self) -> BufferView {
        if self.selection.is_some() {
            self.after_delete_selection()
        } else {
            self
        }
    }

    /// The state after an edit that sets the text, the cursor and the goal
    /// column, and that saved for undo (with `undo` the new history).
    pub open spec fn edited(
        self,
        text: Seq<Seq<char>>,
        cursor: Pos,
        desired_col: Option<usize>,
        undo: Seq<Snap>,
    ) -> BufferView {
        BufferView { text, cursor, desired_col, dirty: true, undo, redo: Seq::empty(), ..self }
    }

    /// The current line with `s` put in at the cursor.
    pub open spec fn insert_text(self, s: Seq<Seq<char>>) -> (Seq<Seq<char>>, Pos) {
        let l = self.cursor.line as int;
        let line = self.text[l];
        let at = self.col_at();
        let n = s.len();
        if n == 1 {
            (
                self.text.update(l, line.take(at) + s[0] + line.skip(at)),
                Pos { line: self.cursor.line, col: (self.cursor.col + s[0].len()) as usize },
            )
        } else {
            (
                self.text.take(l) + seq![line.take(at) + s[0]] + s.subrange(1, n - 1) + seq![
                    s[n - 1] + line.skip(at),
                ] + self.text.skip(l + 1),
                Pos { line: (l + n - 1) as usize, col: s[n - 1].len() as usize },
            )
        }
    }

    /// The text and cursor after Enter: the line split at the cursor, a list
    /// item continued on the new line, an empty list item ended instead.
    pub open spec fn enter_text(self) -> (Seq<Seq<char>>, Pos) {
        let l = self.cursor.line as int;
        let line = self.text[l];
        let at = self.col_at();
        let before = line.take(at);
        let after = line.skip(at);
        let (cur, next) = match list_prefix(line) {
            Some(p) => {
                let item = text::trim_start(before);
                if (item == seq!['-', ' '] || item == seq!['-']) && text::trim(after).len() == 0 {
                    (Seq::<char>::empty(), Seq::<char>::empty())
                } else {
                    (before, p + after)
                }
            },
            None => (before, after),
        };
        let col = match list_prefix(next) {
            Some(p) => p.len() as usize,
            None => 0,
        };
        (self.text.update(l, cur).insert(l + 1, next), Pos { line: (l + 1) as usize, col })
    }
}


impl BufferView {
    /// The cursor column lies within its line.
    pub open spec fn col_in_line(self) -> bool {
        self.cursor.col <= self.line_len(self.cursor.line as int)
    }

    /// Saved for undo, redo forgotten, marked changed.
    pub open spec fn after_snapshot(self) -> BufferView {
        BufferView { dirty: true, undo: self.undo.push(self.snap()), redo: Seq::empty(), ..self }
    }

    /// Back to the newest undo snapshot, the current state saved for redo;
    /// unchanged when there is nothing to undo.
    pub open spec fn after_undo(self) -> BufferView {
        if self.undo.len() == 0 {
            self
        } else {
            BufferView {
                text: self.undo.last().0,
                cursor: clamp_pos(self.undo.last().0, self.undo.last().1),
                selection: None,
                dirty: true,
                undo: self.undo.drop_last(),
                redo: self.redo.push(self.snap()),
                ..self
            }
        }
    }

    /// Forward to the newest redo snapshot, the current state saved for undo;
    /// unchanged when there is nothing to redo.
    pub open spec fn after_redo(self) -> BufferView {
        if self.redo.len() == 0 {
            self
        } else {
            BufferView {
                text: self.redo.last().0,
                cursor: clamp_pos(self.redo.last().0, self.redo.last().1),
                selection: None,
                dirty: true,
                undo: self.undo.push(self.snap()),
                redo: self.redo.drop_last(),
                ..self
            }
        }
    }

    pub open spec fn after_clear_selection(self) -> BufferView {
        BufferView { selection: None, ..self }
    }

    /// A selection started at the cursor unless there is one.
    pub open spec fn after_start_selection(self) -> BufferView {
        BufferView {
            selection: match self.selection {
                Some(s) => Some(s),
                None => Some(Selection { anchor: self.cursor, cursor: self.cursor }),
            },
            ..self
        }
    }

    /// The selection's cursor end moved to the cursor.
    pub open spec fn after_update_selection(self) -> BufferView {
        BufferView {
            selection: match self.selection {
                Some(s) => Some(Selection { anchor: s.anchor, cursor: self.cursor }),
                None => None,
            },
            ..self
        }
    }

    /// The end of the text.
    pub open spec fn end_pos(self) -> Pos {
        let last = (self.text.len() - 1) as usize;
        Pos { line: last, col: self.text[last as int].len() as usize }
    }

    /// All selected, the cursor at the end.
    pub open spec fn after_select_all(self) -> BufferView {
        BufferView {
            selection: Some(Selection { anchor: Pos { line: 0, col: 0 }, cursor: self.end_pos() }),
            cursor: self.end_pos(),
            ..self
        }
    }

    pub open spec fn after_move_left(self, extend: bool) -> BufferView {
        self.moved(self.left_pos(), extend, None)
    }

    pub open spec fn after_move_right(self, extend: bool) -> BufferView {
        self.moved(self.right_pos(), extend, None)
    }

    pub open spec fn after_move_up(self, extend: bool) -> BufferView {
        if self.cursor.line > 0 {
            self.moved(self.at_goal(self.cursor.line - 1), extend, Some(self.goal_col()))
        } else {
            self.moved(self.cursor, extend, self.desired_col)
        }
    }

    pub open spec fn after_move_down(self, extend: bool) -> BufferView {
        if self.cursor.line + 1 < self.text.len() {
            self.moved(self.at_goal(self.cursor.line + 1), extend, Some(self.goal_col()))
        } else {
            self.moved(self.cursor, extend, self.desired_col)
        }
    }

    pub open spec fn after_move_word_left(self, extend: bool) -> BufferView {
        self.moved(self.word_left_pos(), extend, None)
    }

    pub open spec fn after_move_word_right(self, extend: bool) -> BufferView {
        self.moved(self.word_right_pos(), extend, None)
    }

    pub open spec fn after_move_home(self, extend: bool) -> BufferView {
        self.moved(self.home_pos(), extend, None)
    }

    pub open spec fn after_move_end(self, extend: bool) -> BufferView {
        self.moved(
            Pos { line: self.cursor.line, col: self.line_len(self.cursor.line as int) as usize },
            extend,
            None,
        )
    }

    pub open spec fn after_move_page_up(self, page_size: usize, extend: bool) -> BufferView {
        let line = if self.cursor.line >= page_size { self.cursor.line - page_size } else { 0 };
        self.moved(self.at_goal(line), extend, Some(self.goal_col()))
    }

    pub open spec fn after_move_page_down(self, page_size: usize, extend: bool) -> BufferView {
        let last = self.text.len() - 1;
        let line = if self.cursor.line + page_size <= last { self.cursor.line + page_size } else { last };
        self.moved(self.at_goal(line), extend, Some(self.goal_col()))
    }

    pub open spec fn after_move_doc_start(self, extend: bool) -> BufferView {
        self.moved(Pos { line: 0, col: 0 }, extend, None)
    }

    pub open spec fn after_move_doc_end(self, extend: bool) -> BufferView {
        self.moved(self.end_pos(), extend, None)
    }

    /// What `insert_char` needs: a valid buffer and selection, and room to
    /// move the cursor right.
    pub open spec fn insert_char_ok(self) -> bool {
        &&& self.wf()
        &&& self.sel_valid()
        &&& self.pre_edit().cursor.col < usize::MAX
    }

    /// What `insert_str` needs: a valid buffer and selection, and room for
    /// the cursor's new line and column.
    pub open spec fn insert_str_ok(self, s: Seq<char>) -> bool {
        let v = self.pre_edit();
        let p = text::split_nl(s);
        &&& self.wf()
        &&& self.sel_valid()
        &&& if p.len() == 1 {
            v.cursor.col + p[0].len() <= usize::MAX
        } else {
            v.cursor.line + p.len() - 1 <= usize::MAX
        }
    }

    /// What `backspace` and `delete_word_back` need: a valid buffer and
    /// selection; without a selection, the cursor within its line.
    pub open spec fn backspace_ok(self) -> bool {
        &&& self.wf()
        &&& self.sel_valid()
        &&& self.selection.is_none() ==> self.col_in_line()
    }

    /// `s` pasted at the cursor, the selection deleted first.
    pub open spec fn after_insert_str(self, s: Seq<char>) -> BufferView {
        let v = self.pre_edit();
        let (t, c) = v.insert_text(text::split_nl(s));
        v.edited(t, c, None, v.undo.push(v.snap()))
    }

    /// The selection deleted, or back to the start of the previous word.
    pub open spec fn after_delete_word_back(self) -> BufferView {
        let l = self.cursor.line as int;
        let target = word_back(self.text[l], self.cursor.col as int);
        if self.selection.is_some() {
            self.after_delete_selection()
        } else if target < self.cursor.col {
            self.edited(
                self.text.update(l, self.text[l].take(target) + self.text[l].skip(self.cursor.col as int)),
                Pos { line: self.cursor.line, col: target as usize },
                None,
                self.undo.push(self.snap()),
            )
        } else {
            BufferView { desired_col: None, ..self }
        }
    }

    /// The line split at the cursor, the selection deleted first.
    pub open spec fn after_enter(self) -> BufferView {
        let v = self.pre_edit();
        let (t, c) = v.enter_text();
        v.edited(t, c, None, v.undo.push(v.snap()))
    }

    /// The cursor's line deleted (the only line emptied).
    pub open spec fn after_delete_line(self) -> BufferView {
        let l = self.cursor.line as int;
        let (t, c) = if self.text.len() > 1 {
            let t = self.text.remove(l);
            let nl = if l >= t.len() { t.len() - 1 } else { l };
            let col = if self.cursor.col <= t[nl].len() { self.cursor.col } else { t[nl].len() as usize };
            (t, Pos { line: nl as usize, col })
        } else {
            (seq![Seq::<char>::empty()], Pos { line: self.cursor.line, col: 0 })
        };
        BufferView { selection: None, ..self.edited(t, c, None, self.undo.push(self.snap())) }
    }
}

/// `w` is `v` after `insert_char(c)`.
pub open spec fn insert_char_post(v: BufferView, w: BufferView, c: char) -> bool {
    let p = v.pre_edit();
    let l = p.cursor.line as int;
    &&& undo_after_edit(p.undo, p.snap(), w.undo)
    &&& w == p.edited(
        p.text.update(l, p.text[l].insert(p.col_at(), c)),
        Pos { line: p.cursor.line, col: (p.cursor.col + 1) as usize },
        None,
        w.undo,
    )
}

/// `w` is `v` after `backspace()`.
pub open spec fn backspace_post(v: BufferView, w: BufferView) -> bool {
    let l = v.cursor.line as int;
    if v.selection.is_some() {
        w == v.after_delete_selection()
    } else if v.cursor.col > 0 {
        &&& undo_after_edit(v.undo, v.snap(), w.undo)
        &&& w == v.edited(
            v.text.update(l, v.text[l].remove(v.cursor.col - 1)),
            Pos { line: v.cursor.line, col: (v.cursor.col - 1) as usize },
            None,
            w.undo,
        )
    } else if l > 0 {
        &&& undo_after_edit(v.undo, v.snap(), w.undo)
        &&& w == v.edited(
            v.text.take(l - 1) + seq![v.text[l - 1] + v.text[l]] + v.text.skip(l + 1),
            Pos { line: (l - 1) as usize, col: v.text[l - 1].len() as usize },
            None,
            w.undo,
        )
    } else {
        w == (BufferView { desired_col: None, ..v })
    }
}

/// `w` is `v` after `delete()`.
pub open spec fn delete_post(v: BufferView, w: BufferView) -> bool {
    let l = v.cursor.line as int;
    if v.selection.is_some() {
        w == v.after_delete_selection()
    } else if v.cursor.col < v.line_len(l) {
        &&& undo_after_edit(v.undo, v.snap(), w.undo)
        &&& w == v.edited(
            v.text.update(l, v.text[l].remove(v.cursor.col as int)),
            v.cursor,
            v.desired_col,
            w.undo,
        )
    } else if l + 1 < v.text.len() {
        &&& undo_after_edit(v.undo, v.snap(), w.undo)
        &&& w == v.edited(
            v.text.take(l) + seq![v.text[l] + v.text[l + 1]] + v.text.skip(l + 2),
            v.cursor,
            v.desired_col,
            w.undo,
        )
    } else {
        w == v
    }
}

/// `w` is `v` after `indent_line()`.
pub open spec fn indent_post(v: BufferView, w: BufferView) -> bool {
    let l = v.cursor.line as int;
    &&& undo_after_edit(v.undo, v.snap(), w.undo)
    &&& w == v.edited(
        v.text.update(l, seq![' ', ' '] + v.text[l]),
        Pos { line: v.cursor.line, col: (v.cursor.col + 2) as usize },
        None,
        w.undo,
    )
}

/// `w` is `v` after `outdent_line()`.
pub open spec fn outdent_post(v: BufferView, w: BufferView) -> bool {
    let l = v.cursor.line as int;
    let n = if lead_spaces(v.text[l]) < 2 { lead_spaces(v.text[l]) } else { 2 };
    if n > 0 {
        &&& undo_after_edit(v.undo, v.snap(), w.undo)
        &&& w == v.edited(
            v.text.update(l, v.text[l].skip(n)),
            Pos {
                line: v.cursor.line,
                col: if v.cursor.col >= n { (v.cursor.col - n) as usize } else { 0 },
            },
            None,
            w.undo,
        )
    } else {
        w == v
    }
}

fn clone_lines(lines: &Vec<String>) -> (r: Vec<String>)
    ensures
        r@ == lines@,
{
    let mut r: Vec<String> = Vec::new();
    let mut i: usize = 0;
    while i < lines.len()
        invariant
            i <= lines@.len(),
            r@ == lines@.take(i as int),
        decreases lines.len() - i,
    {
        r.push(lines[i].clone());
        assert(lines@.take(i + 1) =~= lines@.take(i as int).push(lines@[i as int]));
        i = i + 1;
    }
    assert(lines@.take(lines@.len() as int) =~= lines@);
    r
}

impl Buffer {
    /// A buffer holding `content`, one entry per line of it (at least one).
    pub fn from_string(content: &str) -> (b: Buffer)
        ensures
            b@.text == text_from(content@),
            b@.cursor == (Pos { line: 0, col: 0 }),
            b@.selection.is_none(),
            b@.desired_col.is_none(),
            !b@.dirty,
            b@.undo.len() == 0,
            b@.redo.len() == 0,
            b@.wf(),
    {
        let mut lines = split_lines(content);
        proof {
            if content@.len() > 0 {
                lemma_lines_of_nonempty(content@);
            }
        }
        if lines.len() == 0 {
            lines.push(String::new());
            assert(text_of(lines@) =~= seq![Seq::<char>::empty()]);
        } else {
            proof {
                if content@.len() == 0 {
                    assert(text::lines_of(content@).len() == 0);
                }
            }
        }
        let b = Buffer {
            lines,
            cursor: Pos { line: 0, col: 0 },
            selection: None,
            desired_col: None,
            dirty: false,
            history: History {
                undo_stack: Vec::new(),
                redo_stack: Vec::new(),
                last_snapshot_time: instant_now(),
            },
        };
        assert(b@.undo =~= Seq::<Snap>::empty());
        assert(b@.redo =~= Seq::<Snap>::empty());
        b
    }

    /// The lines joined with newlines.
    pub fn to_string(&self) -> (s: String)
        ensures
            s@ == text::join_nl(self@.text),
    {
        let mut s = String::new();
        let mut i: usize = 0;
        while i < self.lines.len()
            invariant
                i <= self.lines@.len(),
                s@ == text::join_nl(text_of(self.lines@).take(i as int)),
            decreases self.lines.len() - i,
        {
            let ghost before = s@;
            if i > 0 {
                push_char(&mut s, '\n');
            }
            push_str(&mut s, self.lines[i].as_str());
            proof {
                let t = text_of(self.lines@).take(i + 1);
                assert(t.drop_last() =~= text_of(self.lines@).take(i as int));
                if i == 0 {
                    assert(text::join_nl(t) == t[0]);
                    assert(s@ =~= t[0]);
                } else {
                    assert(s@ =~= text::join_nl(t.drop_last()) + seq!['\n'] + t.last());
                }
            }
            i = i + 1;
        }
        proof {
            assert(text_of(self.lines@).take(self.lines@.len() as int) =~= text_of(self.lines@));
        }
        s
    }

    pub fn line_count(&self) -> (n: usize)
        ensures
            n == self@.text.len(),
    {
                self.lines.len()
    }

    /// The characters of line `i`.
    fn line_chars(&self, i: usize) -> (v: Vec<char>)
        requires
            i < self@.text.len(),
        ensures
            v@ == self@.text[i as int],
    {
        chars_of(self.lines[i].as_str())
    }

    /// Number of characters of line `line`, zero past the end.
    fn char_len(&self, line: usize) -> (n: usize)
        ensures
            n == self@.line_len(line as int),
    {
        if line < self.lines.len() {
            chars_of(self.lines[line].as_str()).len()
        } else {
            0
        }
    }
}


/// An edit joins the previous undo step: the previous snapshot was taken
/// under 300 ms ago, and there is one to amend.
pub open spec fn batched(elapsed_ms: u128, undo_len: nat) -> bool {
    elapsed_ms < 300 && undo_len > 0
}

/// Whether an edit `elapsed_ms` milliseconds after the previous snapshot,
/// with `undo_len` snapshots saved, joins the previous undo step.
pub fn batches(elapsed_ms: u128, undo_len: usize) -> (b: bool)
    ensures
        b == batched(elapsed_ms, undo_len as nat),
{
    elapsed_ms < 300 && undo_len > 0
}

impl History {
    fn snapshot(lines: &Vec<String>, cursor: Pos) -> (s: Snapshot)
        ensures
            text_of(s.lines@) == text_of(lines@),
            s.cursor == cursor,
    {
        Snapshot { lines: clone_lines(lines), cursor }
    }

    /// Saves the text and cursor for undo, and forgets what could be redone.
    fn save(&mut self, lines: &Vec<String>, cursor: Pos)
        ensures
            final(self)@.undo == old(self)@.undo.push((text_of(lines@), cursor)),
            final(self)@.redo.len() == 0,
    {
        let s = History::snapshot(lines, cursor);
        self.undo_stack.push(s);
        self.redo_stack = Vec::new();
        self.last_snapshot_time = instant_now();
        assert(snaps_of(self.undo_stack@) =~= old(self)@.undo.push((text_of(lines@), cursor)));
        assert(snaps_of(self.redo_stack@) =~= Seq::<Snap>::empty());
    }

    /// Saves for undo as `save` does, except shortly (under 300 ms) after the
    /// previous snapshot, when only the newest snapshot's cursor is replaced.
    /// The time since the previous snapshot is read from the clock.
    fn save_batched(&mut self, lines: &Vec<String>, cursor: Pos)
        ensures
            undo_after_edit(old(self)@.undo, (text_of(lines@), cursor), final(self)@.undo),
            exists|elapsed_ms: u128|
                if batched(elapsed_ms, old(self)@.undo.len()) {
                    final(self)@.undo == old(self)@.undo.update(
                        old(self)@.undo.len() - 1,
                        (old(self)@.undo.last().0, cursor),
                    )
                } else {
                    final(self)@.undo == old(self)@.undo.push((text_of(lines@), cursor))
                },
            final(self)@.redo.len() == 0,
    {
        let now = instant_now();
        let elapsed = whole_millis(&duration_since(&now, &self.last_snapshot_time));
        let n = self.undo_stack.len();
        if batches(elapsed, n) {
            let top = self.undo_stack.pop().unwrap();
            self.undo_stack.push(Snapshot { lines: top.lines, cursor });
            assert(snaps_of(self.undo_stack@) =~= old(self)@.undo.update(
                n - 1,
                (old(self)@.undo.last().0, cursor),
            ));
        } else {
            let s = History::snapshot(lines, cursor);
            self.undo_stack.push(s);
            assert(snaps_of(self.undo_stack@) =~= old(self)@.undo.push((text_of(lines@), cursor)));
        }
        self.redo_stack = Vec::new();
        self.last_snapshot_time = now;
        assert(snaps_of(self.redo_stack@) =~= Seq::<Snap>::empty());
    }

    /// Takes the newest undo snapshot, saving the current state for redo.
    fn step_back(&mut self, lines: &Vec<String>, cursor: Pos) -> (r: Option<Snapshot>)
        ensures
            old(self)@.undo.len() == 0 ==> r.is_none() && final(self)@ == old(self)@,
            old(self)@.undo.len() > 0 ==> {
                &&& r matches Some(s)
                &&& (text_of(s.lines@), s.cursor) == old(self)@.undo.last()
                &&& final(self)@.undo == old(self)@.undo.drop_last()
                &&& final(self)@.redo == old(self)@.redo.push((text_of(lines@), cursor))
            },
    {
        match self.undo_stack.pop() {
            None => None,
            Some(snap) => {
                let cur = History::snapshot(lines, cursor);
                self.redo_stack.push(cur);
                assert(snaps_of(self.undo_stack@) =~= old(self)@.undo.drop_last());
                assert(snaps_of(self.redo_stack@) =~= old(self)@.redo.push((text_of(lines@), cursor)));
                Some(snap)
            },
        }
    }

    /// Takes the newest redo snapshot, saving the current state for undo.
    fn step_forward(&mut self, lines: &Vec<String>, cursor: Pos) -> (r: Option<Snapshot>)
        ensures
            old(self)@.redo.len() == 0 ==> r.is_none() && final(self)@ == old(self)@,
            old(self)@.redo.len() > 0 ==> {
                &&& r matches Some(s)
                &&& (text_of(s.lines@), s.cursor) == old(self)@.redo.last()
                &&& final(self)@.redo == old(self)@.redo.drop_last()
                &&& final(self)@.undo == old(self)@.undo.push((text_of(lines@), cursor))
            },
    {
        match self.redo_stack.pop() {
            None => None,
            Some(snap) => {
                let cur = History::snapshot(lines, cursor);
                self.undo_stack.push(cur);
                assert(snaps_of(self.redo_stack@) =~= old(self)@.redo.drop_last());
                assert(snaps_of(self.undo_stack@) =~= old(self)@.undo.push((text_of(lines@), cursor)));
                Some(snap)
            },
        }
    }
}

impl Buffer {
    /// Moves the cursor back into the text: onto the last line if it is past
    /// it, and to the end of its line if it is past that.
    fn clamp_cursor(&mut self)
        requires
            old(self)@.text.len() > 0,
        ensures
            final(self)@ == (BufferView { cursor: clamp_pos(old(self)@.text, old(self).cursor), ..old(self)@ }),
    {
        if self.cursor.line >= self.lines.len() {
            self.cursor.line = self.lines.len() - 1;
        }
        let len = self.char_len(self.cursor.line);
        if self.cursor.col > len {
            self.cursor.col = len;
        }
    }

    /// Saves the text and cursor for undo, forgets what could be redone, and
    /// marks the buffer changed.
    pub fn force_undo_snapshot(&mut self)
        ensures
            final(self)@ == old(self)@.after_snapshot(),
    {
        self.history.save(&self.lines, self.cursor);
        self.dirty = true;
        assert(self@.redo =~= Seq::<Snap>::empty());
    }

    /// Saves for undo, batching edits that come in quick succession.
    fn push_undo(&mut self)
        ensures
            undo_after_edit(old(self)@.undo, old(self)@.snap(), final(self)@.undo),
            final(self)@ == (BufferView {
                dirty: true,
                undo: final(self)@.undo,
                redo: Seq::empty(),
                ..old(self)@
            }),
    {
        self.history.save_batched(&self.lines, self.cursor);
        self.dirty = true;
        assert(self@.redo =~= Seq::<Snap>::empty());
    }

    /// Goes back to the newest undo snapshot, saving the current state for redo.
    pub fn undo(&mut self)
        requires
            old(self)@.wf(),
        ensures
            final(self)@.wf(),
            final(self)@ == old(self)@.after_undo(),
    {
        match self.history.step_back(&self.lines, self.cursor) {
            None => {},
            Some(snap) => {
                self.lines = snap.lines;
                self.cursor = snap.cursor;
                self.selection = None;
                assert(self@.undo.len() + 1 == old(self)@.undo.len());
                assert(old(self)@.undo[old(self)@.undo.len() - 1].0.len() > 0);
                self.clamp_cursor();
                self.dirty = true;
                assert forall|i: int| 0 <= i < self@.undo.len() implies (#[trigger] self@.undo[i]).0.len() > 0 by {
                    assert(self@.undo[i] == old(self)@.undo[i]);
                }
                assert forall|i: int| 0 <= i < self@.redo.len() implies (#[trigger] self@.redo[i]).0.len() > 0 by {
                    if i < old(self)@.redo.len() {
                        assert(self@.redo[i] == old(self)@.redo[i]);
                    }
                }
            },
        }
    }

    /// Goes forward to the newest redo snapshot, saving the current state for undo.
    pub fn redo(&mut self)
        requires
            old(self)@.wf(),
        ensures
            final(self)@.wf(),
            final(self)@ == old(self)@.after_redo(),
    {
        match self.history.step_forward(&self.lines, self.cursor) {
            None => {},
            Some(snap) => {
                self.lines = snap.lines;
                self.cursor = snap.cursor;
                self.selection = None;
                assert(old(self)@.redo[old(self)@.redo.len() - 1].0.len() > 0);
                self.clamp_cursor();
                self.dirty = true;
                assert forall|i: int| 0 <= i < self@.redo.len() implies (#[trigger] self@.redo[i]).0.len() > 0 by {
                    assert(self@.redo[i] == old(self)@.redo[i]);
                }
                assert forall|i: int| 0 <= i < self@.undo.len() implies (#[trigger] self@.undo[i]).0.len() > 0 by {
                    if i < old(self)@.undo.len() {
                        assert(self@.undo[i] == old(self)@.undo[i]);
                    }
                }
            },
        }
    }
}


impl Buffer {
    pub fn clear_selection(&mut self)
        ensures
            final(self)@ == old(self)@.after_clear_selection(),
    {
        self.selection = None;
    }

    /// Starts a selection at the cursor unless one is already there.
    pub fn start_or_extend_selection(&mut self)
        ensures
            final(self)@ == old(self)@.after_start_selection(),
    {
        if self.selection.is_none() {
            self.selection = Some(Selection { anchor: self.cursor, cursor: self.cursor });
        }
    }

    /// Moves the selection's cursor end to the cursor.
    pub fn update_selection_cursor(&mut self)
        ensures
            final(self)@ == old(self)@.after_update_selection(),
    {
        match self.selection {
            Some(s) => {
                self.selection = Some(Selection { anchor: s.anchor, cursor: self.cursor });
            },
            None => {},
        }
    }

    /// Appends line `i` from column `lo` to its end, or up to `hi`.
    fn push_line_part(&self, out: &mut String, i: usize, lo: usize, hi: usize)
        requires
            i < self@.text.len(),
            lo <= hi <= self@.text[i as int].len(),
        ensures
            final(out)@ == old(out)@ + self@.text[i as int].subrange(lo as int, hi as int),
    {
        let v = self.line_chars(i);
        text::push_range(out, v.as_slice(), lo, hi);
    }

    /// The selected text, lines joined by newlines.
    pub fn selected_text(&self) -> (r: Option<String>)
        requires
            self@.sel_readable(),
        ensures
            r.is_some() == self@.selected().is_some(),
            r matches Some(s) ==> s@ == self@.selected().unwrap(),
    {
        let sel = match self.selection {
            Some(s) => s,
            None => return None,
        };
        let (start, end) = sel.ordered();
        if start == end {
            return None;
        }
        let ls = self.char_len(start.line);
        let bs = if start.col <= ls { start.col } else { ls };
        let le = self.char_len(end.line);
        let be = if end.col <= le { end.col } else { le };
        let mut result = String::new();
        if start.line == end.line {
            self.push_line_part(&mut result, start.line, bs, be);
            assert(result@ =~= region(self@.text, start, end));
            return Some(result);
        }
        self.push_line_part(&mut result, start.line, bs, ls);
        push_char(&mut result, '\n');
        let mut i = start.line + 1;
        while i < end.line
            invariant
                start.line < i <= end.line < self@.text.len(),
                result@ == self@.text[start.line as int].skip(bs as int) + seq!['\n'] + lines_nl(
                    self@.text.subrange(start.line + 1, i as int),
                ),
            decreases end.line - i,
        {
            let ghost before = result@;
            self.push_line_part(&mut result, i, 0, self.char_len(i));
            push_char(&mut result, '\n');
            proof {
                let m = self@.text.subrange(start.line + 1, i + 1);
                assert(m.drop_last() =~= self@.text.subrange(start.line + 1, i as int));
                assert(self@.text[i as int].subrange(0, self@.text[i as int].len() as int) =~= self@.text[i as int]);
                assert(result@ =~= before + m.last() + seq!['\n']);
            }
            i = i + 1;
        }
        self.push_line_part(&mut result, end.line, 0, be);
        assert(self@.text[start.line as int].subrange(bs as int, ls as int) =~= self@.text[start.line as int].skip(bs as int));
        assert(self@.text[end.line as int].subrange(0, be as int) =~= self@.text[end.line as int].take(be as int));
        assert(result@ =~= region(self@.text, start, end));
        Some(result)
    }

    /// Deletes the selected text and returns it; the cursor goes to where the
    /// selection started. Nothing happens when nothing is selected.
    pub fn delete_selection(&mut self) -> (r: Option<String>)
        requires
            old(self)@.wf(),
            old(self)@.sel_readable(),
        ensures
            r.is_some() == old(self)@.selected().is_some(),
            r matches Some(s) ==> s@ == old(self)@.selected().unwrap(),
            final(self)@ == old(self)@.after_delete_selection(),
            final(self)@.wf(),
    {
        let text = match self.selected_text() {
            Some(t) => t,
            None => return None,
        };
        let sel = self.selection.unwrap();
        let (start, end) = sel.ordered();
        let ghost t0 = self@.text;
        self.force_undo_snapshot();
        let ls = self.char_len(start.line);
        let bs = if start.col <= ls { start.col } else { ls };
        let le = self.char_len(end.line);
        let be = if end.col <= le { end.col } else { le };
        let first = self.line_chars(start.line);
        let last = self.line_chars(end.line);
        let mut new_line = string_of_range(first.as_slice(), 0, bs);
        text::push_range(&mut new_line, last.as_slice(), be, le);
        self.lines.set(start.line, new_line);
        let ghost t1 = text_of(self.lines@);
        let ghost v1 = self@;
        let k = end.line - start.line;
        let mut j: usize = 0;
        while j < k
            invariant
                j <= k == end.line - start.line,
                end.line < t0.len(),
                t1.len() == t0.len(),
                text_of(self.lines@) == t1.take(start.line + 1) + t1.skip(start.line + 1 + j),
                self.lines@.len() == t1.len() - j,
                self@ == (BufferView { text: text_of(self.lines@), ..v1 }),
            decreases k - j,
        {
            let ghost before = self.lines@;
            self.lines.remove(start.line + 1);
            proof {
                assert(text_of(self.lines@) =~= text_of(before).remove(start.line + 1));
                assert(text_of(self.lines@) =~= t1.take(start.line + 1) + t1.skip(start.line + 1 + j + 1));
            }
            j = j + 1;
        }
        self.cursor = start;
        self.selection = None;
        self.dirty = true;
        proof {
            assert(first@.subrange(0, bs as int) =~= t0[start.line as int].take(bs as int));
            assert(last@.subrange(be as int, le as int) =~= t0[end.line as int].skip(be as int));
            assert(t1.take(start.line as int) =~= t0.take(start.line as int));
            assert(t1.skip(end.line + 1) =~= t0.skip(end.line + 1));
            assert(self@.text =~= cut_region(t0, start, end));
            assert forall|i: int| 0 <= i < self@.undo.len() implies (#[trigger] self@.undo[i]).0.len() > 0 by {
                if i < old(self)@.undo.len() {
                    assert(self@.undo[i] == old(self)@.undo[i]);
                }
            }
        }
        Some(text)
    }

    /// Selects the whole text and puts the cursor at its end.
    pub fn select_all(&mut self)
        requires
            old(self)@.wf(),
        ensures
            final(self)@.wf(),
            final(self)@ == old(self)@.after_select_all(),
    {
        let last_line = self.lines.len() - 1;
        let last_col = self.char_len(last_line);
        self.selection = Some(Selection { anchor: Pos::zero(), cursor: Pos::new(last_line, last_col) });
        self.cursor = Pos::new(last_line, last_col);
    }
}


impl Buffer {
    /// One character left, to the end of the previous line from column zero.
    pub fn move_left(&mut self, extend: bool)
        requires
            old(self)@.wf(),
        ensures
            final(self)@ == old(self)@.after_move_left(extend),
            final(self)@.wf(),
    {
        if extend {
            self.start_or_extend_selection();
        } else {
            self.clear_selection();
        }
        let nlines = self.lines.len();
        assert(self@.text.len() == nlines);
        self.desired_col = None;
        if self.cursor.col > 0 {
            self.cursor.col = self.cursor.col - 1;
        } else if self.cursor.line > 0 {
            self.cursor.line = self.cursor.line - 1;
            self.cursor.col = self.char_len(self.cursor.line);
        }
        if extend {
            self.update_selection_cursor();
        }
    }

    /// One character right, to the start of the next line from the end of a line.
    pub fn move_right(&mut self, extend: bool)
        requires
            old(self)@.wf(),
        ensures
            final(self)@ == old(self)@.after_move_right(extend),
            final(self)@.wf(),
    {
        if extend {
            self.start_or_extend_selection();
        } else {
            self.clear_selection();
        }
        let nlines = self.lines.len();
        assert(self@.text.len() == nlines);
        self.desired_col = None;
        let len = self.char_len(self.cursor.line);
        if self.cursor.col < len {
            self.cursor.col = self.cursor.col + 1;
        } else if self.cursor.line + 1 < nlines {
            self.cursor.line = self.cursor.line + 1;
            self.cursor.col = 0;
        }
        if extend {
            self.update_selection_cursor();
        }
    }

    /// One line up, keeping the goal column.
    pub fn move_up(&mut self, extend: bool)
        requires
            old(self)@.wf(),
        ensures
            final(self)@ == old(self)@.after_move_up(extend),
            final(self)@.wf(),
    {
        if extend {
            self.start_or_extend_selection();
        } else {
            self.clear_selection();
        }
        let nlines = self.lines.len();
        assert(self@.text.len() == nlines);
        if self.cursor.line > 0 {
            let dc = match self.desired_col {
                Some(d) => d,
                None => self.cursor.col,
            };
            self.cursor.line = self.cursor.line - 1;
            let len = self.char_len(self.cursor.line);
            self.cursor.col = if dc <= len { dc } else { len };
            self.desired_col = Some(dc);
        }
        if extend {
            self.update_selection_cursor();
        }
    }

    /// One line down, keeping the goal column.
    pub fn move_down(&mut self, extend: bool)
        requires
            old(self)@.wf(),
        ensures
            final(self)@ == old(self)@.after_move_down(extend),
            final(self)@.wf(),
    {
        if extend {
            self.start_or_extend_selection();
        } else {
            self.clear_selection();
        }
        let nlines = self.lines.len();
        assert(self@.text.len() == nlines);
        if self.cursor.line + 1 < nlines {
            let dc = match self.desired_col {
                Some(d) => d,
                None => self.cursor.col,
            };
            self.cursor.line = self.cursor.line + 1;
            let len = self.char_len(self.cursor.line);
            self.cursor.col = if dc <= len { dc } else { len };
            self.desired_col = Some(dc);
        }
        if extend {
            self.update_selection_cursor();
        }
    }

    /// To the start of the previous word, or to the end of the previous line from column zero.
    pub fn move_word_left(&mut self, extend: bool)
        requires
            old(self)@.wf(),
            old(self)@.col_in_line(),
        ensures
            final(self)@ == old(self)@.after_move_word_left(extend),
            final(self)@.wf(),
    {
        if extend {
            self.start_or_extend_selection();
        } else {
            self.clear_selection();
        }
        let nlines = self.lines.len();
        assert(self@.text.len() == nlines);
        self.desired_col = None;
        if self.cursor.col == 0 {
            if self.cursor.line > 0 {
                self.cursor.line = self.cursor.line - 1;
                self.cursor.col = self.char_len(self.cursor.line);
            }
        } else {
            let chars = self.line_chars(self.cursor.line);
            self.cursor.col = find_word_back(&chars, self.cursor.col);
        }
        if extend {
            self.update_selection_cursor();
        }
    }

    /// To the start of the next word, or to the start of the next line from the end of a line.
    pub fn move_word_right(&mut self, extend: bool)
        requires
            old(self)@.wf(),
        ensures
            final(self)@ == old(self)@.after_move_word_right(extend),
            final(self)@.wf(),
    {
        if extend {
            self.start_or_extend_selection();
        } else {
            self.clear_selection();
        }
        let nlines = self.lines.len();
        assert(self@.text.len() == nlines);
        self.desired_col = None;
        let len = self.char_len(self.cursor.line);
        if self.cursor.col >= len {
            if self.cursor.line + 1 < nlines {
                self.cursor.line = self.cursor.line + 1;
                self.cursor.col = 0;
            }
        } else {
            let chars = self.line_chars(self.cursor.line);
            self.cursor.col = find_word_fwd(&chars, self.cursor.col);
        }
        if extend {
            self.update_selection_cursor();
        }
    }

    /// To the first non-space of the line, or to column zero when already there.
    pub fn move_home(&mut self, extend: bool)
        requires
            old(self)@.wf(),
        ensures
            final(self)@ == old(self)@.after_move_home(extend),
            final(self)@.wf(),
    {
        if extend {
            self.start_or_extend_selection();
        } else {
            self.clear_selection();
        }
        let nlines = self.lines.len();
        assert(self@.text.len() == nlines);
        self.desired_col = None;
        let chars = self.line_chars(self.cursor.line);
        let n = count_lead_spaces(&chars);
        let first_non_space = if n < chars.len() { n } else { 0 };
        self.cursor.col = if self.cursor.col == first_non_space { 0 } else { first_non_space };
        if extend {
            self.update_selection_cursor();
        }
    }

    /// To the end of the line.
    pub fn move_end(&mut self, extend: bool)
        requires
            old(self)@.wf(),
        ensures
            final(self)@ == old(self)@.after_move_end(extend),
            final(self)@.wf(),
    {
        if extend {
            self.start_or_extend_selection();
        } else {
            self.clear_selection();
        }
        let nlines = self.lines.len();
        assert(self@.text.len() == nlines);
        self.desired_col = None;
        self.cursor.col = self.char_len(self.cursor.line);
        if extend {
            self.update_selection_cursor();
        }
    }

    /// Up by `page_size` lines (to the first line at most), keeping the goal column.
    pub fn move_page_up(&mut self, page_size: usize, extend: bool)
        requires
            old(self)@.wf(),
        ensures
            final(self)@ == old(self)@.after_move_page_up(page_size, extend),
            final(self)@.wf(),
    {
        if extend {
            self.start_or_extend_selection();
        } else {
            self.clear_selection();
        }
        let nlines = self.lines.len();
        assert(self@.text.len() == nlines);
        let dc = match self.desired_col {
            Some(d) => d,
            None => self.cursor.col,
        };
        self.cursor.line = if self.cursor.line >= page_size { self.cursor.line - page_size } else { 0 };
        let len = self.char_len(self.cursor.line);
        self.cursor.col = if dc <= len { dc } else { len };
        self.desired_col = Some(dc);
        if extend {
            self.update_selection_cursor();
        }
    }

    /// Down by `page_size` lines (to the last line at most), keeping the goal column.
    pub fn move_page_down(&mut self, page_size: usize, extend: bool)
        requires
            old(self)@.wf(),
            old(self)@.cursor.line + page_size <= usize::MAX,
        ensures
            final(self)@ == old(self)@.after_move_page_down(page_size, extend),
            final(self)@.wf(),
    {
        if extend {
            self.start_or_extend_selection();
        } else {
            self.clear_selection();
        }
        let nlines = self.lines.len();
        assert(self@.text.len() == nlines);
        let dc = match self.desired_col {
            Some(d) => d,
            None => self.cursor.col,
        };
        let target = self.cursor.line + page_size;
        let last = self.lines.len() - 1;
        self.cursor.line = if target <= last { target } else { last };
        let len = self.char_len(self.cursor.line);
        self.cursor.col = if dc <= len { dc } else { len };
        self.desired_col = Some(dc);
        if extend {
            self.update_selection_cursor();
        }
    }

    /// To the start of the text.
    pub fn move_doc_start(&mut self, extend: bool)
        requires
            old(self)@.wf(),
        ensures
            final(self)@ == old(self)@.after_move_doc_start(extend),
            final(self)@.wf(),
    {
        if extend {
            self.start_or_extend_selection();
        } else {
            self.clear_selection();
        }
        let nlines = self.lines.len();
        assert(self@.text.len() == nlines);
        self.desired_col = None;
        self.cursor = Pos::zero();
        if extend {
            self.update_selection_cursor();
        }
    }

    /// To the end of the text.
    pub fn move_doc_end(&mut self, extend: bool)
        requires
            old(self)@.wf(),
        ensures
            final(self)@ == old(self)@.after_move_doc_end(extend),
            final(self)@.wf(),
    {
        if extend {
            self.start_or_extend_selection();
        } else {
            self.clear_selection();
        }
        let nlines = self.lines.len();
        assert(self@.text.len() == nlines);
        self.desired_col = None;
        let last = self.lines.len() - 1;
        self.cursor = Pos::new(last, self.char_len(last));
        if extend {
            self.update_selection_cursor();
        }
    }
}

impl Buffer {
    fn set_line(&mut self, i: usize, s: String)
        requires
            i < old(self)@.text.len(),
        ensures
            final(self)@ == old(self)@.with_text(old(self)@.text.update(i as int, s@)),
    {
        self.lines.set(i, s);
        assert(self@.text =~= old(self)@.text.update(i as int, s@));
    }

    fn insert_line(&mut self, i: usize, s: String)
        requires
            i <= old(self)@.text.len(),
        ensures
            final(self)@ == old(self)@.with_text(old(self)@.text.insert(i as int, s@)),
    {
        self.lines.insert(i, s);
        assert(self@.text =~= old(self)@.text.insert(i as int, s@));
    }

    fn remove_line(&mut self, i: usize) -> (r: String)
        requires
            i < old(self)@.text.len(),
        ensures
            r@ == old(self)@.text[i as int],
            final(self)@ == old(self)@.with_text(old(self)@.text.remove(i as int)),
    {
        let r = self.lines.remove(i);
        assert(self@.text =~= old(self)@.text.remove(i as int));
        r
    }

    /// Types `c` at the cursor, replacing the selection if there is one.
    pub fn insert_char(&mut self, c: char)
        requires
            old(self)@.insert_char_ok(),
        ensures
            final(self)@.wf(),
            insert_char_post(old(self)@, final(self)@, c),
    {
        if self.selection.is_some() {
            self.delete_selection();
        }
        let ghost v = self@;
        self.push_undo();
        let l = self.cursor.line;
        let chars = self.line_chars(l);
        let at = if self.cursor.col <= chars.len() { self.cursor.col } else { chars.len() };
        let mut s = string_of_range(chars.as_slice(), 0, at);
        push_char(&mut s, c);
        push_range(&mut s, chars.as_slice(), at, chars.len());
        self.set_line(l, s);
        self.cursor.col = self.cursor.col + 1;
        self.desired_col = None;
        proof {
            assert(s@ =~= v.text[l as int].insert(at as int, c));
            lemma_undo_after_edit_nonempty(v.undo, v.snap(), self@.undo);
        }
    }

    /// Pastes `s` at the cursor, replacing the selection if there is one; the
    /// cursor goes to the end of the pasted text.
    pub fn insert_str(&mut self, s: &str)
        requires
            old(self)@.insert_str_ok(s@),
        ensures
            final(self)@.wf(),
            final(self)@ == old(self)@.after_insert_str(s@),
    {
        if self.selection.is_some() {
            self.delete_selection();
        }
        let ghost v = self@;
        self.force_undo_snapshot();
        let sv = chars_of(s);
        let parts = split_newlines(sv.as_slice());
        proof {
            text::lemma_split_nl_len(s@);
            assert(parts@.map_values(|p: Vec<char>| p@) =~= text::split_nl(s@));
        }
        if parts.len() == 1 {
            self.paste_one_line(&parts);
        } else {
            self.paste_lines(&parts);
        }
        self.desired_col = None;
        self.dirty = true;
    }
}


/// The pieces of a split text, as values.
pub open spec fn parts_view(parts: Seq<Vec<char>>) -> Seq<Seq<char>> {
    parts.map_values(|p: Vec<char>| p@)
}

impl Buffer {
    /// Puts a text without newlines in at the cursor.
    fn paste_one_line(&mut self, parts: &Vec<Vec<char>>)
        requires
            old(self)@.wf(),
            parts@.len() == 1,
            old(self).cursor.col + parts@[0]@.len() <= usize::MAX,
        ensures
            final(self)@ == ({
                let (t, c) = old(self)@.insert_text(parts_view(parts@));
                BufferView { text: t, cursor: c, ..old(self)@ }
            }),
    {
        let ghost ps = parts_view(parts@);
        let l = self.cursor.line;
        let chars = self.line_chars(l);
        let at = if self.cursor.col <= chars.len() { self.cursor.col } else { chars.len() };
        let mut line = string_of_range(chars.as_slice(), 0, at);
        push_range(&mut line, parts[0].as_slice(), 0, parts[0].len());
        push_range(&mut line, chars.as_slice(), at, chars.len());
        let ghost t0 = self@.text;
        self.set_line(l, line);
        self.cursor.col = self.cursor.col + parts[0].len();
        proof {
            assert(ps[0] == parts@[0]@);
            assert(parts@[0]@.subrange(0, parts@[0]@.len() as int) =~= parts@[0]@);
            assert(line@ =~= t0[l as int].take(at as int) + ps[0] + t0[l as int].skip(at as int));
        }
    }

    /// Puts a text of several lines in at the cursor.
    fn paste_lines(&mut self, parts: &Vec<Vec<char>>)
        requires
            old(self)@.wf(),
            parts@.len() > 1,
            old(self).cursor.line + parts@.len() - 1 <= usize::MAX,
        ensures
            final(self)@ == ({
                let (t, c) = old(self)@.insert_text(parts_view(parts@));
                BufferView { text: t, cursor: c, ..old(self)@ }
            }),
    {
        let ghost v = self@;
        let ghost ps = parts_view(parts@);
        let n = parts.len();
        let l = self.cursor.line;
        let chars = self.line_chars(l);
        let at = if self.cursor.col <= chars.len() { self.cursor.col } else { chars.len() };
        let mut first = string_of_range(chars.as_slice(), 0, at);
        push_range(&mut first, parts[0].as_slice(), 0, parts[0].len());
        self.set_line(l, first);
        let ghost t1 = self@.text;
        let mut i: usize = 1;
        while i < n - 1
            invariant
                1 <= i <= n - 1,
                n == parts@.len() == ps.len(),
                ps == parts_view(parts@),
                l + n - 1 <= usize::MAX,
                l < t1.len(),
                self@ == v.with_text(self@.text),
                self@.text == t1.take(l + 1) + ps.subrange(1, i as int) + t1.skip(l + 1),
            decreases n - 1 - i,
        {
            let line = string_of(parts[i].as_slice());
            self.insert_line(l + i, line);
            proof {
                assert(self@.text =~= t1.take(l + 1) + ps.subrange(1, i + 1) + t1.skip(l + 1));
            }
            i = i + 1;
        }
        let last_idx = l + (n - 1);
        let mut last = string_of(parts[n - 1].as_slice());
        push_range(&mut last, chars.as_slice(), at, chars.len());
        self.insert_line(last_idx, last);
        self.cursor.line = last_idx;
        self.cursor.col = parts[n - 1].len();
        proof {
            assert(ps[0] == parts@[0]@);
            assert(ps[n - 1] == parts@[n - 1]@);
            assert(parts@[0]@.subrange(0, parts@[0]@.len() as int) =~= parts@[0]@);
            let line = v.text[l as int];
            assert(t1 == v.text.update(l as int, line.take(at as int) + ps[0]));
            assert(self@.text =~= v.text.take(l as int) + seq![line.take(at as int) + ps[0]]
                + ps.subrange(1, n - 1) + seq![ps[n - 1] + line.skip(at as int)]
                + v.text.skip(l + 1));
        }
    }
}


impl Buffer {
    /// Deletes the selection, or the character before the cursor, or joins
    /// the line to the previous one from column zero.
    pub fn backspace(&mut self)
        requires
            old(self)@.backspace_ok(),
        ensures
            final(self)@.wf(),
            backspace_post(old(self)@, final(self)@),
    {
        assert(old(self)@.wf());
        assert(snaps_nonempty(old(self)@.redo));
        if self.selection.is_some() {
            self.delete_selection();
            return;
        }
        let ghost v = self@;
        if self.cursor.col > 0 {
            self.push_undo();
            let l = self.cursor.line;
            let chars = self.line_chars(l);
            let at = self.cursor.col - 1;
            let mut s = string_of_range(chars.as_slice(), 0, at);
            push_range(&mut s, chars.as_slice(), at + 1, chars.len());
            self.set_line(l, s);
            self.cursor.col = self.cursor.col - 1;
            proof {
                assert(s@ =~= v.text[l as int].remove(at as int));
                lemma_undo_after_edit_nonempty(v.undo, v.snap(), self@.undo);
            }
        } else if self.cursor.line > 0 {
            self.push_undo();
            let l = self.cursor.line;
            let current = self.remove_line(l);
            self.cursor.line = l - 1;
            self.cursor.col = self.char_len(l - 1);
            let prev_chars = self.line_chars(l - 1);
            let mut joined = string_of(prev_chars.as_slice());
            push_str(&mut joined, current.as_str());
            self.set_line(l - 1, joined);
            proof {
                assert(self@.text =~= v.text.take(l - 1) + seq![v.text[l - 1] + v.text[l as int]]
                    + v.text.skip(l + 1));
                lemma_undo_after_edit_nonempty(v.undo, v.snap(), self@.undo);
            }
        }
        self.desired_col = None;
        assert(self@.text.len() > 0);
        assert(self@.cursor.line < self@.text.len());
        assert(snaps_nonempty(self@.redo));
        assert(snaps_nonempty(self@.undo));
    }

    /// Deletes the selection, or the character at the cursor, or joins the
    /// next line to this one at the end of the line.
    pub fn delete(&mut self)
        requires
            old(self)@.wf(),
            old(self)@.sel_valid(),
        ensures
            final(self)@.wf(),
            delete_post(old(self)@, final(self)@),
    {
        if self.selection.is_some() {
            self.delete_selection();
            return;
        }
        let ghost v = self@;
        let nlines = self.lines.len();
        let len = self.char_len(self.cursor.line);
        if self.cursor.col < len {
            self.push_undo();
            let l = self.cursor.line;
            let chars = self.line_chars(l);
            let at = self.cursor.col;
            let mut s = string_of_range(chars.as_slice(), 0, at);
            push_range(&mut s, chars.as_slice(), at + 1, chars.len());
            self.set_line(l, s);
            proof {
                assert(s@ =~= v.text[l as int].remove(at as int));
                lemma_undo_after_edit_nonempty(v.undo, v.snap(), self@.undo);
            }
        } else if self.cursor.line + 1 < nlines {
            self.push_undo();
            let l = self.cursor.line;
            let next = self.remove_line(l + 1);
            let chars = self.line_chars(l);
            let mut joined = string_of(chars.as_slice());
            push_str(&mut joined, next.as_str());
            self.set_line(l, joined);
            proof {
                assert(self@.text =~= v.text.take(l as int) + seq![v.text[l as int] + v.text[l + 1]]
                    + v.text.skip(l + 2));
                lemma_undo_after_edit_nonempty(v.undo, v.snap(), self@.undo);
            }
        }
    }

    /// Deletes the selection, or back to the start of the previous word.
    pub fn delete_word_back(&mut self)
        requires
            old(self)@.backspace_ok(),
        ensures
            final(self)@.wf(),
            final(self)@ == old(self)@.after_delete_word_back(),
    {
        if self.selection.is_some() {
            self.delete_selection();
            return;
        }
        let ghost v = self@;
        let l = self.cursor.line;
        let chars = self.line_chars(l);
        let target = find_word_back(&chars, self.cursor.col);
        proof { lemma_skip_back_bounds(chars@, self.cursor.col as int); }
        if target < self.cursor.col {
            self.force_undo_snapshot();
            let mut s = string_of_range(chars.as_slice(), 0, target);
            push_range(&mut s, chars.as_slice(), self.cursor.col, chars.len());
            self.set_line(l, s);
            self.cursor.col = target;
            proof {
                assert(s@ =~= v.text[l as int].take(target as int) + v.text[l as int].skip(v.cursor.col as int));
                assert(snaps_nonempty(self@.undo));
            }
        }
        self.desired_col = None;
    }

    /// Splits the line at the cursor (replacing the selection if there is
    /// one). A list item is continued on the new line; Enter on an empty
    /// list item ends the list instead.
    pub fn enter(&mut self)
        requires
            old(self)@.wf(),
            old(self)@.sel_valid(),
        ensures
            final(self)@.wf(),
            final(self)@ == old(self)@.after_enter(),
    {
        if self.selection.is_some() {
            self.delete_selection();
        }
        self.force_undo_snapshot();
        let ghost v1 = self@;
        let nlines = self.lines.len();
        assert(self@.text.len() == nlines);
        let l = self.cursor.line;
        let chars = self.line_chars(l);
        let at = if self.cursor.col <= chars.len() { self.cursor.col } else { chars.len() };
        let prefix = list_continuation_prefix(self.lines[l].as_str());
        let after = string_of_range(chars.as_slice(), at, chars.len());
        let before = string_of_range(chars.as_slice(), 0, at);
        let before_chars = chars_of(before.as_str());
        let after_chars = chars_of(after.as_str());
        let (cur, new_line) = match prefix {
            Some(pfx) => {
                let n = count_lead_ws(before_chars.as_slice());
                proof { text::lemma_lead_ws_bound(before_chars@); }
                let k = before_chars.len() - n;
                let is_empty_item = (k == 2 && before_chars[n] == '-' && before_chars[n + 1] == ' ')
                    || (k == 1 && before_chars[n] == '-');
                let lead = count_lead_ws(after_chars.as_slice());
                let after_blank = lead == after_chars.len();
                proof {
                    text::lemma_lead_ws_bound(before_chars@);
                    text::lemma_lead_ws_bound(after_chars@);
                    let item = text::trim_start(before_chars@);
                    assert(item =~= before_chars@.skip(n as int));
                    if item == seq!['-', ' '] {
                        assert(item[0] == before_chars@[n as int]);
                        assert(item[1] == before_chars@[n + 1]);
                    }
                    if item == seq!['-'] {
                        assert(item[0] == before_chars@[n as int]);
                    }
                    if k == 2 && before_chars@[n as int] == '-' && before_chars@[n + 1] == ' ' {
                        assert(item =~= seq!['-', ' ']);
                    }
                    if k == 1 && before_chars@[n as int] == '-' {
                        assert(item =~= seq!['-']);
                    }
                    lemma_trim_empty(after_chars@);
                }
                if is_empty_item && after_blank {
                    (String::new(), String::new())
                } else {
                    let mut nl = pfx;
                    push_str(&mut nl, after.as_str());
                    (before, nl)
                }
            },
            None => (before, after),
        };
        let new_col = match list_continuation_prefix(new_line.as_str()) {
            Some(p) => chars_of(p.as_str()).len(),
            None => 0,
        };
        self.set_line(l, cur);
        self.insert_line(l + 1, new_line);
        self.cursor.line = l + 1;
        self.cursor.col = new_col;
        self.desired_col = None;
        proof {
            assert(snaps_nonempty(self@.undo));
        }
    }
}

/// A text is blank after trimming exactly when it is all white space.
pub proof fn lemma_trim_empty(s: Seq<char>)
    ensures
        (text::trim(s).len() == 0) == (text::lead_ws(s) == s.len()),
{
    text::lemma_lead_ws_bound(s);
    let t = text::trim_start(s);
    text::lemma_trail_ws_bound(t);
    if text::lead_ws(s) < s.len() {
        assert(t.len() > 0);
        assert(!text::is_ws(t[0]));
        if text::trail_ws(t) == t.len() {
            assert(text::is_ws(t[0]));
        }
    } else {
        assert(t.len() == 0);
    }
}


/// The forward search from `from` over lines `i..`: on the line of `from`
/// from its (clamped) column, on later lines from their start.
pub open spec fn search_fwd(ll: Seq<Seq<char>>, q: Seq<char>, from: Pos, i: int) -> Option<Pos>
    decreases ll.len() - i,
{
    if i < 0 || i >= ll.len() {
        None
    } else {
        let start = if i == from.line { clamp_col(ll[i], from.col) } else { 0 };
        match text::first_match(ll[i], q, start) {
            Some(c) => Some(Pos { line: i as usize, col: c as usize }),
            None => search_fwd(ll, q, from, i + 1),
        }
    }
}

/// The first match on lines `i..=last`, each searched whole.
pub open spec fn search_wrap_fwd(ll: Seq<Seq<char>>, q: Seq<char>, i: int, last: int) -> Option<Pos>
    decreases last + 1 - i,
{
    if i < 0 || i > last || i >= ll.len() {
        None
    } else {
        match text::first_match(ll[i], q, 0) {
            Some(c) => Some(Pos { line: i as usize, col: c as usize }),
            None => search_wrap_fwd(ll, q, i + 1, last),
        }
    }
}

/// Next match of `q` at or after `from`, wrapping around to the start.
pub open spec fn next_match(ll: Seq<Seq<char>>, q: Seq<char>, from: Pos) -> Option<Pos> {
    match search_fwd(ll, q, from, from.line as int) {
        Some(p) => Some(p),
        None => search_wrap_fwd(
            ll,
            q,
            0,
            if from.line < ll.len() { from.line as int } else { ll.len() - 1 },
        ),
    }
}

/// The backward search from `from` over lines `i, i-1, .., 0`: on the line
/// of `from` a match must end by its (clamped) column.
pub open spec fn search_back(ll: Seq<Seq<char>>, q: Seq<char>, from: Pos, i: int) -> Option<Pos>
    decreases i + 1,
{
    if i < 0 || i >= ll.len() {
        None
    } else {
        let end = if i == from.line { clamp_col(ll[i], from.col) } else { ll[i].len() as int };
        match text::last_match(ll[i], q, end - q.len()) {
            Some(c) => Some(Pos { line: i as usize, col: c as usize }),
            None => search_back(ll, q, from, i - 1),
        }
    }
}

/// The last match on lines `i, i-1, .., first`, each searched whole.
pub open spec fn search_wrap_back(ll: Seq<Seq<char>>, q: Seq<char>, i: int, first: int) -> Option<Pos>
    decreases i + 1,
{
    if i < 0 || i < first || i >= ll.len() {
        None
    } else {
        match text::last_match(ll[i], q, ll[i].len() - q.len()) {
            Some(c) => Some(Pos { line: i as usize, col: c as usize }),
            None => search_wrap_back(ll, q, i - 1, first),
        }
    }
}

/// Previous match of `q` ending by `from`, wrapping around to the end.
pub open spec fn prev_match(ll: Seq<Seq<char>>, q: Seq<char>, from: Pos) -> Option<Pos> {
    match search_back(ll, q, from, from.line as int) {
        Some(p) => Some(p),
        None => search_wrap_back(ll, q, ll.len() - 1, from.line as int),
    }
}

/// Each line in lower case.
pub open spec fn lowered(t: Seq<Seq<char>>) -> Seq<Seq<char>> {
    t.map_values(|l: Seq<char>| text::lowercase(l))
}

proof fn lemma_search_fwd_line(ll: Seq<Seq<char>>, q: Seq<char>, from: Pos, i: int)
    requires
        ll.len() <= usize::MAX,
    ensures
        search_fwd(ll, q, from, i) matches Some(p) ==> p.line < ll.len(),
    decreases ll.len() - i,
{
    if 0 <= i < ll.len() {
        lemma_search_fwd_line(ll, q, from, i + 1);
    }
}

proof fn lemma_search_wrap_fwd_line(ll: Seq<Seq<char>>, q: Seq<char>, i: int, last: int)
    requires
        ll.len() <= usize::MAX,
    ensures
        search_wrap_fwd(ll, q, i, last) matches Some(p) ==> p.line < ll.len(),
    decreases last + 1 - i,
{
    if 0 <= i <= last && i < ll.len() {
        lemma_search_wrap_fwd_line(ll, q, i + 1, last);
    }
}

proof fn lemma_search_back_line(ll: Seq<Seq<char>>, q: Seq<char>, from: Pos, i: int)
    requires
        ll.len() <= usize::MAX,
    ensures
        search_back(ll, q, from, i) matches Some(p) ==> p.line < ll.len(),
    decreases i + 1,
{
    if 0 <= i < ll.len() {
        lemma_search_back_line(ll, q, from, i - 1);
    }
}

proof fn lemma_search_wrap_back_line(ll: Seq<Seq<char>>, q: Seq<char>, i: int, first: int)
    requires
        ll.len() <= usize::MAX,
    ensures
        search_wrap_back(ll, q, i, first) matches Some(p) ==> p.line < ll.len(),
    decreases i + 1,
{
    if 0 <= i && first <= i && i < ll.len() {
        lemma_search_wrap_back_line(ll, q, i - 1, first);
    }
}

/// A match found searching forward or backward lies on a line of the text.
pub proof fn lemma_match_line(ll: Seq<Seq<char>>, q: Seq<char>, from: Pos)
    requires
        ll.len() <= usize::MAX,
    ensures
        next_match(ll, q, from) matches Some(p) ==> p.line < ll.len(),
        prev_match(ll, q, from) matches Some(p) ==> p.line < ll.len(),
{
    lemma_search_fwd_line(ll, q, from, from.line as int);
    lemma_search_wrap_fwd_line(ll, q, 0, if from.line < ll.len() { from.line as int } else { ll.len() - 1 });
    lemma_search_back_line(ll, q, from, from.line as int);
    lemma_search_wrap_back_line(ll, q, ll.len() - 1, from.line as int);
}

/// Next match of `query` in `lines` at or after `from`, wrapping around;
/// the lines and the query are taken as they are (already in lower case).
pub fn find_next_lowered(lines: &Vec<String>, query: &str, from: Pos) -> (r: Option<Pos>)
    requires
        lines@.len() > 0,
    ensures
        r == next_match(text_of(lines@), query@, from),
{
    let ghost ll = text_of(lines@);
    let q = chars_of(query);
    let n = lines.len();
    let mut i = from.line;
    while i < n
        invariant
            n == ll.len() == lines@.len(),
            ll == text_of(lines@),
            from.line <= i,
            search_fwd(ll, q@, from, from.line as int) == search_fwd(ll, q@, from, i as int),
            q@ == query@,
        decreases n - i,
    {
        let h = chars_of(lines[i].as_str());
        let start = if i == from.line {
            if from.col <= h.len() { from.col } else { h.len() }
        } else {
            0
        };
        match find_first(&h, &q, start) {
            Some(c) => {
                return Some(Pos::new(i, c));
            },
            None => {},
        }
        i = i + 1;
    }
    let last = if from.line < n - 1 { from.line } else { n - 1 };
    assert(last == if from.line < ll.len() { from.line as int } else { ll.len() - 1 });
    let mut j: usize = 0;
    while j <= last
        invariant
            n == ll.len() == lines@.len(),
            ll == text_of(lines@),
            last < n,
            last == if from.line < ll.len() { from.line as int } else { ll.len() - 1 },
            search_wrap_fwd(ll, q@, 0, last as int) == search_wrap_fwd(ll, q@, j as int, last as int),
            q@ == query@,
            search_fwd(ll, q@, from, from.line as int) is None,
        decreases last + 1 - j,
    {
        let h = chars_of(lines[j].as_str());
        assert(h@ == ll[j as int]);
        match find_first(&h, &q, 0) {
            Some(c) => {
                return Some(Pos::new(j, c));
            },
            None => {},
        }
        if j == last {
            assert(search_wrap_fwd(ll, q@, j + 1, last as int) is None);
            return None;
        }
        j = j + 1;
    }
    None
}

/// Previous match of `query` in `lines` ending by `from`, wrapping around;
/// the lines and the query are taken as they are (already in lower case).
pub fn find_prev_lowered(lines: &Vec<String>, query: &str, from: Pos) -> (r: Option<Pos>)
    requires
        from.line < lines@.len(),
    ensures
        r == prev_match(text_of(lines@), query@, from),
{
    let ghost ll = text_of(lines@);
    let q = chars_of(query);
    let n = lines.len();
    let mut i = from.line + 1;
    while i > 0
        invariant
            n == ll.len() == lines@.len(),
            ll == text_of(lines@),
            i <= from.line + 1,
            from.line < n,
            search_back(ll, q@, from, from.line as int) == search_back(ll, q@, from, i - 1),
            q@ == query@,
        decreases i,
    {
        let k = i - 1;
        let h = chars_of(lines[k].as_str());
        let end = if k == from.line {
            if from.col <= h.len() { from.col } else { h.len() }
        } else {
            h.len()
        };
        match find_last(&h, &q, end) {
            Some(c) => {
                return Some(Pos::new(k, c));
            },
            None => {},
        }
        i = k;
    }
    let mut j = n;
    while j > from.line
        invariant
            n == ll.len() == lines@.len(),
            ll == text_of(lines@),
            from.line <= j <= n,
            search_wrap_back(ll, q@, n - 1, from.line as int) == search_wrap_back(ll, q@, j - 1, from.line as int),
            q@ == query@,
            search_back(ll, q@, from, from.line as int) is None,
        decreases j,
    {
        let k = j - 1;
        let h = chars_of(lines[k].as_str());
        match find_last(&h, &q, h.len()) {
            Some(c) => {
                return Some(Pos::new(k, c));
            },
            None => {},
        }
        j = k;
    }
    None
}

/// Each line in lower case.
fn lower_lines(lines: &Vec<String>) -> (r: Vec<String>)
    ensures
        text_of(r@) == lowered(text_of(lines@)),
{
    let mut r: Vec<String> = Vec::new();
    let mut i: usize = 0;
    while i < lines.len()
        invariant
            i <= lines@.len(),
            r@.len() == i,
            forall|k: int| 0 <= k < i ==> #[trigger] r@[k]@ == text::lowercase(lines@[k]@),
        decreases lines.len() - i,
    {
        r.push(to_lowercase(lines[i].as_str()));
        i = i + 1;
    }
    assert(text_of(r@) =~= lowered(text_of(lines@)));
    r
}

impl Buffer {
    /// Deletes the cursor's line (or empties the only line).
    pub fn delete_line(&mut self)
        requires
            old(self)@.wf(),
        ensures
            final(self)@.wf(),
            final(self)@ == old(self)@.after_delete_line(),
    {
        self.force_undo_snapshot();
        self.selection = None;
        let nlines = self.lines.len();
        assert(self@.text.len() == nlines);
        if nlines > 1 {
            let l = self.cursor.line;
            self.remove_line(l);
            if self.cursor.line >= nlines - 1 {
                self.cursor.line = nlines - 2;
            }
            let len = self.char_len(self.cursor.line);
            self.cursor.col = if self.cursor.col <= len { self.cursor.col } else { len };
        } else {
            self.set_line(0, String::new());
            self.cursor.col = 0;
            assert(self@.text =~= seq![Seq::<char>::empty()]);
        }
        self.desired_col = None;
        assert(snaps_nonempty(self@.undo));
    }

    /// Indents the cursor's line by two spaces.
    pub fn indent_line(&mut self)
        requires
            old(self)@.wf(),
            old(self)@.cursor.col + 2 <= usize::MAX,
        ensures
            final(self)@.wf(),
            indent_post(old(self)@, final(self)@),
    {
        let ghost v = self@;
        self.push_undo();
        let l = self.cursor.line;
        let chars = self.line_chars(l);
        let mut s = String::new();
        push_char(&mut s, ' ');
        push_char(&mut s, ' ');
        push_range(&mut s, chars.as_slice(), 0, chars.len());
        self.set_line(l, s);
        self.cursor.col = self.cursor.col + 2;
        self.desired_col = None;
        proof {
            assert(s@ =~= seq![' ', ' '] + v.text[l as int]);
            lemma_undo_after_edit_nonempty(v.undo, v.snap(), self@.undo);
        }
    }

    /// Removes up to two leading spaces from the cursor's line.
    pub fn outdent_line(&mut self)
        requires
            old(self)@.wf(),
        ensures
            final(self)@.wf(),
            outdent_post(old(self)@, final(self)@),
    {
        let ghost v = self@;
        let l = self.cursor.line;
        let chars = self.line_chars(l);
        let lead = count_lead_spaces(&chars);
        let spaces = if lead < 2 { lead } else { 2 };
        proof { lemma_lead_spaces_bound(chars@); }
        if spaces > 0 {
            self.push_undo();
            let s = string_of_range(chars.as_slice(), spaces, chars.len());
            self.set_line(l, s);
            self.cursor.col = if self.cursor.col >= spaces { self.cursor.col - spaces } else { 0 };
            self.desired_col = None;
            proof {
                assert(s@ =~= v.text[l as int].skip(spaces as int));
                lemma_undo_after_edit_nonempty(v.undo, v.snap(), self@.undo);
            }
        }
    }

    /// Next case-insensitive match of `query` at or after `from`, wrapping
    /// around to the start of the text; none for an empty query.
    pub fn find_next(&self, query: &str, from: Pos) -> (r: Option<Pos>)
        requires
            self@.wf(),
        ensures
            query@.len() == 0 ==> r.is_none(),
            query@.len() > 0 ==> r == next_match(
                lowered(self@.text),
                text::lowercase(query@),
                from,
            ),
    {
        if query.is_empty() {
            return None;
        }
        let query_lower = to_lowercase(query);
        let lines_lower = lower_lines(&self.lines);
        find_next_lowered(&lines_lower, query_lower.as_str(), from)
    }

    /// Previous case-insensitive match of `query` ending by `from`, wrapping
    /// around to the end of the text; none for an empty query.
    pub fn find_prev(&self, query: &str, from: Pos) -> (r: Option<Pos>)
        requires
            self@.wf(),
            from.line < self@.text.len(),
        ensures
            query@.len() == 0 ==> r.is_none(),
            query@.len() > 0 ==> r == prev_match(
                lowered(self@.text),
                text::lowercase(query@),
                from,
            ),
    {
        if query.is_empty() {
            return None;
        }
        let query_lower = to_lowercase(query);
        let lines_lower = lower_lines(&self.lines);
        find_prev_lowered(&lines_lower, query_lower.as_str(), from)
    }
}


// ---------------------------------------------------------------------------
// Laws
// ---------------------------------------------------------------------------

/// Loading what was saved gives back the lines: `from_string` makes of what
/// `to_string` writes the same lines, when no line holds a newline, no line
/// but the last ends in a carriage return, and the last line is not empty
/// unless it is the only one.
pub proof fn law_load_after_save(t: Seq<Seq<char>>)
    requires
        t.len() > 0,
        forall|i: int| 0 <= i < t.len() ==> text::free_of(#[trigger] t[i], '\n'),
        forall|i: int| 0 <= i < t.len() - 1 ==> text::strip_cr(#[trigger] t[i]) == t[i],
        t.len() == 1 || t.last().len() > 0,
    ensures
        text_from(text::join_nl(t)) == t,
{
    let c = text::join_nl(t);
    text::lemma_split_join(t);
    if t.len() == 1 {
        assert(c == t[0]);
        if c.len() == 0 {
            assert(t =~= seq![Seq::<char>::empty()]);
        } else {
            assert(text::free_of(t[0], '\n'));
            assert(c.last() == t[0][t[0].len() - 1]);
            assert(text::lines_of(c) =~= t);
        }
    } else {
        let u = t.drop_last();
        assert(c == text::join_nl(u) + seq!['\n'] + t.last());
        assert(text::free_of(t[t.len() - 1], '\n'));
        assert(c.last() == t.last()[t.last().len() - 1]);
        assert(text::lines_of(c) =~= t);
    }
}

/// Saving what was loaded gives back the text: `to_string` writes what
/// `from_string` read, for text without carriage returns that does not end
/// in a newline.
pub proof fn law_save_after_load(s: Seq<char>)
    requires
        text::free_of(s, '\r'),
        s.len() == 0 || s.last() != '\n',
    ensures
        text::join_nl(text_from(s)) == s,
{
    if s.len() > 0 {
        let p = text::split_nl(s);
        text::lemma_split_nl_free(s, '\r');
        text::lemma_split_nl_len(s);
        assert forall|i: int| 0 <= i < p.len() implies text::strip_cr(#[trigger] p[i]) == p[i] by {
            assert(text::free_of(p[i], '\r'));
            if p[i].len() > 0 {
                assert(p[i].last() == p[i][p[i].len() - 1]);
            }
        }
        assert(text::lines_of(s) =~= p);
        text::lemma_join_split(s);
    }
}

/// Redo right after undo gives back the text and what could be redone, the
/// cursor clamped into the text; the undo history has its newest entry back
/// with the cursor that undo clamped.
pub proof fn law_redo_after_undo(v: BufferView)
    requires
        v.undo.len() > 0,
    ensures
        v.after_undo().after_redo().text == v.text,
        v.after_undo().after_redo().cursor == clamp_pos(v.text, v.cursor),
        v.after_undo().after_redo().redo == v.redo,
        v.after_undo().after_redo().undo == v.undo.drop_last().push(
            (v.undo.last().0, clamp_pos(v.undo.last().0, v.undo.last().1)),
        ),
{
    assert(v.after_undo().redo.drop_last() =~= v.redo);
}

/// Undo right after redo gives back the text and what could be undone, the
/// cursor clamped into the text.
pub proof fn law_undo_after_redo(v: BufferView)
    requires
        v.redo.len() > 0,
    ensures
        v.after_redo().after_undo().text == v.text,
        v.after_redo().after_undo().cursor == clamp_pos(v.text, v.cursor),
        v.after_redo().after_undo().undo == v.undo,
        v.after_redo().after_undo().redo == v.redo.drop_last().push(
            (v.redo.last().0, clamp_pos(v.redo.last().0, v.redo.last().1)),
        ),
{
    assert(v.after_redo().undo.drop_last() =~= v.undo);
}

/// After a snapshot of `v`, an edit that saves its starting state for undo
/// leaves the text of `v` as the newest undo entry, batched or not.
proof fn lemma_undo_top(v: BufferView, after: Seq<Snap>)
    requires
        undo_after_edit(v.after_snapshot().undo, v.after_snapshot().snap(), after),
    ensures
        after.len() > 0,
        after.last().0 == v.text,
{
}

/// One undo right after a typed character takes the text back to what it
/// was when the snapshot was forced; redo then gives the typed text back.
pub proof fn law_undo_typed_char(v: BufferView, w: BufferView, c: char)
    requires
        v.selection.is_none(),
        insert_char_post(v.after_snapshot(), w, c),
    ensures
        w.after_undo().text == v.text,
        w.after_undo().after_redo().text == w.text,
{
    lemma_undo_top(v, w.undo);
    law_redo_after_undo(w);
}

/// One undo right after a backspace takes the text back to what it was when
/// the snapshot was forced.
pub proof fn law_undo_backspace(v: BufferView, w: BufferView)
    requires
        v.selection.is_none(),
        backspace_post(v.after_snapshot(), w),
    ensures
        w.after_undo().text == v.text,
        w.after_undo().after_redo().text == w.text,
{
    let v1 = v.after_snapshot();
    if v1.cursor.col > 0 || v1.cursor.line > 0 {
        lemma_undo_top(v, w.undo);
    }
    law_redo_after_undo(w);
}

/// One undo right after a forward delete takes the text back to what it was
/// when the snapshot was forced.
pub proof fn law_undo_delete(v: BufferView, w: BufferView)
    requires
        v.selection.is_none(),
        delete_post(v.after_snapshot(), w),
    ensures
        w.after_undo().text == v.text,
        w.after_undo().after_redo().text == w.text,
{
    if w.undo != v.after_snapshot().undo {
        lemma_undo_top(v, w.undo);
    }
    law_redo_after_undo(w);
}

/// Lines of at least two joined with newlines: the first, a newline, the
/// middle lines each followed by a newline, the last.
proof fn lemma_join_nl_ends(t: Seq<Seq<char>>)
    requires
        t.len() >= 2,
    ensures
        text::join_nl(t) == t[0] + seq!['\n'] + lines_nl(t.subrange(1, t.len() - 1)) + t.last(),
    decreases t.len(),
{
    let u = t.drop_last();
    if t.len() == 2 {
        assert(t.subrange(1, 1) =~= Seq::<Seq<char>>::empty());
        assert(text::join_nl(u) == u[0]);
    } else {
        lemma_join_nl_ends(u);
        let m = t.subrange(1, t.len() - 1);
        assert(m.drop_last() =~= u.subrange(1, u.len() - 1));
        assert(m.last() == u.last());
        assert(lines_nl(m) == lines_nl(m.drop_last()) + m.last() + seq!['\n']);
        assert(text::join_nl(t) =~= t[0] + seq!['\n'] + lines_nl(m) + t.last());
    }
}

/// Selecting all selects the whole text: the lines joined with newlines
/// (nothing, in a buffer that is one empty line).
pub proof fn law_select_all_text(v: BufferView)
    requires
        v.wf(),
        v.text.len() <= usize::MAX,
        forall|i: int| 0 <= i < v.text.len() ==> (#[trigger] v.text[i]).len() <= usize::MAX,
    ensures
        v.after_select_all().selected() == if v.text.len() == 1 && v.text[0].len() == 0 {
            None
        } else {
            Some(text::join_nl(v.text))
        },
{
    let t = v.text;
    let last = t.len() - 1;
    assert(t[last].len() <= usize::MAX);
    if t.len() == 1 {
        assert(t[0].subrange(0, t[0].len() as int) =~= t[0]);
    } else {
        lemma_join_nl_ends(t);
        assert(t[0].skip(0) =~= t[0]);
        assert(t[last].take(t[last].len() as int) =~= t[last]);
    }
}

proof fn lemma_first_match(h: Seq<char>, q: Seq<char>, i: int)
    ensures
        text::first_match(h, q, i) matches Some(c) ==> i <= c && text::matches_at(h, q, c),
    decreases h.len() + 1 - i,
{
    if !(i < 0 || i + q.len() > h.len()) && !text::matches_at(h, q, i) {
        lemma_first_match(h, q, i + 1);
    }
}

proof fn lemma_search_fwd_found(ll: Seq<Seq<char>>, q: Seq<char>, from: Pos, i: int)
    requires
        ll.len() <= usize::MAX,
        forall|k: int| 0 <= k < ll.len() ==> (#[trigger] ll[k]).len() <= usize::MAX,
    ensures
        search_fwd(ll, q, from, i) matches Some(p) ==> p.line < ll.len() && text::matches_at(
            ll[p.line as int],
            q,
            p.col as int,
        ),
    decreases ll.len() - i,
{
    if 0 <= i < ll.len() {
        let start = if i == from.line { clamp_col(ll[i], from.col) } else { 0 };
        lemma_first_match(ll[i], q, start);
        assert(ll[i].len() <= usize::MAX);
        lemma_search_fwd_found(ll, q, from, i + 1);
    }
}

proof fn lemma_search_wrap_fwd_found(ll: Seq<Seq<char>>, q: Seq<char>, i: int, last: int)
    requires
        ll.len() <= usize::MAX,
        forall|k: int| 0 <= k < ll.len() ==> (#[trigger] ll[k]).len() <= usize::MAX,
    ensures
        search_wrap_fwd(ll, q, i, last) matches Some(p) ==> p.line < ll.len() && text::matches_at(
            ll[p.line as int],
            q,
            p.col as int,
        ),
    decreases last + 1 - i,
{
    if 0 <= i <= last && i < ll.len() {
        lemma_first_match(ll[i], q, 0);
        assert(ll[i].len() <= usize::MAX);
        lemma_search_wrap_fwd_found(ll, q, i + 1, last);
    }
}

proof fn lemma_search_back_found(ll: Seq<Seq<char>>, q: Seq<char>, from: Pos, i: int)
    requires
        ll.len() <= usize::MAX,
        forall|k: int| 0 <= k < ll.len() ==> (#[trigger] ll[k]).len() <= usize::MAX,
    ensures
        search_back(ll, q, from, i) matches Some(p) ==> p.line < ll.len() && text::matches_at(
            ll[p.line as int],
            q,
            p.col as int,
        ),
    decreases i + 1,
{
    if 0 <= i < ll.len() {
        let end = if i == from.line { clamp_col(ll[i], from.col) } else { ll[i].len() as int };
        text::lemma_last_match_bound(ll[i], q, end - q.len());
        assert(ll[i].len() <= usize::MAX);
        lemma_search_back_found(ll, q, from, i - 1);
    }
}

proof fn lemma_search_wrap_back_found(ll: Seq<Seq<char>>, q: Seq<char>, i: int, first: int)
    requires
        ll.len() <= usize::MAX,
        forall|k: int| 0 <= k < ll.len() ==> (#[trigger] ll[k]).len() <= usize::MAX,
    ensures
        search_wrap_back(ll, q, i, first) matches Some(p) ==> p.line < ll.len() && text::matches_at(
            ll[p.line as int],
            q,
            p.col as int,
        ),
    decreases i + 1,
{
    if 0 <= i && first <= i && i < ll.len() {
        text::lemma_last_match_bound(ll[i], q, ll[i].len() - q.len());
        assert(ll[i].len() <= usize::MAX);
        lemma_search_wrap_back_found(ll, q, i - 1, first);
    }
}

/// What a search finds is a match: the query occurs in its line at the
/// position found, searching forward or backward.
pub proof fn law_search_finds_match(ll: Seq<Seq<char>>, q: Seq<char>, from: Pos)
    requires
        ll.len() <= usize::MAX,
        forall|k: int| 0 <= k < ll.len() ==> (#[trigger] ll[k]).len() <= usize::MAX,
    ensures
        next_match(ll, q, from) matches Some(p) ==> p.line < ll.len() && text::matches_at(
            ll[p.line as int],
            q,
            p.col as int,
        ),
        prev_match(ll, q, from) matches Some(p) ==> p.line < ll.len() && text::matches_at(
            ll[p.line as int],
            q,
            p.col as int,
        ),
{
    lemma_search_fwd_found(ll, q, from, from.line as int);
    lemma_search_wrap_fwd_found(ll, q, 0, if from.line < ll.len() { from.line as int } else { ll.len() - 1 });
    lemma_search_back_found(ll, q, from, from.line as int);
    lemma_search_wrap_back_found(ll, q, ll.len() - 1, from.line as int);
}


/// Cutting the selection and pasting it back at the cursor gives back the
/// text, with the cursor at the selection's later end, nothing selected,
/// and the buffer marked changed; when both ends of the selection lie
/// within their lines and no line from its start to its end holds a newline
/// character.
pub proof fn law_paste_after_cut(v: BufferView)
    requires
        v.wf(),
        v.sel_valid(),
        v.selected() is Some,
        v.selection.unwrap().anchor.col <= v.text[v.selection.unwrap().anchor.line as int].len(),
        v.selection.unwrap().cursor.col <= v.text[v.selection.unwrap().cursor.line as int].len(),
        forall|i: int|
            sel_ordered(v.selection.unwrap()).0.line <= i <= sel_ordered(v.selection.unwrap()).1.line
                ==> text::free_of(#[trigger] v.text[i], '\n'),
    ensures
        v.after_delete_selection().after_insert_str(v.selected().unwrap()).text == v.text,
        v.after_delete_selection().after_insert_str(v.selected().unwrap()).cursor == sel_ordered(
            v.selection.unwrap(),
        ).1,
        v.after_delete_selection().after_insert_str(v.selected().unwrap()).selection is None,
        v.after_delete_selection().after_insert_str(v.selected().unwrap()).dirty,
{
    let t = v.text;
    let (a, b) = sel_ordered(v.selection.unwrap());
    let al = a.line as int;
    let bl = b.line as int;
    let ca = a.col as int;
    let cb = b.col as int;
    let r = v.selected().unwrap();
    let w = v.after_delete_selection();
    assert(w.selection is None);
    assert(w.pre_edit() == w);
    assert(w.cursor == a);
    assert(w.text == cut_region(t, a, b));
    assert(clamp_col(t[al], a.col) == ca);
    assert(clamp_col(t[bl], b.col) == cb);
    assert(w.text[al] == t[al].take(ca) + t[bl].skip(cb));
    assert(w.col_at() == ca);
    if al == bl {
        assert(r == t[al].subrange(ca, cb));
        assert(text::free_of(t[al], '\n'));
        assert(text::free_of(r, '\n'));
        text::lemma_split_join(seq![r]);
        assert(text::join_nl(seq![r]) == r);
        let (nt, nc) = w.insert_text(text::split_nl(r));
        assert(w.text[al].take(ca) + r + w.text[al].skip(ca) =~= t[al]);
        assert(nt =~= t);
        assert(nc == b);
    } else {
        let m = t.subrange(al + 1, bl);
        let u = seq![t[al].skip(ca)] + m + seq![t[bl].take(cb)];
        let n = u.len() as int;
        assert(u.subrange(1, n - 1) =~= m);
        assert(u[0] == t[al].skip(ca));
        assert(u.last() == t[bl].take(cb));
        lemma_join_nl_ends(u);
        assert(r == text::join_nl(u));
        assert forall|i: int| 0 <= i < u.len() implies text::free_of(#[trigger] u[i], '\n') by {
            if i == 0 {
                assert(text::free_of(t[al], '\n'));
            } else if i == n - 1 {
                assert(text::free_of(t[bl], '\n'));
            } else {
                assert(u[i] == t[al + i]);
                assert(text::free_of(t[al + i], '\n'));
            }
        }
        text::lemma_split_join(u);
        let (nt, nc) = w.insert_text(u);
        assert(nc == b);
        assert(w.text[al].take(ca) =~= t[al].take(ca));
        assert(w.text[al].skip(ca) =~= t[bl].skip(cb));
        assert(w.text.take(al) =~= t.take(al));
        assert(w.text.skip(al + 1) =~= t.skip(bl + 1));
        assert(t[al].take(ca) + t[al].skip(ca) =~= t[al]);
        assert(t[bl].take(cb) + t[bl].skip(cb) =~= t[bl]);
        assert(nt =~= t);
    }
}


proof fn lemma_lead_spaces_nonneg(s: Seq<char>)
    ensures
        lead_spaces(s) >= 0,
    decreases s.len(),
{
    if s.len() > 0 && s[0] == ' ' {
        lemma_lead_spaces_nonneg(s.drop_first());
    }
}

/// Outdenting right after indenting gives back the text and the cursor.
pub proof fn law_outdent_after_indent(v: BufferView, w: BufferView, x: BufferView)
    requires
        v.wf(),
        v.cursor.col + 2 <= usize::MAX,
        indent_post(v, w),
        outdent_post(w, x),
    ensures
        x.text == v.text,
        x.cursor == v.cursor,
{
    let l = v.cursor.line as int;
    let line = v.text[l];
    let s = seq![' ', ' '] + line;
    assert(w.text[l] == s);
    assert(s.drop_first() =~= seq![' '] + line);
    assert((seq![' '] + line).drop_first() =~= line);
    lemma_lead_spaces_nonneg(line);
    assert(s[0] == ' ');
    assert((seq![' '] + line)[0] == ' ');
    assert(lead_spaces(seq![' '] + line) == 1 + lead_spaces(line));
    assert(lead_spaces(s) == 1 + lead_spaces(seq![' '] + line));
    assert(s.skip(2) =~= line);
    assert(x.text =~= v.text);
}


proof fn lemma_spaces_back(s: Seq<char>, p: int)
    requires
        0 <= p <= s.len(),
    ensures
        0 <= skip_spaces_back(s, p) <= p,
        forall|k: int| skip_spaces_back(s, p) <= k < p ==> #[trigger] s[k] == ' ',
        skip_spaces_back(s, p) == 0 || s[skip_spaces_back(s, p) - 1] != ' ',
    decreases p,
{
    if p > 0 && s[p - 1] == ' ' {
        lemma_spaces_back(s, p - 1);
    }
}

proof fn lemma_word_back_run(s: Seq<char>, p: int)
    requires
        0 <= p <= s.len(),
    ensures
        0 <= skip_word_back(s, p) <= p,
        forall|k: int| skip_word_back(s, p) <= k < p ==> #[trigger] s[k] != ' ',
        skip_word_back(s, p) == 0 || s[skip_word_back(s, p) - 1] == ' ',
        p > 0 && s[p - 1] != ' ' ==> skip_word_back(s, p) < p,
    decreases p,
{
    if p > 0 && s[p - 1] != ' ' {
        lemma_word_back_run(s, p - 1);
    }
}

/// A word move left from a column inside the line lands at the start of
/// the word before the cursor: on the same line, strictly left of the
/// cursor, at the line's start or just after a space; from there the word
/// (no spaces) runs to the returned column, and only spaces lie between it
/// and the cursor.
pub proof fn law_word_left_start(v: BufferView) -> (q: int)
    requires
        v.wf(),
        0 < v.cursor.col <= v.text[v.cursor.line as int].len(),
    ensures
        ({
            let line = v.text[v.cursor.line as int];
            let w = v.after_move_word_left(false);
            let c = w.cursor.col as int;
            &&& w.cursor.line == v.cursor.line
            &&& w.selection is None
            &&& c < v.cursor.col
            &&& c == 0 || line[c - 1] == ' '
            &&& c <= q <= v.cursor.col
            &&& forall|k: int| c <= k < q ==> #[trigger] line[k] != ' '
            &&& forall|k: int| q <= k < v.cursor.col ==> #[trigger] line[k] == ' '
        }),
{
    let line = v.text[v.cursor.line as int];
    let p = v.cursor.col as int;
    lemma_spaces_back(line, p);
    let q = skip_spaces_back(line, p);
    lemma_word_back_run(line, q);
    q
}

/// Deleting a word back removes exactly what a word move left passes over:
/// the line keeps its text up to where that move lands and from the cursor
/// on, and the cursor goes there.
pub proof fn law_delete_word_back_span(v: BufferView)
    requires
        v.wf(),
        v.selection is None,
        0 < v.cursor.col <= v.text[v.cursor.line as int].len(),
    ensures
        ({
            let l = v.cursor.line as int;
            let c = v.after_move_word_left(false).cursor.col as int;
            &&& v.after_delete_word_back().text == v.text.update(
                l,
                v.text[l].take(c) + v.text[l].skip(v.cursor.col as int),
            )
            &&& v.after_delete_word_back().cursor == v.after_move_word_left(false).cursor
        }),
{
    law_word_left_start(v);
    let l = v.cursor.line as int;
    let target = word_back(v.text[l], v.cursor.col as int);
    lemma_skip_back_bounds(v.text[l], v.cursor.col as int);
    assert(v.word_left_pos().col == target as usize);
    assert(target < v.cursor.col);
    assert(v.after_delete_word_back().text == v.text.update(
        l,
        v.text[l].take(target) + v.text[l].skip(v.cursor.col as int),
    ));
}

proof fn lemma_spaces_byte_len(n: nat)
    ensures
        text::byte_len(Seq::new(n, |i: int| ' ')) == n,
    decreases n,
{
    if n > 0 {
        let s = Seq::new(n, |i: int| ' ');
        assert(s.drop_first() =~= Seq::new((n - 1) as nat, |i: int| ' '));
        lemma_spaces_byte_len((n - 1) as nat);
    }
}

proof fn lemma_lead_ws_spaces(n: nat, rest: Seq<char>)
    requires
        rest.len() > 0,
        !text::is_ws(rest[0]),
    ensures
        text::lead_ws(Seq::new(n, |i: int| ' ') + rest) == n,
    decreases n,
{
    let s = Seq::new(n, |i: int| ' ') + rest;
    if n > 0 {
        assert(s[0] == ' ');
        assert(s.drop_first() =~= Seq::new((n - 1) as nat, |i: int| ' ') + rest);
        lemma_lead_ws_spaces((n - 1) as nat, rest);
    } else {
        assert(s =~= rest);
    }
}

/// Enter on a list item indented by spaces continues the list: the new line
/// is the item's own leading spaces, `- `, then the text after the cursor,
/// and the cursor stands right after that prefix. (An empty item, with
/// nothing after the cursor, is ended instead.)
pub proof fn law_enter_continues_list(v: BufferView)
    requires
        v.wf(),
        v.selection is None,
        v.text[v.cursor.line as int].len() <= usize::MAX,
        text::starts_with(text::trim_start(v.text[v.cursor.line as int]), seq!['-', ' ']),
        forall|k: int|
            0 <= k < text::lead_ws(v.text[v.cursor.line as int]) ==> #[trigger] v.text[v.cursor.line as int][k]
                == ' ',
        !({
            let line = v.text[v.cursor.line as int];
            let item = text::trim_start(line.take(v.col_at()));
            (item == seq!['-', ' '] || item == seq!['-']) && text::trim(line.skip(v.col_at())).len() == 0
        }),
    ensures
        ({
            let l = v.cursor.line as int;
            let line = v.text[l];
            let n = text::lead_ws(line) as int;
            &&& v.after_enter().text[l + 1] == line.take(n) + seq!['-', ' '] + line.skip(v.col_at())
            &&& v.after_enter().cursor == (Pos { line: (v.cursor.line + 1) as usize, col: (n + 2) as usize })
        }),
{
    let l = v.cursor.line as int;
    let line = v.text[l];
    let n = text::lead_ws(line);
    text::lemma_lead_ws_bound(line);
    let sp = Seq::new(n, |i: int| ' ');
    assert(line.take(n as int) =~= sp);
    lemma_spaces_byte_len(n);
    let p = sp + seq!['-', ' '];
    assert(list_prefix(line) == Some(p));
    let after = line.skip(v.col_at());
    let next = p + after;
    assert(next =~= sp + (seq!['-', ' '] + after));
    lemma_lead_ws_spaces(n, seq!['-', ' '] + after);
    assert(next.take(n as int) =~= sp);
    assert(text::trim_start(next) =~= seq!['-', ' '] + after);
    assert(text::trim_start(next).take(2) =~= seq!['-', ' ']);
    assert(list_prefix(next) == Some(p));
    assert(v.pre_edit() == v);
    let (t, c) = v.enter_text();
    assert(t[l + 1] == next);
    assert(next =~= line.take(n as int) + seq!['-', ' '] + after);
}

} // verus!
