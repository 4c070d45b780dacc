use vstd::prelude::*;
use crate::editor;
use crate::editor::{split_lines, Buffer, BufferView, Pos};
use crate::markdown;
use crate::markdown::{breadcrumb_for, item_of};
use crate::text;
use crate::text::{chars_of, count_lead_ws, find_last, has_prefix, push_char, push_range, push_str, string_of_range};

verus! {

// ---------------------------------------------------------------------------
// Dates
// ---------------------------------------------------------------------------

/// A calendar date, as chrono's day number: days since the start of the
/// common era, 1 January of year 1 being day 1.
#[derive(Debug, Clone, Copy, PartialEq, Eq, Structural, PartialOrd, Ord, Hash)]
pub struct Date {
    pub days_from_ce: i32,
}

/// Day number of chrono's earliest date (1 January 262144 BCE).
pub const MIN_DAY: i32 = -95746129;

/// Day number of chrono's latest date (31 December 262142 CE).
pub const MAX_DAY: i32 = 95745399;

/// A day that chrono can represent.
pub open spec fn valid_day(d: int) -> bool {
    MIN_DAY <= d <= MAX_DAY
}

/// What `NaiveDate::format(fmt)` writes for the date with day number `day`.
pub uninterp spec fn date_text(day: int, fmt: Seq<char>) -> Seq<char>;

/// The day number of the date that `NaiveDate::parse_from_str(s, fmt)`
/// reads, none when it fails.
pub uninterp spec fn parsed_date(s: Seq<char>, fmt: Seq<char>) -> Option<int>;

/// `NaiveDate::from_num_days_from_ce_opt(day)` then `format(fmt)`: the text
/// is `date_text(day, fmt)`. chrono's source gives a date for every day in
/// `MIN_DAY..=MAX_DAY`. Only the header format `%Y-%m-%d` is admitted: with
/// a specifier chrono does not know, writing the text fails.
#[verifier::external_body]
fn format_day(day: i32, fmt: &str) -> (r: String)
    requires
        valid_day(day as int),
        fmt@ == ymd(),
    ensures
        r@ == date_text(day as int, fmt@),
{
    match chrono::NaiveDate::from_num_days_from_ce_opt(day) {
        Some(d) => d.format(fmt).to_string(),
        None => String::new(),
    }
}

/// `NaiveDate::parse_from_str(s, fmt)`, the date read as its day number
/// (`num_days_from_ce`): the result is `parsed_date(s, fmt)`, and a date that
/// chrono made lies in its range.
#[verifier::external_body]
fn parse_day(s: &str, fmt: &str) -> (r: Option<i32>)
    ensures
        r matches Some(d) ==> parsed_date(s@, fmt@) == Some(d as int) && valid_day(d as int),
        r is None ==> parsed_date(s@, fmt@) is None,
{
    match chrono::NaiveDate::parse_from_str(s, fmt) {
        Ok(d) => Some(chrono::Datelike::num_days_from_ce(&d)),
        Err(_) => None,
    }
}

/// The date format of headers: year, month and day, `%Y-%m-%d`.
pub open spec fn ymd() -> Seq<char> {
    seq!['%', 'Y', '-', '%', 'm', '-', '%', 'd']
}

fn ymd_str() -> (s: &'static str)
    ensures
        s@ == ymd(),
{
    let s = "%Y-%m-%d";
    proof {
        reveal_strlit("%Y-%m-%d");
    }
    s
}

/// `## ` that opens a date header.
pub open spec fn hh() -> Seq<char> {
    seq!['#', '#', ' ']
}

/// The header line for a day.
pub open spec fn header_for(day: int) -> Seq<char> {
    hh() + date_text(day, ymd())
}

/// The day that a line is a header of: `## ` then a date, white space
/// around it ignored.
pub open spec fn header_day(line: Seq<char>) -> Option<int> {
    if text::starts_with(line, hh()) {
        parsed_date(text::trim(line.skip(3)), ymd())
    } else {
        None
    }
}

/// The header line for `day`.
fn make_header(day: i32) -> (s: String)
    requires
        valid_day(day as int),
    ensures
        s@ == header_for(day as int),
{
    let mut s = String::new();
    push_char(&mut s, '#');
    push_char(&mut s, '#');
    push_char(&mut s, ' ');
    let d = format_day(day, ymd_str());
    push_str(&mut s, d.as_str());
    assert(s@ =~= header_for(day as int));
    s
}

/// The trimmed characters `v[lo..hi]`, as a string.
fn trimmed_range(v: &Vec<char>, lo: usize, hi: usize) -> (s: String)
    requires
        lo <= hi <= v@.len(),
    ensures
        s@ == text::trim(v@.subrange(lo as int, hi as int)),
{
    let ghost w = v@.subrange(lo as int, hi as int);
    let sub = string_of_range(v.as_slice(), lo, hi);
    let c = chars_of(sub.as_str());
    let a = count_lead_ws(c.as_slice());
    proof {
        text::lemma_lead_ws_bound(c@);
    }
    let b = text::count_trail_ws(c.as_slice().split_at(a).1);
    proof {
        text::lemma_trail_ws_bound(c@.subrange(a as int, c@.len() as int));
        assert(text::trim_start(w) =~= c@.subrange(a as int, c@.len() as int));
    }
    let r = string_of_range(c.as_slice(), a, c.len() - b);
    assert(r@ =~= text::trim(w));
    r
}

/// The day a line is a header of, if it is one.
fn line_header_day(line: &str) -> (r: Option<i32>)
    ensures
        r matches Some(d) ==> header_day(line@) == Some(d as int) && valid_day(d as int),
        r is None ==> header_day(line@) is None,
{
    let v = chars_of(line);
    let p: [char; 3] = ['#', '#', ' '];
    assert(p@ =~= hh());
    assert(v@.subrange(0, v@.len() as int) =~= v@);
    if !has_prefix(&v, 0, v.len(), &p) {
        return None;
    }
    let rest = trimmed_range(&v, 3, v.len());
    assert(v@.subrange(3, v@.len() as int) =~= v@.skip(3));
    parse_day(rest.as_str(), ymd_str())
}


// ---------------------------------------------------------------------------
// Completing and recovering items
// ---------------------------------------------------------------------------

/// Items joined with `sep` between each two.
pub open spec fn join_with(s: Seq<Seq<char>>, sep: Seq<char>) -> Seq<char>
    decreases s.len(),
{
    if s.len() == 0 {
        Seq::empty()
    } else if s.len() == 1 {
        s[0]
    } else {
        join_with(s.drop_last(), sep) + sep + s.last()
    }
}

/// ` > `, between breadcrumb items.
pub open spec fn crumb_sep() -> Seq<char> {
    seq![' ', '>', ' ']
}

/// The line of a completed item: `- text`, with ` (parent > ...)` after it
/// when it has parents.
pub open spec fn entry_line(item: Seq<char>, crumbs: Seq<Seq<char>>) -> Seq<char> {
    if crumbs.len() == 0 {
        seq!['-', ' '] + item
    } else {
        seq!['-', ' '] + item + seq![' ', '('] + join_with(crumbs, crumb_sep()) + seq![')']
    }
}

/// The first line from `i` on that is `h`, if any.
pub open spec fn find_line(t: Seq<Seq<char>>, h: Seq<char>, i: int) -> Option<int>
    decreases t.len() - i,
{
    if i < 0 || i >= t.len() {
        None
    } else if t[i] == h {
        Some(i)
    } else {
        find_line(t, h, i + 1)
    }
}

/// Whether a line, trimmed, is empty or a `## ` header: where the items
/// under a header end.
pub open spec fn ends_items(line: Seq<char>) -> bool {
    text::trim(line).len() == 0 || text::starts_with(text::trim(line), hh())
}

/// The first line from `i` on that ends the items under a header.
pub open spec fn items_end(t: Seq<Seq<char>>, i: int) -> int
    decreases t.len() - i,
{
    if i < 0 || i >= t.len() {
        i
    } else if ends_items(t[i]) {
        i
    } else {
        items_end(t, i + 1)
    }
}

/// The first line from `i` on that is not blank.
pub open spec fn skip_blank(t: Seq<Seq<char>>, i: int) -> int
    decreases t.len() - i,
{
    if i < 0 || i >= t.len() {
        i
    } else if text::trim(t[i]).len() == 0 {
        skip_blank(t, i + 1)
    } else {
        i
    }
}

/// The text of an empty file: no line, or one empty line.
pub open spec fn is_empty_file(t: Seq<Seq<char>>) -> bool {
    t.len() == 0 || (t.len() == 1 && t[0].len() == 0)
}

/// The text with `entry` filed under the header `header`: after the items
/// already there, or, without such a header, under a new header put before
/// the first line that is not blank, followed by a blank line. An empty
/// file (no line, or one empty line) becomes just the header and the entry.
pub open spec fn filed(t: Seq<Seq<char>>, header: Seq<char>, entry: Seq<char>) -> Seq<Seq<char>> {
    match find_line(t, header, 0) {
        Some(idx) => t.insert(items_end(t, idx + 1), entry),
        None => {
            let p = skip_blank(t, 0);
            if !is_empty_file(t) {
                t.insert(p, Seq::empty()).insert(p, entry).insert(p, header)
            } else {
                seq![header, entry]
            }
        },
    }
}

proof fn lemma_find_line(t: Seq<Seq<char>>, h: Seq<char>, i: int)
    ensures
        find_line(t, h, i) matches Some(k) ==> i <= k < t.len() && t[k] == h,
    decreases t.len() - i,
{
    if 0 <= i < t.len() && t[i] != h {
        lemma_find_line(t, h, i + 1);
    }
}

proof fn lemma_items_end(t: Seq<Seq<char>>, i: int)
    requires
        0 <= i <= t.len(),
    ensures
        i <= items_end(t, i) <= t.len(),
        forall|k: int| i <= k < items_end(t, i) ==> !ends_items(#[trigger] t[k]),
    decreases t.len() - i,
{
    if i < t.len() && !ends_items(t[i]) {
        lemma_items_end(t, i + 1);
    }
}

proof fn lemma_skip_blank(t: Seq<Seq<char>>, i: int)
    requires
        0 <= i <= t.len(),
    ensures
        i <= skip_blank(t, i) <= t.len(),
    decreases t.len() - i,
{
    if i < t.len() && text::trim(t[i]).len() == 0 {
        lemma_skip_blank(t, i + 1);
    }
}

/// An entry is filed under its header: the header comes first, the entry
/// after it, and no line between them ends the header's items.
pub proof fn law_filed_under_header(t: Seq<Seq<char>>, header: Seq<char>, entry: Seq<char>)
    ensures
        exists|h: int, e: int|
            0 <= h < e < filed(t, header, entry).len() && #[trigger] filed(t, header, entry)[h] == header
                && #[trigger] filed(t, header, entry)[e] == entry && forall|k: int|
                h < k < e ==> !ends_items(#[trigger] filed(t, header, entry)[k]),
{
    let f = filed(t, header, entry);
    lemma_find_line(t, header, 0);
    match find_line(t, header, 0) {
        Some(idx) => {
            lemma_items_end(t, idx + 1);
            let e = items_end(t, idx + 1);
            assert(f == t.insert(e, entry));
            assert(f[idx] == header);
            assert(f[e] == entry);
            assert forall|k: int| idx < k < e implies !ends_items(#[trigger] f[k]) by {
                assert(f[k] == t[k]);
            }
        },
        None => {
            lemma_skip_blank(t, 0);
            let p = skip_blank(t, 0);
            if !is_empty_file(t) {
                assert(f[p] == header);
                assert(f[p + 1] == entry);
            } else {
                assert(f[0] == header);
                assert(f[1] == entry);
            }
        },
    }
}

/// Completing an item files it under the header of the day: the header
/// comes first, the item's entry line (with its breadcrumb) after it, and
/// no line between them ends the day's items.
pub proof fn law_completed_under_day(v: BufferView, w: BufferView, day: int)
    requires
        v.cursor.line < v.text.len(),
        markdown::is_item(v.text[v.cursor.line as int]),
    ensures
        ({
            let f = completed(v, w, day).1.text;
            let entry = entry_line(
                markdown::item_text(v.text[v.cursor.line as int]),
                markdown::breadcrumb(v.text, v.cursor.line as int),
            );
            exists|h: int, e: int|
                0 <= h < e < f.len() && #[trigger] f[h] == header_for(day) && #[trigger] f[e] == entry
                    && forall|k: int| h < k < e ==> !ends_items(#[trigger] f[k])
        }),
{
    let entry = entry_line(
        markdown::item_text(v.text[v.cursor.line as int]),
        markdown::breadcrumb(v.text, v.cursor.line as int),
    );
    law_filed_under_header(w.text, header_for(day), entry);
    assert(completed(v, w, day).1.text == filed(w.text, header_for(day), entry));
}

/// The text and cursor after the cursor's line is taken out: the cursor
/// kept on a line (its column within it); the only line emptied instead.
pub open spec fn line_taken(v: BufferView) -> (Seq<Seq<char>>, Pos) {
    let l = v.cursor.line as int;
    if v.text.len() > 1 {
        let t = v.text.remove(l);
        let nl = if l >= t.len() { t.len() - 1 } else { l };
        let col = if v.cursor.col <= t[nl].len() { v.cursor.col } else { t[nl].len() as usize };
        (t, Pos { line: nl as usize, col })
    } else {
        (seq![Seq::<char>::empty()], Pos { line: v.cursor.line, col: 0 })
    }
}

/// Whether a line is blank (empty once trimmed).
fn line_is_blank(line: &str) -> (r: bool)
    ensures
        r == (text::trim(line@).len() == 0),
{
    let v = chars_of(line);
    let tr = trimmed_range(&v, 0, v.len());
    assert(v@.subrange(0, v@.len() as int) =~= v@);
    tr.as_str().is_empty()
}

/// Whether a line ends the items under a header.
fn line_ends_items(line: &str) -> (r: bool)
    ensures
        r == ends_items(line@),
{
    let v = chars_of(line);
    let tr = trimmed_range(&v, 0, v.len());
    let tv = chars_of(tr.as_str());
    let p: [char; 3] = ['#', '#', ' '];
    assert(p@ =~= hh());
    assert(v@.subrange(0, v@.len() as int) =~= v@);
    assert(tv@.subrange(0, tv@.len() as int) =~= tv@);
    tv.len() == 0 || has_prefix(&tv, 0, tv.len(), &p)
}

/// `entry` filed under `header` in `buf`, saved for undo first.
pub fn insert_into_finished(buf: &mut Buffer, date_header: &str, entry: &str)
    requires
        old(buf)@.wf(),
    ensures
        final(buf)@.wf(),
        final(buf)@ == (BufferView {
            text: filed(old(buf)@.text, date_header@, entry@),
            dirty: true,
            undo: old(buf)@.undo.push(old(buf)@.snap()),
            redo: Seq::empty(),
            ..old(buf)@
        }),
{
    buf.force_undo_snapshot();
    let ghost t = buf@.text;
    let n = buf.lines.len();
    assert(t.len() == n);
    let h = date_header.to_owned();
    let mut idx: usize = 0;
    while idx < n && !(buf.lines[idx] == h)
        invariant
            idx <= n == t.len(),
            t == editor::text_of(buf.lines@),
            h@ == date_header@,
            find_line(t, date_header@, 0) == find_line(t, date_header@, idx as int),
        decreases n - idx,
    {
        idx = idx + 1;
    }
    if idx < n {
        let mut insert_at = idx + 1;
        while insert_at < n && !line_ends_items(buf.lines[insert_at].as_str())
            invariant
                idx < insert_at <= n == t.len(),
                t == editor::text_of(buf.lines@),
                items_end(t, idx + 1) == items_end(t, insert_at as int),
            decreases n - insert_at,
        {
            insert_at = insert_at + 1;
        }
        buf.lines.insert(insert_at, entry.to_owned());
        assert(buf@.text =~= t.insert(items_end(t, idx + 1), entry@));
    } else {
        let mut insert_at: usize = 0;
        while insert_at < n && line_is_blank(buf.lines[insert_at].as_str())
            invariant
                insert_at <= n == t.len(),
                t == editor::text_of(buf.lines@),
                skip_blank(t, 0) == skip_blank(t, insert_at as int),
            decreases n - insert_at,
        {
            insert_at = insert_at + 1;
        }
        if !(n == 1 && buf.lines[0].as_str().is_empty()) {
            buf.lines.insert(insert_at, String::new());
            buf.lines.insert(insert_at, entry.to_owned());
            buf.lines.insert(insert_at, date_header.to_owned());
            assert(buf@.text =~= t.insert(insert_at as int, Seq::empty()).insert(insert_at as int, entry@).insert(insert_at as int, date_header@));
        } else {
            let mut lines: Vec<String> = Vec::new();
            lines.push(date_header.to_owned());
            lines.push(entry.to_owned());
            buf.lines = lines;
            assert(buf@.text =~= seq![date_header@, entry@]);
        }
    }
    buf.dirty = true;
    proof {
        assert(editor::snaps_nonempty(buf@.undo));
    }
}


/// Appends `crumbs` joined by ` > `.
fn push_joined(out: &mut String, crumbs: &Vec<String>)
    ensures
        final(out)@ == old(out)@ + join_with(crumbs@.map_values(|c: String| c@), crumb_sep()),
{
    let ghost cs = crumbs@.map_values(|c: String| c@);
    let ghost start = out@;
    let mut i: usize = 0;
    while i < crumbs.len()
        invariant
            i <= crumbs@.len(),
            cs == crumbs@.map_values(|c: String| c@),
            out@ == start + join_with(cs.take(i as int), crumb_sep()),
        decreases crumbs.len() - i,
    {
        let ghost before = out@;
        if i > 0 {
            push_char(out, ' ');
            push_char(out, '>');
            push_char(out, ' ');
        }
        push_str(out, crumbs[i].as_str());
        proof {
            let t = cs.take(i + 1);
            assert(t.drop_last() =~= cs.take(i as int));
            if i == 0 {
                assert(out@ =~= start + join_with(t, crumb_sep()));
            } else {
                assert(out@ =~= start + (join_with(t.drop_last(), crumb_sep()) + crumb_sep() + t.last()));
            }
        }
        i = i + 1;
    }
    assert(cs.take(crumbs@.len() as int) =~= cs);
}

/// The todo and finished buffers after the todo item on the cursor's line
/// is completed on `day`: taken out of the todo text, filed under the day's
/// header with its breadcrumb. Unchanged when the line is not a list item.
pub open spec fn completed(v: BufferView, w: BufferView, day: int) -> (BufferView, BufferView) {
    let line = v.text[v.cursor.line as int];
    if !markdown::is_item(line) {
        (v, w)
    } else {
        let (t, c) = line_taken(v);
        let entry = entry_line(
            markdown::item_text(line),
            markdown::breadcrumb(v.text, v.cursor.line as int),
        );
        (
            BufferView { text: t, cursor: c, ..v.after_snapshot() },
            w.after_snapshot().with_text(filed(w.text, header_for(day), entry)),
        )
    }
}

/// Completes the todo item on the cursor's line: takes it out of `todo_buf`
/// and files it in `finished_buf` under the header for `today`, with its
/// parent items after it. A line that is not a list item is left alone and
/// `false` returned.
pub fn complete_item(todo_buf: &mut Buffer, finished_buf: &mut Buffer, today: Date) -> (r: bool)
    requires
        old(todo_buf)@.wf(),
        old(finished_buf)@.wf(),
        valid_day(today.days_from_ce as int),
    ensures
        final(todo_buf)@.wf(),
        final(finished_buf)@.wf(),
        r == markdown::is_item(old(todo_buf)@.text[old(todo_buf)@.cursor.line as int]),
        (final(todo_buf)@, final(finished_buf)@) == completed(
            old(todo_buf)@,
            old(finished_buf)@,
            today.days_from_ce as int,
        ),
{
    let ghost v = todo_buf@;
    let line_idx = todo_buf.cursor.line;
    let item = match item_of(todo_buf.lines[line_idx].as_str()) {
        Some(t) => t,
        None => return false,
    };
    let crumbs = breadcrumb_for(todo_buf.lines.as_slice(), line_idx);
    let ghost cs = crumbs@.map_values(|c: String| c@);
    proof {
        assert(markdown::lines_view(todo_buf.lines@) == v.text);
        assert(cs =~= markdown::breadcrumb(v.text, line_idx as int));
    }
    let mut entry = String::new();
    push_char(&mut entry, '-');
    push_char(&mut entry, ' ');
    push_str(&mut entry, item.as_str());
    if crumbs.len() > 0 {
        push_char(&mut entry, ' ');
        push_char(&mut entry, '(');
        push_joined(&mut entry, &crumbs);
        push_char(&mut entry, ')');
    }
    assert(entry@ =~= entry_line(markdown::item_text(v.text[line_idx as int]), cs));
    todo_buf.force_undo_snapshot();
    let n = todo_buf.lines.len();
    assert(todo_buf@.text.len() == n);
    if n > 1 {
        todo_buf.lines.remove(line_idx);
        if todo_buf.cursor.line >= n - 1 {
            todo_buf.cursor.line = n - 2;
        }
        let len = chars_of(todo_buf.lines[todo_buf.cursor.line].as_str()).len();
        if todo_buf.cursor.col > len {
            todo_buf.cursor.col = len;
        }
        assert(todo_buf@.text =~= v.text.remove(line_idx as int));
    } else {
        todo_buf.lines.set(0, String::new());
        todo_buf.cursor.col = 0;
        assert(todo_buf@.text =~= seq![Seq::<char>::empty()]);
    }
    todo_buf.dirty = true;
    proof {
        assert(editor::snaps_nonempty(todo_buf@.undo));
    }
    let header = make_header(today.days_from_ce);
    insert_into_finished(finished_buf, header.as_str(), entry.as_str());
    true
}

/// ` (`, which opens a breadcrumb.
pub open spec fn paren_open() -> Seq<char> {
    seq![' ', '(']
}

/// An item's text without the breadcrumb: cut at the last ` (` when the
/// text ends with `)`.
pub open spec fn strip_crumbs(item: Seq<char>) -> Seq<char> {
    match text::last_match(item, paren_open(), item.len() - 2) {
        Some(p) => if item.len() > 0 && item.last() == ')' {
            item.take(p)
        } else {
            item
        },
        None => item,
    }
}

proof fn lemma_last_match_at(h: Seq<char>, q: Seq<char>, j: int, i: int)
    requires
        0 <= j <= i,
        text::matches_at(h, q, j),
        forall|k: int| j < k <= i ==> !text::matches_at(h, q, k),
    ensures
        text::last_match(h, q, i) == Some(j),
    decreases i - j,
{
    if i > j {
        lemma_last_match_at(h, q, j, i - 1);
    }
}

/// Sending a finished entry back gives the item's text again: the entry
/// that completing writes, taken back, loses just its breadcrumb. This
/// holds when the breadcrumb holds no ` (`, and, without a breadcrumb, when
/// the item's own text keeps its end (it does not end in a ` (..)` group).
pub proof fn law_recover_after_complete(x: Seq<char>, cs: Seq<Seq<char>>)
    requires
        cs.len() == 0 ==> strip_crumbs(x) == x,
        cs.len() > 0 ==> !text::contains(join_with(cs, crumb_sep()), paren_open()),
    ensures
        strip_crumbs(markdown::item_text(entry_line(x, cs))) == x,
{
    let e = entry_line(x, cs);
    assert(e[0] == '-');
    assert(text::lead_ws(e) == 0);
    assert(e.skip(0) =~= e);
    assert(text::trim_start(e) == e);
    if cs.len() == 0 {
        assert(e.skip(2) =~= x);
    } else {
        let j = join_with(cs, crumb_sep());
        let y = x + seq![' ', '('] + j + seq![')'];
        assert(e.skip(2) =~= y);
        let n = x.len() as int;
        assert(y.subrange(n, n + 2) =~= paren_open());
        assert forall|k: int| n < k <= y.len() - 2 implies !text::matches_at(y, paren_open(), k) by {
            if k == n + 1 {
                assert(y[k] == '(');
                assert(y.subrange(k, k + 2)[0] != paren_open()[0]);
            } else if k + 1 < y.len() - 1 {
                let m = k - n - 2;
                assert(y.subrange(k, k + 2) =~= j.subrange(m, m + 2));
                if text::matches_at(y, paren_open(), k) {
                    assert(text::matches_at(j, paren_open(), m));
                }
            } else {
                assert(y[k + 1] == ')');
                assert(y.subrange(k, k + 2)[1] != paren_open()[1]);
            }
        }
        lemma_last_match_at(y, paren_open(), n, y.len() - 2);
        assert(y.take(n) =~= x);
    }
}

/// The finished and todo buffers after the finished item on the cursor's
/// line is recovered: taken out of the finished text, its text without the
/// breadcrumb added at the end of the todo text (in place of its only line
/// when that is empty). Unchanged when the line is not a list item.
pub open spec fn recovered(v: BufferView, w: BufferView) -> (BufferView, BufferView) {
    let l = v.cursor.line as int;
    let line = v.text[l];
    if !markdown::is_item(line) {
        (v, w)
    } else {
        let (t, c) = if v.text.len() > 1 {
            let t = v.text.remove(l);
            (
                t,
                Pos {
                    line: if l >= t.len() { (t.len() - 1) as usize } else { l as usize },
                    col: v.cursor.col,
                },
            )
        } else {
            (seq![Seq::<char>::empty()], Pos { line: v.cursor.line, col: 0 })
        };
        let new_line = seq!['-', ' '] + strip_crumbs(markdown::item_text(line));
        (
            BufferView { text: t, cursor: c, ..v.after_snapshot() },
            BufferView {
                text: if w.text.len() == 1 && w.text[0].len() == 0 {
                    seq![new_line]
                } else {
                    w.text.push(new_line)
                },
                dirty: true,
                ..w
            },
        )
    }
}

/// Recovers the finished item on the cursor's line: takes it out of
/// `finished_buf` (breadcrumb dropped) and adds it at the end of
/// `todo_buf`. A line that is not a list item is left alone and `false`
/// returned.
pub fn recover_item(finished_buf: &mut Buffer, todo_buf: &mut Buffer) -> (r: bool)
    requires
        old(todo_buf)@.wf(),
        old(finished_buf)@.wf(),
    ensures
        final(todo_buf)@.wf(),
        final(finished_buf)@.wf(),
        r == markdown::is_item(old(finished_buf)@.text[old(finished_buf)@.cursor.line as int]),
        (final(finished_buf)@, final(todo_buf)@) == recovered(old(finished_buf)@, old(todo_buf)@),
{
    let ghost v = finished_buf@;
    let line_idx = finished_buf.cursor.line;
    let line = finished_buf.lines[line_idx].clone();
    let item = match item_of(line.as_str()) {
        Some(t) => t,
        None => return false,
    };
    let ic = chars_of(item.as_str());
    let pat: Vec<char> = vec![' ', '('];
    assert(pat@ =~= paren_open());
    let clean = match find_last(&ic, &pat, ic.len()) {
        Some(p) => {
            if ic.len() > 0 && ic[ic.len() - 1] == ')' {
                proof {
                    text::lemma_last_match_bound(ic@, paren_open(), ic@.len() - 2);
                }
                string_of_range(ic.as_slice(), 0, p)
            } else {
                item
            }
        },
        None => item,
    };
    proof {
        if clean@ != item@ {
            assert(ic@.subrange(0, clean@.len() as int) =~= ic@.take(clean@.len() as int));
        }
    }
    assert(clean@ =~= strip_crumbs(markdown::item_text(v.text[line_idx as int])));
    finished_buf.force_undo_snapshot();
    let n = finished_buf.lines.len();
    assert(finished_buf@.text.len() == n);
    if n > 1 {
        finished_buf.lines.remove(line_idx);
        if finished_buf.cursor.line >= n - 1 {
            finished_buf.cursor.line = n - 2;
        }
        assert(finished_buf@.text =~= v.text.remove(line_idx as int));
    } else {
        finished_buf.lines.set(0, String::new());
        finished_buf.cursor.col = 0;
        assert(finished_buf@.text =~= seq![Seq::<char>::empty()]);
    }
    finished_buf.dirty = true;
    proof {
        assert(editor::snaps_nonempty(finished_buf@.undo));
    }
    let ghost w = todo_buf@;
    let mut new_line = String::new();
    push_char(&mut new_line, '-');
    push_char(&mut new_line, ' ');
    push_str(&mut new_line, clean.as_str());
    assert(new_line@ =~= seq!['-', ' '] + clean@);
    let last = todo_buf.lines.len();
    assert(w.text.len() == last);
    if last == 1 && todo_buf.lines[0].as_str().is_empty() {
        todo_buf.lines.set(0, new_line);
        assert(todo_buf@.text =~= seq![new_line@]);
    } else {
        todo_buf.lines.push(new_line);
        assert(todo_buf@.text =~= w.text.push(new_line@));
    }
    todo_buf.dirty = true;
    assert(w.wf());
    assert(todo_buf@.undo == w.undo && todo_buf@.redo == w.redo);
    true
}


// ---------------------------------------------------------------------------
// Day headers
// ---------------------------------------------------------------------------

/// The days of the header lines, in line order.
pub open spec fn header_days(t: Seq<Seq<char>>) -> Seq<int>
    decreases t.len(),
{
    if t.len() == 0 {
        Seq::empty()
    } else {
        match header_day(t.last()) {
            Some(d) => header_days(t.drop_last()).push(d),
            None => header_days(t.drop_last()),
        }
    }
}

/// The first line from `i` on that is a header of a day before `day`; the
/// number of lines when there is none.
pub open spec fn insert_pos(t: Seq<Seq<char>>, day: int, i: int) -> int
    decreases t.len() - i,
{
    if i < 0 || i >= t.len() {
        t.len() as int
    } else if header_day(t[i]) matches Some(e) && day > e {
        i
    } else {
        insert_pos(t, day, i + 1)
    }
}

/// Where a header for `date` goes so that dates run newest first: before
/// the first header of an earlier date, else at the end.
pub fn find_date_insert_position(lines: &[String], date: Date) -> (r: usize)
    ensures
        r == insert_pos(markdown::lines_view(lines@), date.days_from_ce as int, 0),
{
    let ghost t = markdown::lines_view(lines@);
    let n = lines.len();
    let mut i: usize = 0;
    while i < n
        invariant
            i <= n == lines@.len() == t.len(),
            t == markdown::lines_view(lines@),
            insert_pos(t, date.days_from_ce as int, 0) == insert_pos(t, date.days_from_ce as int, i as int),
        decreases n - i,
    {
        match line_header_day(lines[i].as_str()) {
            Some(existing) => {
                if date.days_from_ce > existing {
                    return i;
                }
            },
            None => {},
        }
        i = i + 1;
    }
    n
}

/// Days in order, newest first.
pub open spec fn newest_first(s: Seq<int>) -> bool {
    forall|i: int, j: int| 0 <= i < j < s.len() ==> s[i] >= s[j]
}

proof fn lemma_header_days_add(a: Seq<Seq<char>>, b: Seq<Seq<char>>)
    ensures
        header_days(a + b) == header_days(a) + header_days(b),
    decreases b.len(),
{
    if b.len() == 0 {
        assert(a + b =~= a);
        assert(header_days(a) + header_days(b) =~= header_days(a));
    } else {
        lemma_header_days_add(a, b.drop_last());
        assert((a + b).drop_last() =~= a + b.drop_last());
        assert((a + b).last() == b.last());
        match header_day(b.last()) {
            Some(d) => {
                assert(header_days(a) + header_days(b) =~= (header_days(a) + header_days(b.drop_last())).push(d));
            },
            None => {},
        }
    }
}

proof fn lemma_header_days_from(t: Seq<Seq<char>>)
    ensures
        forall|k: int|
            0 <= k < header_days(t).len() ==> exists|i: int|
                0 <= i < t.len() && header_day(#[trigger] t[i]) == Some(#[trigger] header_days(t)[k]),
    decreases t.len(),
{
    if t.len() > 0 {
        let u = t.drop_last();
        lemma_header_days_from(u);
        assert forall|k: int| 0 <= k < header_days(t).len() implies exists|i: int|
            0 <= i < t.len() && header_day(#[trigger] t[i]) == Some(#[trigger] header_days(t)[k]) by {
            if k < header_days(u).len() {
                let i = choose|i: int| 0 <= i < u.len() && header_day(#[trigger] u[i]) == Some(header_days(u)[k]);
                assert(t[i] == u[i]);
            } else {
                assert(header_day(t[t.len() - 1]) == Some(header_days(t)[k]));
            }
        }
    }
}

proof fn lemma_insert_pos(t: Seq<Seq<char>>, day: int, i: int)
    requires
        0 <= i <= t.len(),
    ensures
        i <= insert_pos(t, day, i) <= t.len(),
        forall|k: int| i <= k < insert_pos(t, day, i) ==> (header_day(#[trigger] t[k]) matches Some(e) ==> e >= day),
        insert_pos(t, day, i) < t.len() ==> (header_day(t[insert_pos(t, day, i)]) matches Some(e) && day > e),
    decreases t.len() - i,
{
    if i < t.len() && !(header_day(t[i]) matches Some(e) && day > e) {
        lemma_insert_pos(t, day, i + 1);
    }
}

/// The place for a new day's header keeps the days newest first: when the
/// headers' days run newest first, putting `day` where `insert_pos` says
/// (after the days before it, before the rest) leaves them so.
pub proof fn law_insert_pos_newest_first(t: Seq<Seq<char>>, day: int)
    requires
        newest_first(header_days(t)),
    ensures
        newest_first(
            header_days(t.take(insert_pos(t, day, 0))).push(day) + header_days(t.skip(insert_pos(t, day, 0))),
        ),
{
    let p = insert_pos(t, day, 0);
    lemma_insert_pos(t, day, 0);
    let a = t.take(p);
    let b = t.skip(p);
    assert(t =~= a + b);
    lemma_header_days_add(a, b);
    let h1 = header_days(a);
    let h2 = header_days(b);
    let h = header_days(t);
    lemma_header_days_from(a);
    assert forall|k: int| 0 <= k < h1.len() implies #[trigger] h1[k] >= day by {
        let i = choose|i: int| 0 <= i < a.len() && header_day(#[trigger] a[i]) == Some(h1[k]);
        assert(a[i] == t[i]);
    }
    if p < t.len() {
        let e = header_day(t[p]).unwrap();
        assert(b =~= seq![t[p]] + b.skip(1));
        lemma_header_days_add(seq![t[p]], b.skip(1));
        assert(seq![t[p]].drop_last() =~= Seq::<Seq<char>>::empty());
        assert(seq![t[p]].last() == t[p]);
        assert(header_days(Seq::<Seq<char>>::empty()) =~= Seq::<int>::empty());
        assert(header_days(seq![t[p]]) =~= seq![e]);
        assert(h2[0] == e);
        assert forall|k: int| 0 <= k < h2.len() implies #[trigger] h2[k] < day by {
            if k > 0 {
                assert(h[h1.len() as int] == h2[0]);
                assert(h[h1.len() + k] == h2[k]);
            }
        }
    } else {
        assert(b.len() == 0);
        assert(h2.len() == 0);
    }
    let r = h1.push(day) + h2;
    assert forall|i: int, j: int| 0 <= i < j < r.len() implies r[i] >= r[j] by {
        if j < h1.len() {
            assert(r[i] == h[i] && r[j] == h[j]);
        } else if j == h1.len() {
            assert(r[j] == day);
            assert(r[i] == h1[i]);
        } else if i < h1.len() {
            assert(r[i] == h[i] && r[j] == h[j - 1]);
        } else if i == h1.len() {
            assert(r[j] == h2[j - h1.len() - 1]);
        } else {
            assert(r[i] == h[i - 1] && r[j] == h[j - 1]);
        }
    }
}

/// The text with a header for `day` and a blank line after it, put where
/// `find_date_insert_position` says.
pub open spec fn add_header(t: Seq<Seq<char>>, day: int) -> Seq<Seq<char>> {
    let p = insert_pos(t, day, 0);
    t.insert(p, Seq::empty()).insert(p, header_for(day))
}

/// The text after a header is added for each day from `d` to `last` that
/// is not among `days`, day by day.
pub open spec fn fill_days(t: Seq<Seq<char>>, days: Seq<int>, d: int, last: int) -> Seq<Seq<char>>
    decreases last + 1 - d,
{
    if d > last {
        t
    } else {
        fill_days(if days.contains(d) { t } else { add_header(t, d) }, days, d + 1, last)
    }
}

/// Smallest of a non-empty sequence.
pub open spec fn seq_min(s: Seq<int>) -> int
    decreases s.len(),
{
    if s.len() <= 1 {
        s[0]
    } else {
        let m = seq_min(s.drop_last());
        if s.last() < m { s.last() } else { m }
    }
}

/// Largest of a non-empty sequence.
pub open spec fn seq_max(s: Seq<int>) -> int
    decreases s.len(),
{
    if s.len() <= 1 {
        s[0]
    } else {
        let m = seq_max(s.drop_last());
        if s.last() > m { s.last() } else { m }
    }
}

/// The text after the empty days are filled in: a header for every day
/// from the oldest header's up to the newest header's or `today`, whichever
/// is later; unchanged when there is no header.
pub open spec fn filled(t: Seq<Seq<char>>, today: int) -> Seq<Seq<char>> {
    let days = header_days(t);
    if days.len() == 0 {
        t
    } else {
        let newest = if today > seq_max(days) { today } else { seq_max(days) };
        fill_days(t, days, seq_min(days), newest)
    }
}

/// No day past the last that chrono represents would be reached: `today`
/// and every header's day come before it.
pub open spec fn fill_in_range(t: Seq<Seq<char>>, today: int) -> bool {
    &&& today < MAX_DAY
    &&& forall|i: int| 0 <= i < header_days(t).len() ==> #[trigger] header_days(t)[i] < MAX_DAY
}

/// Day numbers as integers.
pub open spec fn ints(s: Seq<i32>) -> Seq<int> {
    s.map_values(|x: i32| x as int)
}

/// The days of the header lines.
fn collect_header_days(lines: &Vec<String>) -> (r: Vec<i32>)
    ensures
        ints(r@) == header_days(editor::text_of(lines@)),
        forall|i: int| 0 <= i < r@.len() ==> valid_day(#[trigger] r@[i] as int),
{
    let ghost t = editor::text_of(lines@);
    let mut r: Vec<i32> = Vec::new();
    let mut i: usize = 0;
    while i < lines.len()
        invariant
            i <= lines@.len(),
            t == editor::text_of(lines@),
            r@.len() == header_days(t.take(i as int)).len(),
            forall|k: int| 0 <= k < r@.len() ==> #[trigger] r@[k] as int == header_days(t.take(i as int))[k],
            forall|k: int| 0 <= k < r@.len() ==> valid_day(#[trigger] r@[k] as int),
        decreases lines.len() - i,
    {
        proof {
            assert(t.take(i + 1).drop_last() =~= t.take(i as int));
            assert(t.take(i + 1).last() == lines@[i as int]@);
        }
        match line_header_day(lines[i].as_str()) {
            Some(d) => {
                r.push(d);
            },
            None => {},
        }
        i = i + 1;
    }
    assert(t.take(lines@.len() as int) =~= t);
    assert(ints(r@) =~= header_days(t));
    r
}


pub proof fn lemma_min_max_in(s: Seq<int>)
    requires
        s.len() > 0,
    ensures
        exists|i: int| 0 <= i < s.len() && s[i] == seq_min(s),
        exists|j: int| 0 <= j < s.len() && s[j] == seq_max(s),
    decreases s.len(),
{
    if s.len() > 1 {
        lemma_min_max_in(s.drop_last());
        let i = choose|i: int| 0 <= i < s.len() - 1 && s.drop_last()[i] == seq_min(s.drop_last());
        let j = choose|j: int| 0 <= j < s.len() - 1 && s.drop_last()[j] == seq_max(s.drop_last());
        if s.last() < seq_min(s.drop_last()) {
            assert(s[s.len() - 1] == seq_min(s));
        } else {
            assert(s[i] == seq_min(s));
        }
        if s.last() > seq_max(s.drop_last()) {
            assert(s[s.len() - 1] == seq_max(s));
        } else {
            assert(s[j] == seq_max(s));
        }
    } else {
        assert(s[0] == seq_min(s));
        assert(s[0] == seq_max(s));
    }
}

pub proof fn lemma_insert_pos_bound(t: Seq<Seq<char>>, day: int, i: int)
    requires
        0 <= i,
    ensures
        0 <= insert_pos(t, day, i) <= t.len(),
    decreases t.len() - i,
{
    if i < t.len() && !(header_day(t[i]) matches Some(e) && day > e) {
        lemma_insert_pos_bound(t, day, i + 1);
    }
}

/// Smallest and largest of a non-empty list of days.
fn day_bounds(v: &Vec<i32>) -> (r: (i32, i32))
    requires
        v@.len() > 0,
    ensures
        r.0 as int == seq_min(ints(v@)),
        r.1 as int == seq_max(ints(v@)),
{
    let ghost s = ints(v@);
    let mut lo = v[0];
    let mut hi = v[0];
    let mut i: usize = 1;
    assert(s.take(1).len() == 1);
    while i < v.len()
        invariant
            1 <= i <= v@.len(),
            s == ints(v@),
            lo as int == seq_min(s.take(i as int)),
            hi as int == seq_max(s.take(i as int)),
        decreases v.len() - i,
    {
        assert(s.take(i + 1).drop_last() =~= s.take(i as int));
        if v[i] < lo {
            lo = v[i];
        }
        if v[i] > hi {
            hi = v[i];
        }
        i = i + 1;
    }
    assert(s.take(v@.len() as int) =~= s);
    (lo, hi)
}

/// Whether `d` is among the days `v`.
fn has_day(v: &Vec<i32>, d: i32) -> (r: bool)
    ensures
        r == ints(v@).contains(d as int),
{
    let mut i: usize = 0;
    while i < v.len()
        invariant
            i <= v@.len(),
            forall|k: int| 0 <= k < i ==> v@[k] != d,
        decreases v.len() - i,
    {
        if v[i] == d {
            assert(ints(v@)[i as int] == d as int);
            return true;
        }
        i = i + 1;
    }
    assert forall|k: int| 0 <= k < ints(v@).len() implies ints(v@)[k] != d as int by {
        assert(ints(v@)[k] == v@[k] as int);
    }
    false
}

/// Fills in a header for each day without one, from the oldest header's
/// day up to the newest header's or `today`, whichever is later, so that
/// every day has its header; nothing changes when there is no header.
pub fn fill_empty_days(buf: &mut Buffer, today: Date)
    requires
        old(buf)@.wf(),
        valid_day(today.days_from_ce as int),
        fill_in_range(old(buf)@.text, today.days_from_ce as int),
    ensures
        final(buf)@.wf(),
        final(buf)@ == old(buf)@.with_text(filled(old(buf)@.text, today.days_from_ce as int)),
{
    let ghost t0 = buf@.text;
    let dates = collect_header_days(&buf.lines);
    let ghost days = ints(dates@);
    if dates.len() == 0 {
        return;
    }
    let (oldest, newest_header) = day_bounds(&dates);
    let newest = if today.days_from_ce > newest_header { today.days_from_ce } else { newest_header };
    proof {
        lemma_min_max_in(days);
        let i = choose|i: int| 0 <= i < days.len() && days[i] == seq_min(days);
        assert(dates@[i] as int == days[i]);
        let j = choose|j: int| 0 <= j < days.len() && days[j] == seq_max(days);
        assert(dates@[j] as int == days[j]);
        assert(header_days(t0)[j] < MAX_DAY);
    }
    let mut date = oldest;
    while date <= newest
        invariant
            days == ints(dates@),
            days == header_days(t0),
            valid_day(oldest as int),
            oldest <= date,
            date <= newest + 1,
            newest < MAX_DAY,
            fill_days(t0, days, oldest as int, newest as int) == fill_days(buf@.text, days, date as int, newest as int),
            buf@ == old(buf)@.with_text(buf@.text),
            old(buf)@.wf(),
            buf@.text.len() >= old(buf)@.text.len(),
        decreases newest + 1 - date,
    {
        if !has_day(&dates, date) {
            let header = make_header(date);
            let pos = find_date_insert_position(buf.lines.as_slice(), Date { days_from_ce: date });
            let ghost before = buf@.text;
            proof {
                assert(markdown::lines_view(buf.lines@) == buf@.text);
                lemma_insert_pos_bound(buf@.text, date as int, 0);
            }
            buf.lines.insert(pos, String::new());
            buf.lines.insert(pos, header);
            assert(buf@.text =~= add_header(before, date as int));
        }
        date = date + 1;
    }
}


/// `fill_empty_days`, done only when no day past the last that chrono
/// represents would be reached; returns whether it was done.
pub fn fill_empty_days_checked(buf: &mut Buffer, today: Date) -> (r: bool)
    requires
        old(buf)@.wf(),
        valid_day(today.days_from_ce as int),
    ensures
        final(buf)@.wf(),
        r == fill_in_range(old(buf)@.text, today.days_from_ce as int),
        r ==> final(buf)@ == old(buf)@.with_text(filled(old(buf)@.text, today.days_from_ce as int)),
        !r ==> final(buf)@ == old(buf)@,
{
    let dates = collect_header_days(&buf.lines);
    let ghost days = ints(dates@);
    if today.days_from_ce >= MAX_DAY {
        return false;
    }
    let mut i: usize = 0;
    while i < dates.len()
        invariant
            i <= dates@.len(),
            days == ints(dates@),
            days == header_days(old(buf)@.text),
            buf@ == old(buf)@,
            old(buf)@.wf(),
            forall|k: int| 0 <= k < i ==> days[k] < MAX_DAY,
        decreases dates.len() - i,
    {
        if dates[i] >= MAX_DAY {
            assert(days[i as int] >= MAX_DAY);
            return false;
        }
        i = i + 1;
    }
    fill_empty_days(buf, today);
    true
}

// ---------------------------------------------------------------------------
// Moving an old inline log out of the todo file
// ---------------------------------------------------------------------------

/// The first line from `i` on that is a day header, if any.
pub open spec fn first_header(ls: Seq<Seq<char>>, i: int) -> Option<int>
    decreases ls.len() - i,
{
    if i < 0 || i >= ls.len() {
        None
    } else if header_day(ls[i]) is Some {
        Some(i)
    } else {
        first_header(ls, i + 1)
    }
}

/// Lines without the blank lines at their end.
pub open spec fn drop_trailing_blank(ls: Seq<Seq<char>>) -> Seq<Seq<char>>
    decreases ls.len(),
{
    if ls.len() > 0 && text::trim(ls.last()).len() == 0 {
        drop_trailing_blank(ls.drop_last())
    } else {
        ls
    }
}

/// Dropping the blank lines at the end drops nothing else: the lines kept,
/// followed by blank lines, are the lines given.
pub proof fn law_only_blank_lines_dropped(ls: Seq<Seq<char>>)
    ensures
        ls.take(drop_trailing_blank(ls).len() as int) == drop_trailing_blank(ls),
        drop_trailing_blank(ls).len() <= ls.len(),
        forall|i: int| drop_trailing_blank(ls).len() <= i < ls.len() ==> text::trim(#[trigger] ls[i]).len() == 0,
    decreases ls.len(),
{
    if ls.len() > 0 && text::trim(ls.last()).len() == 0 {
        let u = ls.drop_last();
        law_only_blank_lines_dropped(u);
        let d = drop_trailing_blank(u);
        assert(ls.take(d.len() as int) =~= u.take(d.len() as int));
        assert forall|i: int| d.len() <= i < ls.len() implies text::trim(#[trigger] ls[i]).len() == 0 by {
            if i < u.len() {
                assert(ls[i] == u[i]);
            }
        }
    } else {
        assert(ls.take(ls.len() as int) =~= ls);
    }
}

/// The todo text and the log text of `content`: the log runs from the first
/// day header to the end; the todo text is what comes before it, without
/// blank lines at its end.
pub open spec fn split_log(content: Seq<char>) -> (Seq<char>, Seq<char>) {
    let ls = text::lines_of(content);
    let k = match first_header(ls, 0) {
        Some(k) => k,
        None => ls.len() as int,
    };
    (text::join_nl(drop_trailing_blank(ls.take(k))), text::join_nl(ls.skip(k)))
}

/// Lines joined with newlines.
fn join_lines(lines: &Vec<String>, lo: usize, hi: usize) -> (s: String)
    requires
        lo <= hi <= lines@.len(),
    ensures
        s@ == text::join_nl(editor::text_of(lines@).subrange(lo as int, hi as int)),
{
    let ghost t = editor::text_of(lines@);
    let mut s = String::new();
    let mut i = lo;
    while i < hi
        invariant
            lo <= i <= hi <= lines@.len(),
            t == editor::text_of(lines@),
            s@ == text::join_nl(t.subrange(lo as int, i as int)),
        decreases hi - i,
    {
        if i > lo {
            push_char(&mut s, '\n');
        }
        push_str(&mut s, lines[i].as_str());
        proof {
            let u = t.subrange(lo as int, i + 1);
            assert(u.drop_last() =~= t.subrange(lo as int, i as int));
            if i == lo {
                assert(s@ =~= text::join_nl(u));
            } else {
                assert(s@ =~= text::join_nl(u.drop_last()) + seq!['\n'] + u.last());
            }
        }
        i = i + 1;
    }
    s
}

/// Splits a todo text that holds `## YYYY-MM-DD` sections: the sections
/// (from the first such header on) go to the second text, the rest, without
/// blank lines at its end, to the first.
pub fn migrate_inline_log(todo_content: &str) -> (r: (String, String))
    ensures
        (r.0@, r.1@) == split_log(todo_content@),
{
    let lines = split_lines(todo_content);
    let ghost ls = editor::text_of(lines@);
    let n = lines.len();
    let mut k: usize = 0;
    while k < n && line_header_day(lines[k].as_str()).is_none()
        invariant
            k <= n == lines@.len() == ls.len(),
            ls == editor::text_of(lines@),
            first_header(ls, 0) == first_header(ls, k as int),
        decreases n - k,
    {
        k = k + 1;
    }
    assert(k as int == match first_header(ls, 0) { Some(j) => j, None => ls.len() as int });
    let mut end = k;
    while end > 0 && line_is_blank(lines[end - 1].as_str())
        invariant
            end <= k <= n == lines@.len() == ls.len(),
            ls == editor::text_of(lines@),
            drop_trailing_blank(ls.take(k as int)) == drop_trailing_blank(ls.take(end as int)),
        decreases end,
    {
        assert(ls.take(end as int).drop_last() =~= ls.take(end - 1));
        end = end - 1;
    }
    assert(ls.take(end as int) =~= ls.subrange(0, end as int));
    assert(ls.skip(k as int) =~= ls.subrange(k as int, n as int));
    let todo = join_lines(&lines, 0, end);
    let finished = join_lines(&lines, k, n);
    (todo, finished)
}


/// The todo and finished texts to start from: while the finished text is
/// empty, the dated sections of the todo text move to it; otherwise both
/// are taken as they are.
pub open spec fn start_texts(todo: Seq<char>, fin: Seq<char>) -> (Seq<char>, Seq<char>) {
    if fin.len() == 0 {
        split_log(todo)
    } else {
        (todo, fin)
    }
}

/// The texts of the todo and finished files as the editor starts with them.
pub fn starting_texts(todo_content: &str, finished_content: &str) -> (r: (String, String))
    ensures
        (r.0@, r.1@) == start_texts(todo_content@, finished_content@),
{
    if finished_content.is_empty() {
        migrate_inline_log(todo_content)
    } else {
        (todo_content.to_owned(), finished_content.to_owned())
    }
}

} // verus!
