use vstd::prelude::*;
use crate::text;
use crate::text::{chars_of, count_lead_ws, has_prefix, indent_bytes, is_exactly, is_whitespace};

verus! {

/// What a line of markdown is.
#[derive(Debug, Clone, PartialEq, Eq, Structural)]
pub enum LineKind {
    /// `#` to `######`, with the level.
    Heading(u8),
    /// `- item`, with the bytes of indentation.
    ListItem(usize),
    Blockquote,
    CodeFence,
    CodeContent,
    BlankLine,
    Paragraph,
}

/// How a part of a line is shown.
#[derive(Debug, Clone, Copy, PartialEq, Eq, Structural)]
pub enum SpanKind {
    Normal,
    Bold,
    Italic,
    Code,
    HeadingMarker,
    ListBullet,
    BlockquoteMarker,
}

/// A part of a line, from character `start` up to (not including) `end`.
#[derive(Debug, Clone, Copy, PartialEq, Eq, Structural)]
pub struct InlineSpan {
    pub start: usize,
    pub end: usize,
    pub kind: SpanKind,
}

/// `n` hash characters.
pub open spec fn hashes(n: nat) -> Seq<char> {
    Seq::new(n, |i: int| '#')
}

/// The opening of a code fence.
pub open spec fn fence() -> Seq<char> {
    seq!['`', '`', '`']
}

/// The kind of `line`, given whether it lies inside a fenced code block.
pub open spec fn classify(line: Seq<char>, in_code: bool) -> LineKind {
    let st = text::trim_start(line);
    let t = text::trim(line);
    if in_code {
        if text::starts_with(st, fence()) {
            LineKind::CodeFence
        } else {
            LineKind::CodeContent
        }
    } else if t.len() == 0 {
        LineKind::BlankLine
    } else if text::starts_with(t, fence()) {
        LineKind::CodeFence
    } else if text::starts_with(t, hashes(1).push(' ')) || t == hashes(1) {
        LineKind::Heading(1)
    } else if text::starts_with(t, hashes(2).push(' ')) || t == hashes(2) {
        LineKind::Heading(2)
    } else if text::starts_with(t, hashes(3).push(' ')) || t == hashes(3) {
        LineKind::Heading(3)
    } else if text::starts_with(t, hashes(4).push(' ')) {
        LineKind::Heading(4)
    } else if text::starts_with(t, hashes(5).push(' ')) {
        LineKind::Heading(5)
    } else if text::starts_with(t, hashes(6).push(' ')) {
        LineKind::Heading(6)
    } else if text::starts_with(st, seq!['-', ' ']) || st == seq!['-'] {
        LineKind::ListItem(text::indent_of(line) as usize)
    } else if text::starts_with(st, seq!['>', ' ']) || st == seq!['>'] {
        LineKind::Blockquote
    } else {
        LineKind::Paragraph
    }
}

/// Number of trailing white-space characters of `v[lo..hi]`.
fn count_trail_ws_in(v: &Vec<char>, lo: usize, hi: usize) -> (n: usize)
    requires
        lo <= hi <= v@.len(),
    ensures
        n == text::trail_ws(v@.subrange(lo as int, hi as int)),
{
    let ghost s = v@.subrange(lo as int, hi as int);
    let mut i: usize = hi;
    assert(s.take(s.len() as int) =~= s);
    while i > lo && is_whitespace(v[i - 1])
        invariant
            lo <= i <= hi <= v@.len(),
            s == v@.subrange(lo as int, hi as int),
            text::trail_ws(s) == (hi - i) + text::trail_ws(s.take(i - lo)),
        decreases i,
    {
        assert(s.take(i - lo).drop_last() =~= s.take(i - lo - 1));
        i = i - 1;
    }
    hi - i
}

/// The kind of `line`; `in_code_block` says whether it lies in a fenced code
/// block.
pub fn classify_line(line: &str, in_code_block: bool) -> (k: LineKind)
    ensures
        k == classify(line@, in_code_block),
{
    let v = chars_of(line);
    let n = v.len();
    let lw = count_lead_ws(v.as_slice());
    proof {
        text::lemma_lead_ws_bound(v@);
        assert(text::trim_start(v@) =~= v@.subrange(lw as int, n as int));
        assert(hashes(1).push(' ') =~= seq!['#', ' ']);
        assert(hashes(2).push(' ') =~= seq!['#', '#', ' ']);
        assert(hashes(3).push(' ') =~= seq!['#', '#', '#', ' ']);
        assert(hashes(4).push(' ') =~= seq!['#', '#', '#', '#', ' ']);
        assert(hashes(5).push(' ') =~= seq!['#', '#', '#', '#', '#', ' ']);
        assert(hashes(6).push(' ') =~= seq!['#', '#', '#', '#', '#', '#', ' ']);
        assert(hashes(1) =~= seq!['#']);
        assert(hashes(2) =~= seq!['#', '#']);
        assert(hashes(3) =~= seq!['#', '#', '#']);
    }
    let fence_chars: [char; 3] = ['`', '`', '`'];
    assert(fence_chars@ =~= fence());
    if in_code_block {
        if has_prefix(&v, lw, n, &fence_chars) {
            return LineKind::CodeFence;
        }
        return LineKind::CodeContent;
    }
    let p_d: [char; 1] = ['-'];
    assert(p_d@ =~= seq!['-']);
    let p_g: [char; 1] = ['>'];
    assert(p_g@ =~= seq!['>']);
    let p_h: [char; 1] = ['#'];
    assert(p_h@ =~= seq!['#']);
    let p_hh: [char; 2] = ['#', '#'];
    assert(p_hh@ =~= seq!['#', '#']);
    let p_hs: [char; 2] = ['#', ' '];
    assert(p_hs@ =~= seq!['#', ' ']);
    let p_gs: [char; 2] = ['>', ' '];
    assert(p_gs@ =~= seq!['>', ' ']);
    let p_ds: [char; 2] = ['-', ' '];
    assert(p_ds@ =~= seq!['-', ' ']);
    let p_hhs: [char; 3] = ['#', '#', ' '];
    assert(p_hhs@ =~= seq!['#', '#', ' ']);
    let p_hhh: [char; 3] = ['#', '#', '#'];
    assert(p_hhh@ =~= seq!['#', '#', '#']);
    let p_hhhs: [char; 4] = ['#', '#', '#', ' '];
    assert(p_hhhs@ =~= seq!['#', '#', '#', ' ']);
    let p_hhhhs: [char; 5] = ['#', '#', '#', '#', ' '];
    assert(p_hhhhs@ =~= seq!['#', '#', '#', '#', ' ']);
    let p_hhhhhs: [char; 6] = ['#', '#', '#', '#', '#', ' '];
    assert(p_hhhhhs@ =~= seq!['#', '#', '#', '#', '#', ' ']);
    let p_hhhhhhs: [char; 7] = ['#', '#', '#', '#', '#', '#', ' '];
    assert(p_hhhhhhs@ =~= seq!['#', '#', '#', '#', '#', '#', ' ']);
    let tw = count_trail_ws_in(&v, lw, n);
    proof {
        text::lemma_trail_ws_bound(v@.subrange(lw as int, n as int));
    }
    let e = n - tw;
    assert(text::trim(v@) =~= v@.subrange(lw as int, e as int));
    if e == lw {
        return LineKind::BlankLine;
    }
    if has_prefix(&v, lw, e, &fence_chars) {
        return LineKind::CodeFence;
    }
    if has_prefix(&v, lw, e, &p_hs) || is_exactly(&v, lw, e, &p_h) {
        return LineKind::Heading(1);
    }
    if has_prefix(&v, lw, e, &p_hhs) || is_exactly(&v, lw, e, &p_hh) {
        return LineKind::Heading(2);
    }
    if has_prefix(&v, lw, e, &p_hhhs) || is_exactly(&v, lw, e, &p_hhh) {
        return LineKind::Heading(3);
    }
    if has_prefix(&v, lw, e, &p_hhhhs) {
        return LineKind::Heading(4);
    }
    if has_prefix(&v, lw, e, &p_hhhhhs) {
        return LineKind::Heading(5);
    }
    if has_prefix(&v, lw, e, &p_hhhhhhs) {
        return LineKind::Heading(6);
    }
    if has_prefix(&v, lw, n, &p_ds) || is_exactly(&v, lw, n, &p_d) {
        return LineKind::ListItem(indent_bytes(line));
    }
    if has_prefix(&v, lw, n, &p_gs) || is_exactly(&v, lw, n, &p_g) {
        return LineKind::Blockquote;
    }
    LineKind::Paragraph
}


/// Whether a fenced code block is open after `ls`.
pub open spec fn code_open_after(ls: Seq<Seq<char>>) -> bool
    decreases ls.len(),
{
    if ls.len() == 0 {
        false
    } else {
        let prev = code_open_after(ls.drop_last());
        if classify(ls.last(), prev) == LineKind::CodeFence {
            !prev
        } else {
            prev
        }
    }
}

/// The kind of each line, each fence opening or closing a code block.
pub open spec fn classify_all(ls: Seq<Seq<char>>) -> Seq<LineKind> {
    Seq::new(ls.len(), |i: int| classify(ls[i], code_open_after(ls.take(i))))
}

/// The characters of each line.
pub open spec fn lines_view(lines: Seq<String>) -> Seq<Seq<char>> {
    lines.map_values(|l: String| l@)
}

/// The kind of every line, tracking fenced code blocks.
pub fn classify_lines(lines: &[String]) -> (r: Vec<LineKind>)
    ensures
        r@ == classify_all(lines_view(lines@)),
{
    let ghost ls = lines_view(lines@);
    let mut result: Vec<LineKind> = Vec::new();
    let mut in_code = false;
    let mut i: usize = 0;
    while i < lines.len()
        invariant
            i <= lines@.len(),
            ls == lines_view(lines@),
            result@.len() == i,
            forall|k: int| 0 <= k < i ==> #[trigger] result@[k] == classify_all(ls)[k],
            in_code == code_open_after(ls.take(i as int)),
        decreases lines.len() - i,
    {
        let kind = classify_line(lines[i].as_str(), in_code);
        proof {
            assert(ls.take(i + 1).drop_last() =~= ls.take(i as int));
            assert(ls.take(i + 1).last() == ls[i as int]);
        }
        if kind == LineKind::CodeFence {
            in_code = !in_code;
        }
        result.push(kind);
        i = i + 1;
    }
    assert(result@ =~= classify_all(ls));
    result
}

pub open spec fn span(s: int, e: int, k: SpanKind) -> InlineSpan {
    InlineSpan { start: s as usize, end: e as usize, kind: k }
}

/// First index from `k` on that holds `ch`; the length when there is none.
pub open spec fn next_char(c: Seq<char>, ch: char, k: int) -> int
    decreases c.len() - k,
{
    if k >= c.len() || k < 0 {
        k
    } else if c[k] == ch {
        k
    } else {
        next_char(c, ch, k + 1)
    }
}

/// First index from `k` on where `**` starts; where the scan runs out
/// (the last index, or `k` itself) when there is none.
pub open spec fn next_pair(c: Seq<char>, k: int) -> int
    decreases c.len() - k,
{
    if k + 1 >= c.len() || k < 0 {
        k
    } else if c[k] == '*' && c[k + 1] == '*' {
        k
    } else {
        next_pair(c, k + 1)
    }
}

pub proof fn lemma_next_char(c: Seq<char>, ch: char, k: int)
    requires
        0 <= k <= c.len(),
    ensures
        k <= next_char(c, ch, k) <= c.len(),
        next_char(c, ch, k) < c.len() ==> c[next_char(c, ch, k)] == ch,
    decreases c.len() - k,
{
    if k < c.len() && c[k] != ch {
        lemma_next_char(c, ch, k + 1);
    }
}

pub proof fn lemma_next_pair(c: Seq<char>, k: int)
    requires
        0 <= k <= c.len(),
    ensures
        k <= next_pair(c, k) <= c.len(),
        next_pair(c, k) + 1 < c.len() ==> c[next_pair(c, k)] == '*' && c[next_pair(c, k) + 1]
            == '*',
    decreases c.len() - k,
{
    if k + 1 < c.len() && !(c[k] == '*' && c[k + 1] == '*') {
        lemma_next_pair(c, k + 1);
    }
}

/// End of an inline code span opened at `i`: past the closing backtick, or
/// the end of the text.
pub open spec fn code_end(c: Seq<char>, i: int) -> int {
    let j = next_char(c, '`', i + 1);
    if j < c.len() { j + 1 } else { j }
}

/// End of a bold span opened at `i`: past the closing `**`, or where the
/// scan ran out.
pub open spec fn bold_end(c: Seq<char>, i: int) -> int {
    let j = next_pair(c, i + 2);
    if j + 1 < c.len() { j + 2 } else { j }
}

/// End of an italic span opened at `i`: past the closing `*`, or the end.
pub open spec fn italic_end(c: Seq<char>, i: int) -> int {
    let j = next_char(c, '*', i + 1);
    if j < c.len() { j + 1 } else { j }
}

/// The spans of `c` from index `i` on, plain text having started at `ns`,
/// positions shifted by `off`: `` `code` ``, `**bold**` and `*italic*` spans,
/// plain text between them.
pub open spec fn fmt_scan(c: Seq<char>, off: int, i: int, ns: int) -> Seq<InlineSpan>
    decreases c.len() - i,
{
    let len = c.len() as int;
    if i < 0 || i >= len {
        if ns < len {
            seq![span(off + ns, off + len, SpanKind::Normal)]
        } else {
            seq![]
        }
    } else {
        let pre = if i > ns {
            seq![span(off + ns, off + i, SpanKind::Normal)]
        } else {
            Seq::<InlineSpan>::empty()
        };
        if c[i] == '`' {
            proof {
                lemma_next_char(c, '`', i + 1);
            }
            let e = code_end(c, i);
            pre + seq![span(off + i, off + e, SpanKind::Code)] + fmt_scan(c, off, e, e)
        } else if i + 1 < len && c[i] == '*' && c[i + 1] == '*' {
            proof {
                lemma_next_pair(c, i + 2);
            }
            let e = bold_end(c, i);
            pre + seq![span(off + i, off + e, SpanKind::Bold)] + fmt_scan(c, off, e, e)
        } else if c[i] == '*' && i + 1 < len && c[i + 1] != '*' {
            proof {
                lemma_next_char(c, '*', i + 1);
            }
            let e = italic_end(c, i);
            pre + seq![span(off + i, off + e, SpanKind::Italic)] + fmt_scan(c, off, e, e)
        } else {
            fmt_scan(c, off, i + 1, ns)
        }
    }
}

/// Inline spans of `c` with positions shifted by `off`: the scan, or one
/// plain span if the scan gave nothing.
pub open spec fn inline_spans(c: Seq<char>, off: int) -> Seq<InlineSpan> {
    let s = fmt_scan(c, off, 0, 0);
    if s.len() == 0 && c.len() > 0 {
        seq![span(off, off + c.len(), SpanKind::Normal)]
    } else {
        s
    }
}

fn find_char(c: &[char], ch: char, k: usize) -> (r: usize)
    requires
        k <= c@.len(),
    ensures
        r == next_char(c@, ch, k as int),
{
    let mut i = k;
    while i < c.len() && c[i] != ch
        invariant
            k <= i <= c@.len(),
            next_char(c@, ch, k as int) == next_char(c@, ch, i as int),
        decreases c@.len() - i,
    {
        i = i + 1;
    }
    i
}

fn find_pair(c: &[char], k: usize) -> (r: usize)
    requires
        k <= c@.len(),
    ensures
        r == next_pair(c@, k as int),
{
    let mut i = k;
    let n = c.len();
    while i < n && n - i > 1 && !(c[i] == '*' && c[i + 1] == '*')
        invariant
            k <= i <= c@.len(),
            n == c@.len(),
            next_pair(c@, k as int) == next_pair(c@, i as int),
        decreases c@.len() - i,
    {
        i = i + 1;
    }
    i
}

/// Inline formatting of `chars`, positions shifted by `offset`.
pub fn parse_inline_formatting(chars: &[char], offset: usize) -> (r: Vec<InlineSpan>)
    requires
        offset + chars@.len() <= usize::MAX,
    ensures
        r@ == inline_spans(chars@, offset as int),
{
    let mut spans: Vec<InlineSpan> = Vec::new();
    let len = chars.len();
    let mut i: usize = 0;
    let mut normal_start: usize = 0;
    let ghost c = chars@;
    let ghost off = offset as int;
    while i < len
        invariant
            len == c.len(),
            c == chars@,
            off == offset,
            offset + len <= usize::MAX,
            normal_start <= i <= len,
            spans@ + fmt_scan(c, off, i as int, normal_start as int) == fmt_scan(c, off, 0, 0),
        decreases len - i,
    {
        let ghost pre = if i > normal_start {
            seq![span(off + normal_start, off + i, SpanKind::Normal)]
        } else {
            Seq::<InlineSpan>::empty()
        };
        if chars[i] == '`' {
            if i > normal_start {
                spans.push(InlineSpan { start: offset + normal_start, end: offset + i, kind: SpanKind::Normal });
            }
            let start = i;
            proof { lemma_next_char(c, '`', i + 1); }
            let j = find_char(chars, '`', i + 1);
            i = if j < len { j + 1 } else { j };
            spans.push(InlineSpan { start: offset + start, end: offset + i, kind: SpanKind::Code });
            normal_start = i;
            assert(spans@ + fmt_scan(c, off, i as int, normal_start as int) =~= fmt_scan(c, off, 0, 0));
            continue;
        }
        if i + 1 < len && chars[i] == '*' && chars[i + 1] == '*' {
            if i > normal_start {
                spans.push(InlineSpan { start: offset + normal_start, end: offset + i, kind: SpanKind::Normal });
            }
            let start = i;
            proof { lemma_next_pair(c, i + 2); }
            let j = find_pair(chars, i + 2);
            i = if j < len && len - j > 1 { j + 2 } else { j };
            spans.push(InlineSpan { start: offset + start, end: offset + i, kind: SpanKind::Bold });
            normal_start = i;
            assert(spans@ + fmt_scan(c, off, i as int, normal_start as int) =~= fmt_scan(c, off, 0, 0));
            continue;
        }
        if chars[i] == '*' && (i + 1 < len && chars[i + 1] != '*') {
            if i > normal_start {
                spans.push(InlineSpan { start: offset + normal_start, end: offset + i, kind: SpanKind::Normal });
            }
            let start = i;
            proof { lemma_next_char(c, '*', i + 1); }
            let j = find_char(chars, '*', i + 1);
            i = if j < len { j + 1 } else { j };
            spans.push(InlineSpan { start: offset + start, end: offset + i, kind: SpanKind::Italic });
            normal_start = i;
            assert(spans@ + fmt_scan(c, off, i as int, normal_start as int) =~= fmt_scan(c, off, 0, 0));
            continue;
        }
        i = i + 1;
    }
    if normal_start < len {
        spans.push(InlineSpan { start: offset + normal_start, end: offset + len, kind: SpanKind::Normal });
    }
    assert(spans@ =~= fmt_scan(c, off, 0, 0));
    if spans.len() == 0 && len > 0 {
        spans.push(InlineSpan { start: offset, end: offset + len, kind: SpanKind::Normal });
        assert(spans@ =~= inline_spans(c, off));
    }
    spans
}


/// The spans of a line of kind `kind`: the line's marker (heading hashes,
/// list bullet, quote mark), then its text with inline formatting (plain
/// text for headings, one code span for code).
pub open spec fn line_spans(c: Seq<char>, kind: LineKind) -> Seq<InlineSpan> {
    let len = c.len() as int;
    match kind {
        LineKind::Heading(level) => {
            let m = if level + 1 <= len { level + 1 } else { len };
            seq![span(0, m, SpanKind::HeadingMarker)] + if m < len {
                seq![span(m, len, SpanKind::Normal)]
            } else {
                Seq::<InlineSpan>::empty()
            }
        },
        LineKind::ListItem(indent) => {
            let b = if indent + 2 <= len { indent + 2 } else { len };
            seq![span(0, b, SpanKind::ListBullet)] + if b < len {
                inline_spans(c.skip(b), b)
            } else {
                Seq::<InlineSpan>::empty()
            }
        },
        LineKind::Blockquote => {
            let m = if len >= 2 { 2 } else { len };
            seq![span(0, m, SpanKind::BlockquoteMarker)] + if m < len {
                inline_spans(c.skip(m), m)
            } else {
                Seq::<InlineSpan>::empty()
            }
        },
        LineKind::CodeFence | LineKind::CodeContent => seq![span(0, len, SpanKind::Code)],
        LineKind::BlankLine => Seq::<InlineSpan>::empty(),
        LineKind::Paragraph => inline_spans(c, 0),
    }
}

/// Every span of `s` runs forward within `lo..hi`.
pub open spec fn spans_within(s: Seq<InlineSpan>, lo: int, hi: int) -> bool {
    forall|k: int| 0 <= k < s.len() ==> lo <= (#[trigger] s[k]).start <= s[k].end <= hi
}

proof fn lemma_fmt_scan_within(c: Seq<char>, off: int, i: int, ns: int)
    requires
        0 <= off,
        off + c.len() <= usize::MAX,
        0 <= ns <= i,
        ns <= c.len(),
    ensures
        spans_within(fmt_scan(c, off, i, ns), off, off + c.len()),
    decreases c.len() - i,
{
    let len = c.len() as int;
    if i < len {
        let pre = if i > ns {
            seq![span(off + ns, off + i, SpanKind::Normal)]
        } else {
            Seq::<InlineSpan>::empty()
        };
        if c[i] == '`' {
            lemma_next_char(c, '`', i + 1);
            let e = code_end(c, i);
            lemma_fmt_scan_within(c, off, e, e);
            let rest = seq![span(off + i, off + e, SpanKind::Code)] + fmt_scan(c, off, e, e);
            assert(spans_within(rest, off, off + len));
            assert(fmt_scan(c, off, i, ns) == pre + rest);
        } else if i + 1 < len && c[i] == '*' && c[i + 1] == '*' {
            lemma_next_pair(c, i + 2);
            let e = bold_end(c, i);
            lemma_fmt_scan_within(c, off, e, e);
            let rest = seq![span(off + i, off + e, SpanKind::Bold)] + fmt_scan(c, off, e, e);
            assert(spans_within(rest, off, off + len));
            assert(fmt_scan(c, off, i, ns) == pre + rest);
        } else if c[i] == '*' && i + 1 < len && c[i + 1] != '*' {
            lemma_next_char(c, '*', i + 1);
            let e = italic_end(c, i);
            lemma_fmt_scan_within(c, off, e, e);
            let rest = seq![span(off + i, off + e, SpanKind::Italic)] + fmt_scan(c, off, e, e);
            assert(spans_within(rest, off, off + len));
            assert(fmt_scan(c, off, i, ns) == pre + rest);
        } else {
            lemma_fmt_scan_within(c, off, i + 1, ns);
        }
    }
}

/// The spans of a line lie within the line, each running forward.
pub proof fn lemma_line_spans_within(c: Seq<char>, kind: LineKind)
    requires
        c.len() <= usize::MAX,
    ensures
        spans_within(line_spans(c, kind), 0, c.len() as int),
{
    let len = c.len() as int;
    match kind {
        LineKind::ListItem(indent) => {
            let b = if indent + 2 <= len { indent + 2 } else { len };
            if b < len {
                lemma_fmt_scan_within(c.skip(b), b, 0, 0);
            }
        },
        LineKind::Blockquote => {
            let m = if len >= 2 { 2 } else { len };
            if m < len {
                lemma_fmt_scan_within(c.skip(m), m, 0, 0);
            }
        },
        LineKind::Paragraph => {
            lemma_fmt_scan_within(c, 0, 0, 0);
        },
        _ => {},
    }
}

/// The spans to show `line`, a line of kind `kind`.
pub fn parse_inline_spans(line: &str, kind: &LineKind) -> (r: Vec<InlineSpan>)
    requires
        kind matches LineKind::ListItem(indent) ==> indent + 2 <= usize::MAX,
    ensures
        r@ == line_spans(line@, *kind),
{
    let chars = chars_of(line);
    let len = chars.len();
    match kind {
        LineKind::Heading(level) => {
            let marker_len = *level as usize + 1;
            let marker_end = if marker_len <= len { marker_len } else { len };
            let mut spans = Vec::new();
            spans.push(InlineSpan { start: 0, end: marker_end, kind: SpanKind::HeadingMarker });
            if marker_end < len {
                spans.push(InlineSpan { start: marker_end, end: len, kind: SpanKind::Normal });
            }
            assert(spans@ =~= line_spans(line@, *kind));
            spans
        },
        LineKind::ListItem(indent) => {
            let want = *indent + 2;
            let bullet_end = if want <= len { want } else { len };
            let mut spans = Vec::new();
            spans.push(InlineSpan { start: 0, end: bullet_end, kind: SpanKind::ListBullet });
            if bullet_end < len {
                let (_, rest) = chars.as_slice().split_at(bullet_end);
                let more = parse_inline_formatting(rest, bullet_end);
                let mut k: usize = 0;
                while k < more.len()
                    invariant
                        k <= more@.len(),
                        spans@ == seq![span(0, bullet_end as int, SpanKind::ListBullet)] + more@.take(k as int),
                    decreases more@.len() - k,
                {
                    spans.push(more[k]);
                    assert(more@.take(k + 1) =~= more@.take(k as int).push(more@[k as int]));
                    k = k + 1;
                }
                assert(more@.take(more@.len() as int) =~= more@);
            }
            assert(spans@ =~= line_spans(line@, *kind));
            spans
        },
        LineKind::Blockquote => {
            let marker_end = if len >= 2 { 2 } else { len };
            let mut spans = Vec::new();
            spans.push(InlineSpan { start: 0, end: marker_end, kind: SpanKind::BlockquoteMarker });
            if marker_end < len {
                let (_, rest) = chars.as_slice().split_at(marker_end);
                let more = parse_inline_formatting(rest, marker_end);
                let mut k: usize = 0;
                while k < more.len()
                    invariant
                        k <= more@.len(),
                        spans@ == seq![span(0, marker_end as int, SpanKind::BlockquoteMarker)] + more@.take(k as int),
                    decreases more@.len() - k,
                {
                    spans.push(more[k]);
                    assert(more@.take(k + 1) =~= more@.take(k as int).push(more@[k as int]));
                    k = k + 1;
                }
                assert(more@.take(more@.len() as int) =~= more@);
            }
            assert(spans@ =~= line_spans(line@, *kind));
            spans
        },
        LineKind::CodeFence | LineKind::CodeContent => {
            let mut spans = Vec::new();
            spans.push(InlineSpan { start: 0, end: len, kind: SpanKind::Code });
            assert(spans@ =~= line_spans(line@, *kind));
            spans
        },
        LineKind::BlankLine => {
            let spans = Vec::new();
            assert(spans@ =~= line_spans(line@, *kind));
            spans
        },
        LineKind::Paragraph => parse_inline_formatting(chars.as_slice(), 0),
    }
}

/// Whether the line is a list item: `- ` after its leading white space.
pub open spec fn is_item(line: Seq<char>) -> bool {
    text::starts_with(text::trim_start(line), seq!['-', ' '])
}

/// The text of a list item line, after `- `.
pub open spec fn item_text(line: Seq<char>) -> Seq<char> {
    text::trim_start(line).skip(2)
}

/// The parent items of an item indented by `cur`, among lines `0..i`, in
/// document order: going up, each list item indented less than the last one
/// found, until one at indent zero.
pub open spec fn crumbs(ls: Seq<Seq<char>>, i: int, cur: nat) -> Seq<Seq<char>>
    decreases i,
{
    if i <= 0 || i > ls.len() {
        Seq::empty()
    } else {
        let line = ls[i - 1];
        let ind = text::indent_of(line);
        if is_item(line) && ind < cur {
            if ind == 0 {
                seq![item_text(line)]
            } else {
                crumbs(ls, i - 1, ind).push(item_text(line))
            }
        } else {
            crumbs(ls, i - 1, cur)
        }
    }
}

/// The breadcrumb of line `idx`: its parent list items, outermost first;
/// nothing for a line that is not a list item.
pub open spec fn breadcrumb(ls: Seq<Seq<char>>, idx: int) -> Seq<Seq<char>> {
    if is_item(ls[idx]) {
        crumbs(ls, idx, text::indent_of(ls[idx]))
    } else {
        Seq::empty()
    }
}

/// Whether `line` is a list item, and if so its text after `- `.
pub(crate) fn item_of(line: &str) -> (r: Option<String>)
    ensures
        r.is_some() == is_item(line@),
        r matches Some(t) ==> t@ == item_text(line@),
{
    let v = chars_of(line);
    let n = count_lead_ws(v.as_slice());
    proof {
        text::lemma_lead_ws_bound(v@);
        assert(text::trim_start(v@) =~= v@.subrange(n as int, v@.len() as int));
    }
    let p: [char; 2] = ['-', ' '];
    assert(p@ =~= seq!['-', ' ']);
    if has_prefix(&v, n, v.len(), &p) {
        let t = text::string_of_range(v.as_slice(), n + 2, v.len());
        assert(t@ =~= item_text(line@));
        Some(t)
    } else {
        None
    }
}

/// The parent list items of line `line_idx` (breadcrumb), outermost first.
pub fn breadcrumb_for(lines: &[String], line_idx: usize) -> (r: Vec<String>)
    requires
        line_idx < lines@.len(),
    ensures
        r@.len() == breadcrumb(lines_view(lines@), line_idx as int).len(),
        forall|k: int| 0 <= k < r@.len() ==> #[trigger] r@[k]@ == breadcrumb(lines_view(lines@), line_idx as int)[k],
{
    let ghost ls = lines_view(lines@);
    if item_of(lines[line_idx].as_str()).is_none() {
        return Vec::new();
    }
    let target_indent = indent_bytes(lines[line_idx].as_str());
    let mut found: Vec<String> = Vec::new();
    let mut current = target_indent;
    let mut i = line_idx;
    let ghost mut acc: Seq<Seq<char>> = Seq::empty();
    while i > 0
        invariant
            i <= line_idx < lines@.len(),
            ls == lines_view(lines@),
            crumbs(ls, line_idx as int, target_indent as nat) == crumbs(ls, i as int, current as nat) + acc,
            found@.len() == acc.len(),
            forall|k: int| 0 <= k < found@.len() ==> #[trigger] found@[k]@ == acc[acc.len() - 1 - k],
        decreases i,
    {
        let k = i - 1;
        assert(ls[k as int] == lines@[k as int]@);
        match item_of(lines[k].as_str()) {
            Some(text) => {
                let indent = indent_bytes(lines[k].as_str());
                if indent < current {
                    let ghost old_acc = acc;
                    proof {
                        acc = seq![text@] + acc;
                    }
                    found.push(text);
                    current = indent;
                    if indent == 0 {
                        assert(crumbs(ls, line_idx as int, target_indent as nat) =~= crumbs(ls, 0, current as nat) + acc);
                        i = 0;
                    } else {
                        assert(crumbs(ls, line_idx as int, target_indent as nat) =~= crumbs(ls, k as int, current as nat) + acc);
                        i = k;
                    }
                } else {
                    i = k;
                }
            },
            None => {
                i = k;
            },
        }
    }
    assert(crumbs(ls, line_idx as int, target_indent as nat) =~= acc);
    // The items were found innermost first.
    let mut r: Vec<String> = Vec::new();
    let mut j = found.len();
    while j > 0
        invariant
            j <= found@.len(),
            found@.len() == acc.len(),
            forall|k: int| 0 <= k < found@.len() ==> #[trigger] found@[k]@ == acc[acc.len() - 1 - k],
            r@.len() == found@.len() - j,
            forall|k: int| 0 <= k < r@.len() ==> #[trigger] r@[k]@ == found@[found@.len() - 1 - k]@,
        decreases j,
    {
        j = j - 1;
        r.push(found[j].clone());
    }
    assert forall|k: int| 0 <= k < r@.len() implies #[trigger] r@[k]@ == acc[k] by {
        assert(r@[k]@ == found@[found@.len() - 1 - k]@);
    }
    r
}


/// Whether kind `k` is a heading of level at most `level`.
pub open spec fn heading_at_most(k: LineKind, level: u8) -> bool {
    k matches LineKind::Heading(l) && l <= level
}

/// First index from `i` on whose kind is a heading of level at most
/// `level`; the number of kinds when there is none.
pub open spec fn section_end(kinds: Seq<LineKind>, level: u8, i: int) -> int
    decreases kinds.len() - i,
{
    if i < 0 || i >= kinds.len() {
        kinds.len() as int
    } else if heading_at_most(kinds[i], level) {
        i
    } else {
        section_end(kinds, level, i + 1)
    }
}

pub proof fn lemma_section_end_bounds(kinds: Seq<LineKind>, level: u8, i: int)
    requires
        0 <= i <= kinds.len(),
    ensures
        i <= section_end(kinds, level, i) <= kinds.len(),
    decreases kinds.len() - i,
{
    if i < kinds.len() && !heading_at_most(kinds[i], level) {
        lemma_section_end_bounds(kinds, level, i + 1);
    }
}

/// The section that heading `idx` opens, for folding: from the heading up to
/// (not including) the next heading of the same or a higher level, or to the
/// end. Nothing for a line that is not a heading.
pub open spec fn section_range(ls: Seq<Seq<char>>, idx: int) -> Option<(usize, usize)> {
    let kinds = classify_all(ls);
    match kinds[idx] {
        LineKind::Heading(level) => Some((idx as usize, section_end(kinds, level, idx + 1) as usize)),
        _ => None,
    }
}

/// The section (start, end exclusive) that the heading at `line_idx` opens.
pub fn heading_section_range(lines: &[String], line_idx: usize) -> (r: Option<(usize, usize)>)
    requires
        line_idx < lines@.len(),
    ensures
        r == section_range(lines_view(lines@), line_idx as int),
{
    let kinds = classify_lines(lines);
    let level = match kinds[line_idx] {
        LineKind::Heading(l) => l,
        _ => return None,
    };
    let n = lines.len();
    let mut i = line_idx + 1;
    while i < n
        invariant
            line_idx < i <= n,
            n == kinds@.len(),
            kinds@ == classify_all(lines_view(lines@)),
            kinds@[line_idx as int] == LineKind::Heading(level),
            section_end(kinds@, level, line_idx + 1) == section_end(kinds@, level, i as int),
        decreases n - i,
    {
        match kinds[i] {
            LineKind::Heading(l) => {
                if l <= level {
                    return Some((line_idx, i));
                }
            },
            _ => {},
        }
        i = i + 1;
    }
    Some((line_idx, n))
}

// ---------------------------------------------------------------------------
// Laws
// ---------------------------------------------------------------------------

proof fn lemma_crumbs_parents(ls: Seq<Seq<char>>, i: int, cur: nat) -> (pos: Seq<int>)
    requires
        i <= ls.len(),
    ensures
        pos.len() == crumbs(ls, i, cur).len(),
        forall|j: int|
            0 <= j < pos.len() ==> 0 <= #[trigger] pos[j] < i && is_item(ls[pos[j]])
                && crumbs(ls, i, cur)[j] == item_text(ls[pos[j]]),
        forall|j: int|
            0 <= j < pos.len() - 1 ==> #[trigger] pos[j] < pos[j + 1] && text::indent_of(ls[pos[j]])
                < text::indent_of(ls[pos[j + 1]]),
        pos.len() > 0 ==> text::indent_of(ls[pos.last()]) < cur,
    decreases i,
{
    if i <= 0 || i > ls.len() {
        Seq::empty()
    } else {
        let line = ls[i - 1];
        let ind = text::indent_of(line);
        if is_item(line) && ind < cur {
            if ind == 0 {
                seq![i - 1]
            } else {
                let prev = lemma_crumbs_parents(ls, i - 1, ind);
                let pos = prev.push(i - 1);
                assert forall|j: int| 0 <= j < pos.len() - 1 implies #[trigger] pos[j] < pos[j + 1]
                    && text::indent_of(ls[pos[j]]) < text::indent_of(ls[pos[j + 1]]) by {
                    if j < prev.len() - 1 {
                        assert(pos[j] == prev[j] && pos[j + 1] == prev[j + 1]);
                    } else {
                        assert(pos[j] == prev.last());
                    }
                }
                assert forall|j: int| 0 <= j < pos.len() implies 0 <= #[trigger] pos[j] < i && is_item(ls[pos[j]])
                    && crumbs(ls, i, cur)[j] == item_text(ls[pos[j]]) by {
                    if j < prev.len() {
                        assert(pos[j] == prev[j]);
                    }
                }
                pos
            }
        } else {
            lemma_crumbs_parents(ls, i - 1, cur)
        }
    }
}

/// The breadcrumb holds parents only, never a sibling: its entries, in
/// order, are the texts of earlier list items (at the returned lines), each
/// indented strictly less than the next one and the last strictly less than
/// line `idx` itself.
pub proof fn law_breadcrumb_parents(ls: Seq<Seq<char>>, idx: int) -> (pos: Seq<int>)
    requires
        0 <= idx < ls.len(),
    ensures
        pos.len() == breadcrumb(ls, idx).len(),
        forall|j: int|
            0 <= j < pos.len() ==> 0 <= #[trigger] pos[j] < idx && is_item(ls[pos[j]])
                && breadcrumb(ls, idx)[j] == item_text(ls[pos[j]]),
        forall|j: int|
            0 <= j < pos.len() - 1 ==> #[trigger] pos[j] < pos[j + 1] && text::indent_of(ls[pos[j]])
                < text::indent_of(ls[pos[j + 1]]),
        pos.len() > 0 ==> text::indent_of(ls[pos.last()]) < text::indent_of(ls[idx]),
{
    if is_item(ls[idx]) {
        lemma_crumbs_parents(ls, idx, text::indent_of(ls[idx]))
    } else {
        Seq::empty()
    }
}

/// Every italic span of `s` runs from a `*` through its closing `*` (or to
/// the end of the text when none closes it).
pub open spec fn italics_closed(c: Seq<char>, off: int, s: Seq<InlineSpan>) -> bool {
    forall|k: int|
        0 <= k < s.len() && (#[trigger] s[k]).kind == SpanKind::Italic ==> {
            &&& off <= s[k].start < s[k].end <= off + c.len()
            &&& c[s[k].start - off] == '*'
            &&& s[k].end == off + c.len() || (s[k].end - 1 > s[k].start && c[s[k].end - 1 - off] == '*')
        }
}

proof fn lemma_fmt_scan_italics(c: Seq<char>, off: int, i: int, ns: int)
    requires
        0 <= off,
        off + c.len() <= usize::MAX,
        0 <= ns <= i,
        ns <= c.len(),
    ensures
        italics_closed(c, off, fmt_scan(c, off, i, ns)),
    decreases c.len() - i,
{
    let len = c.len() as int;
    if i < len {
        let pre = if i > ns {
            seq![span(off + ns, off + i, SpanKind::Normal)]
        } else {
            Seq::<InlineSpan>::empty()
        };
        if c[i] == '`' {
            lemma_next_char(c, '`', i + 1);
            let e = code_end(c, i);
            lemma_fmt_scan_italics(c, off, e, e);
            let rest = fmt_scan(c, off, e, e);
            let all = pre + seq![span(off + i, off + e, SpanKind::Code)] + rest;
            assert(fmt_scan(c, off, i, ns) == all);
            assert forall|k: int| 0 <= k < all.len() && (#[trigger] all[k]).kind == SpanKind::Italic
                implies all[k] == rest[k - pre.len() - 1] by {}
        } else if i + 1 < len && c[i] == '*' && c[i + 1] == '*' {
            lemma_next_pair(c, i + 2);
            let e = bold_end(c, i);
            lemma_fmt_scan_italics(c, off, e, e);
            let rest = fmt_scan(c, off, e, e);
            let all = pre + seq![span(off + i, off + e, SpanKind::Bold)] + rest;
            assert(fmt_scan(c, off, i, ns) == all);
            assert forall|k: int| 0 <= k < all.len() && (#[trigger] all[k]).kind == SpanKind::Italic
                implies all[k] == rest[k - pre.len() - 1] by {}
        } else if c[i] == '*' && i + 1 < len && c[i + 1] != '*' {
            lemma_next_char(c, '*', i + 1);
            let e = italic_end(c, i);
            lemma_fmt_scan_italics(c, off, e, e);
            let rest = fmt_scan(c, off, e, e);
            let sp = span(off + i, off + e, SpanKind::Italic);
            let all = pre + seq![sp] + rest;
            assert(fmt_scan(c, off, i, ns) == all);
            assert(sp.start == off + i && sp.end == off + e);
            assert forall|k: int| 0 <= k < all.len() && (#[trigger] all[k]).kind == SpanKind::Italic
                implies all[k] == sp || all[k] == rest[k - pre.len() - 1] by {}
        } else {
            lemma_fmt_scan_italics(c, off, i + 1, ns);
        }
    }
}

/// Italic text is closed by its `*`: in the spans of a text, every italic
/// span starts at a `*` and runs through the `*` that closes it, so the
/// next span starts after it; only an italic that nothing closes runs to
/// the end of the text.
pub proof fn law_italic_spans_closed(c: Seq<char>, off: int)
    requires
        0 <= off,
        off + c.len() <= usize::MAX,
    ensures
        italics_closed(c, off, inline_spans(c, off)),
{
    lemma_fmt_scan_italics(c, off, 0, 0);
}

/// Inside a fenced code block a line is code, except a line that starts
/// (after its leading white space) with three backticks: that one is a
/// fence, which closes the block.
pub proof fn law_fence_closes_code(line: Seq<char>)
    ensures
        classify(line, true) == if text::starts_with(text::trim_start(line), seq!['`', '`', '`']) {
            LineKind::CodeFence
        } else {
            LineKind::CodeContent
        },
{
    assert(fence() =~= seq!['`', '`', '`']);
}

/// A fence line inside an open code block closes it; any other fence opens
/// one.
pub proof fn law_fence_toggles_block(ls: Seq<Seq<char>>, i: int)
    requires
        0 <= i < ls.len(),
        text::starts_with(text::trim_start(ls[i]), seq!['`', '`', '`']),
    ensures
        code_open_after(ls.take(i + 1)) == !code_open_after(ls.take(i)),
{
    assert(fence() =~= seq!['`', '`', '`']);
    let t = ls.take(i + 1);
    assert(t.drop_last() =~= ls.take(i));
    assert(t.last() == ls[i]);
    let st = text::trim_start(ls[i]);
    let tr = text::trim(ls[i]);
    if !code_open_after(ls.take(i)) {
        text::lemma_lead_ws_bound(ls[i]);
        assert(st.len() >= 3);
        assert(st[0] == '`');
        assert(!text::is_ws(st[0]));
        assert(tr == st.take(st.len() - text::trail_ws(st)));
        text::lemma_trail_ws_bound(st);
        assert(text::trail_ws(st) < st.len() - 2) by {
            if text::trail_ws(st) >= st.len() - 2 {
                assert(text::is_ws(st[2]));
            }
        }
        assert(tr.take(3) =~= st.take(3));
        assert(classify(ls[i], false) == LineKind::CodeFence);
    }
}

} // verus!
