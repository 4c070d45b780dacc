use vstd::prelude::*;

verus! {

// ---------------------------------------------------------------------------
// Character classes
// ---------------------------------------------------------------------------

/// The Unicode `White_Space` property, which `char::is_whitespace` and the
/// `trim` family of `str` follow.
pub open spec fn is_ws(c: char) -> bool {
    let u = c as u32;
    ||| 0x09 <= u <= 0x0d
    ||| u == 0x20
    ||| u == 0x85
    ||| u == 0xa0
    ||| u == 0x1680
    ||| 0x2000 <= u <= 0x200a
    ||| u == 0x2028
    ||| u == 0x2029
    ||| u == 0x202f
    ||| u == 0x205f
    ||| u == 0x3000
}

/// Whether `c` is Unicode white space.
pub fn is_whitespace(c: char) -> (r: bool)
    ensures
        r == is_ws(c),
{
    let u = c as u32;
    (0x09 <= u && u <= 0x0d) || u == 0x20 || u == 0x85 || u == 0xa0 || u == 0x1680 || (0x2000
        <= u && u <= 0x200a) || u == 0x2028 || u == 0x2029 || u == 0x202f || u == 0x205f || u
        == 0x3000
}

/// Number of bytes of the UTF-8 encoding of `c`.
pub open spec fn utf8_len(c: char) -> nat {
    let u = c as u32;
    if u < 0x80 {
        1
    } else if u < 0x800 {
        2
    } else if u < 0x10000 {
        3
    } else {
        4
    }
}

/// Number of bytes of the UTF-8 encoding of a character sequence.
pub open spec fn byte_len(s: Seq<char>) -> nat
    decreases s.len(),
{
    if s.len() == 0 {
        0
    } else {
        utf8_len(s[0]) + byte_len(s.drop_first())
    }
}

pub proof fn lemma_byte_len_add(a: Seq<char>, b: Seq<char>)
    ensures
        byte_len(a + b) == byte_len(a) + byte_len(b),
    decreases a.len(),
{
    if a.len() > 0 {
        assert((a + b).drop_first() =~= a.drop_first() + b);
        lemma_byte_len_add(a.drop_first(), b);
    } else {
        assert(a + b =~= b);
    }
}

/// The UTF-8 encoding has `byte_len` bytes.
pub proof fn lemma_encode_len(s: Seq<char>)
    ensures
        vstd::utf8::encode_utf8(s).len() == byte_len(s),
    decreases s.len(),
{
    if s.len() > 0 {
        vstd::utf8::char_is_scalar(s[0]);
        lemma_encode_len(s.drop_first());
    }
}

/// A string's character sequence has at most `usize::MAX` bytes.
pub fn str_byte_len(s: &str) -> (n: usize)
    ensures
        n == byte_len(s@),
{
    proof {
        lemma_encode_len(s@);
    }
    s.as_bytes().len()
}

// ---------------------------------------------------------------------------
// Trimming
// ---------------------------------------------------------------------------

/// Number of leading white-space characters of `s`.
pub open spec fn lead_ws(s: Seq<char>) -> nat
    decreases s.len(),
{
    if s.len() > 0 && is_ws(s[0]) {
        1 + lead_ws(s.drop_first())
    } else {
        0
    }
}

/// Number of trailing white-space characters of `s`.
pub open spec fn trail_ws(s: Seq<char>) -> nat
    decreases s.len(),
{
    if s.len() > 0 && is_ws(s.last()) {
        1 + trail_ws(s.drop_last())
    } else {
        0
    }
}

/// `str::trim_start`.
pub open spec fn trim_start(s: Seq<char>) -> Seq<char> {
    s.skip(lead_ws(s) as int)
}

/// `str::trim_end`.
pub open spec fn trim_end(s: Seq<char>) -> Seq<char> {
    s.take(s.len() - trail_ws(s))
}

/// `str::trim`.
pub open spec fn trim(s: Seq<char>) -> Seq<char> {
    trim_end(trim_start(s))
}

/// Whether `p` is a prefix of `s`.
pub open spec fn starts_with(s: Seq<char>, p: Seq<char>) -> bool {
    p.len() <= s.len() && s.take(p.len() as int) == p
}

pub proof fn lemma_lead_ws_bound(s: Seq<char>)
    ensures
        lead_ws(s) <= s.len(),
        forall|i: int| 0 <= i < lead_ws(s) ==> is_ws(#[trigger] s[i]),
        lead_ws(s) < s.len() ==> !is_ws(s[lead_ws(s) as int]),
    decreases s.len(),
{
    if s.len() > 0 && is_ws(s[0]) {
        lemma_lead_ws_bound(s.drop_first());
        assert forall|i: int| 0 <= i < lead_ws(s) implies is_ws(#[trigger] s[i]) by {
            if i > 0 {
                assert(s[i] == s.drop_first()[i - 1]);
            }
        }
    }
}

pub proof fn lemma_trail_ws_bound(s: Seq<char>)
    ensures
        trail_ws(s) <= s.len(),
        forall|i: int| s.len() - trail_ws(s) <= i < s.len() ==> is_ws(#[trigger] s[i]),
        trail_ws(s) < s.len() ==> !is_ws(s[s.len() - trail_ws(s) - 1]),
    decreases s.len(),
{
    if s.len() > 0 && is_ws(s.last()) {
        lemma_trail_ws_bound(s.drop_last());
        assert forall|i: int| s.len() - trail_ws(s) <= i < s.len() implies is_ws(
            #[trigger] s[i],
        ) by {
            if i < s.len() - 1 {
                assert(s[i] == s.drop_last()[i]);
            }
        }
    }
}

/// Number of leading white-space characters of `v`.
pub fn count_lead_ws(v: &[char]) -> (n: usize)
    ensures
        n == lead_ws(v@),
{
    let mut i: usize = 0;
    assert(v@.skip(0) =~= v@);
    while i < v.len() && is_whitespace(v[i])
        invariant
            i <= v@.len(),
            forall|k: int| 0 <= k < i ==> is_ws(#[trigger] v@[k]),
            lead_ws(v@) == i + lead_ws(v@.skip(i as int)),
        decreases v.len() - i,
    {
        assert(v@.skip(i as int).drop_first() =~= v@.skip(i + 1));
        i = i + 1;
    }
    i
}

/// Number of trailing white-space characters of `v`.
pub fn count_trail_ws(v: &[char]) -> (n: usize)
    ensures
        n == trail_ws(v@),
{
    let mut i: usize = v.len();
    assert(v@.take(v@.len() as int) =~= v@);
    while i > 0 && is_whitespace(v[i - 1])
        invariant
            i <= v@.len(),
            trail_ws(v@) == (v@.len() - i) + trail_ws(v@.take(i as int)),
        decreases i,
    {
        assert(v@.take(i as int).drop_last() =~= v@.take(i - 1));
        i = i - 1;
    }
    assert(v@.take(i as int).len() == i);
    v.len() - i
}

/// UTF-8 byte count of the first `n` characters of `v`.
pub fn prefix_byte_len(v: &[char], n: usize) -> (r: usize)
    requires
        n <= v@.len(),
        byte_len(v@.take(n as int)) <= usize::MAX,
    ensures
        r == byte_len(v@.take(n as int)),
{
    let mut i: usize = 0;
    let mut r: usize = 0;
    while i < n
        invariant
            i <= n <= v@.len(),
            r == byte_len(v@.take(i as int)),
            byte_len(v@.take(n as int)) <= usize::MAX,
        decreases n - i,
    {
        proof {
            assert(v@.take(i + 1) =~= v@.take(i as int) + seq![v@[i as int]]);
            lemma_byte_len_add(v@.take(i as int), seq![v@[i as int]]);
            assert(seq![v@[i as int]].drop_first() =~= Seq::<char>::empty());
            assert(v@.take(n as int) =~= v@.take(i + 1) + v@.subrange(i + 1, n as int));
            lemma_byte_len_add(v@.take(i + 1), v@.subrange(i + 1, n as int));
        }
        let u = v[i] as u32;
        let w: usize = if u < 0x80 {
            1
        } else if u < 0x800 {
            2
        } else if u < 0x10000 {
            3
        } else {
            4
        };
        assert(w == utf8_len(v@[i as int]));
        assert(byte_len(seq![v@[i as int]]) == utf8_len(v@[i as int])) by {
            let one = seq![v@[i as int]];
            assert(one.drop_first() =~= Seq::<char>::empty());
            assert(byte_len(one.drop_first()) == 0);
        }
        r = r + w;
        i = i + 1;
    }
    r
}

// ---------------------------------------------------------------------------
// Building strings
// ---------------------------------------------------------------------------

/// `std::string::String::push`: appends one character.
#[verifier::external_body]
pub(crate) fn push_char(s: &mut String, c: char)
    ensures
        final(s)@ == old(s)@.push(c),
{
    s.push(c)
}

/// The characters of a string, in order.
pub fn chars_of(s: &str) -> (v: Vec<char>)
    ensures
        v@ == s@,
{
    let mut v: Vec<char> = Vec::new();
    for c in it: s.chars()
        invariant
            v@ == it.seq().take(it.index() as int),
            it.seq() == s@,
    {
        v.push(c);
    }
    v
}

/// The string made of the characters `v[lo..hi]`.
pub fn string_of_range(v: &[char], lo: usize, hi: usize) -> (s: String)
    requires
        lo <= hi <= v@.len(),
    ensures
        s@ == v@.subrange(lo as int, hi as int),
{
    let mut s = String::new();
    let mut i = lo;
    while i < hi
        invariant
            lo <= i <= hi <= v@.len(),
            s@ == v@.subrange(lo as int, i as int),
        decreases hi - i,
    {
        push_char(&mut s, v[i]);
        assert(v@.subrange(lo as int, i + 1) =~= v@.subrange(lo as int, i as int).push(v@[i as int]));
        i = i + 1;
    }
    s
}

/// The string made of the characters of `v`.
pub fn string_of(v: &[char]) -> (s: String)
    ensures
        s@ == v@,
{
    let s = string_of_range(v, 0, v.len());
    assert(v@.subrange(0, v@.len() as int) =~= v@);
    s
}

/// Appends the characters `v[lo..hi]` to `s`.
pub fn push_range(s: &mut String, v: &[char], lo: usize, hi: usize)
    requires
        lo <= hi <= v@.len(),
    ensures
        final(s)@ == old(s)@ + v@.subrange(lo as int, hi as int),
{
    let mut i = lo;
    while i < hi
        invariant
            lo <= i <= hi <= v@.len(),
            s@ == old(s)@ + v@.subrange(lo as int, i as int),
        decreases hi - i,
    {
        push_char(s, v[i]);
        assert(v@.subrange(lo as int, i + 1) =~= v@.subrange(lo as int, i as int).push(v@[i as int]));
        i = i + 1;
    }
}

/// Appends all of `t` to `s`.
pub fn push_str(s: &mut String, t: &str)
    ensures
        final(s)@ == old(s)@ + t@,
{
    let v = chars_of(t);
    push_range(s, v.as_slice(), 0, v.len());
    assert(v@.subrange(0, v@.len() as int) =~= v@);
}

// ---------------------------------------------------------------------------
// Splitting and joining lines
// ---------------------------------------------------------------------------

/// `str::split('\n')`: the pieces between newlines, always at least one.
pub open spec fn split_nl(s: Seq<char>) -> Seq<Seq<char>>
    decreases s.len(),
{
    if s.len() == 0 {
        seq![Seq::<char>::empty()]
    } else {
        let r = split_nl(s.drop_last());
        if s.last() == '\n' {
            r.push(Seq::<char>::empty())
        } else {
            r.update(r.len() - 1, r.last().push(s.last()))
        }
    }
}

/// `[T]::join("\n")` on lines: the lines with a newline between each two.
pub open spec fn join_nl(s: Seq<Seq<char>>) -> Seq<char>
    decreases s.len(),
{
    if s.len() == 0 {
        Seq::<char>::empty()
    } else if s.len() == 1 {
        s[0]
    } else {
        join_nl(s.drop_last()) + seq!['\n'] + s.last()
    }
}

/// Removes one trailing carriage return.
pub open spec fn strip_cr(s: Seq<char>) -> Seq<char> {
    if s.len() > 0 && s.last() == '\r' {
        s.drop_last()
    } else {
        s
    }
}

/// `str::lines`: split at `\n`, a `\r` directly before a `\n` dropped, and no
/// empty last line after a final newline.
pub open spec fn lines_of(s: Seq<char>) -> Seq<Seq<char>> {
    let p = split_nl(s);
    if s.len() == 0 {
        Seq::empty()
    } else if s.last() == '\n' {
        Seq::new((p.len() - 1) as nat, |i: int| strip_cr(p[i]))
    } else {
        Seq::new(p.len(), |i: int| if i < p.len() - 1 { strip_cr(p[i]) } else { p[i] })
    }
}

pub proof fn lemma_split_nl_len(s: Seq<char>)
    ensures
        split_nl(s).len() >= 1,
    decreases s.len(),
{
    if s.len() > 0 {
        lemma_split_nl_len(s.drop_last());
    }
}

/// Splitting at newlines and joining with newlines gives back the text.
pub proof fn lemma_join_split(s: Seq<char>)
    ensures
        join_nl(split_nl(s)) == s,
    decreases s.len(),
{
    if s.len() > 0 {
        let t = s.drop_last();
        lemma_join_split(t);
        lemma_split_nl_len(t);
        let r = split_nl(t);
        if s.last() == '\n' {
            let r2 = r.push(Seq::<char>::empty());
            assert(r2.drop_last() =~= r);
            assert(join_nl(r2) =~= join_nl(r) + seq!['\n']);
            assert(s =~= t.push('\n'));
        } else {
            let r2 = r.update(r.len() - 1, r.last().push(s.last()));
            if r.len() == 1 {
                assert(join_nl(r2) =~= r.last().push(s.last()));
                assert(s =~= t.push(s.last()));
            } else {
                assert(r2.drop_last() =~= r.drop_last());
                assert(join_nl(r) == join_nl(r.drop_last()) + seq!['\n'] + r.last());
                assert(join_nl(r2) =~= join_nl(r).push(s.last()));
                assert(s =~= t.push(s.last()));
            }
        }
    }
}

/// Splits `v` at every newline (`str::split('\n')`).
pub fn split_newlines(v: &[char]) -> (parts: Vec<Vec<char>>)
    ensures
        parts@.len() == split_nl(v@).len(),
        forall|i: int| 0 <= i < parts@.len() ==> #[trigger] parts@[i]@ == split_nl(v@)[i],
{
    let mut parts: Vec<Vec<char>> = Vec::new();
    let mut cur: Vec<char> = Vec::new();
    let mut i: usize = 0;
    while i < v.len()
        invariant
            i <= v@.len(),
            parts@.len() + 1 == split_nl(v@.take(i as int)).len(),
            forall|k: int|
                0 <= k < parts@.len() ==> #[trigger] parts@[k]@ == split_nl(v@.take(i as int))[k],
            cur@ == split_nl(v@.take(i as int)).last(),
        decreases v.len() - i,
    {
        proof {
            lemma_split_nl_len(v@.take(i as int));
            assert(v@.take(i + 1).drop_last() =~= v@.take(i as int));
        }
        if v[i] == '\n' {
            parts.push(cur);
            cur = Vec::new();
        } else {
            cur.push(v[i]);
        }
        i = i + 1;
    }
    proof {
        assert(v@.take(i as int) =~= v@);
        lemma_split_nl_len(v@);
    }
    parts.push(cur);
    parts
}

// ---------------------------------------------------------------------------
// Case folding
// ---------------------------------------------------------------------------

/// What `str::to_lowercase` makes of a character sequence (Unicode lower
/// case mapping, which may change the number of characters).
pub uninterp spec fn lowercase(s: Seq<char>) -> Seq<char>;

/// `str::to_lowercase`: the result is `lowercase` of the argument.
#[verifier::external_body]
pub(crate) fn to_lowercase(s: &str) -> (r: String)
    ensures
        r@ == lowercase(s@),
{
    s.to_lowercase()
}

// ---------------------------------------------------------------------------
// Substring search
// ---------------------------------------------------------------------------

/// `q` occurs in `h` at `i`.
pub open spec fn matches_at(h: Seq<char>, q: Seq<char>, i: int) -> bool {
    0 <= i && i + q.len() <= h.len() && h.subrange(i, i + q.len()) == q
}

/// The first place at or after `i` where `q` occurs in `h`.
pub open spec fn first_match(h: Seq<char>, q: Seq<char>, i: int) -> Option<int>
    decreases h.len() + 1 - i,
{
    if i < 0 || i + q.len() > h.len() {
        None
    } else if matches_at(h, q, i) {
        Some(i)
    } else {
        first_match(h, q, i + 1)
    }
}

/// The last place at or before `i` where `q` occurs in `h`.
pub open spec fn last_match(h: Seq<char>, q: Seq<char>, i: int) -> Option<int>
    decreases i + 1,
{
    if i < 0 {
        None
    } else if matches_at(h, q, i) {
        Some(i)
    } else {
        last_match(h, q, i - 1)
    }
}

pub proof fn lemma_last_match_bound(h: Seq<char>, q: Seq<char>, i: int)
    ensures
        last_match(h, q, i) matches Some(p) ==> 0 <= p <= i && matches_at(h, q, p),
    decreases i + 1,
{
    if i >= 0 && !matches_at(h, q, i) {
        lemma_last_match_bound(h, q, i - 1);
    }
}

/// Whether `q` occurs in `h` at `i`.
pub fn match_here(h: &Vec<char>, q: &Vec<char>, i: usize) -> (r: bool)
    requires
        i + q@.len() <= h@.len(),
    ensures
        r == matches_at(h@, q@, i as int),
{
    let hl = h.len();
    let mut k: usize = 0;
    while k < q.len()
        invariant
            hl == h@.len(),
            k <= q@.len(),
            i + q@.len() <= h@.len(),
            forall|j: int| 0 <= j < k ==> h@[i + j] == q@[j],
        decreases q@.len() - k,
    {
        if h[i + k] != q[k] {
            assert(h@.subrange(i as int, i + q@.len())[k as int] != q@[k as int]);
            return false;
        }
        k = k + 1;
    }
    assert(h@.subrange(i as int, i + q@.len()) =~= q@);
    true
}

/// Computes `first_match(h, q, start)`.
pub fn find_first(h: &Vec<char>, q: &Vec<char>, start: usize) -> (r: Option<usize>)
    ensures
        r matches Some(c) ==> first_match(h@, q@, start as int) == Some(c as int),
        r is None ==> first_match(h@, q@, start as int) is None,
{
    if q.len() > h.len() || start > h.len() - q.len() {
        return None;
    }
    let last = h.len() - q.len();
    let mut i = start;
    while i <= last
        invariant
            start <= i,
            last + q@.len() == h@.len(),
            first_match(h@, q@, start as int) == first_match(h@, q@, i as int),
        decreases last + 1 - i,
    {
        if match_here(h, q, i) {
            return Some(i);
        }
        if i == last {
            assert(first_match(h@, q@, i + 1) is None);
            return None;
        }
        i = i + 1;
    }
    None
}

/// Computes `last_match(h, q, end - q.len())`: the last occurrence of `q`
/// that ends at or before `end`.
pub fn find_last(h: &Vec<char>, q: &Vec<char>, end: usize) -> (r: Option<usize>)
    requires
        end <= h@.len(),
    ensures
        r matches Some(c) ==> last_match(h@, q@, end - q@.len()) == Some(c as int),
        r is None ==> last_match(h@, q@, end - q@.len()) is None,
{
    if q.len() > end {
        return None;
    }
    let mut i = end - q.len();
    loop
        invariant
            i + q@.len() <= end <= h@.len(),
            last_match(h@, q@, end - q@.len()) == last_match(h@, q@, i as int),
        decreases i,
    {
        if match_here(h, q, i) {
            return Some(i);
        }
        if i == 0 {
            assert(last_match(h@, q@, -1) is None);
            return None;
        }
        i = i - 1;
    }
}

// ---------------------------------------------------------------------------
// Indentation and prefixes
// ---------------------------------------------------------------------------

/// Bytes of leading white space: what `line.len() - line.trim_start().len()`
/// gives.
pub open spec fn indent_of(line: Seq<char>) -> nat {
    byte_len(line.take(lead_ws(line) as int))
}

/// Computes `indent_of`.
pub fn indent_bytes(line: &str) -> (n: usize)
    ensures
        n == indent_of(line@),
{
    let v = chars_of(line);
    let k = count_lead_ws(v.as_slice());
    let total = str_byte_len(line);
    proof {
        lemma_lead_ws_bound(v@);
        assert(v@ =~= v@.take(k as int) + v@.skip(k as int));
        lemma_byte_len_add(v@.take(k as int), v@.skip(k as int));
    }
    prefix_byte_len(v.as_slice(), k)
}

/// Whether `v[lo..hi]` starts with `p`.
pub fn has_prefix(v: &Vec<char>, lo: usize, hi: usize, p: &[char]) -> (r: bool)
    requires
        lo <= hi <= v@.len(),
    ensures
        r == starts_with(v@.subrange(lo as int, hi as int), p@),
{
    if p.len() > hi - lo {
        return false;
    }
    let mut k: usize = 0;
    while k < p.len()
        invariant
            k <= p@.len() <= hi - lo,
            lo <= hi <= v@.len(),
            forall|j: int| 0 <= j < k ==> v@[lo + j] == p@[j],
        decreases p@.len() - k,
    {
        if v[lo + k] != p[k] {
            assert(v@.subrange(lo as int, hi as int).take(p@.len() as int)[k as int] != p@[k as int]);
            return false;
        }
        k = k + 1;
    }
    assert(v@.subrange(lo as int, hi as int).take(p@.len() as int) =~= p@);
    true
}

/// Whether `v[lo..hi]` is exactly `p`.
pub fn is_exactly(v: &Vec<char>, lo: usize, hi: usize, p: &[char]) -> (r: bool)
    requires
        lo <= hi <= v@.len(),
    ensures
        r == (v@.subrange(lo as int, hi as int) == p@),
{
    if p.len() != hi - lo {
        return false;
    }
    let r = has_prefix(v, lo, hi, p);
    assert(v@.subrange(lo as int, hi as int).take(p@.len() as int) =~= v@.subrange(lo as int, hi as int));
    r
}


// ---------------------------------------------------------------------------
// Joining and splitting back
// ---------------------------------------------------------------------------

/// No character of `s` is `c`.
pub open spec fn free_of(s: Seq<char>, c: char) -> bool {
    forall|j: int| 0 <= j < s.len() ==> s[j] != c
}

/// Adding text without newlines to the end only lengthens the last piece.
pub proof fn lemma_split_nl_append(a: Seq<char>, b: Seq<char>)
    requires
        free_of(b, '\n'),
    ensures
        split_nl(a + b) == split_nl(a).update(split_nl(a).len() - 1, split_nl(a).last() + b),
    decreases b.len(),
{
    lemma_split_nl_len(a);
    if b.len() == 0 {
        assert(a + b =~= a);
        assert(split_nl(a).last() + b =~= split_nl(a).last());
        assert(split_nl(a).update(split_nl(a).len() - 1, split_nl(a).last()) =~= split_nl(a));
    } else {
        let b0 = b.drop_last();
        lemma_split_nl_append(a, b0);
        assert((a + b).drop_last() =~= a + b0);
        assert((a + b).last() == b.last());
        let r = split_nl(a + b0);
        lemma_split_nl_len(a + b0);
        assert(split_nl(a + b) == r.update(r.len() - 1, r.last().push(b.last())));
        let sa = split_nl(a);
        assert(r.len() == sa.len());
        assert(r.last() == sa.last() + b0);
        assert((sa.last() + b0).push(b.last()) =~= sa.last() + b);
        assert(split_nl(a + b) =~= split_nl(a).update(split_nl(a).len() - 1, split_nl(a).last() + b));
    }
}

/// Lines without newlines, joined with newlines, split back into the same
/// lines.
pub proof fn lemma_split_join(t: Seq<Seq<char>>)
    requires
        t.len() > 0,
        forall|i: int| 0 <= i < t.len() ==> free_of(#[trigger] t[i], '\n'),
    ensures
        split_nl(join_nl(t)) == t,
    decreases t.len(),
{
    if t.len() == 1 {
        lemma_split_nl_append(Seq::empty(), t[0]);
        assert(Seq::<char>::empty() + t[0] =~= t[0]);
        assert(Seq::<char>::empty() + t[0] =~= t[0]);
        assert(split_nl(Seq::<char>::empty()).update(0, Seq::<char>::empty() + t[0]) =~= t);
    } else {
        let u = t.drop_last();
        assert forall|i: int| 0 <= i < u.len() implies free_of(#[trigger] u[i], '\n') by {
            assert(u[i] == t[i]);
        }
        lemma_split_join(u);
        let a = join_nl(u) + seq!['\n'];
        assert(a.drop_last() =~= join_nl(u));
        assert(split_nl(a) == split_nl(join_nl(u)).push(Seq::<char>::empty()));
        lemma_split_nl_append(a, t.last());
        assert(free_of(t[t.len() - 1], '\n'));
        assert(Seq::<char>::empty() + t.last() =~= t.last());
        assert(split_nl(a + t.last()) =~= t);
    }
}

/// The pieces of a text without `c` have no `c` either.
pub proof fn lemma_split_nl_free(s: Seq<char>, c: char)
    requires
        free_of(s, c),
    ensures
        forall|i: int| 0 <= i < split_nl(s).len() ==> free_of(#[trigger] split_nl(s)[i], c),
    decreases s.len(),
{
    if s.len() > 0 {
        let t = s.drop_last();
        assert(free_of(t, c));
        lemma_split_nl_free(t, c);
        lemma_split_nl_len(t);
        let r = split_nl(t);
        assert(s.last() == s[s.len() - 1]);
        if s.last() != '\n' {
            assert forall|i: int| 0 <= i < split_nl(s).len() implies free_of(#[trigger] split_nl(s)[i], c) by {
                if i == r.len() - 1 {
                    assert(split_nl(s)[i] == r.last().push(s.last()));
                    assert(free_of(r[r.len() - 1], c));
                } else {
                    assert(split_nl(s)[i] == r[i]);
                }
            }
        } else {
            assert forall|i: int| 0 <= i < split_nl(s).len() implies free_of(#[trigger] split_nl(s)[i], c) by {
                if i < r.len() {
                    assert(split_nl(s)[i] == r[i]);
                }
            }
        }
    }
}


/// `q` occurs somewhere in `h`.
pub open spec fn contains(h: Seq<char>, q: Seq<char>) -> bool {
    exists|j: int| matches_at(h, q, j)
}

proof fn lemma_first_match_none(h: Seq<char>, q: Seq<char>, i: int)
    requires
        0 <= i,
        first_match(h, q, i) is None,
    ensures
        forall|j: int| i <= j ==> !matches_at(h, q, j),
    decreases h.len() + 1 - i,
{
    if i + q.len() <= h.len() {
        lemma_first_match_none(h, q, i + 1);
    }
}

proof fn lemma_first_match_some(h: Seq<char>, q: Seq<char>, i: int)
    ensures
        first_match(h, q, i) matches Some(c) ==> matches_at(h, q, c),
    decreases h.len() + 1 - i,
{
    if !(i < 0 || i + q.len() > h.len()) && !matches_at(h, q, i) {
        lemma_first_match_some(h, q, i + 1);
    }
}

/// `str::contains`: whether `q` occurs in `h`.
pub fn contains_str(h: &str, q: &str) -> (r: bool)
    ensures
        r == contains(h@, q@),
{
    let hv = chars_of(h);
    let qv = chars_of(q);
    let found = find_first(&hv, &qv, 0);
    proof {
        lemma_first_match_some(h@, q@, 0);
        if found is None {
            lemma_first_match_none(h@, q@, 0);
        }
    }
    found.is_some()
}

} // verus!
