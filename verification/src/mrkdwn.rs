//! Slack mrkdwn: code fences, line prefixes (quotes and lists), inline
//! emphasis and code, and chip markers for mentions, channels, broadcasts
//! and links.
use vstd::prelude::*;
use crate::text::{
    chars_of, find_char, find_from, find_seq, index_of_from, lemma_find_from, lemma_index_of_from,
    matches_at, matches_at_exec, push_range, string_of_range,
};
use crate::style::{
    Color, Style, StyledSpan, plain, patched, with_modifier, spans_view, span_view, BOLD, ITALIC,
    CROSSED_OUT, UNDERLINED,
};
use crate::unicode::is_unicode_whitespace;
use crate::formatting::{names_resolved, resolve_all, views};

verus! {

// ---------------------------------------------------------------------------
// Code fences
// ---------------------------------------------------------------------------

/// Three backticks.
pub open spec fn fence() -> Seq<char> {
    seq!['`', '`', '`']
}

/// The text after `last`, as a plain chunk, if non-empty.
pub open spec fn fence_tail(s: Seq<char>, last: int) -> Seq<(bool, Seq<char>)> {
    if 0 <= last < s.len() {
        seq![(false, s.subrange(last, s.len() as int))]
    } else {
        Seq::empty()
    }
}

/// Chunks of `s` scanning from `i`, where plain text not yet emitted starts
/// at `last`: a fence opened at `i` and closed later yields the plain text
/// before it and the code between the fences; an unterminated fence ends the
/// scan.
pub open spec fn fences_from(s: Seq<char>, i: int, last: int) -> Seq<(bool, Seq<char>)>
    decreases s.len() - i,
{
    if i < 0 || last < 0 || last > i || i + 3 > s.len() {
        fence_tail(s, last)
    } else if matches_at(s, fence(), i) {
        match find_from(s, fence(), i + 3) {
            Some(j) => {
                proof {
                    lemma_find_from(s, fence(), i + 3);
                }
                (if last < i {
                    seq![(false, s.subrange(last, i))]
                } else {
                    Seq::empty()
                }) + seq![(true, s.subrange(i + 3, j))] + fences_from(s, j + 3, j + 3)
            },
            None => fence_tail(s, last),
        }
    } else {
        fences_from(s, i + 1, last)
    }
}

/// The chunks of a text split on triple-backtick fences: `(true, code)` for
/// the inside of a closed fence, `(false, text)` for everything else.
pub open spec fn code_chunks(s: Seq<char>) -> Seq<(bool, Seq<char>)> {
    fences_from(s, 0, 0)
}

/// The chunk views of a vector of chunks.
pub open spec fn chunk_views(v: Seq<(bool, String)>) -> Seq<(bool, Seq<char>)> {
    Seq::new(v.len(), |i: int| (v[i].0, v[i].1@))
}

fn fence_exec() -> (v: Vec<char>)
    ensures
        v@ == fence(),
{
    let mut v: Vec<char> = Vec::new();
    v.push('`');
    v.push('`');
    v.push('`');
    assert(v@ =~= fence());
    v
}

/// Split text on triple-backtick fences. Returns (in_code, slice) tuples.
pub fn split_code_fences(text: &str) -> (r: Vec<(bool, String)>)
    ensures
        chunk_views(r@) == code_chunks(text@),
        chunks_shaped(chunk_views(r@)),
{
    proof {
        lemma_fences_from_shaped(text@, 0, 0);
    }
    let v = chars_of(text);
    let f = fence_exec();
    let n = v.len();
    let mut out: Vec<(bool, String)> = Vec::new();
    let mut i: usize = 0;
    let mut last: usize = 0;
    while i <= n && n - i >= 3
        invariant
            i <= n,
            n == v.len(),
            v@ == text@,
            f@ == fence(),
            last <= i,
            chunk_views(out@) + fences_from(v@, i as int, last as int) == code_chunks(v@),
            chunks_shaped(code_chunks(v@)),
        decreases n - i,
    {
        let ghost out0 = chunk_views(out@);
        if matches_at_exec(&v, &f, i) {
            proof {
                lemma_find_from(v@, fence(), i + 3);
            }
            match find_seq(&v, i + 3, &f) {
                Some(j) => {
                    if last < i {
                        out.push((false, string_of_range(&v, last, i)));
                    }
                    out.push((true, string_of_range(&v, i + 3, j)));
                    assert(chunk_views(out@) =~= out0 + (if last < i {
                        seq![(false, v@.subrange(last as int, i as int))]
                    } else {
                        Seq::empty()
                    }) + seq![(true, v@.subrange(i + 3, j as int))]);
                    assert(out0 + fences_from(v@, i as int, last as int) =~= chunk_views(out@)
                        + fences_from(v@, j + 3, j + 3));
                    i = j + 3;
                    last = i;
                },
                None => {
                    if last < n {
                        out.push((false, string_of_range(&v, last, n)));
                    }
                    assert(chunk_views(out@) =~= out0 + fence_tail(v@, last as int));
                    return out;
                },
            }
        } else {
            i += 1;
        }
    }
    if last < n {
        let ghost out0 = chunk_views(out@);
        out.push((false, string_of_range(&v, last, n)));
        assert(chunk_views(out@) =~= out0 + fence_tail(v@, last as int));
    } else {
        assert(chunk_views(out@) =~= chunk_views(out@) + fence_tail(v@, last as int));
    }
    out
}

/// The text a chunk came from: code chunks regain their fences.
pub open spec fn unchunk(c: (bool, Seq<char>)) -> Seq<char> {
    if c.0 {
        fence() + c.1 + fence()
    } else {
        c.1
    }
}

/// The concatenation of the source texts of chunks.
pub open spec fn join_chunks(cs: Seq<(bool, Seq<char>)>) -> Seq<char>
    decreases cs.len(),
{
    if cs.len() == 0 {
        Seq::empty()
    } else {
        unchunk(cs[0]) + join_chunks(cs.drop_first())
    }
}

proof fn lemma_join_single(c: (bool, Seq<char>))
    ensures
        join_chunks(seq![c]) == unchunk(c),
{
    assert(seq![c].drop_first() =~= Seq::<(bool, Seq<char>)>::empty());
    assert(join_chunks(Seq::<(bool, Seq<char>)>::empty()) == Seq::<char>::empty());
    assert(unchunk(c) + Seq::<char>::empty() =~= unchunk(c));
}

proof fn lemma_join_append(a: Seq<(bool, Seq<char>)>, b: Seq<(bool, Seq<char>)>)
    ensures
        join_chunks(a + b) == join_chunks(a) + join_chunks(b),
    decreases a.len(),
{
    if a.len() == 0 {
        assert(a + b =~= b);
        assert(join_chunks(a) + join_chunks(b) =~= join_chunks(b));
    } else {
        assert((a + b).drop_first() =~= a.drop_first() + b);
        lemma_join_append(a.drop_first(), b);
        assert(join_chunks(a + b) =~= unchunk(a[0]) + join_chunks(a.drop_first() + b));
        assert(join_chunks(a) + join_chunks(b) =~= unchunk(a[0]) + (join_chunks(a.drop_first())
            + join_chunks(b)));
    }
}

proof fn lemma_fences_from_join(s: Seq<char>, i: int, last: int)
    requires
        0 <= last <= i,
        last <= s.len(),
    ensures
        join_chunks(fences_from(s, i, last)) == s.subrange(last, s.len() as int),
    decreases s.len() - i,
{
    let one = |c: (bool, Seq<char>)| seq![c];
    if i + 3 > s.len() {
        lemma_tail_join(s, last);
    } else if matches_at(s, fence(), i) {
        lemma_find_from(s, fence(), i + 3);
        match find_from(s, fence(), i + 3) {
            Some(j) => {
                lemma_fences_from_join(s, j + 3, j + 3);
                let head = (if last < i {
                    seq![(false, s.subrange(last, i))]
                } else {
                    Seq::<(bool, Seq<char>)>::empty()
                });
                let code = seq![(true, s.subrange(i + 3, j))];
                let rest = fences_from(s, j + 3, j + 3);
                lemma_join_append(head + code, rest);
                lemma_join_append(head, code);
                lemma_join_single((true, s.subrange(i + 3, j)));
                if last < i {
                    lemma_join_single((false, s.subrange(last, i)));
                } else {
                    assert(join_chunks(head) =~= Seq::<char>::empty());
                }
                assert(s.subrange(i, i + 3) =~= fence());
                assert(s.subrange(j, j + 3) =~= fence());
                assert(s.subrange(last, s.len() as int) =~= s.subrange(last, i) + s.subrange(i, i + 3)
                    + s.subrange(i + 3, j) + s.subrange(j, j + 3) + s.subrange(j + 3, s.len() as int));
            },
            None => {
                lemma_tail_join(s, last);
            },
        }
    } else {
        lemma_fences_from_join(s, i + 1, last);
    }
}

proof fn lemma_tail_join(s: Seq<char>, last: int)
    requires
        0 <= last <= s.len(),
    ensures
        join_chunks(fence_tail(s, last)) == s.subrange(last, s.len() as int),
{
    if last < s.len() {
        lemma_join_single((false, s.subrange(last, s.len() as int)));
    } else {
        assert(s.subrange(last, s.len() as int) =~= Seq::<char>::empty());
    }
}

/// Splitting on code fences loses nothing: putting the fences back around
/// the code chunks and joining all chunks gives the original text.
pub proof fn law_code_chunks_rejoin(s: Seq<char>)
    ensures
        join_chunks(code_chunks(s)) == s,
{
    lemma_fences_from_join(s, 0, 0);
    assert(s.subrange(0, s.len() as int) =~= s);
}

/// The shape of the chunks of a text: no code chunk holds a fence, every
/// plain chunk is non-empty, and a plain chunk is followed by a code chunk
/// or by nothing.
pub open spec fn chunks_shaped(cs: Seq<(bool, Seq<char>)>) -> bool {
    &&& forall|k: int| 0 <= k < cs.len() && (#[trigger] cs[k]).0 ==> !crate::text::contains(cs[k].1, fence())
    &&& forall|k: int| 0 <= k < cs.len() && !(#[trigger] cs[k]).0 ==> cs[k].1.len() > 0
    &&& forall|k: int| 0 <= k < cs.len() - 1 && !(#[trigger] cs[k]).0 ==> cs[k + 1].0
}

proof fn lemma_no_fence_between(s: Seq<char>, a: int, j: int)
    requires
        0 <= a <= j <= s.len(),
        forall|q: int| a <= q < j ==> !matches_at(s, fence(), q),
    ensures
        !crate::text::contains(s.subrange(a, j), fence()),
{
    let sub = s.subrange(a, j);
    lemma_find_from(sub, fence(), 0);
    if let Some(p) = find_from(sub, fence(), 0) {
        assert(sub.subrange(p, p + 3) =~= s.subrange(a + p, a + p + 3));
        assert(matches_at(s, fence(), a + p));
    }
}

proof fn lemma_fences_from_shaped(s: Seq<char>, i: int, last: int)
    requires
        0 <= last <= i,
    ensures
        chunks_shaped(fences_from(s, i, last)),
    decreases s.len() - i,
{
    if i + 3 > s.len() || last > s.len() {
    } else if matches_at(s, fence(), i) {
        lemma_find_from(s, fence(), i + 3);
        match find_from(s, fence(), i + 3) {
            Some(j) => {
                lemma_fences_from_shaped(s, j + 3, j + 3);
                lemma_no_fence_between(s, i + 3, j);
                let head = (if last < i {
                    seq![(false, s.subrange(last, i))]
                } else {
                    Seq::<(bool, Seq<char>)>::empty()
                });
                let code = seq![(true, s.subrange(i + 3, j))];
                let rest = fences_from(s, j + 3, j + 3);
                let all = head + code + rest;
                assert(all == fences_from(s, i, last));
                assert forall|k: int| 0 <= k < all.len() && (#[trigger] all[k]).0 implies !crate::text::contains(all[k].1, fence()) by {
                    if k == head.len() {
                    } else if k > head.len() {
                        assert(all[k] == rest[k - head.len() - 1]);
                    }
                }
                assert forall|k: int| 0 <= k < all.len() && !(#[trigger] all[k]).0 implies all[k].1.len() > 0 by {
                    if k > head.len() {
                        assert(all[k] == rest[k - head.len() - 1]);
                    }
                }
                assert forall|k: int| 0 <= k < all.len() - 1 && !(#[trigger] all[k]).0 implies all[k + 1].0 by {
                    if k > head.len() {
                        assert(all[k] == rest[k - head.len() - 1]);
                        assert(all[k + 1] == rest[k - head.len()]);
                    }
                }
            },
            None => {},
        }
    } else {
        lemma_fences_from_shaped(s, i + 1, last);
    }
}

/// Splitting on code fences gives chunks of the expected shape: no code
/// chunk holds a fence, no plain chunk is empty, and no two plain chunks
/// are adjacent.
pub proof fn law_code_chunks_shaped(s: Seq<char>)
    ensures
        chunks_shaped(code_chunks(s)),
{
    lemma_fences_from_shaped(s, 0, 0);
}

// ---------------------------------------------------------------------------
// Line prefixes
// ---------------------------------------------------------------------------

/// The color of quote bars and list markers.
pub open spec fn bar_style() -> Style {
    Style { fg: Some(Color::Cyan), ..plain() }
}

/// The style of quoted text.
pub open spec fn quote_style() -> Style {
    with_modifier(Style { fg: Some(Color::DarkGray), ..plain() }, ITALIC)
}

/// Number of ASCII digits at the start of `s` from `i` on.
pub open spec fn digits_from(s: Seq<char>, i: int) -> int
    decreases s.len() - i,
{
    if i < 0 || i >= s.len() || !('0' <= s[i] && s[i] <= '9') {
        0
    } else {
        1 + digits_from(s, i + 1)
    }
}

pub proof fn lemma_digits_from(s: Seq<char>, i: int)
    requires
        0 <= i <= s.len(),
    ensures
        0 <= digits_from(s, i) <= s.len() - i,
        forall|k: int| i <= k < i + digits_from(s, i) ==> '0' <= #[trigger] s[k] && s[k] <= '9',
        i + digits_from(s, i) < s.len() ==> !('0' <= s[i + digits_from(s, i)] && s[i
            + digits_from(s, i)] <= '9'),
    decreases s.len() - i,
{
    if i < s.len() && '0' <= s[i] && s[i] <= '9' {
        lemma_digits_from(s, i + 1);
    }
}

/// How a line starts: prefix spans to show, the content after the prefix,
/// and the base style for the content.
pub open spec fn line_prefix(line: Seq<char>) -> (Seq<(Seq<char>, Style)>, Seq<char>, Option<Style>) {
    let d = digits_from(line, 0);
    if line.len() >= 2 && line[0] == '>' && line[1] == ' ' {
        (seq![(seq!['\u{258E}', ' '], bar_style())], line.subrange(2, line.len() as int), Some(quote_style()))
    } else if line =~= seq!['>'] {
        (seq![(seq!['\u{258E}'], bar_style())], Seq::empty(), None)
    } else if line.len() >= 2 && line[0] == '\u{2022}' && line[1] == ' ' {
        (seq![(seq!['\u{2022}', ' '], bar_style())], line.subrange(2, line.len() as int), None)
    } else if line.len() >= 2 && line[0] == '-' && line[1] == ' ' {
        (seq![(seq!['\u{2022}', ' '], bar_style())], line.subrange(2, line.len() as int), None)
    } else if d > 0 && d + 1 < line.len() && (line[d] == '.' || line[d] == ')') && line[d + 1] == ' ' {
        (seq![(line.subrange(0, d + 2), bar_style())], line.subrange(d + 2, line.len() as int), None)
    } else {
        (Seq::empty(), line, None)
    }
}

fn bar_style_exec() -> (s: Style)
    ensures
        s == bar_style(),
{
    Style::new().fg(Color::Cyan)
}

fn two_chars(a: char, b: char) -> (s: String)
    ensures
        s@ == seq![a, b],
{
    let mut s = String::new();
    s.push(a);
    s.push(b);
    assert(s@ =~= seq![a, b]);
    s
}

/// Detect line-level prefixes (blockquote, list bullet, numbered list).
/// Returns the styled prefix spans, the remaining content, and an optional
/// base style to apply to the content.
pub fn classify_line_prefix(line: &str) -> (r: (Vec<StyledSpan>, String, Option<Style>))
    ensures
        spans_view(r.0@) == line_prefix(line@).0,
        r.1@ == line_prefix(line@).1,
        r.2 == line_prefix(line@).2,
{
    let v = chars_of(line);
    let n = v.len();
    let mut prefix: Vec<StyledSpan> = Vec::new();
    proof {
        lemma_digits_from(v@, 0);
    }
    if n >= 2 && v[0] == '>' && v[1] == ' ' {
        prefix.push(StyledSpan::styled(two_chars('\u{258E}', ' '), bar_style_exec()));
        let base = Style::new().fg(Color::DarkGray).add_modifier(ITALIC);
        assert(spans_view(prefix@) =~= line_prefix(line@).0);
        return (prefix, string_of_range(&v, 2, n), Some(base));
    }
    if n == 1 && v[0] == '>' {
        let mut s = String::new();
        s.push('\u{258E}');
        prefix.push(StyledSpan::styled(s, bar_style_exec()));
        assert(v@ =~= seq!['>']);
        assert(spans_view(prefix@) =~= line_prefix(line@).0);
        return (prefix, String::new(), None);
    }
    if n >= 2 && (v[0] == '\u{2022}' || v[0] == '-') && v[1] == ' ' {
        assert(!(v@ =~= seq!['>']));
        prefix.push(StyledSpan::styled(two_chars('\u{2022}', ' '), bar_style_exec()));
        assert(spans_view(prefix@) =~= line_prefix(line@).0);
        return (prefix, string_of_range(&v, 2, n), None);
    }
    let mut d: usize = 0;
    while d < n && '0' <= v[d] && v[d] <= '9'
        invariant
            d <= n,
            n == v.len(),
            forall|k: int| 0 <= k < d ==> '0' <= #[trigger] v@[k] && v@[k] <= '9',
            d <= digits_from(v@, 0),
        decreases n - d,
    {
        proof {
            lemma_digits_prefix(v@, d as int);
        }
        d += 1;
    }
    proof {
        lemma_digits_exact(v@, d as int);
    }
    if n == 1 && v[0] == '>' {
        assert(false);
    }
    if d > 0 && n - d > 1 && (v[d] == '.' || v[d] == ')') && v[d + 1] == ' ' {
        prefix.push(StyledSpan::styled(string_of_range(&v, 0, d + 2), bar_style_exec()));
        assert(!(v@ =~= seq!['>']));
        assert(spans_view(prefix@) =~= line_prefix(line@).0);
        return (prefix, string_of_range(&v, d + 2, n), None);
    }
    proof {
        if v@ =~= seq!['>'] {
            assert(n == 1 && v@[0] == '>');
        }
    }
    assert(spans_view(prefix@) =~= line_prefix(line@).0);
    (prefix, string_of_range(&v, 0, n), None)
}

proof fn lemma_digits_prefix(s: Seq<char>, d: int)
    requires
        0 <= d < s.len(),
        forall|k: int| 0 <= k < d ==> '0' <= #[trigger] s[k] && s[k] <= '9',
        '0' <= s[d] && s[d] <= '9',
        d <= digits_from(s, 0),
    ensures
        d + 1 <= digits_from(s, 0),
{
    lemma_digits_count(s, 0, d + 1);
}

proof fn lemma_digits_count(s: Seq<char>, i: int, j: int)
    requires
        0 <= i <= j <= s.len(),
        forall|k: int| i <= k < j ==> '0' <= #[trigger] s[k] && s[k] <= '9',
    ensures
        digits_from(s, i) >= j - i,
    decreases j - i,
{
    lemma_digits_from(s, i);
    if i < j {
        assert('0' <= s[i] && s[i] <= '9');
        lemma_digits_count(s, i + 1, j);
    }
}

proof fn lemma_digits_exact(s: Seq<char>, d: int)
    requires
        0 <= d <= s.len(),
        forall|k: int| 0 <= k < d ==> '0' <= #[trigger] s[k] && s[k] <= '9',
        d == s.len() || !('0' <= s[d] && s[d] <= '9'),
    ensures
        digits_from(s, 0) == d,
{
    lemma_digits_stop(s, 0, d);
}

proof fn lemma_digits_stop(s: Seq<char>, i: int, d: int)
    requires
        0 <= i <= d <= s.len(),
        forall|k: int| i <= k < d ==> '0' <= #[trigger] s[k] && s[k] <= '9',
        d == s.len() || !('0' <= s[d] && s[d] <= '9'),
    ensures
        digits_from(s, i) == d - i,
    decreases d - i,
{
    if i < d {
        lemma_digits_stop(s, i + 1, d);
    }
}

// ---------------------------------------------------------------------------
// Inline mrkdwn
// ---------------------------------------------------------------------------

/// A character that may stand before an opening emphasis marker.
pub open spec fn left_boundary(c: char) -> bool {
    is_unicode_whitespace(c) || c == '(' || c == '[' || c == '{' || c == '<' || c == '"' || c
        == '\'' || c == '*' || c == '_' || c == '~' || c == '`'
}

/// A character that may stand after a closing emphasis marker.
pub open spec fn right_boundary(c: char) -> bool {
    is_unicode_whitespace(c) || c == ')' || c == ']' || c == '}' || c == '>' || c == '"' || c
        == '\'' || c == '.' || c == ',' || c == '!' || c == '?' || c == ';' || c == ':' || c == '*'
        || c == '_' || c == '~' || c == '`'
}

pub fn is_left_boundary(c: char) -> (b: bool)
    ensures
        b == left_boundary(c),
{
    c.is_whitespace() || c == '(' || c == '[' || c == '{' || c == '<' || c == '"' || c == '\''
        || c == '*' || c == '_' || c == '~' || c == '`'
}

pub fn is_right_boundary(c: char) -> (b: bool)
    ensures
        b == right_boundary(c),
{
    c.is_whitespace() || c == ')' || c == ']' || c == '}' || c == '>' || c == '"' || c == '\''
        || c == '.' || c == ',' || c == '!' || c == '?' || c == ';' || c == ':' || c == '*' || c
        == '_' || c == '~' || c == '`'
}

/// The emphasis markers.
pub open spec fn is_marker(c: char) -> bool {
    c == '*' || c == '_' || c == '~'
}

/// Inline and block code style.
pub open spec fn code_style() -> Style {
    Style { fg: Some(Color::LightYellow), bg: Some(Color::Rgb(55, 55, 65)), ..plain() }
}

/// The style an emphasis marker gives.
pub open spec fn marker_style(m: char) -> Style {
    if m == '*' {
        with_modifier(plain(), BOLD)
    } else if m == '_' {
        with_modifier(plain(), ITALIC)
    } else {
        with_modifier(plain(), CROSSED_OUT)
    }
}

/// The pending plain text as a span, if any.
pub open spec fn flush(buf: Seq<char>) -> Seq<(Seq<char>, Style)> {
    if buf.len() > 0 {
        seq![(buf, plain())]
    } else {
        Seq::empty()
    }
}

/// Skip newlines forward from `i` while below `b`.
pub open spec fn skip_nl_fwd(s: Seq<char>, i: int, b: int) -> int
    decreases b - i,
{
    if 0 <= i < b && b <= s.len() && s[i] == '\n' {
        skip_nl_fwd(s, i + 1, b)
    } else {
        i
    }
}

/// Skip newlines backward from `j` while above `lo`.
pub open spec fn skip_nl_back(s: Seq<char>, lo: int, j: int) -> int
    decreases j - lo,
{
    if 0 <= lo < j && j <= s.len() && s[j - 1] == '\n' {
        skip_nl_back(s, lo, j - 1)
    } else {
        j
    }
}

pub proof fn lemma_skip_nl_fwd(s: Seq<char>, i: int, b: int)
    requires
        0 <= i <= b <= s.len(),
    ensures
        i <= skip_nl_fwd(s, i, b) <= b,
    decreases b - i,
{
    if i < b && s[i] == '\n' {
        lemma_skip_nl_fwd(s, i + 1, b);
    }
}

pub proof fn lemma_skip_nl_back(s: Seq<char>, lo: int, j: int)
    requires
        0 <= lo <= j <= s.len(),
    ensures
        lo <= skip_nl_back(s, lo, j) <= j,
    decreases j - lo,
{
    if lo < j && s[j - 1] == '\n' {
        lemma_skip_nl_back(s, lo, j - 1);
    }
}

/// Position of the closing emphasis marker `m` from `j` on: a marker after
/// a non-space, non-marker character and before a right boundary or the end;
/// the search stops at a line break.
pub open spec fn closing_from(s: Seq<char>, m: char, j: int) -> Option<int>
    decreases s.len() - j,
{
    if j < 1 || j >= s.len() {
        None
    } else if s[j] == m {
        if !is_unicode_whitespace(s[j - 1]) && s[j - 1] != m && (j + 1 >= s.len() || right_boundary(
            s[j + 1],
        )) {
            Some(j)
        } else {
            closing_from(s, m, j + 1)
        }
    } else if s[j] == '\n' {
        None
    } else {
        closing_from(s, m, j + 1)
    }
}

pub proof fn lemma_closing_from(s: Seq<char>, m: char, j: int)
    ensures
        closing_from(s, m, j) matches Some(k) ==> j <= k < s.len() && 1 <= k,
    decreases s.len() - j,
{
    if 1 <= j < s.len() {
        lemma_closing_from(s, m, j + 1);
    }
}

/// Whether an emphasis run opens at `i`.
pub open spec fn opens_emphasis(s: Seq<char>, i: int) -> bool {
    &&& 0 <= i < s.len()
    &&& is_marker(s[i])
    &&& (i == 0 || left_boundary(s[i - 1]))
    &&& i + 1 < s.len() && !is_unicode_whitespace(s[i + 1]) && s[i + 1] != s[i]
    &&& closing_from(s, s[i], i + 1) is Some
}

/// Spans of `s` from `i` on, with `buf` the plain text collected so far.
pub open spec fn mrkdwn_from(s: Seq<char>, i: int, buf: Seq<char>) -> Seq<(Seq<char>, Style)>
    decreases s.len() - i,
{
    if i < 0 || i >= s.len() {
        flush(buf)
    } else if matches_at(s, fence(), i) && find_from(s, fence(), i + 3) is Some {
        proof {
            lemma_find_from(s, fence(), i + 3);
        }
        let end = find_from(s, fence(), i + 3)->0;
        let lo = skip_nl_fwd(s, i + 3, end);
        let hi = skip_nl_back(s, lo, end);
        flush(buf) + seq![(s.subrange(lo, hi), code_style())] + mrkdwn_from(s, end + 3, Seq::empty())
    } else if s[i] == '`' && index_of_from(s, '`', i + 1) is Some && index_of_from(s, '`', i + 1)->0
        > i + 1 {
        proof {
            lemma_index_of_from(s, '`', i + 1);
        }
        let k = index_of_from(s, '`', i + 1)->0;
        flush(buf) + seq![(s.subrange(i + 1, k), code_style())] + mrkdwn_from(s, k + 1, Seq::empty())
    } else if opens_emphasis(s, i) {
        proof {
            lemma_closing_from(s, s[i], i + 1);
        }
        let end = closing_from(s, s[i], i + 1)->0;
        flush(buf) + seq![(s.subrange(i + 1, end), marker_style(s[i]))] + mrkdwn_from(
            s,
            end + 1,
            Seq::empty(),
        )
    } else {
        mrkdwn_from(s, i + 1, buf.push(s[i]))
    }
}

/// The spans that mrkdwn text renders as.
pub open spec fn mrkdwn_spans(s: Seq<char>) -> Seq<(Seq<char>, Style)> {
    mrkdwn_from(s, 0, Seq::empty())
}

fn code_style_exec() -> (s: Style)
    ensures
        s == code_style(),
{
    Style::new().fg(Color::LightYellow).bg(Color::Rgb(55, 55, 65))
}

fn marker_style_exec(m: char) -> (s: Style)
    ensures
        s == marker_style(m),
{
    if m == '*' {
        Style::new().add_modifier(BOLD)
    } else if m == '_' {
        Style::new().add_modifier(ITALIC)
    } else {
        Style::new().add_modifier(CROSSED_OUT)
    }
}

fn closing_exec(v: &Vec<char>, m: char, from: usize) -> (r: Option<usize>)
    requires
        1 <= from,
    ensures
        r == (match closing_from(v@, m, from as int) {
            Some(k) => Some(k as usize),
            None => None::<usize>,
        }),
{
    proof {
        lemma_closing_from(v@, m, from as int);
    }
    let n = v.len();
    let mut j = from;
    while j < n
        invariant
            1 <= from <= j,
            n == v.len(),
            closing_from(v@, m, from as int) == closing_from(v@, m, j as int),
        decreases n - j,
    {
        proof {
            lemma_closing_from(v@, m, j as int);
        }
        if v[j] == m {
            let prev = v[j - 1];
            let right_ok = j + 1 >= n || is_right_boundary(v[j + 1]);
            if !prev.is_whitespace() && prev != m && right_ok {
                return Some(j);
            }
        } else if v[j] == '\n' {
            return None;
        }
        j += 1;
    }
    None
}

/// Parse inline mrkdwn: ```block```, `code`, *bold*, _italic_, ~strike~.
#[verifier::rlimit(80)]
pub fn parse_mrkdwn_spans(text: &str) -> (r: Vec<StyledSpan>)
    ensures
        spans_view(r@) == mrkdwn_spans(text@),
{
    let v = chars_of(text);
    let n = v.len();
    let f = fence_exec();
    let mut out: Vec<StyledSpan> = Vec::new();
    let mut buf = String::new();
    let mut i: usize = 0;
    while i < n
        invariant
            i <= n,
            n == v.len(),
            v@ == text@,
            f@ == fence(),
            spans_view(out@) + mrkdwn_from(v@, i as int, buf@) == mrkdwn_spans(v@),
        decreases n - i,
    {
        let ghost out0 = spans_view(out@);
        let ghost buf0 = buf@;
        if matches_at_exec(&v, &f, i) {
            proof {
                lemma_find_from(v@, fence(), i + 3);
            }
            if let Some(end) = find_seq(&v, i + 3, &f) {
                proof {
                    lemma_skip_nl_fwd(v@, i + 3, end as int);
                }
                let mut lo = i + 3;
                while lo < end && v[lo] == '\n'
                    invariant
                        i + 3 <= lo <= end,
                        end <= n,
                        n == v.len(),
                        skip_nl_fwd(v@, lo as int, end as int) == skip_nl_fwd(v@, i + 3, end as int),
                    decreases end - lo,
                {
                    lo += 1;
                }
                proof {
                    lemma_skip_nl_back(v@, lo as int, end as int);
                }
                let mut hi = end;
                while hi > lo && v[hi - 1] == '\n'
                    invariant
                        lo <= hi <= end,
                        end <= n,
                        n == v.len(),
                        skip_nl_back(v@, lo as int, hi as int) == skip_nl_back(v@, lo as int, end as int),
                    decreases hi - lo,
                {
                    hi -= 1;
                }
                if !buf.as_str().is_empty() {
                    out.push(StyledSpan::raw(buf));
                }
                buf = String::new();
                out.push(StyledSpan::styled(string_of_range(&v, lo, hi), code_style_exec()));
                assert(spans_view(out@) =~= out0 + flush(buf0) + seq![(v@.subrange(lo as int, hi as int), code_style())]);
                assert(out0 + mrkdwn_from(v@, i as int, buf0) =~= spans_view(out@) + mrkdwn_from(v@, end + 3, buf@));
                i = end + 3;
                continue;
            }
        }
        proof {
            lemma_index_of_from(v@, '`', i + 1);
        }
        if v[i] == '`' {
            if let Some(k) = find_char(&v, i + 1, '`') {
                if k > i + 1 {
                    if !buf.as_str().is_empty() {
                        out.push(StyledSpan::raw(buf));
                    }
                    buf = String::new();
                    out.push(StyledSpan::styled(string_of_range(&v, i + 1, k), code_style_exec()));
                    assert(spans_view(out@) =~= out0 + flush(buf0) + seq![(v@.subrange(i + 1, k as int), code_style())]);
                    assert(out0 + mrkdwn_from(v@, i as int, buf0) =~= spans_view(out@) + mrkdwn_from(v@, k + 1, buf@));
                    i = k + 1;
                    continue;
                }
            }
        }
        let m = v[i];
        if m == '*' || m == '_' || m == '~' {
            let left_ok = i == 0 || is_left_boundary(v[i - 1]);
            let next_ok = i + 1 < n && !v[i + 1].is_whitespace() && v[i + 1] != m;
            if left_ok && next_ok {
                proof {
                    lemma_closing_from(v@, m, i + 1);
                }
                if let Some(end) = closing_exec(&v, m, i + 1) {
                    if !buf.as_str().is_empty() {
                        out.push(StyledSpan::raw(buf));
                    }
                    buf = String::new();
                    out.push(StyledSpan::styled(string_of_range(&v, i + 1, end), marker_style_exec(m)));
                    assert(opens_emphasis(v@, i as int));
                    assert(spans_view(out@) =~= out0 + flush(buf0) + seq![(v@.subrange(i + 1, end as int), marker_style(m))]);
                    assert(out0 + mrkdwn_from(v@, i as int, buf0) =~= spans_view(out@) + mrkdwn_from(v@, end + 1, buf@));
                    i = end + 1;
                    continue;
                }
            }
        }
        buf.push(v[i]);
        i += 1;
    }
    if !buf.as_str().is_empty() {
        let ghost out0 = spans_view(out@);
        let ghost b = buf@;
        out.push(StyledSpan::raw(buf));
        assert(spans_view(out@) =~= out0 + flush(b));
    } else {
        assert(spans_view(out@) =~= spans_view(out@) + flush(buf@));
    }
    out
}

/// Spans of `s` from `i` on as the compose preview shows them, with `buf`
/// the plain text collected so far: code and emphasis are styled as in
/// `mrkdwn_from`, but every character stays, fences, backticks and
/// emphasis markers included.
pub open spec fn visible_from(s: Seq<char>, i: int, buf: Seq<char>) -> Seq<(Seq<char>, Style)>
    decreases s.len() - i,
{
    if i < 0 || i >= s.len() {
        flush(buf)
    } else if matches_at(s, fence(), i) && find_from(s, fence(), i + 3) is Some {
        proof {
            lemma_find_from(s, fence(), i + 3);
        }
        let end = find_from(s, fence(), i + 3)->0;
        flush(buf) + seq![(s.subrange(i, end + 3), code_style())] + visible_from(s, end + 3, Seq::empty())
    } else if s[i] == '`' && index_of_from(s, '`', i + 1) is Some && index_of_from(s, '`', i + 1)->0
        > i + 1 {
        proof {
            lemma_index_of_from(s, '`', i + 1);
        }
        let k = index_of_from(s, '`', i + 1)->0;
        flush(buf) + seq![(s.subrange(i, k + 1), code_style())] + visible_from(s, k + 1, Seq::empty())
    } else if opens_emphasis(s, i) {
        proof {
            lemma_closing_from(s, s[i], i + 1);
        }
        let end = closing_from(s, s[i], i + 1)->0;
        flush(buf) + seq![(s.subrange(i, end + 1), marker_style(s[i]))] + visible_from(
            s,
            end + 1,
            Seq::empty(),
        )
    } else {
        visible_from(s, i + 1, buf.push(s[i]))
    }
}

/// The spans mrkdwn text shows in the compose preview: styled like
/// `mrkdwn_spans`, with every character of the text kept.
pub open spec fn visible_mrkdwn_spans(s: Seq<char>) -> Seq<(Seq<char>, Style)> {
    visible_from(s, 0, Seq::empty())
}

/// The texts of spans, one after another.
pub open spec fn span_texts(sp: Seq<(Seq<char>, Style)>) -> Seq<char>
    decreases sp.len(),
{
    if sp.len() == 0 {
        Seq::empty()
    } else {
        span_texts(sp.drop_last()) + sp.last().0
    }
}

pub proof fn lemma_span_texts_append(a: Seq<(Seq<char>, Style)>, b: Seq<(Seq<char>, Style)>)
    ensures
        span_texts(a + b) == span_texts(a) + span_texts(b),
    decreases b.len(),
{
    if b.len() == 0 {
        assert(a + b =~= a);
        assert(span_texts(a) + span_texts(b) =~= span_texts(a));
    } else {
        assert((a + b).drop_last() =~= a + b.drop_last());
        lemma_span_texts_append(a, b.drop_last());
        assert(span_texts(a + b) =~= span_texts(a) + (span_texts(b.drop_last()) + b.last().0));
    }
}

pub proof fn lemma_span_texts_single(x: (Seq<char>, Style))
    ensures
        span_texts(seq![x]) == x.0,
{
    let one = seq![x];
    assert(one.drop_last() =~= Seq::<(Seq<char>, Style)>::empty());
    assert(span_texts(one.drop_last()) == Seq::<char>::empty());
    assert(one.last() == x);
    assert(Seq::<char>::empty() + x.0 =~= x.0);
}

proof fn lemma_flush_text(buf: Seq<char>)
    ensures
        span_texts(flush(buf)) == buf,
{
    if buf.len() > 0 {
        lemma_span_texts_single((buf, plain()));
    } else {
        assert(buf =~= Seq::<char>::empty());
    }
}

proof fn lemma_visible_from_text(s: Seq<char>, i: int, buf: Seq<char>)
    requires
        0 <= i <= s.len(),
    ensures
        span_texts(visible_from(s, i, buf)) == buf + s.skip(i),
    decreases s.len() - i,
{
    lemma_flush_text(buf);
    if i >= s.len() {
        assert(buf + s.skip(i) =~= buf);
    } else if matches_at(s, fence(), i) && find_from(s, fence(), i + 3) is Some {
        lemma_find_from(s, fence(), i + 3);
        let end = find_from(s, fence(), i + 3)->0;
        let x = (s.subrange(i, end + 3), code_style());
        lemma_visible_from_text(s, end + 3, Seq::empty());
        lemma_span_texts_append(flush(buf) + seq![x], visible_from(s, end + 3, Seq::empty()));
        lemma_span_texts_append(flush(buf), seq![x]);
        lemma_span_texts_single(x);
        assert(buf + s.skip(i) =~= buf + s.subrange(i, end + 3) + (Seq::<char>::empty() + s.skip(end + 3)));
    } else if s[i] == '`' && index_of_from(s, '`', i + 1) is Some && index_of_from(s, '`', i + 1)->0 > i + 1 {
        lemma_index_of_from(s, '`', i + 1);
        let k = index_of_from(s, '`', i + 1)->0;
        let x = (s.subrange(i, k + 1), code_style());
        lemma_visible_from_text(s, k + 1, Seq::empty());
        lemma_span_texts_append(flush(buf) + seq![x], visible_from(s, k + 1, Seq::empty()));
        lemma_span_texts_append(flush(buf), seq![x]);
        lemma_span_texts_single(x);
        assert(buf + s.skip(i) =~= buf + s.subrange(i, k + 1) + (Seq::<char>::empty() + s.skip(k + 1)));
    } else if opens_emphasis(s, i) {
        lemma_closing_from(s, s[i], i + 1);
        let end = closing_from(s, s[i], i + 1)->0;
        let x = (s.subrange(i, end + 1), marker_style(s[i]));
        lemma_visible_from_text(s, end + 1, Seq::empty());
        lemma_span_texts_append(flush(buf) + seq![x], visible_from(s, end + 1, Seq::empty()));
        lemma_span_texts_append(flush(buf), seq![x]);
        lemma_span_texts_single(x);
        assert(buf + s.skip(i) =~= buf + s.subrange(i, end + 1) + (Seq::<char>::empty() + s.skip(end + 1)));
    } else {
        lemma_visible_from_text(s, i + 1, buf.push(s[i]));
        assert(buf + s.skip(i) =~= buf.push(s[i]) + s.skip(i + 1));
    }
}

/// The compose preview keeps every character: its spans, one after
/// another, spell out the text exactly.
pub proof fn law_visible_spans_keep_text(s: Seq<char>)
    ensures
        span_texts(visible_mrkdwn_spans(s)) == s,
{
    lemma_visible_from_text(s, 0, Seq::empty());
    assert(Seq::<char>::empty() + s.skip(0) =~= s);
}

/// Parses mrkdwn as the compose preview shows it; see
/// `visible_mrkdwn_spans`.
#[verifier::rlimit(60)]
pub fn parse_visible_mrkdwn_spans(text: &str) -> (r: Vec<StyledSpan>)
    ensures
        spans_view(r@) == visible_mrkdwn_spans(text@),
{
    let v = chars_of(text);
    let n = v.len();
    let f = fence_exec();
    let mut out: Vec<StyledSpan> = Vec::new();
    let mut buf = String::new();
    let mut i: usize = 0;
    while i < n
        invariant
            i <= n,
            n == v.len(),
            v@ == text@,
            f@ == fence(),
            spans_view(out@) + visible_from(v@, i as int, buf@) == visible_mrkdwn_spans(v@),
        decreases n - i,
    {
        let ghost out0 = spans_view(out@);
        let ghost buf0 = buf@;
        if matches_at_exec(&v, &f, i) {
            proof {
                lemma_find_from(v@, fence(), i + 3);
            }
            if let Some(end) = find_seq(&v, i + 3, &f) {
                if !buf.as_str().is_empty() {
                    out.push(StyledSpan::raw(buf));
                }
                buf = String::new();
                out.push(StyledSpan::styled(string_of_range(&v, i, end + 3), code_style_exec()));
                assert(spans_view(out@) =~= out0 + flush(buf0) + seq![(v@.subrange(i as int, end + 3), code_style())]);
                assert(out0 + visible_from(v@, i as int, buf0) =~= spans_view(out@) + visible_from(v@, end + 3, buf@));
                i = end + 3;
                continue;
            }
        }
        proof {
            lemma_index_of_from(v@, '`', i + 1);
        }
        if v[i] == '`' {
            if let Some(k) = find_char(&v, i + 1, '`') {
                if k > i + 1 {
                    if !buf.as_str().is_empty() {
                        out.push(StyledSpan::raw(buf));
                    }
                    buf = String::new();
                    out.push(StyledSpan::styled(string_of_range(&v, i, k + 1), code_style_exec()));
                    assert(spans_view(out@) =~= out0 + flush(buf0) + seq![(v@.subrange(i as int, k + 1), code_style())]);
                    assert(out0 + visible_from(v@, i as int, buf0) =~= spans_view(out@) + visible_from(v@, k + 1, buf@));
                    i = k + 1;
                    continue;
                }
            }
        }
        let m = v[i];
        if m == '*' || m == '_' || m == '~' {
            let left_ok = i == 0 || is_left_boundary(v[i - 1]);
            let next_ok = i + 1 < n && !v[i + 1].is_whitespace() && v[i + 1] != m;
            if left_ok && next_ok {
                proof {
                    lemma_closing_from(v@, m, i + 1);
                }
                if let Some(end) = closing_exec(&v, m, i + 1) {
                    if !buf.as_str().is_empty() {
                        out.push(StyledSpan::raw(buf));
                    }
                    buf = String::new();
                    out.push(StyledSpan::styled(string_of_range(&v, i, end + 1), marker_style_exec(m)));
                    assert(opens_emphasis(v@, i as int));
                    assert(spans_view(out@) =~= out0 + flush(buf0) + seq![(v@.subrange(i as int, end + 1), marker_style(m))]);
                    assert(out0 + visible_from(v@, i as int, buf0) =~= spans_view(out@) + visible_from(v@, end + 1, buf@));
                    i = end + 1;
                    continue;
                }
            }
        }
        buf.push(v[i]);
        i += 1;
    }
    if !buf.as_str().is_empty() {
        let ghost out0 = spans_view(out@);
        let ghost b = buf@;
        out.push(StyledSpan::raw(buf));
        assert(spans_view(out@) =~= out0 + flush(b));
    } else {
        assert(spans_view(out@) =~= spans_view(out@) + flush(buf@));
    }
    out
}

// ---------------------------------------------------------------------------
// Chips
// ---------------------------------------------------------------------------

/// The closing sentinel that pairs with an opening one.
pub open spec fn closer_of(c: char) -> Option<char> {
    if c == '\u{E000}' {
        Some('\u{E001}')
    } else if c == '\u{E002}' {
        Some('\u{E003}')
    } else if c == '\u{E004}' {
        Some('\u{E005}')
    } else if c == '\u{E006}' {
        Some('\u{E007}')
    } else {
        None
    }
}

/// Mention and channel chips.
pub open spec fn mention_chip_style() -> Style {
    with_modifier(Style { fg: Some(Color::White), bg: Some(Color::Rgb(67, 108, 191)), ..plain() }, BOLD)
}

/// Broadcast chips.
pub open spec fn broadcast_chip_style() -> Style {
    with_modifier(Style { fg: Some(Color::White), bg: Some(Color::Rgb(190, 60, 60)), ..plain() }, BOLD)
}

/// Link chips.
pub open spec fn link_chip_style() -> Style {
    with_modifier(Style { fg: Some(Color::Cyan), ..plain() }, UNDERLINED)
}

/// The chip style an opening sentinel selects.
pub open spec fn chip_style(c: char) -> Style {
    if c == '\u{E004}' {
        broadcast_chip_style()
    } else if c == '\u{E006}' {
        link_chip_style()
    } else {
        mention_chip_style()
    }
}

/// Pending text in the span's own style, if any.
pub open spec fn flush_styled(buf: Seq<char>, base: Style) -> Seq<(Seq<char>, Style)> {
    if buf.len() > 0 {
        seq![(buf, base)]
    } else {
        Seq::empty()
    }
}

/// The pieces of one span's text `s` from `i` on: sentinel-delimited chips in
/// the chip style over the span's style, other text in the span's style.
pub open spec fn chips_from(s: Seq<char>, i: int, buf: Seq<char>, base: Style) -> Seq<(Seq<char>, Style)>
    decreases s.len() - i,
{
    if i < 0 || i >= s.len() {
        flush_styled(buf, base)
    } else if closer_of(s[i]) is Some && index_of_from(s, closer_of(s[i])->0, i + 1) is Some {
        proof {
            lemma_index_of_from(s, closer_of(s[i])->0, i + 1);
        }
        let k = index_of_from(s, closer_of(s[i])->0, i + 1)->0;
        flush_styled(buf, base) + seq![(s.subrange(i + 1, k), patched(base, chip_style(s[i])))]
            + chips_from(s, k + 1, Seq::empty(), base)
    } else {
        chips_from(s, i + 1, buf.push(s[i]), base)
    }
}

/// All spans split into chips.
pub open spec fn chip_spans(spans: Seq<(Seq<char>, Style)>) -> Seq<(Seq<char>, Style)>
    decreases spans.len(),
{
    if spans.len() == 0 {
        Seq::empty()
    } else {
        chip_spans(spans.drop_last()) + chips_from(spans.last().0, 0, Seq::empty(), spans.last().1)
    }
}

fn chip_style_exec(c: char) -> (s: Style)
    ensures
        s == chip_style(c),
{
    if c == '\u{E004}' {
        Style::new().fg(Color::White).bg(Color::Rgb(190, 60, 60)).add_modifier(BOLD)
    } else if c == '\u{E006}' {
        Style::new().fg(Color::Cyan).add_modifier(UNDERLINED)
    } else {
        Style::new().fg(Color::White).bg(Color::Rgb(67, 108, 191)).add_modifier(BOLD)
    }
}

fn closer_exec(c: char) -> (r: Option<char>)
    ensures
        r == closer_of(c),
{
    if c == '\u{E000}' {
        Some('\u{E001}')
    } else if c == '\u{E002}' {
        Some('\u{E003}')
    } else if c == '\u{E004}' {
        Some('\u{E005}')
    } else if c == '\u{E006}' {
        Some('\u{E007}')
    } else {
        None
    }
}

/// Splits one span into chips, appending the pieces to `out`.
fn chips_of_span(span: StyledSpan, out: &mut Vec<StyledSpan>)
    ensures
        spans_view(final(out)@) == spans_view(old(out)@) + chips_from(span.content@, 0, Seq::empty(), span.style),
{
    let base = span.style;
    let v = chars_of(span.content.as_str());
    let n = v.len();
    let mut i: usize = 0;
    let mut buf = String::new();
    let ghost start = spans_view(out@);
    while i < n
        invariant
            i <= n,
            n == v.len(),
            v@ == span.content@,
            base == span.style,
            spans_view(out@) + chips_from(v@, i as int, buf@, base) == start + chips_from(v@, 0, Seq::empty(), base),
        decreases n - i,
    {
        let ghost out0 = spans_view(out@);
        let ghost buf0 = buf@;
        let c = v[i];
        if let Some(closer) = closer_exec(c) {
            proof {
                lemma_index_of_from(v@, closer, i + 1);
            }
            if let Some(k) = find_char(&v, i + 1, closer) {
                if !buf.as_str().is_empty() {
                    out.push(StyledSpan::styled(buf, base));
                }
                buf = String::new();
                out.push(StyledSpan::styled(string_of_range(&v, i + 1, k), base.patch(chip_style_exec(c))));
                assert(spans_view(out@) =~= out0 + flush_styled(buf0, base) + seq![(v@.subrange(i + 1, k as int), patched(base, chip_style(c)))]);
                assert(out0 + chips_from(v@, i as int, buf0, base) =~= spans_view(out@) + chips_from(v@, k + 1, buf@, base));
                i = k + 1;
                continue;
            }
        }
        buf.push(c);
        i += 1;
    }
    let ghost out0 = spans_view(out@);
    let ghost b = buf@;
    if !buf.as_str().is_empty() {
        out.push(StyledSpan::styled(buf, base));
    }
    assert(spans_view(out@) =~= out0 + flush_styled(b, base));
}

/// Walk parsed mrkdwn spans and split each span on chip sentinels, emitting
/// chip-styled spans for the marked ranges.
pub fn extract_chip_spans(spans: Vec<StyledSpan>) -> (r: Vec<StyledSpan>)
    ensures
        spans_view(r@) == chip_spans(spans_view(spans@)),
{
    let ghost sv = spans_view(spans@);
    let n0 = spans.len();
    let mut out: Vec<StyledSpan> = Vec::new();
    let mut rest = spans;
    let ghost total = sv.len();
    // process in order: reverse the input so that pop() yields the front
    let mut rev: Vec<StyledSpan> = Vec::new();
    while rest.len() > 0
        invariant
            total == sv.len(),
            rev@.len() + rest@.len() == total,
            forall|j: int| 0 <= j < rest@.len() ==> #[trigger] span_view(rest@[j]) == sv[j],
            forall|j: int| 0 <= j < rev@.len() ==> #[trigger] span_view(rev@[j]) == sv[total - 1 - j],
        decreases rest.len(),
    {
        let s = rest.pop().unwrap();
        rev.push(s);
    }
    let mut k: usize = 0;
    while rev.len() > 0
        invariant
            total == sv.len(),
            total == n0,
            k + rev@.len() == total,
            forall|j: int| 0 <= j < rev@.len() ==> #[trigger] span_view(rev@[j]) == sv[total - 1 - j],
            spans_view(out@) == chip_spans(sv.take(k as int)),
        decreases rev.len(),
    {
        let s = rev.pop().unwrap();
        assert(span_view(s) == sv[k as int]);
        chips_of_span(s, &mut out);
        assert(sv.take(k + 1).drop_last() =~= sv.take(k as int));
        k += 1;
    }
    assert(sv.take(total as int) =~= sv);
    out
}

// ---------------------------------------------------------------------------
// Slack `<...>` tokens
// ---------------------------------------------------------------------------

/// `body` split at its first `|` into the part before and the label after.
pub open spec fn split_bar(body: Seq<char>) -> (Seq<char>, Option<Seq<char>>) {
    match index_of_from(body, '|', 0) {
        Some(p) => (body.subrange(0, p), Some(body.subrange(p + 1, body.len() as int))),
        None => (body, None),
    }
}

/// A label that is present and non-empty.
pub open spec fn usable_label(l: Option<Seq<char>>) -> bool {
    l is Some && l->0.len() > 0
}

/// The body of a token after its first character.
pub open spec fn token_body(inner: Seq<char>) -> Seq<char> {
    inner.subrange(1, inner.len() as int)
}

/// The user id a mention token asks the resolver for: only when it carries
/// no usable label.
pub open spec fn token_mention_id(inner: Seq<char>) -> Option<Seq<char>> {
    if inner.len() > 0 && inner[0] == '@' && !usable_label(split_bar(token_body(inner)).1) {
        Some(split_bar(token_body(inner)).0)
    } else {
        None
    }
}

/// `kind` up to its first `^`.
pub open spec fn before_caret(kind: Seq<char>) -> Seq<char> {
    match index_of_from(kind, '^', 0) {
        Some(p) => kind.subrange(0, p),
        None => kind,
    }
}

/// The visible label of a `<!...>` broadcast token with body `body`.
pub open spec fn broadcast_label(body: Seq<char>) -> Seq<char> {
    let kind = split_bar(body).0;
    let lab = split_bar(body).1;
    if kind == "here"@ {
        "@here"@
    } else if kind == "channel"@ {
        "@channel"@
    } else if kind == "everyone"@ {
        "@everyone"@
    } else if crate::text::starts_with(kind, "subteam"@) && lab is Some {
        if lab->0.len() > 0 && lab->0[0] == '@' {
            lab->0
        } else {
            seq!['@'] + lab->0
        }
    } else if lab is Some {
        lab->0
    } else {
        seq!['@'] + before_caret(kind)
    }
}

/// What a token with contents `inner` becomes; `name` is what the resolver
/// returned when the token is a mention without a usable label.
pub open spec fn encode_token(inner: Seq<char>, name: Seq<char>) -> Seq<char> {
    if inner.len() == 0 {
        seq!['<', '>']
    } else if inner[0] == '@' {
        let lab = split_bar(token_body(inner)).1;
        let display = if usable_label(lab) {
            lab->0
        } else {
            name
        };
        seq!['\u{E000}', '@'] + display + seq!['\u{E001}']
    } else if inner[0] == '#' {
        let lab = split_bar(token_body(inner)).1;
        let display = if usable_label(lab) {
            lab->0
        } else {
            inner
        };
        seq!['\u{E002}', '#'] + display + seq!['\u{E003}']
    } else if inner[0] == '!' {
        seq!['\u{E004}'] + broadcast_label(token_body(inner)) + seq!['\u{E005}']
    } else if crate::text::starts_with(inner, "http://"@) || crate::text::starts_with(inner, "https://"@) {
        let visible = match index_of_from(inner, '|', 0) {
            Some(p) => inner.subrange(p + 1, inner.len() as int),
            None => inner,
        };
        seq!['\u{E006}'] + visible + seq!['\u{E007}']
    } else {
        inner
    }
}

/// The ids that the tokens from `pos` on ask the resolver for, in order.
pub open spec fn encode_ids_from(s: Seq<char>, pos: int) -> Seq<Seq<char>>
    decreases s.len() - pos,
{
    if pos < 0 || pos > s.len() {
        Seq::empty()
    } else {
        match index_of_from(s, '<', pos) {
            None => Seq::empty(),
            Some(st) => {
                proof {
                    lemma_index_of_from(s, '<', pos);
                    lemma_index_of_from(s, '>', st + 1);
                }
                match index_of_from(s, '>', st + 1) {
                    None => encode_ids_from(s, st + 1),
                    Some(e) => match token_mention_id(s.subrange(st + 1, e)) {
                        Some(id) => seq![id] + encode_ids_from(s, e + 1),
                        None => encode_ids_from(s, e + 1),
                    },
                }
            },
        }
    }
}

/// The text from `pos` on with its tokens encoded, taking resolver answers
/// from `names` in order.
pub open spec fn encode_from(s: Seq<char>, pos: int, names: Seq<Seq<char>>) -> Seq<char>
    decreases s.len() - pos,
{
    if pos < 0 || pos > s.len() {
        Seq::empty()
    } else {
        match index_of_from(s, '<', pos) {
            None => s.subrange(pos, s.len() as int),
            Some(st) => {
                proof {
                    lemma_index_of_from(s, '<', pos);
                    lemma_index_of_from(s, '>', st + 1);
                }
                match index_of_from(s, '>', st + 1) {
                    None => s.subrange(pos, st) + seq!['<'] + encode_from(s, st + 1, names),
                    Some(e) => {
                        let inner = s.subrange(st + 1, e);
                        if token_mention_id(inner) is Some {
                            s.subrange(pos, st) + encode_token(inner, names[0]) + encode_from(
                                s,
                                e + 1,
                                names.drop_first(),
                            )
                        } else {
                            s.subrange(pos, st) + encode_token(inner, Seq::empty()) + encode_from(
                                s,
                                e + 1,
                                names,
                            )
                        }
                    },
                }
            },
        }
    }
}

/// A copy of `v[lo..hi]`.
pub fn subvec(v: &Vec<char>, lo: usize, hi: usize) -> (r: Vec<char>)
    requires
        lo <= hi <= v.len(),
    ensures
        r@ == v@.subrange(lo as int, hi as int),
{
    let mut r: Vec<char> = Vec::new();
    let mut i = lo;
    while i < hi
        invariant
            lo <= i <= hi <= v.len(),
            r@ =~= v@.subrange(lo as int, i as int),
        decreases hi - i,
    {
        r.push(v[i]);
        i += 1;
    }
    r
}

/// Splits `body` at its first `|`: (end of the part before, start of the
/// label if any).
fn split_bar_exec(body: &Vec<char>) -> (r: (Vec<char>, Option<Vec<char>>))
    ensures
        r.0@ == split_bar(body@).0,
        match r.1 {
            Some(l) => split_bar(body@).1 == Some(l@),
            None => split_bar(body@).1 is None,
        },
{
    proof {
        lemma_index_of_from(body@, '|', 0);
    }
    match find_char(body, 0, '|') {
        Some(p) => (subvec(body, 0, p), Some(subvec(body, p + 1, body.len()))),
        None => {
            let c = subvec(body, 0, body.len());
            assert(body@.subrange(0, body@.len() as int) =~= body@);
            (c, None)
        },
    }
}

/// The id the token asks the resolver for, if any.
fn token_mention_id_exec(inner: &Vec<char>) -> (r: Option<Vec<char>>)
    ensures
        match r {
            Some(id) => token_mention_id(inner@) == Some(id@),
            None => token_mention_id(inner@) is None,
        },
{
    if inner.len() > 0 && inner[0] == '@' {
        let body = subvec(inner, 1, inner.len());
        let (id, lab) = split_bar_exec(&body);
        let usable = match &lab {
            Some(l) => l.len() > 0,
            None => false,
        };
        if !usable {
            return Some(id);
        }
    }
    None
}

fn push_vec(out: &mut String, v: &Vec<char>)
    ensures
        final(out)@ == old(out)@ + v@,
{
    push_range(out, v, 0, v.len());
    assert(v@.subrange(0, v@.len() as int) =~= v@);
}

/// Appends what the token `inner` becomes to `out`.
fn encode_one_token(inner: &Vec<char>, name: &Vec<char>, out: &mut String)
    ensures
        final(out)@ == old(out)@ + encode_token(inner@, name@),
{
    if inner.len() == 0 {
        out.push('<');
        out.push('>');
        assert(out@ =~= old(out)@ + encode_token(inner@, name@));
        return;
    }
    let first = inner[0];
    if first == '@' {
        let body = subvec(inner, 1, inner.len());
        let (_id, lab) = split_bar_exec(&body);
        out.push('\u{E000}');
        out.push('@');
        match &lab {
            Some(l) => {
                if l.len() > 0 {
                    push_vec(out, l);
                } else {
                    push_vec(out, name);
                }
            },
            None => push_vec(out, name),
        }
        out.push('\u{E001}');
        assert(out@ =~= old(out)@ + encode_token(inner@, name@));
    } else if first == '#' {
        let body = subvec(inner, 1, inner.len());
        let (_id, lab) = split_bar_exec(&body);
        out.push('\u{E002}');
        out.push('#');
        match &lab {
            Some(l) => {
                if l.len() > 0 {
                    push_vec(out, l);
                } else {
                    push_vec(out, inner);
                }
            },
            None => push_vec(out, inner),
        }
        out.push('\u{E003}');
        assert(out@ =~= old(out)@ + encode_token(inner@, name@));
    } else if first == '!' {
        let body = subvec(inner, 1, inner.len());
        let label = broadcast_label_exec(&body);
        out.push('\u{E004}');
        push_vec(out, &label);
        out.push('\u{E005}');
        assert(out@ =~= old(out)@ + encode_token(inner@, name@));
    } else {
        let http = chars_of("http://");
        let https = chars_of("https://");
        if matches_at_exec(inner, &http, 0) || matches_at_exec(inner, &https, 0) {
            proof {
                lemma_index_of_from(inner@, '|', 0);
            }
            out.push('\u{E006}');
            match find_char(inner, 0, '|') {
                Some(p) => push_range(out, inner, p + 1, inner.len()),
                None => push_vec(out, inner),
            }
            out.push('\u{E007}');
            assert(out@ =~= old(out)@ + encode_token(inner@, name@));
        } else {
            push_vec(out, inner);
        }
    }
}

/// The visible label of a broadcast token body.
fn broadcast_label_exec(body: &Vec<char>) -> (r: Vec<char>)
    ensures
        r@ == broadcast_label(body@),
{
    let (kind, lab) = split_bar_exec(body);
    if crate::text::eq_literal(&kind, "here") {
        return chars_of("@here");
    }
    if crate::text::eq_literal(&kind, "channel") {
        return chars_of("@channel");
    }
    if crate::text::eq_literal(&kind, "everyone") {
        return chars_of("@everyone");
    }
    let subteam = chars_of("subteam");
    let is_subteam = matches_at_exec(&kind, &subteam, 0);
    match lab {
        Some(l) => {
            if is_subteam {
                if l.len() > 0 && l[0] == '@' {
                    l
                } else {
                    let mut r: Vec<char> = Vec::new();
                    r.push('@');
                    let mut i: usize = 0;
                    while i < l.len()
                        invariant
                            i <= l.len(),
                            r@ =~= seq!['@'] + l@.take(i as int),
                        decreases l.len() - i,
                    {
                        r.push(l[i]);
                        i += 1;
                    }
                    assert(l@.take(l.len() as int) =~= l@);
                    r
                }
            } else {
                l
            }
        },
        None => {
            proof {
                lemma_index_of_from(kind@, '^', 0);
            }
            let end = match find_char(&kind, 0, '^') {
                Some(p) => p,
                None => kind.len(),
            };
            let mut r: Vec<char> = Vec::new();
            r.push('@');
            let mut i: usize = 0;
            while i < end
                invariant
                    i <= end <= kind.len(),
                    r@ =~= seq!['@'] + kind@.take(i as int),
                decreases end - i,
            {
                r.push(kind[i]);
                i += 1;
            }
            assert(kind@.take(end as int) =~= before_caret(kind@));
            r
        },
    }
}

fn vec_of_string(s: &String) -> (v: Vec<char>)
    ensures
        v@ == s@,
{
    chars_of(s.as_str())
}

/// The ids the tokens of `v` ask the resolver for.
fn collect_token_ids(v: &Vec<char>) -> (ids: Vec<String>)
    ensures
        views(ids@) == encode_ids_from(v@, 0),
{
    let mut ids: Vec<String> = Vec::new();
    let mut pos: usize = 0;
    loop
        invariant
            pos <= v.len(),
            views(ids@) + encode_ids_from(v@, pos as int) == encode_ids_from(v@, 0),
        decreases v.len() - pos,
    {
        let ghost ids0 = views(ids@);
        proof {
            lemma_index_of_from(v@, '<', pos as int);
        }
        match find_char(v, pos, '<') {
            None => {
                assert(views(ids@) =~= views(ids@) + encode_ids_from(v@, pos as int));
                return ids;
            },
            Some(st) => {
                proof {
                    lemma_index_of_from(v@, '>', st + 1);
                }
                match find_char(v, st + 1, '>') {
                    None => {
                        pos = st + 1;
                    },
                    Some(e) => {
                        let inner = subvec(v, st + 1, e);
                        match token_mention_id_exec(&inner) {
                            Some(id) => {
                                ids.push(crate::text::string_of(&id));
                                assert(views(ids@) =~= ids0 + seq![id@]);
                                assert(ids0 + encode_ids_from(v@, pos as int) =~= views(ids@)
                                    + encode_ids_from(v@, e + 1));
                            },
                            None => {},
                        }
                        pos = e + 1;
                    },
                }
            },
        }
    }
}

/// Encodes the tokens of `v`, taking resolver answers from `names`.
fn encode_with_names(v: &Vec<char>, names: &Vec<String>) -> (r: String)
    requires
        names@.len() == encode_ids_from(v@, 0).len(),
    ensures
        r@ == encode_from(v@, 0, views(names@)),
{
    let mut out = String::new();
    let mut pos: usize = 0;
    let mut k: usize = 0;
    let empty: Vec<char> = Vec::new();
    assert(views(names@).skip(0) =~= views(names@));
    assert(out@ + encode_from(v@, 0, views(names@)) =~= encode_from(v@, 0, views(names@)));
    loop
        invariant
            pos <= v.len(),
            empty@ == Seq::<char>::empty(),
            k + encode_ids_from(v@, pos as int).len() == names@.len(),
            out@ + encode_from(v@, pos as int, views(names@).skip(k as int)) == encode_from(
                v@,
                0,
                views(names@),
            ),
        decreases v.len() - pos,
    {
        let ghost out0 = out@;
        let ghost rest = views(names@).skip(k as int);
        proof {
            lemma_index_of_from(v@, '<', pos as int);
        }
        match find_char(v, pos, '<') {
            None => {
                push_range(&mut out, v, pos, v.len());
                assert(out@ =~= out0 + encode_from(v@, pos as int, rest));
                return out;
            },
            Some(st) => {
                push_range(&mut out, v, pos, st);
                proof {
                    lemma_index_of_from(v@, '>', st + 1);
                }
                match find_char(v, st + 1, '>') {
                    None => {
                        out.push('<');
                        assert(out0 + encode_from(v@, pos as int, rest) =~= out@ + encode_from(
                            v@,
                            st + 1,
                            rest,
                        ));
                        pos = st + 1;
                    },
                    Some(e) => {
                        let inner = subvec(v, st + 1, e);
                        match token_mention_id_exec(&inner) {
                            Some(_id) => {
                                assert(encode_ids_from(v@, pos as int).len() == 1 + encode_ids_from(
                                    v@,
                                    e + 1,
                                ).len());
                                assert(k < names.len());
                                let name = vec_of_string(&names[k]);
                                encode_one_token(&inner, &name, &mut out);
                                assert(rest[0] == names@[k as int]@);
                                assert(rest.drop_first() =~= views(names@).skip(k + 1));
                                assert(out0 + encode_from(v@, pos as int, rest) =~= out@
                                    + encode_from(v@, e + 1, views(names@).skip(k + 1)));
                                k = k + 1;
                            },
                            None => {
                                encode_one_token(&inner, &empty, &mut out);
                                assert(out0 + encode_from(v@, pos as int, rest) =~= out@
                                    + encode_from(v@, e + 1, rest));
                            },
                        }
                        pos = e + 1;
                    },
                }
            },
        }
    }
}

/// Encode Slack `<...>` tokens (mentions, channels, broadcasts, links) into
/// private-use sentinels.
pub fn encode_special_tokens<F: Fn(&str) -> String>(text: &str, resolve_user: &F) -> (r: String)
    requires
        forall|a: &str| call_requires(*resolve_user, (a,)),
    ensures
        exists|names: Seq<Seq<char>>|
            #[trigger] names_resolved(resolve_user, encode_ids_from(text@, 0), names) && r@
                == encode_from(text@, 0, names),
{
    let v = chars_of(text);
    let ids = collect_token_ids(&v);
    let names = resolve_all(&ids, resolve_user);
    let r = encode_with_names(&v, &names);
    assert(names_resolved(resolve_user, encode_ids_from(text@, 0), views(names@)));
    r
}

// ---------------------------------------------------------------------------
// Whole messages
// ---------------------------------------------------------------------------

/// The lines of `s` from `pos` on, split at each `\n` (a trailing `\n`
/// yields a final empty line).
pub open spec fn lines_from(s: Seq<char>, pos: int) -> Seq<Seq<char>>
    decreases s.len() - pos,
{
    if pos < 0 || pos > s.len() {
        Seq::empty()
    } else {
        match index_of_from(s, '\n', pos) {
            None => seq![s.subrange(pos, s.len() as int)],
            Some(k) => {
                proof {
                    lemma_index_of_from(s, '\n', pos);
                }
                seq![s.subrange(pos, k)] + lines_from(s, k + 1)
            },
        }
    }
}

/// The lines of `s`.
pub open spec fn lines_of(s: Seq<char>) -> Seq<Seq<char>> {
    lines_from(s, 0)
}

/// Concatenation of a sequence of sequences.
pub open spec fn concat_all<T>(ss: Seq<Seq<T>>) -> Seq<T>
    decreases ss.len(),
{
    if ss.len() == 0 {
        Seq::empty()
    } else {
        concat_all(ss.drop_last()) + ss.last()
    }
}

/// The render items of a chunk: a code chunk is one item, a text chunk one
/// item per line; items are (is code, first line of its chunk, text).
pub open spec fn chunk_items(c: (bool, Seq<char>)) -> Seq<(bool, bool, Seq<char>)> {
    if c.0 {
        seq![(true, true, c.1)]
    } else {
        Seq::new(lines_of(c.1).len(), |k: int| (false, k == 0, lines_of(c.1)[k]))
    }
}

/// The render items of a message text.
pub open spec fn message_items(text: Seq<char>) -> Seq<(bool, bool, Seq<char>)> {
    let cs = code_chunks(text);
    concat_all(Seq::new(cs.len(), |i: int| chunk_items(cs[i])))
}

/// The style of fenced code blocks.
pub open spec fn code_block_style() -> Style {
    Style { fg: Some(Color::LightYellow), bg: Some(Color::Rgb(25, 25, 35)), ..plain() }
}

/// The text of a line that goes through token encoding.
pub open spec fn prepared_line(line: Seq<char>) -> Seq<char> {
    crate::formatting::strip_skin_tones(line_prefix(line).1)
}

/// The ids an item asks the resolver for.
pub open spec fn item_ids(item: (bool, bool, Seq<char>)) -> Seq<Seq<char>> {
    if item.0 {
        Seq::empty()
    } else {
        encode_ids_from(prepared_line(item.2), 0)
    }
}

/// Spans restyled over a base style.
pub open spec fn restyle(spans: Seq<(Seq<char>, Style)>, base: Style) -> Seq<(Seq<char>, Style)> {
    Seq::new(spans.len(), |i: int| (spans[i].0, patched(base, spans[i].1)))
}

/// The spans of one item, with `names` the resolver answers for its ids.
pub open spec fn item_spans(item: (bool, bool, Seq<char>), show_emojis: bool, names: Seq<Seq<char>>) -> Seq<(Seq<char>, Style)> {
    if item.0 {
        seq![(item.2, code_block_style())]
    } else {
        let newline: Seq<(Seq<char>, Style)> = if item.1 {
            Seq::empty()
        } else {
            seq![(seq!['\n'], plain())]
        };
        let p = line_prefix(item.2);
        let enc = encode_from(prepared_line(item.2), 0, names);
        let em = if show_emojis {
            crate::formatting::emojis_from(enc, 0)
        } else {
            enc
        };
        let chipped = chip_spans(mrkdwn_spans(em));
        newline + p.0 + match p.2 {
            Some(b) => restyle(chipped, b),
            None => chipped,
        }
    }
}

/// The spans of a message, with `names[k]` the resolver answers for item `k`.
pub open spec fn message_spans(text: Seq<char>, show_emojis: bool, names: Seq<Seq<Seq<char>>>) -> Seq<(Seq<char>, Style)> {
    let items = message_items(text);
    let all = concat_all(Seq::new(items.len(), |k: int| item_spans(items[k], show_emojis, names[k])));
    if all.len() == 0 {
        seq![(Seq::<char>::empty(), plain())]
    } else {
        all
    }
}

/// `names[k]` are resolver answers for the ids of item `k`.
pub open spec fn items_resolved<F: Fn(&str) -> String>(
    f: &F,
    items: Seq<(bool, bool, Seq<char>)>,
    names: Seq<Seq<Seq<char>>>,
) -> bool {
    &&& names.len() == items.len()
    &&& forall|k: int| 0 <= k < items.len() ==> #[trigger] names_resolved(f, item_ids(items[k]), names[k])
}

/// The lines of `s`.
pub(crate) fn split_lines(s: &String) -> (r: Vec<String>)
    ensures
        views(r@) == lines_of(s@),
{
    let v = chars_of(s.as_str());
    let mut out: Vec<String> = Vec::new();
    let mut pos: usize = 0;
    loop
        invariant
            pos <= v.len(),
            v@ == s@,
            views(out@) + lines_from(v@, pos as int) == lines_of(v@),
        decreases v.len() - pos,
    {
        let ghost out0 = views(out@);
        proof {
            lemma_index_of_from(v@, '\n', pos as int);
        }
        match find_char(&v, pos, '\n') {
            None => {
                out.push(string_of_range(&v, pos, v.len()));
                assert(views(out@) =~= out0 + lines_from(v@, pos as int));
                return out;
            },
            Some(k) => {
                out.push(string_of_range(&v, pos, k));
                assert(views(out@) =~= out0 + seq![v@.subrange(pos as int, k as int)]);
                assert(out0 + lines_from(v@, pos as int) =~= views(out@) + lines_from(v@, k + 1));
                pos = k + 1;
            },
        }
    }
}

/// The views of items.
pub open spec fn item_views(v: Seq<(bool, bool, String)>) -> Seq<(bool, bool, Seq<char>)> {
    Seq::new(v.len(), |i: int| (v[i].0, v[i].1, v[i].2@))
}

pub proof fn lemma_concat_push<T>(ss: Seq<Seq<T>>, x: Seq<T>)
    ensures
        concat_all(ss.push(x)) == concat_all(ss) + x,
{
    assert(ss.push(x).drop_last() =~= ss);
}

/// The render items of a message text.
fn build_items(text: &str) -> (r: Vec<(bool, bool, String)>)
    ensures
        item_views(r@) == message_items(text@),
{
    let chunks = split_code_fences(text);
    let ghost cs = code_chunks(text@);
    let mut items: Vec<(bool, bool, String)> = Vec::new();
    let mut j: usize = 0;
    while j < chunks.len()
        invariant
            j <= chunks.len(),
            chunk_views(chunks@) == cs,
            item_views(items@) == concat_all(Seq::new(j as nat, |i: int| chunk_items(cs[i]))),
        decreases chunks.len() - j,
    {
        let ghost before = item_views(items@);
        let ghost c = cs[j as int];
        assert(Seq::new((j + 1) as nat, |i: int| chunk_items(cs[i])) =~= Seq::new(j as nat, |i: int| chunk_items(cs[i])).push(chunk_items(c)));
        proof {
            lemma_concat_push(Seq::new(j as nat, |i: int| chunk_items(cs[i])), chunk_items(c));
        }
        if chunks[j].0 {
            items.push((true, true, crate::text::copy_string(&chunks[j].1)));
            assert(item_views(items@) =~= before + chunk_items(c));
        } else {
            let lines = split_lines(&chunks[j].1);
            let mut m: usize = 0;
            while m < lines.len()
                invariant
                    m <= lines.len(),
                    views(lines@) == lines_of(c.1),
                    !c.0,
                    item_views(items@) =~= before + chunk_items(c).take(m as int),
                decreases lines.len() - m,
            {
                let ghost iv0 = item_views(items@);
                items.push((false, m == 0, crate::text::copy_string(&lines[m])));
                assert(item_views(items@) =~= iv0.push((false, m == 0, lines@[m as int]@)));
                assert(views(lines@)[m as int] == lines@[m as int]@);
                assert(chunk_items(c)[m as int] == (false, m == 0, lines@[m as int]@));
                assert(chunk_items(c).take(m + 1) =~= chunk_items(c).take(m as int).push((false, m == 0, lines@[m as int]@)));
                m += 1;
            }
            assert(chunk_items(c).take(m as int) =~= chunk_items(c));
        }
        j += 1;
    }
    assert(Seq::new(chunks.len() as nat, |i: int| chunk_items(cs[i])) =~= Seq::new(cs.len(), |i: int| chunk_items(cs[i])));
    items
}

/// Appends the spans of a text line item to `out`.
fn line_item_spans<F: Fn(&str) -> String>(
    line: &String,
    first: bool,
    show_emojis: bool,
    resolve_user: &F,
    out: &mut Vec<StyledSpan>,
) -> (names: Ghost<Seq<Seq<char>>>)
    requires
        forall|a: &str| call_requires(*resolve_user, (a,)),
    ensures
        names_resolved(resolve_user, item_ids((false, first, line@)), names@),
        spans_view(final(out)@) == spans_view(old(out)@) + item_spans((false, first, line@), show_emojis, names@),
{
    let ghost start = spans_view(out@);
    if !first {
        let mut nl = String::new();
        nl.push('\n');
        out.push(StyledSpan::raw(nl));
    }
    let ghost after_nl = spans_view(out@);
    let (prefix, content, base) = classify_line_prefix(line.as_str());
    let mut prefix = prefix;
    let ghost pv = spans_view(prefix@);
    out.append(&mut prefix);
    let ghost after_prefix = spans_view(out@);
    assert(after_prefix =~= after_nl + pv);
    let prepared = crate::formatting::remove_skin_tone_modifiers(content.as_str());
    let v = chars_of(prepared.as_str());
    let ids = collect_token_ids(&v);
    let names = resolve_all(&ids, resolve_user);
    let enc = encode_with_names(&v, &names);
    let em = if show_emojis {
        crate::formatting::convert_slack_emojis(enc.as_str())
    } else {
        enc
    };
    let parsed = parse_mrkdwn_spans(em.as_str());
    let chipped = extract_chip_spans(parsed);
    let ghost cv = spans_view(chipped@);
    match base {
        Some(b) => {
            let mut rest = chipped;
            let mut rev: Vec<StyledSpan> = Vec::new();
            let n0 = rest.len();
            while rest.len() > 0
                invariant
                    rev@.len() + rest@.len() == cv.len(),
                    forall|j: int| 0 <= j < rest@.len() ==> #[trigger] span_view(rest@[j]) == cv[j],
                    forall|j: int| 0 <= j < rev@.len() ==> #[trigger] span_view(rev@[j]) == cv[cv.len() - 1 - j],
                decreases rest.len(),
            {
                let s = rest.pop().unwrap();
                rev.push(s);
            }
            let mut k: usize = 0;
            while rev.len() > 0
                invariant
                    n0 == cv.len(),
                    k + rev@.len() == cv.len(),
                    forall|j: int| 0 <= j < rev@.len() ==> #[trigger] span_view(rev@[j]) == cv[cv.len() - 1 - j],
                    spans_view(out@) == after_prefix + restyle(cv, b).take(k as int),
                decreases rev.len(),
            {
                let s = rev.pop().unwrap();
                assert(span_view(s) == cv[k as int]);
                let ghost o = spans_view(out@);
                out.push(StyledSpan::styled(s.content, b.patch(s.style)));
                assert(spans_view(out@) =~= o.push((cv[k as int].0, patched(b, cv[k as int].1))));
                assert(restyle(cv, b).take(k + 1) =~= restyle(cv, b).take(k as int).push((cv[k as int].0, patched(b, cv[k as int].1))));
                k += 1;
            }
            assert(restyle(cv, b).take(k as int) =~= restyle(cv, b));
        },
        None => {
            let mut chipped = chipped;
            out.append(&mut chipped);
            assert(spans_view(out@) =~= after_prefix + cv);
        },
    }
    assert(names_resolved(resolve_user, item_ids((false, first, line@)), views(names@)));
    let ghost newline: Seq<(Seq<char>, Style)> = if first {
        Seq::empty()
    } else {
        seq![(seq!['\n'], plain())]
    };
    assert(after_nl =~= start + newline);
    assert(spans_view(out@) =~= start + item_spans((false, first, line@), show_emojis, views(names@)));
    Ghost(views(names@))
}

/// Format message text into styled spans, parsing Slack mrkdwn:
///   *bold*, _italic_, ~strike~, `code`, ```code block```
/// Plus line-level constructs: `> ` blockquote, `• ` / `N. ` lists.
/// Mentions, channel refs, links and emojis are also resolved.
pub fn format_message_spans<F: Fn(&str) -> String>(
    text: &str,
    show_emojis: bool,
    resolve_user: &F,
) -> (r: Vec<StyledSpan>)
    requires
        forall|a: &str| call_requires(*resolve_user, (a,)),
    ensures
        exists|names: Seq<Seq<Seq<char>>>|
            #[trigger] items_resolved(resolve_user, message_items(text@), names) && spans_view(r@)
                == message_spans(text@, show_emojis, names),
{
    let items = build_items(text);
    let ghost iv = message_items(text@);
    let mut out: Vec<StyledSpan> = Vec::new();
    let ghost mut acc: Seq<Seq<Seq<char>>> = Seq::empty();
    let mut k: usize = 0;
    while k < items.len()
        invariant
            k <= items.len(),
            item_views(items@) == iv,
            forall|a: &str| call_requires(*resolve_user, (a,)),
            acc.len() == k,
            forall|i: int| 0 <= i < k ==> #[trigger] names_resolved(resolve_user, item_ids(iv[i]), acc[i]),
            spans_view(out@) == concat_all(Seq::new(k as nat, |i: int| item_spans(iv[i], show_emojis, acc[i]))),
        decreases items.len() - k,
    {
        let ghost before = spans_view(out@);
        let ghost acc0 = acc;
        let ghost item = iv[k as int];
        if items[k].0 {
            let s = StyledSpan::styled(crate::text::copy_string(&items[k].2), Style::new().fg(Color::LightYellow).bg(Color::Rgb(25, 25, 35)));
            out.push(s);
            proof {
                acc = acc.push(Seq::empty());
                assert(item_ids(item) =~= Seq::<Seq<char>>::empty());
            }
            assert(spans_view(out@) =~= before + item_spans(item, show_emojis, acc[k as int]));
        } else {
            let g = line_item_spans(&items[k].2, items[k].1, show_emojis, resolve_user, &mut out);
            proof {
                acc = acc.push(g@);
            }
        }
        assert(Seq::new((k + 1) as nat, |i: int| item_spans(iv[i], show_emojis, acc[i])) =~= Seq::new(k as nat, |i: int| item_spans(iv[i], show_emojis, acc0[i])).push(item_spans(item, show_emojis, acc[k as int])));
        proof {
            lemma_concat_push(Seq::new(k as nat, |i: int| item_spans(iv[i], show_emojis, acc0[i])), item_spans(item, show_emojis, acc[k as int]));
        }
        k += 1;
    }
    assert(Seq::new(k as nat, |i: int| item_spans(iv[i], show_emojis, acc[i])) =~= Seq::new(iv.len(), |i: int| item_spans(iv[i], show_emojis, acc[i])));
    if out.len() == 0 {
        out.push(StyledSpan::raw(String::new()));
        assert(spans_view(out@) =~= seq![(Seq::<char>::empty(), plain())]);
    }
    assert(items_resolved(resolve_user, iv, acc));
    out
}

} // verus!
