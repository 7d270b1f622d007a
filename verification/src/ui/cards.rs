//! Word wrapping of styled text and the boxed rendering of attachment cards.
use vstd::prelude::*;
use unicode_width::{UnicodeWidthChar, UnicodeWidthStr};
use crate::style::{Color, Style, StyledSpan, plain, spans_view};
use crate::input::{is_boundary, char_at_byte, char_index_of_byte, utf8_len_exec, fits, lemma_char_at_byte};
use crate::unicode::ascii_lowercase;
use crate::text::{utf8_len, eq_literal};
use crate::text::{chars_of, index_of, lemma_index_of_from, find_char};
use crate::unicode::is_unicode_whitespace;
use crate::text::option_view;

verus! {

/// The display width `unicode-width` gives a string.
pub uninterp spec fn str_width(s: Seq<char>) -> usize;

/// The display width `unicode-width` gives a character (`None` for control
/// characters).
pub uninterp spec fn char_width(c: char) -> Option<usize>;

/// A printable ASCII character: space to tilde.
pub open spec fn printable_ascii(c: char) -> bool {
    ' ' <= c <= '~'
}

/// Calls `UnicodeWidthStr::width`: the number of terminal columns the text
/// takes. The crate documents the width of a string as the sum of its
/// characters' widths outside a few listed sequences (none of them made
/// only of printable ASCII), and its tables give each printable ASCII
/// character width 1; so text of printable ASCII takes one column per
/// character. The other rules (East Asian width, emoji sequences,
/// ligatures) are left to the name.
#[verifier::external_body]
pub(crate) fn display_width(s: &str) -> (r: usize)
    ensures
        r == str_width(s@),
        (forall|i: int| 0 <= i < s@.len() ==> printable_ascii(#[trigger] s@[i])) ==> r == s@.len(),
{
    UnicodeWidthStr::width(s)
}

/// Calls `UnicodeWidthChar::width`: the columns a character takes, `None`
/// for control characters. The crate gives printable ASCII width 1 and
/// the control codes U+0000 to U+001F and U+007F to U+009F no width; the
/// tables for other characters are left to the name.
#[verifier::external_body]
pub(crate) fn char_display_width(c: char) -> (r: Option<usize>)
    ensures
        r == char_width(c),
        printable_ascii(c) ==> r == Some(1usize),
        crate::unicode::is_control_code(c) ==> r is None,
{
    UnicodeWidthChar::width(c)
}

/// A styled span's text and style.
pub type SpanV = (Seq<char>, Style);

/// Wrapping in progress: finished lines, the line being filled, the columns
/// left on it, and whether it holds text yet.
pub struct WrapV {
    pub lines: Seq<Seq<SpanV>>,
    pub current: Seq<SpanV>,
    pub remaining: int,
    pub has_content: bool,
}

/// The layout a wrap works with: the width of continuation lines, and the
/// indent (with its style) they start with.
pub struct WrapLayout {
    pub rest: int,
    pub indent: Seq<char>,
    pub indent_style: Style,
}

/// Finishes the current line; the next starts with the indent, when there
/// is one, and has the continuation width.
pub open spec fn break_line(st: WrapV, lay: WrapLayout) -> WrapV {
    WrapV {
        lines: st.lines.push(st.current),
        current: if lay.indent.len() > 0 { seq![(lay.indent, lay.indent_style)] } else { Seq::empty() },
        remaining: lay.rest,
        has_content: false,
    }
}

/// Adds a span to the current line.
pub open spec fn put(st: WrapV, text: Seq<char>, style: Style) -> WrapV {
    WrapV { current: st.current.push((text, style)), ..st }
}

/// Adds the pending characters of a broken word, if any.
pub open spec fn flush(st: WrapV, buf: Seq<char>, style: Style) -> WrapV {
    if buf.len() > 0 {
        put(st, buf, style)
    } else {
        st
    }
}

/// `a - b`, or 0.
pub open spec fn sat_sub(a: int, b: int) -> int {
    if a > b {
        a - b
    } else {
        0
    }
}

/// The columns a character of a broken word takes.
pub open spec fn col_width(c: char) -> int {
    match char_width(c) {
        Some(w) => w as int,
        None => 0,
    }
}

/// Places one character of a word too wide for a line: it goes to a new
/// line when it does not fit, or when the line is full.
pub open spec fn place_char(st: WrapV, buf: Seq<char>, c: char, style: Style, lay: WrapLayout) -> (WrapV, Seq<char>) {
    let w = col_width(c);
    let (s1, b1) = if st.has_content && w > st.remaining {
        (break_line(flush(st, buf, style), lay), Seq::<char>::empty())
    } else {
        (st, buf)
    };
    let (s2, b2) = if s1.remaining == 0 && s1.has_content {
        (break_line(flush(s1, b1, style), lay), Seq::<char>::empty())
    } else {
        (s1, b1)
    };
    (WrapV { remaining: sat_sub(s2.remaining, w), has_content: true, ..s2 }, b2.push(c))
}

/// Places the characters of a word too wide for a line, one by one.
pub open spec fn place_chars(st: WrapV, buf: Seq<char>, cs: Seq<char>, style: Style, lay: WrapLayout) -> (WrapV, Seq<char>)
    decreases cs.len(),
{
    if cs.len() == 0 {
        (st, buf)
    } else {
        let (s1, b1) = place_char(st, buf, cs[0], style, lay);
        place_chars(s1, b1, cs.skip(1), style, lay)
    }
}

/// Places one token: spaces only where they fit on a line with text, a
/// word on this line or the next, and a word wider than a line broken
/// across lines.
pub open spec fn place_token(st: WrapV, tok: Seq<char>, is_space: bool, style: Style, lay: WrapLayout) -> WrapV {
    let w = str_width(tok) as int;
    if is_space {
        if st.has_content && w <= st.remaining {
            WrapV { remaining: st.remaining - w, ..put(st, tok, style) }
        } else {
            st
        }
    } else if w <= st.remaining {
        WrapV { remaining: st.remaining - w, has_content: true, ..put(st, tok, style) }
    } else {
        let s1 = if st.has_content { break_line(st, lay) } else { st };
        if w <= s1.remaining {
            WrapV { remaining: s1.remaining - w, has_content: true, ..put(s1, tok, style) }
        } else {
            let (s2, buf) = place_chars(s1, Seq::empty(), tok, style, lay);
            flush(s2, buf, style)
        }
    }
}

/// The maximal runs of whitespace and of other characters of `s`, each
/// marked whether it is whitespace.
pub open spec fn runs(s: Seq<char>) -> Seq<(Seq<char>, bool)>
    decreases s.len(),
{
    if s.len() == 0 {
        Seq::empty()
    } else {
        let r = runs(s.drop_last());
        let c = s.last();
        let sp = is_unicode_whitespace(c);
        if r.len() > 0 && r.last().1 == sp {
            r.update(r.len() - 1, (r.last().0.push(c), sp))
        } else {
            r.push((seq![c], sp))
        }
    }
}

/// Places tokens in order.
pub open spec fn place_tokens(st: WrapV, toks: Seq<(Seq<char>, bool)>, style: Style, lay: WrapLayout) -> WrapV
    decreases toks.len(),
{
    if toks.len() == 0 {
        st
    } else {
        place_tokens(place_token(st, toks[0].0, toks[0].1, style, lay), toks.skip(1), style, lay)
    }
}

/// Places a span's text: each line break of the text ends the line.
pub open spec fn place_text(st: WrapV, text: Seq<char>, style: Style, lay: WrapLayout) -> WrapV
    decreases text.len(),
{
    if text.len() == 0 {
        st
    } else {
        match index_of(text, '\n') {
            Some(k) => if 0 <= k < text.len() {
                place_text(break_line(place_tokens(st, runs(text.take(k)), style, lay), lay), text.skip(k + 1), style, lay)
            } else {
                st
            },
            None => place_tokens(st, runs(text), style, lay),
        }
    }
}

/// Places spans in order.
pub open spec fn place_spans(st: WrapV, spans: Seq<SpanV>, lay: WrapLayout) -> WrapV
    decreases spans.len(),
{
    if spans.len() == 0 {
        st
    } else {
        place_spans(place_text(st, spans[0].0, spans[0].1, lay), spans.skip(1), lay)
    }
}

/// `n`, or 1 when it is 0.
pub open spec fn at_least_one(n: int) -> int {
    if n < 1 {
        1
    } else {
        n
    }
}

/// Styled spans wrapped into lines: the first line is `first_width`
/// columns wide, later ones `rest_width` columns after `indent` (in the
/// first span's style). Words move to the next line when they do not fit;
/// a word wider than a line is broken; spaces at a line's start are
/// dropped; a line break in the text ends the line.
pub open spec fn wrapped(spans: Seq<SpanV>, first_width: int, rest_width: int, indent: Seq<char>) -> Seq<Seq<SpanV>> {
    let lay = WrapLayout {
        rest: at_least_one(rest_width),
        indent: indent,
        indent_style: if spans.len() > 0 { spans[0].1 } else { plain() },
    };
    let st = place_spans(
        WrapV { lines: Seq::empty(), current: Seq::empty(), remaining: at_least_one(first_width), has_content: false },
        spans,
        lay,
    );
    if st.current.len() > 0 || st.lines.len() == 0 {
        st.lines.push(st.current)
    } else {
        st.lines
    }
}

/// The texts and styles of lines of spans.
pub open spec fn lines_view(ls: Seq<Vec<StyledSpan>>) -> Seq<Seq<SpanV>> {
    Seq::new(ls.len(), |i: int| spans_view(ls[i]@))
}

/// Wrapping state of the executable wrapper.
struct Wrapper {
    lines: Vec<Vec<StyledSpan>>,
    current: Vec<StyledSpan>,
    remaining: usize,
    has_content: bool,
    rest: usize,
    indent: String,
    indent_style: Style,
}

impl Wrapper {
    spec fn state(&self) -> WrapV {
        WrapV {
            lines: lines_view(self.lines@),
            current: spans_view(self.current@),
            remaining: self.remaining as int,
            has_content: self.has_content,
        }
    }

    spec fn layout(&self) -> WrapLayout {
        WrapLayout { rest: self.rest as int, indent: self.indent@, indent_style: self.indent_style }
    }

    fn break_line(&mut self)
        ensures
            final(self).state() == break_line(old(self).state(), old(self).layout()),
            final(self).layout() == old(self).layout(),
    {
        let ghost before = self.state();
        let mut cur: Vec<StyledSpan> = Vec::new();
        std::mem::swap(&mut cur, &mut self.current);
        let ghost cur_v = spans_view(cur@);
        let ghost lines0 = self.lines@;
        self.lines.push(cur);
        assert(lines_view(self.lines@) =~= lines_view(lines0).push(cur_v));
        if !self.indent.as_str().is_empty() {
            self.current.push(StyledSpan { content: self.indent.clone(), style: self.indent_style });
            assert(spans_view(self.current@) =~= seq![(self.indent@, self.indent_style)]);
        } else {
            assert(spans_view(self.current@) =~= Seq::<SpanV>::empty());
        }
        self.remaining = self.rest;
        self.has_content = false;
    }

    fn put(&mut self, text: String, style: Style)
        ensures
            final(self).state() == put(old(self).state(), text@, style),
            final(self).layout() == old(self).layout(),
    {
        let ghost cur0 = self.current@;
        self.current.push(StyledSpan { content: text, style });
        assert(spans_view(self.current@) =~= spans_view(cur0).push((text@, style)));
    }

    fn flush(&mut self, buf: String, style: Style)
        ensures
            final(self).state() == flush(old(self).state(), buf@, style),
            final(self).layout() == old(self).layout(),
    {
        if !buf.as_str().is_empty() {
            self.put(buf, style);
        }
    }
    fn take_buf(buf: &mut String) -> (r: String)
        ensures
            r@ == old(buf)@,
            final(buf)@ == Seq::<char>::empty(),
    {
        let mut out = String::new();
        std::mem::swap(&mut out, buf);
        out
    }

    /// Places a word wider than a line, character by character.
    fn place_word(&mut self, tok: &str, style: Style)
        ensures
            final(self).state() == ({
                let (s2, b) = place_chars(old(self).state(), Seq::empty(), tok@, style, old(self).layout());
                flush(s2, b, style)
            }),
            final(self).layout() == old(self).layout(),
    {
        let cs = chars_of(tok);
        let ghost lay = self.layout();
        let ghost target = place_chars(self.state(), Seq::empty(), tok@, style, lay);
        let mut buf = String::new();
        let mut i: usize = 0;
        assert(cs@.skip(0) =~= cs@);
        while i < cs.len()
            invariant
                i <= cs.len(),
                self.layout() == lay,
                place_chars(self.state(), buf@, cs@.skip(i as int), style, lay) == target,
            decreases cs.len() - i,
        {
            assert(cs@.skip(i as int).skip(1) =~= cs@.skip(i + 1));
            assert(cs@.skip(i as int)[0] == cs@[i as int]);
            let c = cs[i];
            let w: usize = match char_display_width(c) {
                Some(w) => w,
                None => 0,
            };
            if self.has_content && w > self.remaining {
                let b = Self::take_buf(&mut buf);
                self.flush(b, style);
                self.break_line();
            }
            if self.remaining == 0 && self.has_content {
                let b = Self::take_buf(&mut buf);
                self.flush(b, style);
                self.break_line();
            }
            buf.push(c);
            self.remaining = if self.remaining > w {
                self.remaining - w
            } else {
                0
            };
            self.has_content = true;
            i += 1;
        }
        self.flush(buf, style);
    }

    /// Places one token.
    fn place_token(&mut self, tok: &str, is_space: bool, style: Style)
        ensures
            final(self).state() == place_token(old(self).state(), tok@, is_space, style, old(self).layout()),
            final(self).layout() == old(self).layout(),
    {
        let w = display_width(tok);
        if is_space {
            if self.has_content && w <= self.remaining {
                self.put(tok.to_string(), style);
                self.remaining = self.remaining - w;
            }
            return;
        }
        if w <= self.remaining {
            self.put(tok.to_string(), style);
            self.remaining = self.remaining - w;
            self.has_content = true;
            return;
        }
        if self.has_content {
            self.break_line();
        }
        if w <= self.remaining {
            self.put(tok.to_string(), style);
            self.remaining = self.remaining - w;
            self.has_content = true;
            return;
        }
        self.place_word(tok, style);
    }

    /// Places the runs of a line of text.
    fn place_segment(&mut self, seg: &Vec<char>, lo: usize, hi: usize, style: Style)
        requires
            lo <= hi <= seg.len(),
        ensures
            final(self).state() == place_tokens(old(self).state(), runs(seg@.subrange(lo as int, hi as int)), style, old(self).layout()),
            final(self).layout() == old(self).layout(),
    {
        let toks = split_runs(seg, lo, hi);
        let ghost lay = self.layout();
        let ghost tv = runs_view(toks@);
        let ghost target = place_tokens(self.state(), tv, style, lay);
        let mut i: usize = 0;
        assert(tv.skip(0) =~= tv);
        while i < toks.len()
            invariant
                i <= toks.len(),
                tv == runs_view(toks@),
                self.layout() == lay,
                place_tokens(self.state(), tv.skip(i as int), style, lay) == target,
            decreases toks.len() - i,
        {
            assert(tv.skip(i as int).skip(1) =~= tv.skip(i + 1));
            assert(tv.skip(i as int)[0] == tv[i as int]);
            self.place_token(toks[i].0.as_str(), toks[i].1, style);
            i += 1;
        }
    }
}

/// The texts and classes of runs.
pub open spec fn runs_view(v: Seq<(String, bool)>) -> Seq<(Seq<char>, bool)> {
    Seq::new(v.len(), |i: int| (v[i].0@, v[i].1))
}

/// The runs of whitespace and of other characters in `v[lo..hi]`.
fn split_runs(v: &Vec<char>, lo: usize, hi: usize) -> (r: Vec<(String, bool)>)
    requires
        lo <= hi <= v.len(),
    ensures
        runs_view(r@) == runs(v@.subrange(lo as int, hi as int)),
{
    let mut r: Vec<(String, bool)> = Vec::new();
    let mut i: usize = lo;
    assert(v@.subrange(lo as int, lo as int) =~= Seq::<char>::empty());
    while i < hi
        invariant
            lo <= i <= hi <= v.len(),
            runs_view(r@) == runs(v@.subrange(lo as int, i as int)),
        decreases hi - i,
    {
        let c = v[i];
        let sp = c.is_whitespace();
        let ghost before = runs_view(r@);
        assert(v@.subrange(lo as int, i + 1).drop_last() =~= v@.subrange(lo as int, i as int));
        assert(v@.subrange(lo as int, i + 1).last() == c);
        let n = r.len();
        if n > 0 && r[n - 1].1 == sp {
            let (mut t, b) = r.pop().unwrap();
            t.push(c);
            r.push((t, b));
            assert(runs_view(r@) =~= before.update(before.len() - 1, (before.last().0.push(c), sp)));
        } else {
            let mut t = String::new();
            t.push(c);
            r.push((t, sp));
            assert(runs_view(r@) =~= before.push((seq![c], sp)));
        }
        i += 1;
    }
    r
}

/// Wraps styled spans into lines; see `wrapped`.
pub fn wrap_spans_hanging(spans: &[StyledSpan], first_width: usize, rest_width: usize, indent: &str) -> (r: Vec<Vec<StyledSpan>>)
    ensures
        lines_view(r@) == wrapped(spans_view(spans@), first_width as int, rest_width as int, indent@),
{
    let indent_style = if spans.len() > 0 {
        spans[0].style
    } else {
        Style::new()
    };
    let mut w = Wrapper {
        lines: Vec::new(),
        current: Vec::new(),
        remaining: if first_width < 1 {
            1
        } else {
            first_width
        },
        has_content: false,
        rest: if rest_width < 1 {
            1
        } else {
            rest_width
        },
        indent: indent.to_string(),
        indent_style,
    };
    let ghost sv = spans_view(spans@);
    let ghost lay = w.layout();
    assert(w.state().lines =~= Seq::<Seq<SpanV>>::empty());
    assert(w.state().current =~= Seq::<SpanV>::empty());
    let ghost target = place_spans(w.state(), sv, lay);
    let mut k: usize = 0;
    assert(sv.skip(0) =~= sv);
    while k < spans.len()
        invariant
            k <= spans.len(),
            sv == spans_view(spans@),
            w.layout() == lay,
            place_spans(w.state(), sv.skip(k as int), lay) == target,
        decreases spans.len() - k,
    {
        assert(sv.skip(k as int).skip(1) =~= sv.skip(k + 1));
        assert(sv.skip(k as int)[0] == sv[k as int]);
        let style = spans[k].style;
        let v = chars_of(spans[k].content.as_str());
        let ghost tgt = place_text(w.state(), v@, style, lay);
        let mut pos: usize = 0;
        assert(v@.skip(0) =~= v@);
        while pos < v.len()
            invariant
                pos <= v.len(),
                w.layout() == lay,
                place_text(w.state(), v@.skip(pos as int), style, lay) == tgt,
            decreases v.len() - pos,
        {
            let ghost rest = v@.skip(pos as int);
            proof {
                lemma_index_of_from(v@, '\n', pos as int);
                lemma_index_of_from(rest, '\n', 0);
                lemma_index_shift(v@, pos as int);
            }
            match find_char(&v, pos, '\n') {
                Some(nl) => {
                    assert(rest.take(nl - pos) =~= v@.subrange(pos as int, nl as int));
                    assert(rest.skip(nl - pos + 1) =~= v@.skip(nl + 1));
                    w.place_segment(&v, pos, nl, style);
                    w.break_line();
                    pos = nl + 1;
                },
                None => {
                    assert(rest =~= v@.subrange(pos as int, v.len() as int));
                    w.place_segment(&v, pos, v.len(), style);
                    pos = v.len();
                    assert(v@.skip(pos as int) =~= Seq::<char>::empty());
                },
            }
        }
        k += 1;
    }
    let ghost fin = w.state();
    if w.current.len() > 0 || w.lines.len() == 0 {
        let ghost l0 = w.lines@;
        let cur = w.current;
        let mut lines = w.lines;
        lines.push(cur);
        assert(lines_view(lines@) =~= lines_view(l0).push(fin.current));
        lines
    } else {
        w.lines
    }
}

/// The first newline of `s` at or after `p`, seen from `p`.
proof fn lemma_index_shift(s: Seq<char>, p: int)
    requires
        0 <= p <= s.len(),
    ensures
        match index_of(s.skip(p), '\n') {
            Some(k) => crate::text::index_of_from(s, '\n', p) == Some(k + p),
            None => crate::text::index_of_from(s, '\n', p) is None,
        },
    decreases s.len() - p,
{
    lemma_index_of_from(s, '\n', p);
    lemma_index_of_from(s.skip(p), '\n', 0);
    match crate::text::index_of_from(s, '\n', p) {
        Some(j) => {
            assert(s.skip(p)[j - p] == '\n');
            match index_of(s.skip(p), '\n') {
                Some(k) => {
                    if k + p < j {
                        assert(s[k + p] == s.skip(p)[k]);
                    }
                    if k + p > j {
                        assert(s.skip(p)[j - p] == s[j]);
                    }
                },
                None => {},
            }
        },
        None => {
            match index_of(s.skip(p), '\n') {
                Some(k) => {
                    assert(s[k + p] == s.skip(p)[k]);
                },
                None => {},
            }
        },
    }
}

/// The value of a hexadecimal digit.
pub open spec fn hex_digit(c: char) -> Option<int> {
    if '0' <= c <= '9' {
        Some(c as int - '0' as int)
    } else if 'a' <= c <= 'f' {
        Some(c as int - 'a' as int + 10)
    } else if 'A' <= c <= 'F' {
        Some(c as int - 'A' as int + 10)
    } else {
        None
    }
}

/// The value of a string of hexadecimal digits, if all are such digits.
pub open spec fn hex_value(s: Seq<char>) -> Option<int>
    decreases s.len(),
{
    if s.len() == 0 {
        Some(0)
    } else {
        match (hex_value(s.drop_last()), hex_digit(s.last())) {
            (Some(v), Some(d)) => Some(v * 16 + d),
            _ => None,
        }
    }
}

/// What `u8::from_str_radix(s, 16)` gives: an optional `+` followed by at
/// least one hexadecimal digit, with a value below 256.
pub open spec fn radix16_u8(s: Seq<char>) -> Option<u8> {
    let body = if s.len() > 0 && s[0] == '+' { s.skip(1) } else { s };
    match hex_value(body) {
        Some(v) => if body.len() > 0 && v <= 255 {
            Some(v as u8)
        } else {
            None
        },
        None => None,
    }
}

/// `s` without leading and trailing whitespace.
pub open spec fn trimmed(s: Seq<char>) -> Seq<char> {
    let a = crate::slack::http::word_start(s, 0);
    let b = trim_end_at(s, s.len() as int);
    if a >= b {
        Seq::empty()
    } else {
        s.subrange(a, b)
    }
}

/// One past the last non-whitespace character before `j`, or 0.
pub open spec fn trim_end_at(s: Seq<char>, j: int) -> int
    decreases j,
{
    if j <= 0 || j > s.len() {
        if j > s.len() { s.len() as int } else { 0 }
    } else if crate::unicode::is_unicode_whitespace(s[j - 1]) {
        trim_end_at(s, j - 1)
    } else {
        j
    }
}

/// The hex digits of a color: the trimmed text without a leading `#`.
pub open spec fn color_hex(s: Seq<char>) -> Seq<char> {
    let t = trimmed(s);
    if t.len() > 0 && t[0] == '#' {
        t.skip(1)
    } else {
        t
    }
}

/// The three byte-pair slices of the hex digits can be taken: the first
/// ends on a character boundary, and so does the second when the first
/// reads as a number.
pub open spec fn color_slices_ok(s: Seq<char>) -> bool {
    let h = color_hex(s);
    utf8_len(h) == 6 ==> is_boundary(h, 2) && (radix16_u8(h.take(char_at_byte(h, 2))) is Some ==> is_boundary(h, 4))
}

/// The color a Slack attachment color names: `good`, `warning` and
/// `danger` (in any ASCII case) are green, yellow and red; otherwise six
/// bytes of hex digits, with an optional `#`, give an RGB color.
pub open spec fn hex_color(s: Seq<char>) -> Option<Color> {
    let t = trimmed(s);
    let l = ascii_lowercase(t);
    let h = color_hex(s);
    if l == "good"@ {
        Some(Color::Green)
    } else if l == "warning"@ {
        Some(Color::Yellow)
    } else if l == "danger"@ {
        Some(Color::Red)
    } else if utf8_len(h) != 6 {
        None
    } else {
        let k2 = char_at_byte(h, 2);
        let k4 = char_at_byte(h, 4);
        match radix16_u8(h.take(k2)) {
            None => None,
            Some(r) => match radix16_u8(h.subrange(k2, k4)) {
                None => None,
                Some(g) => match radix16_u8(h.skip(k4)) {
                    None => None,
                    Some(b) => Some(Color::Rgb(r, g, b)),
                },
            },
        }
    }
}

fn hex_digit_exec(c: char) -> (r: Option<u32>)
    ensures
        match hex_digit(c) {
            Some(d) => r == Some(d as u32),
            None => r is None,
        },
{
    if '0' <= c && c <= '9' {
        Some(c as u32 - '0' as u32)
    } else if 'a' <= c && c <= 'f' {
        Some(c as u32 - 'a' as u32 + 10)
    } else if 'A' <= c && c <= 'F' {
        Some(c as u32 - 'A' as u32 + 10)
    } else {
        None
    }
}

proof fn lemma_hex_value_bound(s: Seq<char>, k: int)
    requires
        0 <= k <= s.len(),
        hex_value(s) is Some,
    ensures
        hex_value(s.take(k)) is Some,
        hex_value(s.take(k))->0 <= hex_value(s)->0,
        0 <= hex_value(s.take(k))->0,
    decreases s.len() - k,
{
    if k < s.len() {
        lemma_hex_value_bound(s, k + 1);
        assert(s.take(k + 1).drop_last() =~= s.take(k));
    } else {
        assert(s.take(k) =~= s);
    }
    lemma_hex_nonneg(s.take(k));
}

proof fn lemma_hex_nonneg(s: Seq<char>)
    requires
        hex_value(s) is Some,
    ensures
        hex_value(s)->0 >= 0,
    decreases s.len(),
{
    if s.len() > 0 {
        lemma_hex_nonneg(s.drop_last());
    }
}

/// Reads `v[lo..hi]` as `u8::from_str_radix(_, 16)` does.
fn radix16_exec(v: &Vec<char>, lo: usize, hi: usize) -> (r: Option<u8>)
    requires
        lo <= hi <= v.len(),
    ensures
        r == radix16_u8(v@.subrange(lo as int, hi as int)),
{
    let ghost s = v@.subrange(lo as int, hi as int);
    let start = if lo < hi && v[lo] == '+' {
        lo + 1
    } else {
        lo
    };
    let ghost body = v@.subrange(start as int, hi as int);
    assert(body =~= (if s.len() > 0 && s[0] == '+' { s.skip(1) } else { s }));
    if start == hi {
        return None;
    }
    let mut val: u32 = 0;
    let mut i: usize = start;
    assert(body.take(0) =~= Seq::<char>::empty());
    while i < hi
        invariant
            start <= i <= hi <= v.len(),
            start < hi,
            s == v@.subrange(lo as int, hi as int),
            body == v@.subrange(start as int, hi as int),
            body == (if s.len() > 0 && s[0] == '+' { s.skip(1) } else { s }),
            hex_value(body.take(i - start)) == Some(val as int),
            val <= 255,
        decreases hi - i,
    {
        assert(body.take(i - start + 1).drop_last() =~= body.take(i - start));
        assert(body.take(i - start + 1).last() == v@[i as int]);
        match hex_digit_exec(v[i]) {
            Some(d) => {
                let nv = val * 16 + d;
                if nv > 255 {
                    proof {
                        if hex_value(body) is Some {
                            lemma_hex_value_bound(body, i - start + 1);
                        }
                    }
                    return None;
                }
                val = nv;
            },
            None => {
                proof {
                    if hex_value(body) is Some {
                        lemma_hex_value_bound(body, i - start + 1);
                    }
                }
                return None;
            },
        }
        i += 1;
    }
    assert(body.take(body.len() as int) =~= body);
    Some(val as u8)
}

/// The characters without leading and trailing whitespace; see `trimmed`.
pub fn trimmed_exec(v: &Vec<char>) -> (t: Vec<char>)
    ensures
        t@ == trimmed(v@),
{
    proof {
        crate::slack::http::lemma_word_start_bounds(v@, 0);
        lemma_trim_end_bounds(v@, v@.len() as int);
    }
    let mut a: usize = 0;
    while a < v.len() && v[a].is_whitespace()
        invariant
            a <= v.len(),
            crate::slack::http::word_start(v@, a as int) == crate::slack::http::word_start(v@, 0),
        decreases v.len() - a,
    {
        a += 1;
    }
    let mut b: usize = v.len();
    while b > 0 && v[b - 1].is_whitespace()
        invariant
            b <= v.len(),
            trim_end_at(v@, b as int) == trim_end_at(v@, v@.len() as int),
        decreases b,
    {
        b -= 1;
    }
    let t: Vec<char> = if a >= b {
        Vec::new()
    } else {
        crate::mrkdwn::subvec(v, a, b)
    };
    assert(t@ =~= trimmed(v@));
    t
}

/// Parses a Slack attachment color.
pub fn parse_hex_color(s: &str) -> (r: Option<Color>)
    requires
        fits(s@),
        color_slices_ok(s@),
    ensures
        r == hex_color(s@),
{
    let v = chars_of(s);
    let t = trimmed_exec(&v);
    let mut lower: Vec<char> = Vec::new();
    let mut i: usize = 0;
    while i < t.len()
        invariant
            i <= t.len(),
            lower@ =~= ascii_lowercase(t@).take(i as int),
        decreases t.len() - i,
    {
        let c = t[i];
        let lc = if 'A' <= c && c <= 'Z' {
            ((c as u8) + 32) as char
        } else {
            c
        };
        lower.push(lc);
        i += 1;
    }
    assert(ascii_lowercase(t@).take(t.len() as int) =~= ascii_lowercase(t@));
    if eq_literal(&lower, "good") {
        return Some(Color::Green);
    }
    if eq_literal(&lower, "warning") {
        return Some(Color::Yellow);
    }
    if eq_literal(&lower, "danger") {
        return Some(Color::Red);
    }
    let h: Vec<char> = if t.len() > 0 && t[0] == '#' {
        crate::mrkdwn::subvec(&t, 1, t.len())
    } else {
        t
    };
    assert(h@ =~= color_hex(v@));
    proof {
        lemma_trimmed_fits(v@);
    }
    let n = utf8_len_exec(&h);
    if n != 6 {
        return None;
    }
    let k2 = char_index_of_byte(&h, 2);
    proof {
        lemma_char_at_byte(h@, 2);
    }
    let red = radix16_exec(&h, 0, k2);
    assert(h@.subrange(0, k2 as int) =~= h@.take(k2 as int));
    let red = match red {
        Some(x) => x,
        None => {
            return None;
        },
    };
    let k4 = char_index_of_byte(&h, 4);
    proof {
        lemma_char_at_byte(h@, 4);
        crate::input::lemma_byte_pos_end(h@);
        if k4 < k2 {
            crate::input::lemma_byte_pos_grows(h@, k4 as int, k2 as int);
        }
    }
    let green = match radix16_exec(&h, k2, k4) {
        Some(x) => x,
        None => {
            return None;
        },
    };
    let blue = radix16_exec(&h, k4, h.len());
    assert(h@.subrange(k4 as int, h@.len() as int) =~= h@.skip(k4 as int));
    match blue {
        Some(x) => Some(Color::Rgb(red, green, x)),
        None => None,
    }
}

proof fn lemma_trim_end_bounds(s: Seq<char>, j: int)
    requires
        0 <= j <= s.len(),
    ensures
        0 <= trim_end_at(s, j) <= j,
    decreases j,
{
    if j > 0 && crate::unicode::is_unicode_whitespace(s[j - 1]) {
        lemma_trim_end_bounds(s, j - 1);
    }
}

/// A part of a text fits whenever the text does.
proof fn lemma_trimmed_fits(s: Seq<char>)
    requires
        fits(s),
    ensures
        fits(color_hex(s)),
{
    let t = trimmed(s);
    crate::slack::http::lemma_word_start_bounds(s, 0);
    lemma_trim_end_bounds(s, s.len() as int);
    let a = crate::slack::http::word_start(s, 0);
    let b = trim_end_at(s, s.len() as int);
    if a < b {
        lemma_utf8_len_sub(s, a, b);
    }
    let h = color_hex(s);
    if t.len() > 0 && t[0] == '#' {
        lemma_utf8_len_sub(t, 1, t.len() as int);
        assert(t.subrange(1, t.len() as int) =~= t.skip(1));
    }
}

/// The UTF-8 length of a part of a text is at most that of the text.
proof fn lemma_utf8_len_sub(s: Seq<char>, a: int, b: int)
    requires
        0 <= a <= b <= s.len(),
    ensures
        utf8_len(s.subrange(a, b)) <= utf8_len(s),
{
    assert(s =~= s.take(a) + s.subrange(a, b) + s.skip(b));
    crate::text::lemma_utf8_len_concat(s.take(a) + s.subrange(a, b), s.skip(b));
    crate::text::lemma_utf8_len_concat(s.take(a), s.subrange(a, b));
}


/// Line pieces of one span placed into preview lines: every piece after
/// the first starts a new line, and non-empty pieces are kept in `style`.
pub open spec fn preview_pieces(
    lines: Seq<Seq<SpanV>>,
    current: Seq<SpanV>,
    pieces: Seq<Seq<char>>,
    style: Style,
    first: bool,
) -> (Seq<Seq<SpanV>>, Seq<SpanV>)
    decreases pieces.len(),
{
    if pieces.len() == 0 {
        (lines, current)
    } else {
        let l1 = if first {
            lines
        } else {
            lines.push(current)
        };
        let c1 = if first {
            current
        } else {
            Seq::empty()
        };
        let c2 = if pieces[0].len() > 0 {
            c1.push((pieces[0], style))
        } else {
            c1
        };
        preview_pieces(l1, c2, pieces.skip(1), style, false)
    }
}

/// Spans placed into preview lines over a base style.
pub open spec fn preview_spans(
    lines: Seq<Seq<SpanV>>,
    current: Seq<SpanV>,
    spans: Seq<SpanV>,
    base: Style,
) -> (Seq<Seq<SpanV>>, Seq<SpanV>)
    decreases spans.len(),
{
    if spans.len() == 0 {
        (lines, current)
    } else {
        let st = preview_pieces(
            lines,
            current,
            crate::mrkdwn::lines_of(spans[0].0),
            crate::style::patched(base, spans[0].1),
            true,
        );
        preview_spans(st.0, st.1, spans.skip(1), base)
    }
}

/// Styled spans cut into lines at each line break, each piece in the base
/// style overlaid by its span's style; empty pieces are dropped.
pub open spec fn preview_lines(spans: Seq<SpanV>, base: Style) -> Seq<Seq<SpanV>> {
    let st = preview_spans(Seq::empty(), Seq::empty(), spans, base);
    st.0.push(st.1)
}

/// Places the pieces of one span; see `preview_pieces`.
fn place_preview_pieces(
    lines: &mut Vec<Vec<StyledSpan>>,
    current: &mut Vec<StyledSpan>,
    pieces: &Vec<String>,
    style: Style,
)
    ensures
        (lines_view(final(lines)@), spans_view(final(current)@)) == preview_pieces(
            lines_view(old(lines)@),
            spans_view(old(current)@),
            crate::formatting::views(pieces@),
            style,
            true,
        ),
{
    let ghost pv = crate::formatting::views(pieces@);
    let ghost target = preview_pieces(lines_view(lines@), spans_view(current@), pv, style, true);
    let mut j: usize = 0;
    assert(pv.skip(0) =~= pv);
    while j < pieces.len()
        invariant
            j <= pieces.len(),
            pv == crate::formatting::views(pieces@),
            preview_pieces(lines_view(lines@), spans_view(current@), pv.skip(j as int), style, j == 0) == target,
        decreases pieces.len() - j,
    {
        let ghost l0 = lines_view(lines@);
        let ghost c0 = spans_view(current@);
        assert(pv.skip(j as int).skip(1) =~= pv.skip(j + 1));
        assert(pv.skip(j as int)[0] == pieces@[j as int]@);
        if j > 0 {
            let mut done: Vec<StyledSpan> = Vec::new();
            std::mem::swap(&mut done, current);
            lines.push(done);
            assert(lines_view(lines@) =~= l0.push(c0));
            assert(spans_view(current@) =~= Seq::<SpanV>::empty());
        }
        let ghost c1 = spans_view(current@);
        if !pieces[j].as_str().is_empty() {
            current.push(StyledSpan::styled(crate::text::copy_string(&pieces[j]), style));
            assert(spans_view(current@) =~= c1.push((pieces@[j as int]@, style)));
        }
        j += 1;
    }
    assert(pv.skip(j as int) =~= Seq::<Seq<char>>::empty());
}

/// Cuts styled spans into preview lines; see `preview_lines`.
pub fn preview_lines_of(spans: &Vec<StyledSpan>, base: Style) -> (r: Vec<Vec<StyledSpan>>)
    ensures
        lines_view(r@) == preview_lines(spans_view(spans@), base),
{
    let ghost sv = spans_view(spans@);
    let mut lines: Vec<Vec<StyledSpan>> = Vec::new();
    let mut current: Vec<StyledSpan> = Vec::new();
    let mut i: usize = 0;
    assert(lines_view(lines@) =~= Seq::<Seq<SpanV>>::empty());
    assert(spans_view(current@) =~= Seq::<SpanV>::empty());
    assert(sv.skip(0) =~= sv);
    while i < spans.len()
        invariant
            i <= spans.len(),
            sv == spans_view(spans@),
            preview_spans(lines_view(lines@), spans_view(current@), sv.skip(i as int), base) == preview_spans(
                Seq::empty(),
                Seq::empty(),
                sv,
                base,
            ),
        decreases spans.len() - i,
    {
        assert(sv.skip(i as int).skip(1) =~= sv.skip(i + 1));
        let style = base.patch(spans[i].style);
        let pieces = crate::mrkdwn::split_lines(&spans[i].content);
        place_preview_pieces(&mut lines, &mut current, &pieces, style);
        i += 1;
    }
    assert(sv.skip(i as int) =~= Seq::<SpanV>::empty());
    let ghost cv = spans_view(current@);
    let ghost l0 = lines_view(lines@);
    lines.push(current);
    assert(lines_view(lines@) =~= l0.push(cv));
    lines
}

/// Texts joined with a line break between each two.
pub open spec fn joined_lines(ls: Seq<Seq<char>>) -> Seq<char>
    decreases ls.len(),
{
    if ls.len() == 0 {
        Seq::empty()
    } else if ls.len() == 1 {
        ls[0]
    } else {
        ls[0] + seq!['\n'] + joined_lines(ls.skip(1))
    }
}

/// The text of each line of spans.
pub open spec fn line_texts(lines: Seq<Seq<SpanV>>) -> Seq<Seq<char>> {
    Seq::new(lines.len(), |i: int| crate::mrkdwn::span_texts(lines[i]))
}

/// The text of the preview lines built so far and the current line.
pub open spec fn shown_text(lines: Seq<Seq<SpanV>>, current: Seq<SpanV>) -> Seq<char> {
    joined_lines(line_texts(lines.push(current)))
}

proof fn lemma_joined_push(ls: Seq<Seq<char>>, y: Seq<char>)
    requires
        ls.len() > 0,
    ensures
        joined_lines(ls.push(y)) == joined_lines(ls) + seq!['\n'] + y,
    decreases ls.len(),
{
    let t = ls.push(y);
    if ls.len() == 1 {
        assert(t.skip(1) =~= seq![y]);
        assert(joined_lines(seq![y]) == y);
    } else {
        assert(t.skip(1) =~= ls.skip(1).push(y));
        lemma_joined_push(ls.skip(1), y);
        assert(joined_lines(t) =~= ls[0] + seq!['\n'] + (joined_lines(ls.skip(1)) + seq!['\n'] + y));
    }
}

proof fn lemma_shown_new_line(lines: Seq<Seq<SpanV>>, current: Seq<SpanV>)
    ensures
        shown_text(lines.push(current), Seq::empty()) == shown_text(lines, current) + seq!['\n'],
{
    let a = line_texts(lines.push(current));
    let e = Seq::<SpanV>::empty();
    assert(line_texts(lines.push(current).push(e)) =~= a.push(crate::mrkdwn::span_texts(e)));
    assert(crate::mrkdwn::span_texts(e) == Seq::<char>::empty());
    lemma_joined_push(a, Seq::empty());
    assert(joined_lines(a) + seq!['\n'] + Seq::<char>::empty() =~= joined_lines(a) + seq!['\n']);
}

proof fn lemma_shown_add_span(lines: Seq<Seq<SpanV>>, current: Seq<SpanV>, x: SpanV)
    ensures
        shown_text(lines, current.push(x)) == shown_text(lines, current) + x.0,
{
    let a = line_texts(lines);
    crate::mrkdwn::lemma_span_texts_append(current, seq![x]);
    assert(current + seq![x] =~= current.push(x));
    crate::mrkdwn::lemma_span_texts_single(x);
    assert(line_texts(lines.push(current.push(x))) =~= a.push(crate::mrkdwn::span_texts(current) + x.0));
    assert(line_texts(lines.push(current)) =~= a.push(crate::mrkdwn::span_texts(current)));
    if a.len() == 0 {
        assert(a.push(crate::mrkdwn::span_texts(current) + x.0) =~= seq![crate::mrkdwn::span_texts(current) + x.0]);
        assert(a.push(crate::mrkdwn::span_texts(current)) =~= seq![crate::mrkdwn::span_texts(current)]);
    } else {
        lemma_joined_push(a, crate::mrkdwn::span_texts(current) + x.0);
        lemma_joined_push(a, crate::mrkdwn::span_texts(current));
        assert(joined_lines(a) + seq!['\n'] + (crate::mrkdwn::span_texts(current) + x.0) =~= joined_lines(a) + seq!['\n']
            + crate::mrkdwn::span_texts(current) + x.0);
    }
}

proof fn lemma_pieces_shown(lines: Seq<Seq<SpanV>>, current: Seq<SpanV>, pieces: Seq<Seq<char>>, style: Style, first: bool)
    requires
        pieces.len() > 0,
    ensures
        shown_text(preview_pieces(lines, current, pieces, style, first).0, preview_pieces(lines, current, pieces, style, first).1)
            == shown_text(lines, current) + (if first { Seq::<char>::empty() } else { seq!['\n'] }) + joined_lines(pieces),
    decreases pieces.len(),
{
    let l1 = if first { lines } else { lines.push(current) };
    let c1 = if first { current } else { Seq::<SpanV>::empty() };
    let pre = if first { Seq::<char>::empty() } else { seq!['\n'] };
    if !first {
        lemma_shown_new_line(lines, current);
    }
    assert(shown_text(l1, c1) =~= shown_text(lines, current) + pre);
    let c2 = if pieces[0].len() > 0 { c1.push((pieces[0], style)) } else { c1 };
    if pieces[0].len() > 0 {
        lemma_shown_add_span(l1, c1, (pieces[0], style));
    } else {
        assert(shown_text(l1, c1) + pieces[0] =~= shown_text(l1, c1));
    }
    assert(shown_text(l1, c2) == shown_text(l1, c1) + pieces[0]);
    let rest = pieces.skip(1);
    if rest.len() == 0 {
        assert(preview_pieces(l1, c2, rest, style, false) == (l1, c2));
        assert(joined_lines(pieces) == pieces[0]);
        assert(shown_text(lines, current) + pre + pieces[0] =~= shown_text(l1, c1) + pieces[0]);
    } else {
        lemma_pieces_shown(l1, c2, rest, style, false);
        assert(joined_lines(pieces) == pieces[0] + seq!['\n'] + joined_lines(rest));
        assert(shown_text(lines, current) + pre + (pieces[0] + seq!['\n'] + joined_lines(rest)) =~= shown_text(l1, c1)
            + pieces[0] + seq!['\n'] + joined_lines(rest));
    }
}

proof fn lemma_lines_from_joined(s: Seq<char>, pos: int)
    requires
        0 <= pos <= s.len(),
    ensures
        crate::mrkdwn::lines_from(s, pos).len() > 0,
        joined_lines(crate::mrkdwn::lines_from(s, pos)) == s.skip(pos),
    decreases s.len() - pos,
{
    lemma_index_of_from(s, '\n', pos);
    match crate::text::index_of_from(s, '\n', pos) {
        None => {
            assert(s.subrange(pos, s.len() as int) =~= s.skip(pos));
        },
        Some(k) => {
            lemma_lines_from_joined(s, k + 1);
            let rest = crate::mrkdwn::lines_from(s, k + 1);
            let all = seq![s.subrange(pos, k)] + rest;
            assert(all.skip(1) =~= rest);
            assert(all[0] == s.subrange(pos, k));
            assert(joined_lines(all) == all[0] + seq!['\n'] + joined_lines(all.skip(1)));
            assert(s.skip(pos) =~= s.subrange(pos, k) + seq!['\n'] + s.skip(k + 1));
        },
    }
}

proof fn lemma_spans_shown(lines: Seq<Seq<SpanV>>, current: Seq<SpanV>, spans: Seq<SpanV>, base: Style)
    ensures
        shown_text(preview_spans(lines, current, spans, base).0, preview_spans(lines, current, spans, base).1)
            == shown_text(lines, current) + crate::mrkdwn::span_texts(spans),
    decreases spans.len(),
{
    if spans.len() == 0 {
        assert(shown_text(lines, current) + crate::mrkdwn::span_texts(spans) =~= shown_text(lines, current));
    } else {
        let pieces = crate::mrkdwn::lines_of(spans[0].0);
        lemma_lines_from_joined(spans[0].0, 0);
        assert(spans[0].0.skip(0) =~= spans[0].0);
        let style = crate::style::patched(base, spans[0].1);
        lemma_pieces_shown(lines, current, pieces, style, true);
        let st = preview_pieces(lines, current, pieces, style, true);
        lemma_spans_shown(st.0, st.1, spans.skip(1), base);
        crate::mrkdwn::lemma_span_texts_append(seq![spans[0]], spans.skip(1));
        assert(seq![spans[0]] + spans.skip(1) =~= spans);
        crate::mrkdwn::lemma_span_texts_single(spans[0]);
        assert(shown_text(lines, current) + Seq::<char>::empty() + spans[0].0 + crate::mrkdwn::span_texts(spans.skip(1))
            =~= shown_text(lines, current) + crate::mrkdwn::span_texts(spans));
    }
}

/// The preview lines, joined with line breaks, spell out the spans' texts.
pub proof fn lemma_preview_lines_text(spans: Seq<SpanV>, base: Style)
    ensures
        joined_lines(line_texts(preview_lines(spans, base))) == crate::mrkdwn::span_texts(spans),
{
    lemma_spans_shown(Seq::empty(), Seq::empty(), spans, base);
    let e = Seq::<SpanV>::empty();
    assert(line_texts(Seq::<Seq<SpanV>>::empty().push(e)) =~= seq![crate::mrkdwn::span_texts(e)]);
    assert(crate::mrkdwn::span_texts(e) == Seq::<char>::empty());
    assert(Seq::<char>::empty() + crate::mrkdwn::span_texts(spans) =~= crate::mrkdwn::span_texts(spans));
}

/// The compose preview keeps the buffer as typed: its lines, joined with
/// line breaks, give back the buffer exactly, markers included.
pub proof fn law_preview_keeps_buffer(buffer: Seq<char>, base: Style)
    ensures
        joined_lines(line_texts(preview_lines(crate::mrkdwn::visible_mrkdwn_spans(buffer), base))) == buffer,
{
    lemma_preview_lines_text(crate::mrkdwn::visible_mrkdwn_spans(buffer), base);
    crate::mrkdwn::law_visible_spans_keep_text(buffer);
}

/// The compose buffer as styled preview lines: mrkdwn code and emphasis
/// are styled, but every character of the buffer stays as typed, markers
/// and emoji shortcodes included, so cursor columns computed on the raw
/// buffer line up; each line break in the buffer starts a new line.
/// `show_emojis` therefore changes nothing here.
pub fn build_input_preview(buffer: &str, show_emojis: bool, base_style: Style) -> (r: Vec<Vec<StyledSpan>>)
    ensures
        lines_view(r@) == preview_lines(crate::mrkdwn::visible_mrkdwn_spans(buffer@), base_style),
        joined_lines(line_texts(lines_view(r@))) == buffer@,
{
    proof {
        law_preview_keeps_buffer(buffer@, base_style);
    }
    let spans = crate::mrkdwn::parse_visible_mrkdwn_spans(buffer);
    preview_lines_of(&spans, base_style)
}


/// Text formatted from `text` by `format_message_spans` with resolver `f`.
pub open spec fn formatted<F: Fn(&str) -> String>(f: &F, text: Seq<char>, show_emojis: bool, spans: Seq<SpanV>) -> bool {
    exists|names: Seq<Seq<Seq<char>>>|
        #[trigger] crate::mrkdwn::items_resolved(f, crate::mrkdwn::message_items(text), names) && spans
            == crate::mrkdwn::message_spans(text, show_emojis, names)
}

/// The option when it holds a non-empty text.
pub open spec fn non_empty(o: Option<Seq<char>>) -> Option<Seq<char>> {
    match o {
        Some(t) => if t.len() > 0 {
            Some(t)
        } else {
            None
        },
        None => None,
    }
}

/// The style of dimmed card text.
pub open spec fn dim_gray() -> Style {
    Style { fg: Some(Color::DarkGray), ..plain() }
}

/// The color of a card's side bar: its own color when it parses, else cyan.
pub open spec fn bar_color(card: crate::widgets::CardV) -> Color {
    match card.color {
        Some(c) => match hex_color(c) {
            Some(col) => col,
            None => Color::Cyan,
        },
        None => Color::Cyan,
    }
}

/// The style of a card title: bold, and underlined when it links somewhere.
pub open spec fn title_style(card: crate::widgets::CardV) -> Style {
    let bold = crate::style::with_modifier(plain(), crate::style::BOLD);
    if non_empty(card.title_link) is Some {
        crate::style::with_modifier(bold, crate::style::UNDERLINED)
    } else {
        bold
    }
}

/// The first line of a card: the top corner, then `@author`, a separator
/// when both are present, and the title.
pub open spec fn card_header(card: crate::widgets::CardV, bar: Style) -> Seq<SpanV> {
    let author = non_empty(card.author);
    let title = non_empty(card.title);
    seq![("╭ "@, bar)] + (match author {
        Some(a) => seq![("@"@ + a, dim_gray())],
        None => Seq::empty(),
    }) + (if author is Some && title is Some {
        seq![(" · "@, dim_gray())]
    } else {
        Seq::empty()
    }) + (match title {
        Some(t) => seq![(t, title_style(card))],
        None => Seq::empty(),
    }) + (if author is None && title is None {
        seq![(Seq::<char>::empty(), plain())]
    } else {
        Seq::empty()
    })
}

/// Lines with the side bar in front.
pub open spec fn barred(ls: Seq<Seq<SpanV>>, bar: Style) -> Seq<Seq<SpanV>> {
    Seq::new(ls.len(), |i: int| seq![("│ "@, bar)] + ls[i])
}

/// The wrapped lines of one body line's spans (never none).
pub open spec fn body_piece_lines(spans: Seq<SpanV>, inner: int, indent: Seq<char>) -> Seq<Seq<SpanV>> {
    let sp = if spans.len() == 0 {
        seq![(Seq::<char>::empty(), plain())]
    } else {
        spans
    };
    let w = wrapped(sp, inner, inner, indent);
    if w.len() == 0 {
        seq![Seq::<SpanV>::empty()]
    } else {
        w
    }
}

/// Most body lines a card shows.
pub const MAX_BODY_LINES: usize = 24;

/// An optional card section (pretext or footer) formatted into `spans`:
/// when present, its spans over `base`, wrapped behind the side bar.
pub open spec fn section_lines(
    text: Option<Seq<char>>,
    spans: Seq<SpanV>,
    base: Style,
    bar: Style,
    inner: int,
    indent: Seq<char>,
) -> Seq<Seq<SpanV>> {
    if non_empty(text) is Some {
        barred(wrapped(crate::mrkdwn::restyle(spans, base), inner, inner, indent), bar)
    } else {
        Seq::empty()
    }
}

/// The first `MAX_BODY_LINES` body lines behind the side bar, then `…` when
/// some were left out.
pub open spec fn capped_body(all_body: Seq<Seq<SpanV>>, bar: Style) -> Seq<Seq<SpanV>> {
    let shown = if all_body.len() > MAX_BODY_LINES {
        MAX_BODY_LINES as int
    } else {
        all_body.len() as int
    };
    barred(all_body.take(shown), bar) + if all_body.len() > MAX_BODY_LINES {
        seq![seq![("│ "@, bar), ("…"@, dim_gray())]]
    } else {
        Seq::empty()
    }
}

/// The columns a card's text gets beside its side bar.
pub open spec fn card_inner(width: usize) -> int {
    at_least_one(sat_sub(width as int, str_width("│ "@) as int))
}

/// The indent of a card's continuation lines.
pub open spec fn card_indent() -> Seq<char> {
    Seq::new(str_width("│ "@) as nat, |i: int| ' ')
}

/// A card rendered as boxed lines, given the spans formatted from its
/// pretext, from each line of its body, and from its footer: a header, the
/// pretext (dim italic), at most `MAX_BODY_LINES` body lines (then `…`),
/// the footer (dim), and the bottom corner, all behind a side bar in the
/// card's color and wrapped to the width left beside the bar.
pub open spec fn card_lines(
    card: crate::widgets::CardV,
    width: usize,
    pre: Seq<SpanV>,
    body: Seq<Seq<SpanV>>,
    foot: Seq<SpanV>,
) -> Seq<Seq<SpanV>> {
    let bar = Style { fg: Some(bar_color(card)), ..plain() };
    let inner = card_inner(width);
    let indent = card_indent();
    let all_body = crate::mrkdwn::concat_all(Seq::new(body.len(), |k: int| body_piece_lines(body[k], inner, indent)));
    seq![card_header(card, bar)] + section_lines(
        card.pretext,
        pre,
        crate::style::with_modifier(dim_gray(), crate::style::ITALIC),
        bar,
        inner,
        indent,
    ) + capped_body(all_body, bar) + section_lines(card.footer, foot, dim_gray(), bar, inner, indent)
        + seq![seq![("╰"@, bar)]]
}

/// A card's color, if any, can be parsed without slicing inside a character.
pub open spec fn card_color_ok(card: crate::widgets::CardV) -> bool {
    card.color matches Some(c) ==> fits(c) && color_slices_ok(c)
}

/// The pretext, body lines and footer of a card were formatted by `f`.
pub open spec fn card_formatted<F: Fn(&str) -> String>(
    f: &F,
    card: crate::widgets::CardV,
    show_emojis: bool,
    pre: Seq<SpanV>,
    body: Seq<Seq<SpanV>>,
    foot: Seq<SpanV>,
) -> bool {
    &&& non_empty(card.pretext) matches Some(p) ==> formatted(f, p, show_emojis, pre)
    &&& body.len() == crate::mrkdwn::lines_of(card.body).len()
    &&& forall|k: int| 0 <= k < body.len() ==> #[trigger] formatted(f, crate::mrkdwn::lines_of(card.body)[k], show_emojis, body[k])
    &&& non_empty(card.footer) matches Some(t) ==> formatted(f, t, show_emojis, foot)
}

pub(crate) fn format_spans<F: Fn(&str) -> String>(text: &str, show_emojis: bool, resolve_user: &F) -> (r: Vec<StyledSpan>)
    requires
        forall|a: &str| call_requires(*resolve_user, (a,)),
    ensures
        formatted(resolve_user, text@, show_emojis, spans_view(r@)),
{
    crate::mrkdwn::format_message_spans(text, show_emojis, resolve_user)
}

/// Spans restyled over `base`; see `restyle`.
fn overlay(spans: Vec<StyledSpan>, base: Style) -> (r: Vec<StyledSpan>)
    ensures
        spans_view(r@) == crate::mrkdwn::restyle(spans_view(spans@), base),
{
    let mut out: Vec<StyledSpan> = Vec::new();
    let mut rest = spans;
    let ghost orig = rest@;
    let ghost sv = spans_view(orig);
    let mut i: usize = 0;
    assert(orig.skip(0) =~= orig);
    assert(rest@.len() == rest.len());
    while rest.len() > 0
        invariant
            i + rest@.len() == orig.len(),
            orig.len() <= usize::MAX,
            rest@ == orig.skip(i as int),
            sv == spans_view(orig),
            spans_view(out@) == crate::mrkdwn::restyle(sv.take(i as int), base),
        decreases rest.len(),
    {
        let s = rest.remove(0);
        assert(s == orig[i as int]);
        let ghost before = spans_view(out@);
        let st = base.patch(s.style);
        out.push(StyledSpan::styled(s.content, st));
        assert(spans_view(out@) =~= before.push((sv[i as int].0, st)));
        assert(rest@ =~= orig.skip(i + 1));
        i += 1;
        assert(crate::mrkdwn::restyle(sv.take(i as int), base) =~= crate::mrkdwn::restyle(sv.take(i - 1), base).push((sv[i - 1].0, st)));
    }
    assert(sv.take(i as int) =~= sv);
    out
}

/// A line with the side bar in front.
fn barred_line(bar: Style, piece: Vec<StyledSpan>) -> (r: Vec<StyledSpan>)
    ensures
        spans_view(r@) == seq![("│ "@, bar)] + spans_view(piece@),
{
    let mut line: Vec<StyledSpan> = Vec::new();
    line.push(StyledSpan::styled("│ ".to_string(), bar));
    let mut p = piece;
    let ghost pv = spans_view(p@);
    line.append(&mut p);
    assert(spans_view(line@) =~= seq![("│ "@, bar)] + pv);
    line
}

/// Appends lines with the side bar in front.
fn push_barred(out: &mut Vec<Vec<StyledSpan>>, bar: Style, lines: Vec<Vec<StyledSpan>>)
    ensures
        lines_view(final(out)@) == lines_view(old(out)@) + barred(lines_view(lines@), bar),
{
    let ghost orig = lines@;
    let ghost lv = lines_view(orig);
    let ghost o0 = lines_view(out@);
    let mut rest = lines;
    let mut i: usize = 0;
    assert(orig.skip(0) =~= orig);
    assert(rest@.len() == rest.len());
    while rest.len() > 0
        invariant
            i + rest@.len() == orig.len(),
            orig.len() <= usize::MAX,
            rest@ == orig.skip(i as int),
            lv == lines_view(orig),
            lines_view(out@) == o0 + barred(lv.take(i as int), bar),
        decreases rest.len(),
    {
        let piece = rest.remove(0);
        assert(piece == orig[i as int]);
        let ghost before = lines_view(out@);
        let line = barred_line(bar, piece);
        let ghost lsv = spans_view(line@);
        out.push(line);
        assert(lines_view(out@) =~= before.push(lsv));
        assert(rest@ =~= orig.skip(i + 1));
        i += 1;
        assert(barred(lv.take(i as int), bar) =~= barred(lv.take(i - 1), bar).push(seq![("│ "@, bar)] + lv[i - 1]));
        assert(lines_view(out@) =~= o0 + barred(lv.take(i as int), bar));
    }
    assert(lv.take(i as int) =~= lv);
}


/// A string of `n` spaces.
fn spaces(n: usize) -> (r: String)
    ensures
        r@ == Seq::new(n as nat, |i: int| ' '),
{
    let mut r = String::new();
    let mut i: usize = 0;
    while i < n
        invariant
            i <= n,
            r@ == Seq::new(i as nat, |j: int| ' '),
        decreases n - i,
    {
        r.push(' ');
        i += 1;
        assert(r@ =~= Seq::new(i as nat, |j: int| ' '));
    }
    r
}

/// The option holds a non-empty text.
fn has_text(o: &Option<String>) -> (b: bool)
    ensures
        b == (non_empty(option_view(*o)) is Some),
{
    match o {
        Some(t) => !t.as_str().is_empty(),
        None => false,
    }
}

/// The first line of a card; see `card_header`.
fn card_header_line(card: &crate::widgets::AttachmentCard, bar: Style) -> (r: Vec<StyledSpan>)
    ensures
        spans_view(r@) == card_header(card@, bar),
{
    let dg = Style::new().fg(Color::DarkGray);
    let has_author = has_text(&card.author);
    let has_title = has_text(&card.title);
    let mut header: Vec<StyledSpan> = Vec::new();
    header.push(StyledSpan::styled("╭ ".to_string(), bar));
    let ghost h0 = spans_view(header@);
    if has_author {
        let mut t = "@".to_string();
        t.push_str(card.author.as_ref().unwrap().as_str());
        header.push(StyledSpan::styled(t, dg));
    }
    let ghost h1 = spans_view(header@);
    if has_author && has_title {
        header.push(StyledSpan::styled(" · ".to_string(), dg));
    }
    let ghost h2 = spans_view(header@);
    if has_title {
        let mut ts = Style::new().add_modifier(crate::style::BOLD);
        if has_text(&card.title_link) {
            ts = ts.add_modifier(crate::style::UNDERLINED);
        }
        header.push(StyledSpan::styled(crate::text::copy_string(card.title.as_ref().unwrap()), ts));
    }
    let ghost h3 = spans_view(header@);
    if !has_author && !has_title {
        header.push(StyledSpan::raw(String::new()));
    }
    let ghost c = card@;
    assert(h0 =~= seq![("╭ "@, bar)]);
    assert(h1 =~= h0 + (match non_empty(c.author) {
        Some(a) => seq![("@"@ + a, dim_gray())],
        None => Seq::empty(),
    }));
    assert(h2 =~= h1 + (if non_empty(c.author) is Some && non_empty(c.title) is Some {
        seq![(" · "@, dim_gray())]
    } else {
        Seq::empty()
    }));
    assert(h3 =~= h2 + (match non_empty(c.title) {
        Some(t) => seq![(t, title_style(c))],
        None => Seq::empty(),
    }));
    assert(spans_view(header@) =~= card_header(c, bar));
    header
}

/// The body lines of a card before the cap, with the spans formatted from
/// each source line.
fn card_body_pieces<F: Fn(&str) -> String>(
    body: &String,
    show_emojis: bool,
    resolve_user: &F,
    inner: usize,
    indent: &String,
) -> (r: (Vec<Vec<StyledSpan>>, Ghost<Seq<Seq<SpanV>>>))
    requires
        forall|a: &str| call_requires(*resolve_user, (a,)),
    ensures
        r.1@.len() == crate::mrkdwn::lines_of(body@).len(),
        forall|k: int| 0 <= k < r.1@.len() ==> #[trigger] formatted(resolve_user, crate::mrkdwn::lines_of(body@)[k], show_emojis, r.1@[k]),
        lines_view(r.0@) == crate::mrkdwn::concat_all(
            Seq::new(r.1@.len(), |k: int| body_piece_lines(r.1@[k], inner as int, indent@)),
        ),
{
    let src = crate::mrkdwn::split_lines(body);
    let ghost lines = crate::mrkdwn::lines_of(body@);
    let mut all: Vec<Vec<StyledSpan>> = Vec::new();
    let ghost mut acc: Seq<Seq<SpanV>> = Seq::empty();
    let mut k: usize = 0;
    assert(lines_view(all@) =~= crate::mrkdwn::concat_all(
        Seq::new(0, |j: int| body_piece_lines(acc[j], inner as int, indent@)),
    ));
    while k < src.len()
        invariant
            k <= src.len(),
            crate::formatting::views(src@) == lines,
            forall|a: &str| call_requires(*resolve_user, (a,)),
            acc.len() == k,
            forall|j: int| 0 <= j < k ==> #[trigger] formatted(resolve_user, lines[j], show_emojis, acc[j]),
            lines_view(all@) == crate::mrkdwn::concat_all(
                Seq::new(k as nat, |j: int| body_piece_lines(acc[j], inner as int, indent@)),
            ),
        decreases src.len() - k,
    {
        let parsed = format_spans(src[k].as_str(), show_emojis, resolve_user);
        let ghost pv = spans_view(parsed@);
        let mut spans = parsed;
        if spans.len() == 0 {
            spans.push(StyledSpan::raw(String::new()));
            assert(spans_view(spans@) =~= seq![(Seq::<char>::empty(), plain())]);
        }
        let mut w = wrap_spans_hanging(spans.as_slice(), inner, inner, indent.as_str());
        if w.len() == 0 {
            w.push(Vec::new());
            assert(spans_view(w@[0]@) =~= Seq::<SpanV>::empty());
            assert(lines_view(w@) =~= seq![Seq::<SpanV>::empty()]);
        }
        let ghost wv = lines_view(w@);
        assert(wv == body_piece_lines(pv, inner as int, indent@));
        let ghost before = lines_view(all@);
        let ghost acc0 = acc;
        all.append(&mut w);
        assert(lines_view(all@) =~= before + wv);
        proof {
            acc = acc.push(pv);
            assert(Seq::new((k + 1) as nat, |j: int| body_piece_lines(acc[j], inner as int, indent@)) =~= Seq::new(
                k as nat,
                |j: int| body_piece_lines(acc0[j], inner as int, indent@),
            ).push(wv));
            crate::mrkdwn::lemma_concat_push(
                Seq::new(k as nat, |j: int| body_piece_lines(acc0[j], inner as int, indent@)),
                wv,
            );
        }
        k += 1;
    }
    (all, Ghost(acc))
}

/// An optional card section; see `section_lines`.
fn card_section<F: Fn(&str) -> String>(
    text: &Option<String>,
    show_emojis: bool,
    resolve_user: &F,
    base: Style,
    bar: Style,
    inner: usize,
    indent: &String,
) -> (r: (Vec<Vec<StyledSpan>>, Ghost<Seq<SpanV>>))
    requires
        forall|a: &str| call_requires(*resolve_user, (a,)),
    ensures
        non_empty(option_view(*text)) matches Some(t) ==> formatted(resolve_user, t, show_emojis, r.1@),
        lines_view(r.0@) == section_lines(option_view(*text), r.1@, base, bar, inner as int, indent@),
{
    let mut out: Vec<Vec<StyledSpan>> = Vec::new();
    if has_text(text) {
        let parsed = format_spans(text.as_ref().unwrap().as_str(), show_emojis, resolve_user);
        let ghost pv = spans_view(parsed@);
        let spans = overlay(parsed, base);
        let w = wrap_spans_hanging(spans.as_slice(), inner, inner, indent.as_str());
        push_barred(&mut out, bar, w);
        assert(lines_view(out@) =~= section_lines(option_view(*text), pv, base, bar, inner as int, indent@));
        (out, Ghost(pv))
    } else {
        assert(lines_view(out@) =~= Seq::<Seq<SpanV>>::empty());
        (out, Ghost(Seq::empty()))
    }
}

/// The capped body lines; see `capped_body`.
fn card_capped_body(all_body: Vec<Vec<StyledSpan>>, bar: Style) -> (r: Vec<Vec<StyledSpan>>)
    ensures
        lines_view(r@) == capped_body(lines_view(all_body@), bar),
{
    let ghost ab = lines_view(all_body@);
    let mut body = all_body;
    let truncated = body.len() > MAX_BODY_LINES;
    body.truncate(MAX_BODY_LINES);
    assert(lines_view(body@) =~= ab.take(if ab.len() > MAX_BODY_LINES {
        MAX_BODY_LINES as int
    } else {
        ab.len() as int
    }));
    let mut out: Vec<Vec<StyledSpan>> = Vec::new();
    assert(lines_view(out@) =~= Seq::<Seq<SpanV>>::empty());
    push_barred(&mut out, bar, body);
    if truncated {
        let mut line: Vec<StyledSpan> = Vec::new();
        line.push(StyledSpan::styled("│ ".to_string(), bar));
        line.push(StyledSpan::styled("…".to_string(), Style::new().fg(Color::DarkGray)));
        let ghost lv = spans_view(line@);
        let ghost before = lines_view(out@);
        out.push(line);
        assert(lines_view(out@) =~= before.push(lv));
        assert(lv =~= seq![("│ "@, bar), ("…"@, dim_gray())]);
    }
    assert(lines_view(out@) =~= capped_body(ab, bar));
    out
}

/// Appends lines.
fn append_lines(out: &mut Vec<Vec<StyledSpan>>, more: Vec<Vec<StyledSpan>>)
    ensures
        lines_view(final(out)@) == lines_view(old(out)@) + lines_view(more@),
{
    let mut m = more;
    let ghost mv = lines_view(m@);
    let ghost o0 = lines_view(out@);
    out.append(&mut m);
    assert(lines_view(out@) =~= o0 + mv);
}

/// Renders an attachment card as boxed lines behind a colored side bar;
/// see `card_lines`. `resolve_user` names the users its text mentions.
pub fn render_card<F: Fn(&str) -> String>(
    card: &crate::widgets::AttachmentCard,
    width: usize,
    show_emojis: bool,
    resolve_user: &F,
) -> (r: Vec<Vec<StyledSpan>>)
    requires
        forall|a: &str| call_requires(*resolve_user, (a,)),
        card_color_ok(card@),
    ensures
        exists|pre: Seq<SpanV>, body: Seq<Seq<SpanV>>, foot: Seq<SpanV>|
            #[trigger] card_formatted(resolve_user, card@, show_emojis, pre, body, foot) && lines_view(r@)
                == card_lines(card@, width, pre, body, foot),
{
    let color = match &card.color {
        Some(c) => match parse_hex_color(c.as_str()) {
            Some(col) => col,
            None => Color::Cyan,
        },
        None => Color::Cyan,
    };
    let bar = Style::new().fg(color);
    let dg = Style::new().fg(Color::DarkGray);
    let bw = display_width("│ ");
    let inner0: usize = if width > bw {
        width - bw
    } else {
        0
    };
    let inner: usize = if inner0 < 1 {
        1
    } else {
        inner0
    };
    let indent = spaces(bw);
    assert(inner as int == card_inner(width));
    assert(indent@ == card_indent());
    let ghost c = card@;
    let mut out: Vec<Vec<StyledSpan>> = Vec::new();
    let header = card_header_line(card, bar);
    let ghost hv = spans_view(header@);
    out.push(header);
    assert(lines_view(out@) =~= seq![hv]);
    let (pre_lines, Ghost(pre)) = card_section(
        &card.pretext,
        show_emojis,
        resolve_user,
        dg.add_modifier(crate::style::ITALIC),
        bar,
        inner,
        &indent,
    );
    append_lines(&mut out, pre_lines);
    let (all_body, Ghost(body)) = card_body_pieces(&card.body, show_emojis, resolve_user, inner, &indent);
    append_lines(&mut out, card_capped_body(all_body, bar));
    let (foot_lines, Ghost(foot)) = card_section(&card.footer, show_emojis, resolve_user, dg, bar, inner, &indent);
    append_lines(&mut out, foot_lines);
    let ghost o4 = lines_view(out@);
    let mut bottom: Vec<StyledSpan> = Vec::new();
    bottom.push(StyledSpan::styled("╰".to_string(), bar));
    let ghost bv = spans_view(bottom@);
    out.push(bottom);
    assert(lines_view(out@) =~= o4.push(bv));
    assert(bv =~= seq![("╰"@, bar)]);
    assert(card_formatted(resolve_user, c, show_emojis, pre, body, foot));
    assert(lines_view(out@) =~= card_lines(c, width, pre, body, foot));
    out
}

} // verus!
