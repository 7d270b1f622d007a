//! Editing the message input box: a text buffer with a cursor held as a
//! byte offset into the buffer's UTF-8 encoding.
use vstd::prelude::*;
use crate::widgets::{ChatPane, TabCompleteState, TabV};
use crate::unicode::{lowercase, to_lowercase};
use crate::formatting::views;
use crate::events::str_eq;
use crate::text::{
    lex_lt, lex_less, lemma_lex_transitive, lemma_lex_total, starts_with, contains_char, literal_string,
    lemma_utf8_len_concat, string_of_range, push_range,
    chars_of, utf8_len, utf8_width, utf8_width_exec, lemma_utf8_len_take, index_of_from,
    last_index_before, lemma_index_of_from, lemma_last_index_before,
};

verus! {

/// Byte offset, in the UTF-8 encoding of `s`, of the character at position `k`.
pub open spec fn byte_pos(s: Seq<char>, k: int) -> int {
    utf8_len(s.take(k)) as int
}

/// `b` is the byte offset of a character start in `s`, or the end of `s`.
pub open spec fn is_boundary(s: Seq<char>, b: int) -> bool {
    exists|k: int| 0 <= k <= s.len() && byte_pos(s, k) == b
}

/// The position of the character starting at byte offset `b`.
pub open spec fn char_at_byte(s: Seq<char>, b: int) -> int {
    choose|k: int| 0 <= k <= s.len() && byte_pos(s, k) == b
}

/// The UTF-8 length of `s` fits in `usize`.
pub open spec fn fits(s: Seq<char>) -> bool {
    utf8_len(s) <= usize::MAX
}

pub proof fn lemma_byte_pos_step(s: Seq<char>, k: int)
    requires
        0 <= k < s.len(),
    ensures
        byte_pos(s, k + 1) == byte_pos(s, k) + utf8_width(s[k]),
        byte_pos(s, k) < byte_pos(s, k + 1),
{
    lemma_utf8_len_take(s, k);
}

/// Byte offsets grow by at least one per character.
pub proof fn lemma_byte_pos_grows(s: Seq<char>, i: int, j: int)
    requires
        0 <= i <= j <= s.len(),
    ensures
        byte_pos(s, i) + (j - i) <= byte_pos(s, j),
    decreases j - i,
{
    if i < j {
        lemma_byte_pos_grows(s, i, j - 1);
        lemma_byte_pos_step(s, j - 1);
    }
}

pub proof fn lemma_byte_pos_end(s: Seq<char>)
    ensures
        byte_pos(s, s.len() as int) == utf8_len(s),
{
    assert(s.take(s.len() as int) =~= s);
}

/// The character position of a boundary is the only one with that offset.
pub proof fn lemma_char_at_byte(s: Seq<char>, b: int)
    requires
        is_boundary(s, b),
    ensures
        0 <= char_at_byte(s, b) <= s.len(),
        byte_pos(s, char_at_byte(s, b)) == b,
        forall|k: int| 0 <= k <= s.len() && byte_pos(s, k) == b ==> k == char_at_byte(s, b),
{
    let c = char_at_byte(s, b);
    assert forall|k: int| 0 <= k <= s.len() && byte_pos(s, k) == b implies k == c by {
        if k < c {
            lemma_byte_pos_grows(s, k, c);
        } else if c < k {
            lemma_byte_pos_grows(s, c, k);
        }
    }
}

/// Every character position gives a boundary, and it is found again.
pub proof fn lemma_boundary_of(s: Seq<char>, k: int)
    requires
        0 <= k <= s.len(),
    ensures
        is_boundary(s, byte_pos(s, k)),
        char_at_byte(s, byte_pos(s, k)) == k,
{
    lemma_char_at_byte(s, byte_pos(s, k));
}

pub proof fn lemma_byte_pos_bound(s: Seq<char>, k: int)
    requires
        0 <= k <= s.len(),
    ensures
        0 <= byte_pos(s, k) <= utf8_len(s),
{
    lemma_byte_pos_grows(s, k, s.len() as int);
    lemma_byte_pos_end(s);
}

/// The character position of the boundary `b`.
pub fn char_index_of_byte(v: &Vec<char>, b: usize) -> (k: usize)
    requires
        is_boundary(v@, b as int),
    ensures
        k == char_at_byte(v@, b as int),
{
    proof {
        lemma_char_at_byte(v@, b as int);
    }
    let ghost target = char_at_byte(v@, b as int);
    let mut k: usize = 0;
    let mut acc: usize = 0;
    while acc < b
        invariant
            0 <= k <= target <= v.len(),
            acc == byte_pos(v@, k as int),
            byte_pos(v@, target) == b,
        decreases b - acc,
    {
        proof {
            if k == target {
                assert(false);
            }
            lemma_byte_pos_step(v@, k as int);
            lemma_byte_pos_grows(v@, k + 1, target);
        }
        acc = acc + utf8_width_exec(v[k]);
        k += 1;
    }
    proof {
        if k < target {
            lemma_byte_pos_grows(v@, k as int, target);
        }
    }
    k
}

/// Byte offset of the character at position `k`.
pub fn byte_of_char_index(v: &Vec<char>, k: usize) -> (b: usize)
    requires
        k <= v.len(),
        fits(v@),
    ensures
        b == byte_pos(v@, k as int),
{
    let mut i: usize = 0;
    let mut acc: usize = 0;
    while i < k
        invariant
            i <= k <= v.len(),
            fits(v@),
            acc == byte_pos(v@, i as int),
        decreases k - i,
    {
        proof {
            lemma_byte_pos_step(v@, i as int);
            lemma_byte_pos_bound(v@, i + 1);
        }
        acc = acc + utf8_width_exec(v[i]);
        i += 1;
    }
    acc
}

/// UTF-8 length of the characters in `v`.
pub fn utf8_len_exec(v: &Vec<char>) -> (n: usize)
    requires
        fits(v@),
    ensures
        n == utf8_len(v@),
{
    proof {
        lemma_byte_pos_end(v@);
    }
    byte_of_char_index(v, v.len())
}

/// Byte offset of the character before the boundary `idx`, or 0 at the start.
pub open spec fn prev_boundary(s: Seq<char>, idx: int) -> int {
    let k = char_at_byte(s, idx);
    if k == 0 {
        0
    } else {
        byte_pos(s, k - 1)
    }
}

/// Byte offset of the boundary after the character at `idx`, or the end.
pub open spec fn next_boundary(s: Seq<char>, idx: int) -> int {
    if idx >= utf8_len(s) {
        utf8_len(s) as int
    } else {
        byte_pos(s, char_at_byte(s, idx) + 1)
    }
}

/// The position of the first character of the line holding position `k`.
pub open spec fn line_start_char(s: Seq<char>, k: int) -> int {
    match last_index_before(s, '\n', k) {
        Some(j) => j + 1,
        None => 0,
    }
}

/// The position of the newline ending the line holding position `k`, or
/// the end of `s`.
pub open spec fn line_end_char(s: Seq<char>, k: int) -> int {
    match index_of_from(s, '\n', k) {
        Some(j) => j,
        None => s.len() as int,
    }
}

/// The character position of a cursor, which is clamped to the end of `s`.
pub open spec fn cursor_char(s: Seq<char>, cursor: int) -> int {
    if cursor >= utf8_len(s) {
        s.len() as int
    } else {
        char_at_byte(s, cursor)
    }
}

/// A cursor that is a boundary of `s` or lies at or past its end.
pub open spec fn cursor_ok(s: Seq<char>, cursor: int) -> bool {
    cursor >= utf8_len(s) || is_boundary(s, cursor)
}

/// The byte offset of the previous character boundary before `idx`.
pub fn prev_char_boundary(s: &str, idx: usize) -> (r: usize)
    requires
        is_boundary(s@, idx as int),
    ensures
        r == prev_boundary(s@, idx as int),
{
    let v = chars_of(s);
    let k = char_index_of_byte(&v, idx);
    if k == 0 {
        0
    } else {
        proof {
            lemma_char_at_byte(v@, idx as int);
            lemma_byte_pos_grows(v@, k - 1, k as int);
            lemma_byte_pos_bound(v@.take(k as int), k - 1);
            assert(v@.take(k as int).take(k - 1) =~= v@.take(k - 1));
            assert(v@.take(k as int) =~= v@.take(k as int).take(k as int));
            lemma_byte_pos_end(v@.take(k as int));
        }
        let pre = slice_chars(&v, k);
        byte_of_char_index(&pre, k - 1)
    }
}

/// The first `k` characters of `v`.
fn slice_chars(v: &Vec<char>, k: usize) -> (r: Vec<char>)
    requires
        k <= v.len(),
    ensures
        r@ == v@.take(k as int),
{
    let mut r: Vec<char> = Vec::new();
    let mut i: usize = 0;
    while i < k
        invariant
            i <= k <= v.len(),
            r@ == v@.take(i as int),
        decreases k - i,
    {
        r.push(v[i]);
        i += 1;
    }
    r
}

/// The byte offset of the next character boundary after `idx`.
pub fn next_char_boundary(s: &str, idx: usize) -> (r: usize)
    requires
        fits(s@),
        cursor_ok(s@, idx as int),
    ensures
        r == next_boundary(s@, idx as int),
{
    let v = chars_of(s);
    let n = utf8_len_exec(&v);
    if idx >= n {
        return n;
    }
    let k = char_index_of_byte(&v, idx);
    proof {
        lemma_char_at_byte(v@, idx as int);
        lemma_byte_pos_end(v@);
        if k == v.len() {
            assert(false);
        }
    }
    byte_of_char_index(&v, k + 1)
}

/// The byte offsets of the start and end of the line holding the cursor.
pub fn line_bounds(s: &str, cursor: usize) -> (r: (usize, usize))
    requires
        fits(s@),
        cursor_ok(s@, cursor as int),
    ensures
        r.0 == byte_pos(s@, line_start_char(s@, cursor_char(s@, cursor as int))),
        r.1 == byte_pos(s@, line_end_char(s@, cursor_char(s@, cursor as int))),
{
    let v = chars_of(s);
    let n = utf8_len_exec(&v);
    let k = if cursor >= n {
        v.len()
    } else {
        char_index_of_byte(&v, cursor)
    };
    proof {
        if cursor < n {
            lemma_char_at_byte(v@, cursor as int);
        }
        lemma_last_index_before(v@, '\n', k as int);
        lemma_index_of_from(v@, '\n', k as int);
    }
    let start = match crate::text::rfind_char_before(&v, '\n', k) {
        Some(j) => byte_of_char_index(&v, j + 1),
        None => 0,
    };
    let end = match crate::text::find_char(&v, k, '\n') {
        Some(j) => byte_of_char_index(&v, j),
        None => {
            proof {
                lemma_byte_pos_end(v@);
            }
            n
        },
    };
    (start, end)
}

/// Number of characters between the boundaries `line_start` and `cursor`
/// (clamped to the end of `s`).
pub fn column_in_line(s: &str, line_start: usize, cursor: usize) -> (r: usize)
    requires
        fits(s@),
        is_boundary(s@, line_start as int),
        cursor_ok(s@, cursor as int),
        line_start <= (if cursor >= utf8_len(s@) { utf8_len(s@) as int } else { cursor as int }),
    ensures
        r == cursor_char(s@, cursor as int) - char_at_byte(s@, line_start as int),
{
    let v = chars_of(s);
    let n = utf8_len_exec(&v);
    let k2 = if cursor >= n {
        v.len()
    } else {
        char_index_of_byte(&v, cursor)
    };
    let k1 = char_index_of_byte(&v, line_start);
    proof {
        lemma_char_at_byte(v@, line_start as int);
        lemma_byte_pos_end(v@);
        if cursor < n {
            lemma_char_at_byte(v@, cursor as int);
        }
        if k2 < k1 {
            lemma_byte_pos_grows(v@, k2 as int, k1 as int);
        }
    }
    k2 - k1
}

/// The byte offset of the character `target_col` places into the line
/// between the boundaries `line_start` and `line_end`, or `line_end` when
/// the line is shorter.
pub fn index_from_column(s: &str, line_start: usize, line_end: usize, target_col: usize) -> (r: usize)
    requires
        fits(s@),
        is_boundary(s@, line_start as int),
        is_boundary(s@, line_end as int),
        line_start <= line_end,
    ensures
        r == byte_pos(
            s@,
            if char_at_byte(s@, line_start as int) + target_col < char_at_byte(s@, line_end as int) {
                char_at_byte(s@, line_start as int) + target_col
            } else {
                char_at_byte(s@, line_end as int)
            },
        ),
{
    let v = chars_of(s);
    let k1 = char_index_of_byte(&v, line_start);
    let k2 = char_index_of_byte(&v, line_end);
    proof {
        lemma_char_at_byte(v@, line_start as int);
        lemma_char_at_byte(v@, line_end as int);
        if k2 < k1 {
            lemma_byte_pos_grows(v@, k2 as int, k1 as int);
        }
    }
    if target_col < k2 - k1 {
        byte_of_char_index(&v, k1 + target_col)
    } else {
        line_end
    }
}

/// Screen line and column reached after drawing `s` in rows of `width`
/// cells: a newline, or a row that fills up, starts a new line.
pub open spec fn visual_pos(s: Seq<char>, width: nat) -> (nat, nat)
    decreases s.len(),
{
    if s.len() == 0 {
        (0, 0)
    } else {
        let (line, col) = visual_pos(s.drop_last(), width);
        if s.last() == '\n' || col + 1 >= width {
            (line + 1, 0)
        } else {
            (line, col + 1)
        }
    }
}

/// Number of characters of `s` that start before byte offset `b`.
pub open spec fn chars_before(s: Seq<char>, b: int) -> nat
    decreases s.len(),
{
    if s.len() == 0 {
        0
    } else if byte_pos(s, s.len() - 1) < b {
        s.len()
    } else {
        chars_before(s.drop_last(), b)
    }
}

proof fn lemma_chars_before(s: Seq<char>, b: int, i: int)
    requires
        0 <= i <= s.len(),
        forall|j: int| 0 <= j < i ==> byte_pos(s, j) < b,
        i == s.len() || byte_pos(s, i) >= b,
    ensures
        chars_before(s, b) == i,
    decreases s.len(),
{
    if s.len() > 0 {
        let n = s.len() - 1;
        if byte_pos(s, n) < b {
            if i < s.len() {
                lemma_byte_pos_grows(s, i, n);
            }
        } else {
            let t = s.drop_last();
            assert forall|j: int| 0 <= j <= t.len() implies byte_pos(t, j) == byte_pos(s, j) by {
                assert(t.take(j) =~= s.take(j));
            }
            lemma_chars_before(t, b, i);
        }
    }
}

proof fn lemma_visual_pos_bound(s: Seq<char>, width: nat)
    requires
        width > 0,
    ensures
        visual_pos(s, width).0 <= s.len(),
        visual_pos(s, width).1 < width,
    decreases s.len(),
{
    if s.len() > 0 {
        lemma_visual_pos_bound(s.drop_last(), width);
    }
}

/// The screen line and column of the cursor when `s` is drawn in rows of
/// `width` cells.
pub fn cursor_visual_pos(s: &str, cursor: usize, width: usize) -> (r: (usize, usize))
    requires
        fits(s@),
    ensures
        width == 0 ==> r == (0usize, 0usize),
        width > 0 ==> (r.0 as nat, r.1 as nat) == visual_pos(
            s@.take(chars_before(s@, cursor as int) as int),
            width as nat,
        ),
{
    if width == 0 {
        return (0, 0);
    }
    let v = chars_of(s);
    let mut line: usize = 0;
    let mut col: usize = 0;
    let mut i: usize = 0;
    let mut acc: usize = 0;
    while i < v.len() && acc < cursor
        invariant
            i <= v.len(),
            width > 0,
            fits(v@),
            acc == byte_pos(v@, i as int),
            forall|j: int| 0 <= j < i ==> byte_pos(v@, j) < cursor,
            (line as nat, col as nat) == visual_pos(v@.take(i as int), width as nat),
        decreases v.len() - i,
    {
        proof {
            lemma_visual_pos_bound(v@.take(i as int), width as nat);
            assert(v@.take(i + 1).drop_last() =~= v@.take(i as int));
            lemma_byte_pos_step(v@, i as int);
            lemma_byte_pos_bound(v@, i + 1);
        }
        let ch = v[i];
        if ch == '\n' || col + 1 >= width {
            line = line + 1;
            col = 0;
        } else {
            col = col + 1;
        }
        acc = acc + utf8_width_exec(ch);
        i += 1;
    }
    proof {
        lemma_chars_before(v@, cursor as int, i as int);
    }
    (line, col)
}

/// `s` with `c` inserted at the boundary `cursor`.
pub open spec fn insert_at(s: Seq<char>, cursor: int, c: char) -> Seq<char> {
    let k = char_at_byte(s, cursor);
    s.take(k).push(c) + s.skip(k)
}

/// `s` without its character at position `k`.
pub open spec fn remove_char(s: Seq<char>, k: int) -> Seq<char> {
    s.take(k) + s.skip(k + 1)
}

/// Text and cursor after typing `c` at `cursor`.
pub open spec fn typed(s: Seq<char>, cursor: int, c: char) -> (Seq<char>, int) {
    (insert_at(s, cursor, c), cursor + utf8_width(c))
}

/// Text and cursor after deleting the character before `cursor`.
pub open spec fn backspaced(s: Seq<char>, cursor: int) -> (Seq<char>, int) {
    if cursor == 0 {
        (s, cursor)
    } else {
        let k = char_at_byte(s, cursor);
        (remove_char(s, k - 1), byte_pos(s, k - 1))
    }
}

/// Text and cursor after deleting the character at `cursor`.
pub open spec fn deleted_forward(s: Seq<char>, cursor: int) -> (Seq<char>, int) {
    if cursor >= utf8_len(s) {
        (s, cursor)
    } else {
        (remove_char(s, char_at_byte(s, cursor)), cursor)
    }
}

/// The input box of `p` holds a cursor on a character boundary.
pub open spec fn input_ok(p: ChatPane) -> bool {
    fits(p.input_buffer@) && is_boundary(p.input_buffer@, p.input_cursor as int)
}

/// Everything but the input box and completion state is the same.
pub open spec fn same_but_input(a: ChatPane, b: ChatPane) -> bool {
    &&& a.channel_id_str == b.channel_id_str
    &&& a.thread_ts == b.thread_ts
    &&& a.chat_name == b.chat_name
    &&& a.msg_data == b.msg_data
    &&& a.scroll_offset == b.scroll_offset
    &&& a.reply_to_message == b.reply_to_message
    &&& a.typing_user == b.typing_user
    &&& a.render_stale == b.render_stale
}

/// The pane after an edit or cursor move: the given text and cursor, and
/// completion dropped.
pub open spec fn edited(old: ChatPane, new: ChatPane, s: Seq<char>, cursor: int) -> bool {
    &&& same_but_input(old, new)
    &&& new.input_buffer@ == s
    &&& new.input_cursor == cursor
    &&& new.tab_complete_state is None
}

proof fn lemma_insert_at(s: Seq<char>, k: int, c: char)
    requires
        0 <= k <= s.len(),
    ensures
        ({
            let t = s.take(k).push(c) + s.skip(k);
            &&& t.len() == s.len() + 1
            &&& utf8_len(t) == utf8_len(s) + utf8_width(c)
            &&& byte_pos(t, k + 1) == byte_pos(s, k) + utf8_width(c)
            &&& forall|j: int| 0 <= j <= k ==> byte_pos(t, j) == byte_pos(s, j)
        }),
{
    let t = s.take(k).push(c) + s.skip(k);
    assert(s =~= s.take(k) + s.skip(k));
    lemma_utf8_len_concat(s.take(k), s.skip(k));
    lemma_utf8_len_concat(s.take(k).push(c), s.skip(k));
    crate::text::lemma_utf8_len_push(s.take(k), c);
    assert(t.take(k + 1) =~= s.take(k).push(c));
    assert forall|j: int| 0 <= j <= k implies byte_pos(t, j) == byte_pos(s, j) by {
        assert(t.take(j) =~= s.take(j));
    }
}

proof fn lemma_remove_char(s: Seq<char>, k: int)
    requires
        0 <= k < s.len(),
    ensures
        ({
            let t = remove_char(s, k);
            &&& t.len() + 1 == s.len()
            &&& utf8_len(t) + utf8_width(s[k]) == utf8_len(s)
            &&& forall|j: int| 0 <= j <= k ==> byte_pos(t, j) == byte_pos(s, j)
        }),
{
    let t = remove_char(s, k);
    assert(s =~= s.take(k + 1) + s.skip(k + 1));
    lemma_utf8_len_concat(s.take(k + 1), s.skip(k + 1));
    lemma_utf8_len_concat(s.take(k), s.skip(k + 1));
    lemma_utf8_len_take(s, k);
    assert forall|j: int| 0 <= j <= k implies byte_pos(t, j) == byte_pos(s, j) by {
        assert(t.take(j) =~= s.take(j));
    }
}

/// Builds `s.take(k).push(c) + s.skip(k)`.
fn insert_char_exec(v: &Vec<char>, k: usize, c: char) -> (r: String)
    requires
        k <= v.len(),
    ensures
        r@ == v@.take(k as int).push(c) + v@.skip(k as int),
{
    let mut r = string_of_range(v, 0, k);
    r.push(c);
    push_range(&mut r, v, k, v.len());
    assert(v@.subrange(0, k as int) =~= v@.take(k as int));
    assert(v@.subrange(k as int, v.len() as int) =~= v@.skip(k as int));
    r
}

/// Builds `s` without its character at `k`.
fn remove_char_exec(v: &Vec<char>, k: usize) -> (r: String)
    requires
        k < v.len(),
    ensures
        r@ == remove_char(v@, k as int),
{
    let mut r = string_of_range(v, 0, k);
    push_range(&mut r, v, k + 1, v.len());
    assert(v@.subrange(0, k as int) =~= v@.take(k as int));
    assert(v@.subrange(k + 1, v.len() as int) =~= v@.skip(k + 1));
    r
}

/// Types `c` at the cursor.
pub fn input_char(pane: &mut ChatPane, c: char)
    requires
        input_ok(*old(pane)),
        utf8_len(old(pane).input_buffer@) + utf8_width(c) <= usize::MAX,
    ensures
        edited(
            *old(pane),
            *final(pane),
            typed(old(pane).input_buffer@, old(pane).input_cursor as int, c).0,
            typed(old(pane).input_buffer@, old(pane).input_cursor as int, c).1,
        ),
        input_ok(*final(pane)),
{
    let v = chars_of(pane.input_buffer.as_str());
    let k = char_index_of_byte(&v, pane.input_cursor);
    proof {
        lemma_char_at_byte(v@, pane.input_cursor as int);
        lemma_insert_at(v@, k as int, c);
        lemma_byte_pos_bound(v@, k as int);
        lemma_boundary_of(v@.take(k as int).push(c) + v@.skip(k as int), k + 1);
    }
    let w = utf8_width_exec(c);
    pane.input_buffer = insert_char_exec(&v, k, c);
    pane.input_cursor = pane.input_cursor + w;
    pane.tab_complete_state = None;
}

/// Inserts a line break at the cursor.
pub fn input_newline(pane: &mut ChatPane)
    requires
        input_ok(*old(pane)),
        utf8_len(old(pane).input_buffer@) + 1 <= usize::MAX,
    ensures
        edited(
            *old(pane),
            *final(pane),
            typed(old(pane).input_buffer@, old(pane).input_cursor as int, '\n').0,
            typed(old(pane).input_buffer@, old(pane).input_cursor as int, '\n').1,
        ),
        input_ok(*final(pane)),
{
    input_char(pane, '\n');
}

/// Deletes the character before the cursor; at the start of the text,
/// nothing changes.
pub fn backspace(pane: &mut ChatPane)
    requires
        input_ok(*old(pane)),
    ensures
        old(pane).input_cursor == 0 ==> *final(pane) == *old(pane),
        old(pane).input_cursor != 0 ==> edited(
            *old(pane),
            *final(pane),
            backspaced(old(pane).input_buffer@, old(pane).input_cursor as int).0,
            backspaced(old(pane).input_buffer@, old(pane).input_cursor as int).1,
        ),
        input_ok(*final(pane)),
{
    if pane.input_cursor == 0 {
        return;
    }
    let v = chars_of(pane.input_buffer.as_str());
    let k = char_index_of_byte(&v, pane.input_cursor);
    proof {
        lemma_char_at_byte(v@, pane.input_cursor as int);
        lemma_remove_char(v@, k - 1);
        lemma_boundary_of(remove_char(v@, k - 1), k - 1);
        lemma_byte_pos_bound(v@, k - 1);
    }
    let prev = prev_char_boundary(pane.input_buffer.as_str(), pane.input_cursor);
    pane.input_buffer = remove_char_exec(&v, k - 1);
    pane.input_cursor = prev;
    pane.tab_complete_state = None;
}

/// Deletes the character at the cursor; at the end of the text, nothing
/// changes.
pub fn delete_forward(pane: &mut ChatPane)
    requires
        fits(old(pane).input_buffer@),
        cursor_ok(old(pane).input_buffer@, old(pane).input_cursor as int),
    ensures
        old(pane).input_cursor >= utf8_len(old(pane).input_buffer@) ==> *final(pane) == *old(pane),
        old(pane).input_cursor < utf8_len(old(pane).input_buffer@) ==> edited(
            *old(pane),
            *final(pane),
            deleted_forward(old(pane).input_buffer@, old(pane).input_cursor as int).0,
            deleted_forward(old(pane).input_buffer@, old(pane).input_cursor as int).1,
        ),
        old(pane).input_cursor < utf8_len(old(pane).input_buffer@) ==> input_ok(*final(pane)),
{
    let v = chars_of(pane.input_buffer.as_str());
    let n = utf8_len_exec(&v);
    if pane.input_cursor >= n {
        return;
    }
    let k = char_index_of_byte(&v, pane.input_cursor);
    proof {
        lemma_char_at_byte(v@, pane.input_cursor as int);
        lemma_byte_pos_end(v@);
        if k == v.len() {
            assert(false);
        }
        lemma_remove_char(v@, k as int);
        lemma_boundary_of(remove_char(v@, k as int), k as int);
    }
    pane.input_buffer = remove_char_exec(&v, k);
    pane.tab_complete_state = None;
}

/// The character position the cursor moves to one line up, if there is a
/// line above: the same column, or the end of a shorter line.
pub open spec fn up_target(s: Seq<char>, k: int) -> Option<int> {
    let a = line_start_char(s, k);
    if a == 0 {
        None
    } else {
        let b = line_start_char(s, a - 1);
        let col = k - a;
        Some(if b + col < a - 1 { b + col } else { a - 1 })
    }
}

/// The character position the cursor moves to one line down, if there is
/// a line below: the same column, or the end of a shorter line.
pub open spec fn down_target(s: Seq<char>, k: int) -> Option<int> {
    let e = line_end_char(s, k);
    if e >= s.len() {
        None
    } else {
        let col = k - line_start_char(s, k);
        let f = line_end_char(s, e + 1);
        Some(if e + 1 + col < f { e + 1 + col } else { f })
    }
}

proof fn lemma_line_chars(s: Seq<char>, k: int)
    requires
        0 <= k <= s.len(),
    ensures
        0 <= line_start_char(s, k) <= k <= line_end_char(s, k) <= s.len(),
        line_start_char(s, k) > 0 ==> s[line_start_char(s, k) - 1] == '\n',
        line_end_char(s, k) < s.len() ==> s[line_end_char(s, k)] == '\n',
        forall|j: int| line_start_char(s, k) <= j < k ==> s[j] != '\n',
        forall|j: int| k <= j < line_end_char(s, k) ==> s[j] != '\n',
{
    lemma_last_index_before(s, '\n', k);
    lemma_index_of_from(s, '\n', k);
}

/// Moving up keeps the column: for a cursor at character `k` on the line
/// that starts at `a` (after the line break at `a - 1`), with the line
/// above starting at `b`, the cursor goes to the same column of the line
/// above, or to its end when that line is shorter.
pub proof fn law_up_keeps_column(s: Seq<char>, k: int, a: int, b: int)
    requires
        0 <= b < a <= k <= s.len(),
        s[a - 1] == '\n',
        forall|q: int| a <= q < k ==> s[q] != '\n',
        b == 0 || s[b - 1] == '\n',
        forall|q: int| b <= q < a - 1 ==> s[q] != '\n',
    ensures
        up_target(s, k) == Some(if k - a < a - 1 - b { b + (k - a) } else { a - 1 }),
{
    lemma_line_chars(s, k);
    let l = line_start_char(s, k);
    if l < a {
        assert(s[a - 1] == '\n');
    }
    if l > a {
        assert(s[l - 1] == '\n');
    }
    assert(l == a);
    lemma_line_chars(s, a - 1);
    let m = line_start_char(s, a - 1);
    if m < b {
        assert(s[b - 1] == '\n');
    }
    if m > b {
        assert(s[m - 1] == '\n');
    }
    assert(m == b);
}

/// Moving down keeps the column: for a cursor at character `k`, on the
/// line that starts at `a` and ends at the line break `e`, with the next
/// line ending at `f` (a line break or the end of the text), the cursor
/// goes to the same column of the next line, or to its end when that line
/// is shorter.
pub proof fn law_down_keeps_column(s: Seq<char>, k: int, a: int, e: int, f: int)
    requires
        0 <= a <= k <= e,
        e + 1 <= f <= s.len(),
        a == 0 || s[a - 1] == '\n',
        forall|q: int| a <= q < e ==> s[q] != '\n',
        e < s.len() && s[e] == '\n',
        forall|q: int| e + 1 <= q < f ==> s[q] != '\n',
        f == s.len() || s[f] == '\n',
    ensures
        down_target(s, k) == Some(if k - a < f - (e + 1) { e + 1 + (k - a) } else { f }),
{
    lemma_line_chars(s, k);
    let l = line_start_char(s, k);
    let r = line_end_char(s, k);
    if l < a {
        assert(s[a - 1] == '\n');
    }
    if l > a {
        assert(s[l - 1] == '\n');
    }
    if r < e {
        assert(s[r] == '\n');
    }
    if r > e {
        assert(s[e] == '\n');
    }
    lemma_line_chars(s, e + 1);
    let g = line_end_char(s, e + 1);
    if g < f {
        assert(s[g] == '\n');
    }
    if g > f {
        assert(s[f] == '\n');
    }
    assert(l == a);
    assert(r == e);
    assert(g == f);
}

/// Character position of a valid cursor.
fn cursor_index(v: &Vec<char>, n: usize, cursor: usize) -> (k: usize)
    requires
        n == utf8_len(v@),
        cursor_ok(v@, cursor as int),
    ensures
        k == cursor_char(v@, cursor as int),
        k <= v.len(),
{
    if cursor >= n {
        v.len()
    } else {
        proof {
            lemma_char_at_byte(v@, cursor as int);
        }
        char_index_of_byte(v, cursor)
    }
}

fn line_start_exec(v: &Vec<char>, k: usize) -> (r: usize)
    requires
        k <= v.len(),
    ensures
        r == line_start_char(v@, k as int),
{
    proof {
        lemma_last_index_before(v@, '\n', k as int);
    }
    match crate::text::rfind_char_before(v, '\n', k) {
        Some(j) => j + 1,
        None => 0,
    }
}

fn line_end_exec(v: &Vec<char>, k: usize) -> (r: usize)
    requires
        k <= v.len(),
    ensures
        r == line_end_char(v@, k as int),
{
    proof {
        lemma_index_of_from(v@, '\n', k as int);
    }
    match crate::text::find_char(v, k, '\n') {
        Some(j) => j,
        None => v.len(),
    }
}

/// Moves the cursor one character left; at the start, nothing changes.
pub fn move_cursor_left(pane: &mut ChatPane)
    requires
        input_ok(*old(pane)),
    ensures
        old(pane).input_cursor == 0 ==> *final(pane) == *old(pane),
        old(pane).input_cursor != 0 ==> edited(
            *old(pane),
            *final(pane),
            old(pane).input_buffer@,
            prev_boundary(old(pane).input_buffer@, old(pane).input_cursor as int),
        ),
        input_ok(*final(pane)),
{
    if pane.input_cursor == 0 {
        return;
    }
    proof {
        let s = pane.input_buffer@;
        lemma_char_at_byte(s, pane.input_cursor as int);
        let k = char_at_byte(s, pane.input_cursor as int);
        lemma_boundary_of(s, k - 1);
    }
    pane.input_cursor = prev_char_boundary(pane.input_buffer.as_str(), pane.input_cursor);
    pane.tab_complete_state = None;
}

/// Moves the cursor one character right; at the end, nothing changes.
pub fn move_cursor_right(pane: &mut ChatPane)
    requires
        fits(old(pane).input_buffer@),
        cursor_ok(old(pane).input_buffer@, old(pane).input_cursor as int),
    ensures
        old(pane).input_cursor >= utf8_len(old(pane).input_buffer@) ==> *final(pane) == *old(pane),
        old(pane).input_cursor < utf8_len(old(pane).input_buffer@) ==> edited(
            *old(pane),
            *final(pane),
            old(pane).input_buffer@,
            next_boundary(old(pane).input_buffer@, old(pane).input_cursor as int),
        ),
        old(pane).input_cursor < utf8_len(old(pane).input_buffer@) ==> input_ok(*final(pane)),
{
    let v = chars_of(pane.input_buffer.as_str());
    let n = utf8_len_exec(&v);
    if pane.input_cursor >= n {
        return;
    }
    proof {
        let s = pane.input_buffer@;
        lemma_char_at_byte(s, pane.input_cursor as int);
        lemma_byte_pos_end(s);
        let k = char_at_byte(s, pane.input_cursor as int);
        if k == s.len() {
            assert(false);
        }
        lemma_boundary_of(s, k + 1);
    }
    pane.input_cursor = next_char_boundary(pane.input_buffer.as_str(), pane.input_cursor);
    pane.tab_complete_state = None;
}

/// Moves the cursor to the start of its line.
pub fn move_cursor_home(pane: &mut ChatPane)
    requires
        fits(old(pane).input_buffer@),
        cursor_ok(old(pane).input_buffer@, old(pane).input_cursor as int),
    ensures
        edited(
            *old(pane),
            *final(pane),
            old(pane).input_buffer@,
            byte_pos(
                old(pane).input_buffer@,
                line_start_char(
                    old(pane).input_buffer@,
                    cursor_char(old(pane).input_buffer@, old(pane).input_cursor as int),
                ),
            ),
        ),
        input_ok(*final(pane)),
{
    let (line_start, _) = line_bounds(pane.input_buffer.as_str(), pane.input_cursor);
    proof {
        let s = pane.input_buffer@;
        let k = cursor_char(s, pane.input_cursor as int);
        if pane.input_cursor < utf8_len(s) {
            lemma_char_at_byte(s, pane.input_cursor as int);
        }
        lemma_line_chars(s, k);
        lemma_boundary_of(s, line_start_char(s, k));
    }
    pane.input_cursor = line_start;
    pane.tab_complete_state = None;
}

/// Moves the cursor to the end of its line.
pub fn move_cursor_end(pane: &mut ChatPane)
    requires
        fits(old(pane).input_buffer@),
        cursor_ok(old(pane).input_buffer@, old(pane).input_cursor as int),
    ensures
        edited(
            *old(pane),
            *final(pane),
            old(pane).input_buffer@,
            byte_pos(
                old(pane).input_buffer@,
                line_end_char(
                    old(pane).input_buffer@,
                    cursor_char(old(pane).input_buffer@, old(pane).input_cursor as int),
                ),
            ),
        ),
        input_ok(*final(pane)),
{
    let (_, line_end) = line_bounds(pane.input_buffer.as_str(), pane.input_cursor);
    proof {
        let s = pane.input_buffer@;
        let k = cursor_char(s, pane.input_cursor as int);
        if pane.input_cursor < utf8_len(s) {
            lemma_char_at_byte(s, pane.input_cursor as int);
        }
        lemma_line_chars(s, k);
        lemma_boundary_of(s, line_end_char(s, k));
    }
    pane.input_cursor = line_end;
    pane.tab_complete_state = None;
}

/// Moves the cursor one line up, keeping its column where the line above
/// is long enough; on the first line, nothing changes.
pub fn move_cursor_up(pane: &mut ChatPane)
    requires
        fits(old(pane).input_buffer@),
        cursor_ok(old(pane).input_buffer@, old(pane).input_cursor as int),
    ensures
        ({
            let s = old(pane).input_buffer@;
            match up_target(s, cursor_char(s, old(pane).input_cursor as int)) {
                None => *final(pane) == *old(pane),
                Some(t) => edited(*old(pane), *final(pane), s, byte_pos(s, t)) && input_ok(
                    *final(pane),
                ),
            }
        }),
{
    let v = chars_of(pane.input_buffer.as_str());
    let n = utf8_len_exec(&v);
    let k = cursor_index(&v, n, pane.input_cursor);
    let a = line_start_exec(&v, k);
    proof {
        lemma_line_chars(v@, k as int);
    }
    if a == 0 {
        return;
    }
    let b = line_start_exec(&v, a - 1);
    proof {
        lemma_line_chars(v@, a - 1);
    }
    let col = k - a;
    let t = if col < a - 1 - b {
        b + col
    } else {
        a - 1
    };
    proof {
        lemma_boundary_of(v@, t as int);
    }
    pane.input_cursor = byte_of_char_index(&v, t);
    pane.tab_complete_state = None;
}

/// Moves the cursor one line down, keeping its column where the line below
/// is long enough; on the last line, nothing changes.
pub fn move_cursor_down(pane: &mut ChatPane)
    requires
        fits(old(pane).input_buffer@),
        cursor_ok(old(pane).input_buffer@, old(pane).input_cursor as int),
    ensures
        ({
            let s = old(pane).input_buffer@;
            match down_target(s, cursor_char(s, old(pane).input_cursor as int)) {
                None => *final(pane) == *old(pane),
                Some(t) => edited(*old(pane), *final(pane), s, byte_pos(s, t)) && input_ok(
                    *final(pane),
                ),
            }
        }),
{
    let v = chars_of(pane.input_buffer.as_str());
    let n = utf8_len_exec(&v);
    let k = cursor_index(&v, n, pane.input_cursor);
    let e = line_end_exec(&v, k);
    proof {
        lemma_line_chars(v@, k as int);
    }
    if e >= v.len() {
        return;
    }
    let a = line_start_exec(&v, k);
    let f = line_end_exec(&v, e + 1);
    proof {
        lemma_line_chars(v@, e + 1);
    }
    let col = k - a;
    let t = if col < f - (e + 1) {
        e + 1 + col
    } else {
        f
    };
    proof {
        lemma_boundary_of(v@, t as int);
    }
    pane.input_cursor = byte_of_char_index(&v, t);
    pane.tab_complete_state = None;
}

/// Drops the message being replied to.
pub fn cancel_reply(pane: &mut ChatPane)
    ensures
        final(pane).reply_to_message is None,
        final(pane).input_buffer == old(pane).input_buffer,
        final(pane).input_cursor == old(pane).input_cursor,
        final(pane).tab_complete_state == old(pane).tab_complete_state,
        final(pane).channel_id_str == old(pane).channel_id_str,
        final(pane).thread_ts == old(pane).thread_ts,
        final(pane).chat_name == old(pane).chat_name,
        final(pane).msg_data == old(pane).msg_data,
        final(pane).scroll_offset == old(pane).scroll_offset,
        final(pane).typing_user == old(pane).typing_user,
        final(pane).render_stale == old(pane).render_stale,
{
    pane.reply_to_message = None;
}

/// Deleting backwards right after typing a character gives back the text
/// and cursor from before the keystroke.
pub proof fn law_backspace_undoes_typing(s: Seq<char>, cursor: int, c: char)
    requires
        is_boundary(s, cursor),
    ensures
        backspaced(typed(s, cursor, c).0, typed(s, cursor, c).1) == (s, cursor),
{
    lemma_char_at_byte(s, cursor);
    let k = char_at_byte(s, cursor);
    let t = s.take(k).push(c) + s.skip(k);
    lemma_insert_at(s, k, c);
    lemma_boundary_of(t, k + 1);
    assert(remove_char(t, k) =~= s);
}

/// Typing a character into a pane and then pressing backspace gives the
/// pane back its buffer and cursor, with completion dropped and nothing
/// else changed: `p1` is any pane `input_char` may leave from `p0`, and
/// `p2` any pane `backspace` may leave from `p1`.
pub proof fn law_backspace_undoes_input_char(p0: ChatPane, p1: ChatPane, p2: ChatPane, c: char)
    requires
        input_ok(p0),
        edited(p0, p1, typed(p0.input_buffer@, p0.input_cursor as int, c).0, typed(p0.input_buffer@, p0.input_cursor as int, c).1),
        p1.input_cursor == 0 ==> p2 == p1,
        p1.input_cursor != 0 ==> edited(
            p1,
            p2,
            backspaced(p1.input_buffer@, p1.input_cursor as int).0,
            backspaced(p1.input_buffer@, p1.input_cursor as int).1,
        ),
    ensures
        p2.input_buffer@ == p0.input_buffer@,
        p2.input_cursor == p0.input_cursor,
        p2.tab_complete_state is None,
        same_but_input(p0, p2),
{
    law_backspace_undoes_typing(p0.input_buffer@, p0.input_cursor as int, c);
    assert(p1.input_cursor != 0);
}

/// The byte offset `index_from_column` gives for column `col` of the line
/// between the boundaries `ls` and `le`: inside the line, on a character
/// boundary, and `column_in_line` reads back the column, or the line's
/// length when the line is shorter.
pub proof fn law_column_round_trip(s: Seq<char>, ls: int, le: int, col: int)
    requires
        is_boundary(s, ls),
        is_boundary(s, le),
        ls <= le,
        col >= 0,
    ensures
        ({
            let a = char_at_byte(s, ls);
            let b = char_at_byte(s, le);
            let i = byte_pos(s, if a + col < b { a + col } else { b });
            &&& ls <= i <= le
            &&& is_boundary(s, i)
            &&& cursor_char(s, i) - a == if col < b - a { col } else { b - a }
        }),
{
    lemma_char_at_byte(s, ls);
    lemma_char_at_byte(s, le);
    let a = char_at_byte(s, ls);
    let b = char_at_byte(s, le);
    if b < a {
        lemma_byte_pos_grows(s, b, a);
        assert(false);
    }
    let k = if a + col < b { a + col } else { b };
    lemma_boundary_of(s, k);
    lemma_byte_pos_grows(s, a, k);
    lemma_byte_pos_grows(s, k, b);
    lemma_byte_pos_grows(s, k, s.len() as int);
    lemma_byte_pos_end(s);
    if k < s.len() {
        lemma_byte_pos_step(s, k);
        lemma_byte_pos_grows(s, k + 1, s.len() as int);
    }
}

/// Moving left then right returns the cursor to where it was.
pub proof fn law_left_then_right(s: Seq<char>, cursor: int)
    requires
        is_boundary(s, cursor),
        cursor > 0,
    ensures
        next_boundary(s, prev_boundary(s, cursor)) == cursor,
{
    lemma_char_at_byte(s, cursor);
    let k = char_at_byte(s, cursor);
    lemma_boundary_of(s, k - 1);
    lemma_byte_pos_grows(s, k - 1, s.len() as int);
    lemma_byte_pos_end(s);
}

/// Moving right then left returns the cursor to where it was.
pub proof fn law_right_then_left(s: Seq<char>, cursor: int)
    requires
        is_boundary(s, cursor),
        cursor < utf8_len(s),
    ensures
        prev_boundary(s, next_boundary(s, cursor)) == cursor,
{
    lemma_char_at_byte(s, cursor);
    lemma_byte_pos_end(s);
    let k = char_at_byte(s, cursor);
    if k == s.len() {
        assert(false);
    }
    lemma_boundary_of(s, k + 1);
}

/// Deleting backwards is moving left and then deleting forwards.
pub proof fn law_backspace_is_left_then_delete(s: Seq<char>, cursor: int)
    requires
        is_boundary(s, cursor),
        cursor > 0,
    ensures
        backspaced(s, cursor) == deleted_forward(s, prev_boundary(s, cursor)),
{
    lemma_char_at_byte(s, cursor);
    let k = char_at_byte(s, cursor);
    lemma_boundary_of(s, k - 1);
    lemma_byte_pos_grows(s, k - 1, s.len() as int);
    lemma_byte_pos_end(s);
}

/// The slash commands offered by completion.
pub open spec fn command_names() -> Seq<Seq<char>> {
    seq![
        "thread"@,
        "t"@,
        "react"@,
        "filter"@,
        "alias"@,
        "unalias"@,
        "workspace"@,
        "ws"@,
        "leave"@,
        "help"@,
        "h"@,
    ]
}

/// Texts in strictly increasing order.
pub open spec fn strictly_sorted(r: Seq<Seq<char>>) -> bool {
    forall|i: int, j: int| 0 <= i < j < r.len() ==> lex_lt(r[i], r[j])
}

/// Whether completion offers `x` for `prefix`: commands are matched as they
/// are, user names after lower-casing.
pub open spec fn offered(x: Seq<char>, prefix: Seq<char>, fold: bool) -> bool {
    starts_with(if fold { lowercase(x) } else { x }, prefix)
}

/// `r` lists, in strictly increasing order and once each, exactly the
/// texts of `pool` that completion offers for `prefix`.
pub open spec fn sorted_selection(r: Seq<Seq<char>>, pool: Seq<Seq<char>>, prefix: Seq<char>, fold: bool) -> bool {
    &&& strictly_sorted(r)
    &&& forall|x: Seq<char>| r.contains(x) <==> (pool.contains(x) && offered(x, prefix, fold))
}

/// Some text of `pool` is offered for `prefix`.
pub open spec fn any_offered(pool: Seq<Seq<char>>, prefix: Seq<char>, fold: bool) -> bool {
    exists|i: int| 0 <= i < pool.len() && offered(#[trigger] pool[i], prefix, fold)
}

/// Inserts `x` into the strictly sorted list `r`, unless it is there.
fn insert_sorted(r: &mut Vec<String>, x: String)
    requires
        strictly_sorted(views(old(r)@)),
    ensures
        strictly_sorted(views(final(r)@)),
        forall|y: Seq<char>| views(final(r)@).contains(y) <==> (views(old(r)@).contains(y) || y == x@),
{
    let ghost rv = views(r@);
    let mut p: usize = 0;
    while p < r.len() && lex_less(r[p].as_str(), x.as_str())
        invariant
            p <= r@.len(),
            rv == views(r@),
            r@ == old(r)@,
            forall|q: int| 0 <= q < p ==> lex_lt(rv[q], x@),
        decreases r@.len() - p,
    {
        p += 1;
    }
    if p < r.len() && str_eq(r[p].as_str(), x.as_str()) {
        assert(rv[p as int] == x@);
        return;
    }
    proof {
        if p < rv.len() {
            lemma_lex_total(rv[p as int], x@);
            assert forall|q: int| p <= q < rv.len() implies lex_lt(x@, rv[q]) by {
                if q > p {
                    lemma_lex_transitive(x@, rv[p as int], rv[q]);
                }
            }
        }
    }
    r.insert(p, x);
    proof {
        let nv = views(r@);
        assert(nv =~= rv.insert(p as int, x@));
        assert forall|i: int, j: int| 0 <= i < j < nv.len() implies lex_lt(nv[i], nv[j]) by {
            if i < p && j > p {
                lemma_lex_transitive(rv[i], x@, rv[j - 1]);
            }
        }
        assert forall|y: Seq<char>| nv.contains(y) <==> (rv.contains(y) || y == x@) by {
            if nv.contains(y) {
                let k = choose|k: int| 0 <= k < nv.len() && nv[k] == y;
                if k < p {
                    assert(rv[k] == y);
                } else if k > p {
                    assert(rv[k - 1] == y);
                }
            }
            if rv.contains(y) {
                let k = choose|k: int| 0 <= k < rv.len() && rv[k] == y;
                if k < p {
                    assert(nv[k] == y);
                } else {
                    assert(nv[k + 1] == y);
                }
            }
            if y == x@ {
                assert(nv[p as int] == y);
            }
        }
    }
}

/// The strictly sorted texts of `pool` offered for `prefix`.
fn select_sorted(pool: &Vec<String>, prefix: &str, fold: bool) -> (r: Vec<String>)
    ensures
        sorted_selection(views(r@), views(pool@), prefix@, fold),
        views(r@).len() > 0 <==> any_offered(views(pool@), prefix@, fold),
{
    let ghost pv = views(pool@);
    let mut r: Vec<String> = Vec::new();
    let mut i: usize = 0;
    while i < pool.len()
        invariant
            i <= pool.len(),
            pv == views(pool@),
            strictly_sorted(views(r@)),
            forall|x: Seq<char>| views(r@).contains(x) <==> (pv.take(i as int).contains(x) && offered(x, prefix@, fold)),
        decreases pool.len() - i,
    {
        let key = if fold {
            to_lowercase(pool[i].as_str())
        } else {
            pool[i].clone()
        };
        let keep = starts_with_str(key.as_str(), prefix);
        assert(pv[i as int] == pool@[i as int]@);
        assert(keep == offered(pv[i as int], prefix@, fold));
        let ghost before = views(r@);
        if keep {
            let item = pool[i].clone();
            assert(item@ == pv[i as int]);
            insert_sorted(&mut r, item);
        }
        proof {
            let t0 = pv.take(i as int);
            let t1 = pv.take(i + 1);
            assert(t1 =~= t0.push(pv[i as int]));
            assert forall|x: Seq<char>| views(r@).contains(x) <==> (t1.contains(x) && offered(x, prefix@, fold)) by {
                assert(before.contains(x) <==> (t0.contains(x) && offered(x, prefix@, fold)));
                if t1.contains(x) && !t0.contains(x) {
                    let k = choose|k: int| 0 <= k < t1.len() && t1[k] == x;
                    if k < i {
                        assert(t0[k] == x);
                    }
                    assert(x == pv[i as int]);
                }
                if t0.contains(x) {
                    let k = choose|k: int| 0 <= k < t0.len() && t0[k] == x;
                    assert(t1[k] == x);
                }
                if x == pv[i as int] {
                    assert(t1[i as int] == x);
                }
            }
        }
        i += 1;
    }
    proof {
        assert(pv.take(pool.len() as int) =~= pv);
        if views(r@).len() > 0 {
            assert(views(r@).contains(views(r@)[0]));
            let x = views(r@)[0];
            let k = choose|k: int| 0 <= k < pv.len() && pv[k] == x;
            assert(offered(pv[k], prefix@, fold));
        }
        if any_offered(pv, prefix@, fold) {
            let k = choose|k: int| 0 <= k < pv.len() && offered(#[trigger] pv[k], prefix@, fold);
            assert(pv.contains(pv[k]));
            assert(views(r@).contains(pv[k]));
        }
    }
    r
}

/// Whether `s` starts with `p`.
fn starts_with_str(s: &str, p: &str) -> (r: bool)
    ensures
        r == starts_with(s@, p@),
{
    let vs = chars_of(s);
    let vp = chars_of(p);
    crate::text::starts_with_in_exec(&vs, &vp, 0, vs.len())
}

/// A completed command: `/<candidate> <after>`, cursor after the space.
pub open spec fn slash_text(repl: Seq<char>, after: Seq<char>) -> (Seq<char>, int) {
    ("/"@ + repl + " "@ + after, utf8_len(repl) as int + 2)
}

/// A completed name: `<before>@<candidate> <after>`, cursor after the space.
pub open spec fn at_text(before: Seq<char>, repl: Seq<char>, after: Seq<char>) -> (Seq<char>, int) {
    (before + "@"@ + repl + " "@ + after, utf8_len(before) as int + utf8_len(repl) as int + 2)
}

/// The text of the next candidate while cycling: the command form when
/// the saved text before the completion starts with `/`.
pub open spec fn cycled_text(before: Seq<char>, repl: Seq<char>, after: Seq<char>) -> (Seq<char>, int) {
    if starts_with(before, "/"@) {
        slash_text(repl, after)
    } else {
        at_text(before, repl, after)
    }
}

/// A completion starts: the candidates are the offered texts of `pool` in
/// order, the first is filled in, and cycling will go on from it.
pub open spec fn completion_started(
    old: ChatPane,
    new: ChatPane,
    before: Seq<char>,
    after: Seq<char>,
    pool: Seq<Seq<char>>,
    prefix: Seq<char>,
    fold: bool,
) -> bool {
    &&& same_but_input(old, new)
    &&& new.tab_complete_state matches Some(ns) && {
        let c = views(ns.candidates@);
        &&& ns.before@ == before
        &&& ns.after@ == after
        &&& ns.index == 0
        &&& c.len() > 0
        &&& sorted_selection(c, pool, prefix, fold)
        &&& (new.input_buffer@, new.input_cursor as int) == if fold {
            at_text(before, c[0], after)
        } else {
            slash_text(c[0], after)
        }
    }
}

/// The pane after pressing Tab in the input box. While cycling, the next
/// candidate replaces the current one. Otherwise text before the cursor
/// that is a `/` and a command prefix without spaces completes to the
/// commands starting with it; else the word after the last `@` before the
/// cursor completes to the user names that start with it, ignoring case.
/// With nothing to complete the pane is unchanged.
pub open spec fn tab_completed(old: ChatPane, new: ChatPane, names: Seq<Seq<char>>) -> bool {
    match old.tab_complete_state {
        Some(st) => {
            let c = views(st.candidates@);
            if c.len() == 0 {
                new == old
            } else {
                let i = (st.index as int + 1) % (c.len() as int);
                &&& same_but_input(old, new)
                &&& (new.input_buffer@, new.input_cursor as int) == cycled_text(st.before@, c[i], st.after@)
                &&& new.tab_complete_state matches Some(ns) && ns@ == TabV {
                    before: st.before@,
                    after: st.after@,
                    candidates: c,
                    index: i as usize,
                }
            }
        },
        None => {
            let s = old.input_buffer@;
            let k = cursor_char(s, old.input_cursor as int);
            let bc = s.take(k);
            let after = s.skip(k);
            if starts_with(bc, "/"@) && !bc.contains(' ') {
                let prefix = lowercase(bc.skip(1));
                if any_offered(command_names(), prefix, false) {
                    completion_started(old, new, "/"@, after, command_names(), prefix, false)
                } else {
                    new == old
                }
            } else {
                match last_index_before(bc, '@', k) {
                    None => new == old,
                    Some(j) => {
                        let word = bc.subrange(j + 1, k);
                        let lower = lowercase(word);
                        if word.len() == 0 || word.contains(' ') || !any_offered(names, lower, true) {
                            new == old
                        } else {
                            completion_started(old, new, s.take(j), after, names, lower, true)
                        }
                    },
                }
            }
        },
    }
}

/// Pressing Tab twice during a completion moves two candidates on,
/// wrapping around the list, with the text and cursor of that candidate:
/// with two candidates the third press is back at the first one. `p1` is
/// any pane a completion may leave from `p0`, and `p2` any pane it may
/// leave from `p1`.
pub proof fn law_tab_cycles(p0: ChatPane, p1: ChatPane, p2: ChatPane, names: Seq<Seq<char>>)
    requires
        p0.tab_complete_state matches Some(st) && st.candidates@.len() > 0,
        tab_completed(p0, p1, names),
        tab_completed(p1, p2, names),
    ensures
        ({
            let st = p0.tab_complete_state->0;
            let c = views(st.candidates@);
            let i = (st.index as int + 2) % (c.len() as int);
            &&& same_but_input(p0, p2)
            &&& (p2.input_buffer@, p2.input_cursor as int) == cycled_text(st.before@, c[i], st.after@)
            &&& p2.tab_complete_state matches Some(ns) && ns@ == TabV {
                before: st.before@,
                after: st.after@,
                candidates: c,
                index: i as usize,
            }
        }),
{
    let st = p0.tab_complete_state->0;
    let c = views(st.candidates@);
    let n = c.len() as int;
    let i1 = (st.index as int + 1) % n;
    let ns = p1.tab_complete_state->0;
    assert(st.candidates@.len() == st.candidates.len());
    assert(0 <= i1 < n);
    assert(ns@.candidates == c);
    assert(views(ns.candidates@).len() == n);
    assert(ns.index as int == i1);
    assert(((st.index as int + 1) % n + 1) % n == (st.index as int + 2) % n) by (nonlinear_arith)
        requires
            n > 0,
            st.index as int >= 0,
    {
        vstd::arithmetic::div_mod::lemma_add_mod_noop(st.index as int + 1, 1, n);
    }
}

/// Limits under which completing fits the byte offsets in `usize`.
pub open spec fn tab_fits(p: ChatPane, names: Seq<Seq<char>>) -> bool {
    &&& fits(p.input_buffer@)
    &&& cursor_ok(p.input_buffer@, p.input_cursor as int)
    &&& forall|i: int| 0 <= i < names.len() ==> utf8_len(p.input_buffer@) + utf8_len(#[trigger] names[i]) + 2 <= usize::MAX
    &&& p.tab_complete_state matches Some(st) ==> {
        &&& st.index < usize::MAX
        &&& fits(st.before@)
        &&& forall|i: int| 0 <= i < st.candidates@.len() ==> utf8_len(st.before@) + utf8_len(
            #[trigger] st.candidates@[i]@,
        ) + 2 <= usize::MAX
    }
}

pub proof fn lemma_utf8_len_le(s: Seq<char>)
    ensures
        utf8_len(s) <= 4 * s.len(),
    decreases s.len(),
{
    if s.len() > 0 {
        lemma_utf8_len_le(s.drop_last());
    }
}

/// Builds `/<repl> <after>`.
fn slash_text_exec(repl: &str, after: &str) -> (r: (String, usize))
    requires
        utf8_len(repl@) + 2 <= usize::MAX,
    ensures
        (r.0@, r.1 as int) == slash_text(repl@, after@),
{
    let mut t = String::new();
    t.push('/');
    t.push_str(repl);
    t.push(' ');
    t.push_str(after);
    proof {
        reveal_strlit("/");
        reveal_strlit(" ");
    }
    let rv = chars_of(repl);
    proof {
        lemma_utf8_len_le(repl@);
    }
    let n = utf8_len_exec(&rv);
    assert(t@ =~= "/"@ + repl@ + " "@ + after@);
    (t, n + 2)
}

/// Builds `<before>@<repl> <after>`.
fn at_text_exec(before: &str, repl: &str, after: &str) -> (r: (String, usize))
    requires
        utf8_len(before@) + utf8_len(repl@) + 2 <= usize::MAX,
    ensures
        (r.0@, r.1 as int) == at_text(before@, repl@, after@),
{
    let mut t = String::new();
    t.push_str(before);
    t.push('@');
    t.push_str(repl);
    t.push(' ');
    t.push_str(after);
    proof {
        reveal_strlit("@");
        reveal_strlit(" ");
    }
    let bv = chars_of(before);
    let rv = chars_of(repl);
    let nb = utf8_len_exec(&bv);
    let nr = utf8_len_exec(&rv);
    assert(t@ =~= before@ + "@"@ + repl@ + " "@ + after@);
    (t, nb + nr + 2)
}

/// The slash commands, in their listed order.
fn command_list() -> (r: Vec<String>)
    ensures
        views(r@) == command_names(),
        forall|i: int| 0 <= i < r@.len() ==> utf8_len(#[trigger] r@[i]@) <= 36,
{
    let mut r: Vec<String> = Vec::new();
    r.push(literal_string("thread"));
    r.push(literal_string("t"));
    r.push(literal_string("react"));
    r.push(literal_string("filter"));
    r.push(literal_string("alias"));
    r.push(literal_string("unalias"));
    r.push(literal_string("workspace"));
    r.push(literal_string("ws"));
    r.push(literal_string("leave"));
    r.push(literal_string("help"));
    r.push(literal_string("h"));
    proof {
        reveal_strlit("thread");
        reveal_strlit("t");
        reveal_strlit("react");
        reveal_strlit("filter");
        reveal_strlit("alias");
        reveal_strlit("unalias");
        reveal_strlit("workspace");
        reveal_strlit("ws");
        reveal_strlit("leave");
        reveal_strlit("help");
        reveal_strlit("h");
        assert(views(r@) =~= command_names());
        assert forall|i: int| 0 <= i < r@.len() implies utf8_len(#[trigger] r@[i]@) <= 36 by {
            lemma_utf8_len_le(r@[i]@);
        }
    }
    r
}

/// Completes the `@name` or `/command` before the cursor, or cycles to the
/// next candidate of a completion in progress. `user_names` are the known
/// display names.
pub fn tab_complete(pane: &mut ChatPane, user_names: &Vec<String>)
    requires
        tab_fits(*old(pane), views(user_names@)),
    ensures
        tab_completed(*old(pane), *final(pane), views(user_names@)),
{
    let state = pane.tab_complete_state.take();
    match state {
        Some(mut st) => {
            if st.candidates.len() == 0 {
                pane.tab_complete_state = Some(st);
                return;
            }
            st.index = (st.index + 1) % st.candidates.len();
            let repl = st.candidates[st.index].as_str();
            let bv = chars_of(st.before.as_str());
            let slash = bv.len() > 0 && bv[0] == '/';
            proof {
                lemma_starts_with_slash(st.before@);
                assert(slash == starts_with(st.before@, "/"@));
                assert(views(st.candidates@)[st.index as int] == repl@);
            }
            let (text, cursor) = if slash {
                proof {
                    lemma_utf8_len_le(st.before@);
                }
                slash_text_exec(repl, st.after.as_str())
            } else {
                at_text_exec(st.before.as_str(), repl, st.after.as_str())
            };
            pane.input_buffer = text;
            pane.input_cursor = cursor;
            pane.tab_complete_state = Some(st);
        },
        None => {
            complete_fresh(pane, user_names);
        },
    }
}

/// Starts a completion from the text before the cursor.
fn complete_fresh(pane: &mut ChatPane, user_names: &Vec<String>)
    requires
        old(pane).tab_complete_state is None,
        tab_fits(*old(pane), views(user_names@)),
    ensures
        tab_completed(*old(pane), *final(pane), views(user_names@)),
{
    let v = chars_of(pane.input_buffer.as_str());
    let n = utf8_len_exec(&v);
    let k = cursor_index(&v, n, pane.input_cursor);
    let ghost s = v@;
    let bc = slice_chars(&v, k);
    let after = crate::text::string_of_range(&v, k, v.len());
    assert(after@ =~= s.skip(k as int));
    proof {
        reveal_strlit("/");
    }
    let slash = k > 0 && v[0] == '/' && !contains_char(&bc, ' ');
    proof {
        lemma_starts_with_slash(bc@);
    }
    assert(slash == (starts_with(bc@, "/"@) && !bc@.contains(' ')));
    if slash {
        let word = crate::text::string_of_range(&v, 1, k);
        assert(word@ =~= bc@.skip(1));
        let lower = to_lowercase(word.as_str());
        let pool = command_list();
        let cands = select_sorted(&pool, lower.as_str(), false);
        if cands.len() == 0 {
            return;
        }
        proof {
            let c0 = views(cands@)[0];
            assert(views(cands@).contains(c0));
            assert(views(pool@).contains(c0));
            let m = choose|m: int| 0 <= m < pool@.len() && views(pool@)[m] == c0;
            assert(utf8_len(pool@[m]@) <= 36);
        }
        let (text, cursor) = slash_text_exec(cands[0].as_str(), after.as_str());
        pane.input_buffer = text;
        pane.input_cursor = cursor;
        pane.tab_complete_state = Some(TabCompleteState { before: literal_string("/"), after, candidates: cands, index: 0 });
        return;
    }
    proof {
        lemma_last_index_before(s, '@', k as int);
        assert forall|j: int| 0 <= j <= k implies last_index_before(bc@, '@', j) == last_index_before(s, '@', j) by {
            lemma_last_before_prefix(s, k as int, j);
        }
    }
    let at = match crate::text::rfind_char_before(&v, '@', k) {
        Some(j) => j,
        None => {
            return;
        },
    };
    let word_chars = crate::text::string_of_range(&v, at + 1, k);
    assert(word_chars@ =~= bc@.subrange(at + 1, k as int));
    let wv = chars_of(word_chars.as_str());
    if wv.len() == 0 || contains_char(&wv, ' ') {
        return;
    }
    let lower = to_lowercase(word_chars.as_str());
    let cands = select_sorted(user_names, lower.as_str(), true);
    if cands.len() == 0 {
        return;
    }
    let before = crate::text::string_of_range(&v, 0, at);
    assert(before@ =~= s.take(at as int));
    proof {
        let c0 = views(cands@)[0];
        assert(views(cands@).contains(c0));
        assert(views(user_names@).contains(c0));
        let m = choose|m: int| 0 <= m < user_names@.len() && views(user_names@)[m] == c0;
        assert(utf8_len(s) + utf8_len(views(user_names@)[m]) + 2 <= usize::MAX);
        lemma_byte_pos_bound(s, at as int);
        lemma_byte_pos_end(s);
    }
    let (text, cursor) = at_text_exec(before.as_str(), cands[0].as_str(), after.as_str());
    pane.input_buffer = text;
    pane.input_cursor = cursor;
    pane.tab_complete_state = Some(TabCompleteState { before, after, candidates: cands, index: 0 });
}

proof fn lemma_starts_with_slash(x: Seq<char>)
    ensures
        starts_with(x, "/"@) == (x.len() > 0 && x[0] == '/'),
{
    reveal_strlit("/");
    assert("/"@.len() == 1 && "/"@[0] == '/');
    if x.len() > 0 {
        assert(x.subrange(0, 1) =~= seq![x[0]]);
        if x[0] == '/' {
            assert(x.subrange(0, 1) =~= "/"@);
        }
        if starts_with(x, "/"@) {
            assert(x.subrange(0, 1)[0] == "/"@[0]);
        }
    }
}

proof fn lemma_last_before_prefix(s: Seq<char>, k: int, j: int)
    requires
        0 <= j <= k <= s.len(),
    ensures
        last_index_before(s.take(k), '@', j) == last_index_before(s, '@', j),
    decreases j,
{
    if j > 0 {
        lemma_last_before_prefix(s, k, j - 1);
    }
}

} // verus!
