//! Rendering Block Kit blocks and attachments into mrkdwn text, and the text
//! a message shows.
use vstd::prelude::*;
use crate::slack::types::{
    RichTextBlock, RichTextElement, RichTextStyle, SlackAttachment, SlackBlock,
    SlackContextElement, SlackMessage, SlackTextObject,
};
use crate::text::{
    chars_of, decimal, index_of_from, join, join_strings, lemma_index_of_from, option_view,
    push_decimal, utf8_len, utf8_width_exec, lemma_utf8_len_take,
    find_char, string_of_range,
};
use crate::formatting::views;
use crate::widgets::{AttachmentCard, CardV, cards_view};

verus! {

// ---------------------------------------------------------------------------
// Rich text
// ---------------------------------------------------------------------------

/// Text wrapped in `m` on both sides.
pub open spec fn wrap(m: char, t: Seq<char>) -> Seq<char> {
    seq![m] + t + seq![m]
}

/// A styled text run in mrkdwn: code, then bold, italic and strike markers.
pub open spec fn styled_text(t: Seq<char>, st: RichTextStyle) -> Seq<char> {
    let p1 = if st.code { wrap('`', t) } else { t };
    let p2 = if st.bold { wrap('*', p1) } else { p1 };
    let p3 = if st.italic { wrap('_', p2) } else { p2 };
    if st.strike { wrap('~', p3) } else { p3 }
}

/// `<` + `t` + `>`
pub open spec fn angle(t: Seq<char>) -> Seq<char> {
    seq!['<'] + t + seq!['>']
}

/// The mrkdwn for one rich-text element.
pub open spec fn element_text(e: RichTextElement) -> Seq<char> {
    match e {
        RichTextElement::Text { text, style } => styled_text(text@, style),
        RichTextElement::Link { url, text } => match text {
            Some(l) => if l@.len() > 0 {
                angle(url@ + seq!['|'] + l@)
            } else {
                angle(url@)
            },
            None => angle(url@),
        },
        RichTextElement::Emoji { name } => wrap(':', name@),
        RichTextElement::User { user_id } => angle(seq!['@'] + user_id@),
        RichTextElement::Channel { channel_id } => angle(seq!['#'] + channel_id@),
        RichTextElement::UserGroup { usergroup_id } => angle("!subteam^"@ + usergroup_id@),
        RichTextElement::Broadcast { range } => angle(seq!['!'] + range@),
        RichTextElement::Other => Seq::empty(),
    }
}

/// The mrkdwn for a run of rich-text elements.
pub open spec fn elements_text(es: Seq<RichTextElement>) -> Seq<char>
    decreases es.len(),
{
    if es.len() == 0 {
        Seq::empty()
    } else {
        elements_text(es.drop_last()) + element_text(es.last())
    }
}

/// A line with a trailing carriage return removed.
pub open spec fn strip_cr(l: Seq<char>) -> Seq<char> {
    if l.len() > 0 && l.last() == '\r' {
        l.drop_last()
    } else {
        l
    }
}

/// The lines of `s` from `pos` on as `str::lines` yields them: split at
/// `\n`, a `\r` before the `\n` dropped, no empty line after a final `\n`.
pub open spec fn std_lines_from(s: Seq<char>, pos: int) -> Seq<Seq<char>>
    decreases s.len() - pos,
{
    if pos < 0 || pos >= s.len() {
        Seq::empty()
    } else {
        match index_of_from(s, '\n', pos) {
            None => seq![s.subrange(pos, s.len() as int)],
            Some(k) => {
                proof {
                    lemma_index_of_from(s, '\n', pos);
                }
                seq![strip_cr(s.subrange(pos, k))] + std_lines_from(s, k + 1)
            },
        }
    }
}

/// `> ` before each line.
pub open spec fn quote_lines(ls: Seq<Seq<char>>) -> Seq<Seq<char>> {
    Seq::new(ls.len(), |i: int| seq!['>', ' '] + ls[i])
}

/// The marker of list item `i`.
pub open spec fn list_prefix(style: Seq<char>, i: int) -> Seq<char> {
    if style == "ordered"@ {
        decimal((i + 1) as nat) + seq!['.', ' ']
    } else {
        seq!['\u{2022}', ' ']
    }
}

/// The items of an ordered list are numbered from one: the marker of item
/// `i` (counting from zero) is a decimal number without leading zeros
/// whose value is `i + 1`, followed by `. `.
pub proof fn law_ordered_list_numbers_from_one(i: int)
    requires
        i >= 0,
    ensures
        ({
            let p = list_prefix("ordered"@, i);
            let d = p.take(p.len() - 2);
            &&& p.len() >= 3
            &&& p[p.len() - 2] == '.'
            &&& p[p.len() - 1] == ' '
            &&& forall|q: int| 0 <= q < d.len() ==> '0' <= #[trigger] d[q] <= '9'
            &&& d[0] != '0'
            &&& crate::text::digits_value(d) == i + 1
        }),
{
    crate::text::lemma_decimal_reads_back((i + 1) as nat);
    let p = list_prefix("ordered"@, i);
    let dec = crate::text::decimal((i + 1) as nat);
    assert(p == dec + seq!['.', ' ']);
    assert(p.take(p.len() - 2) =~= dec);
}

/// The output lines of one rich-text block.
pub open spec fn rich_block_pieces(b: RichTextBlock) -> Seq<Seq<char>>
    decreases b, 0int,
{
    match b {
        RichTextBlock::Section { elements } => {
            let s = elements_text(elements@);
            if s.len() > 0 { seq![s] } else { Seq::empty() }
        },
        RichTextBlock::List { style, elements } => {
            proof {
                assert(decreases_to!(b => elements));
                assert(decreases_to!(elements => elements@));
            }
            list_pieces(style@, elements@, 0)
        },
        RichTextBlock::Quote { elements } => quote_lines(std_lines_from(elements_text(elements@), 0)),
        RichTextBlock::Preformatted { elements } => seq![
            seq!['`', '`', '`', '\n'] + elements_text(elements@) + seq!['\n', '`', '`', '`'],
        ],
        RichTextBlock::Other => Seq::empty(),
    }
}

/// The lines of list items `i..` with their markers.
pub open spec fn list_pieces(style: Seq<char>, items: Seq<RichTextBlock>, i: int) -> Seq<Seq<char>>
    decreases items, items.len() - i,
{
    if i < 0 || i >= items.len() {
        Seq::empty()
    } else {
        let inner = match items[i] {
            RichTextBlock::Section { elements } => elements_text(elements@),
            other => {
                proof {
                    assert(decreases_to!(items => items[i]));
                }
                join(rich_block_pieces(other), seq!['\n'])
            },
        };
        seq![list_prefix(style, i) + inner] + list_pieces(style, items, i + 1)
    }
}

/// The output lines of a sequence of rich-text blocks.
pub open spec fn rich_blocks_pieces(bs: Seq<RichTextBlock>) -> Seq<Seq<char>>
    decreases bs.len(),
{
    if bs.len() == 0 {
        Seq::empty()
    } else {
        rich_blocks_pieces(bs.drop_last()) + rich_block_pieces(bs.last())
    }
}

/// The mrkdwn for a sequence of rich-text blocks.
pub open spec fn rich_text(bs: Seq<RichTextBlock>) -> Seq<char> {
    join(rich_blocks_pieces(bs), seq!['\n'])
}

fn push_wrapped(out: &mut String, m: char, t: &String)
    ensures
        final(out)@ == old(out)@ + wrap(m, t@),
{
    out.push(m);
    out.push_str(t.as_str());
    out.push(m);
    assert(out@ =~= old(out)@ + wrap(m, t@));
}

fn wrapped(m: char, t: String) -> (r: String)
    ensures
        r@ == wrap(m, t@),
{
    let mut r = String::new();
    push_wrapped(&mut r, m, &t);
    assert(r@ =~= wrap(m, t@));
    r
}

fn element_text_exec(e: &RichTextElement) -> (r: String)
    ensures
        r@ == element_text(*e),
{
    match e {
        RichTextElement::Text { text, style } => {
            let mut piece = text.clone();
            if style.code {
                piece = wrapped('`', piece);
            }
            if style.bold {
                piece = wrapped('*', piece);
            }
            if style.italic {
                piece = wrapped('_', piece);
            }
            if style.strike {
                piece = wrapped('~', piece);
            }
            piece
        },
        RichTextElement::Link { url, text } => {
            let mut s = String::new();
            s.push('<');
            s.push_str(url.as_str());
            match text {
                Some(l) => {
                    if !l.as_str().is_empty() {
                        s.push('|');
                        s.push_str(l.as_str());
                    }
                },
                None => {},
            }
            s.push('>');
            assert(s@ =~= element_text(*e));
            s
        },
        RichTextElement::Emoji { name } => wrapped(':', name.clone()),
        RichTextElement::User { user_id } => {
            let mut s = String::new();
            s.push('<');
            s.push('@');
            s.push_str(user_id.as_str());
            s.push('>');
            assert(s@ =~= element_text(*e));
            s
        },
        RichTextElement::Channel { channel_id } => {
            let mut s = String::new();
            s.push('<');
            s.push('#');
            s.push_str(channel_id.as_str());
            s.push('>');
            assert(s@ =~= element_text(*e));
            s
        },
        RichTextElement::UserGroup { usergroup_id } => {
            let mut s = String::new();
            s.push('<');
            s.push_str("!subteam^");
            s.push_str(usergroup_id.as_str());
            s.push('>');
            assert(s@ =~= element_text(*e));
            s
        },
        RichTextElement::Broadcast { range } => {
            let mut s = String::new();
            s.push('<');
            s.push('!');
            s.push_str(range.as_str());
            s.push('>');
            assert(s@ =~= element_text(*e));
            s
        },
        RichTextElement::Other => String::new(),
    }
}

pub fn render_rich_elements(elements: &[RichTextElement]) -> (r: String)
    ensures
        r@ == elements_text(elements@),
{
    let mut s = String::new();
    let mut i: usize = 0;
    while i < elements.len()
        invariant
            i <= elements.len(),
            s@ == elements_text(elements@.take(i as int)),
        decreases elements.len() - i,
    {
        let piece = element_text_exec(&elements[i]);
        s.push_str(piece.as_str());
        assert(elements@.take(i + 1).drop_last() =~= elements@.take(i as int));
        i += 1;
    }
    assert(elements@.take(elements.len() as int) =~= elements@);
    s
}

/// The lines of `s` as `str::lines` yields them.
fn std_lines(s: &String) -> (r: Vec<String>)
    ensures
        views(r@) == std_lines_from(s@, 0),
{
    let v = chars_of(s.as_str());
    let n = v.len();
    let mut out: Vec<String> = Vec::new();
    let mut pos: usize = 0;
    while pos < n
        invariant
            pos <= n,
            n == v.len(),
            v@ == s@,
            views(out@) + std_lines_from(v@, pos as int) == std_lines_from(v@, 0),
        decreases n - pos,
    {
        let ghost out0 = views(out@);
        proof {
            lemma_index_of_from(v@, '\n', pos as int);
        }
        match find_char(&v, pos, '\n') {
            None => {
                out.push(string_of_range(&v, pos, n));
                assert(views(out@) =~= out0 + std_lines_from(v@, pos as int));
                return out;
            },
            Some(k) => {
                let end = if k > pos && v[k - 1] == '\r' { k - 1 } else { k };
                proof {
                    let l = v@.subrange(pos as int, k as int);
                    if k > pos && v@[k - 1] == '\r' {
                        assert(l.drop_last() =~= v@.subrange(pos as int, k - 1));
                    }
                }
                out.push(string_of_range(&v, pos, end));
                assert(views(out@) =~= out0 + seq![strip_cr(v@.subrange(pos as int, k as int))]);
                assert(out0 + std_lines_from(v@, pos as int) =~= views(out@) + std_lines_from(v@, k + 1));
                pos = k + 1;
            },
        }
    }
    assert(views(out@) =~= views(out@) + std_lines_from(v@, pos as int));
    out
}

fn list_prefix_exec(style: &String, i: usize) -> (r: String)
    requires
        i < usize::MAX,
    ensures
        r@ == list_prefix(style@, i as int),
{
    let sv = chars_of(style.as_str());
    let mut r = String::new();
    if crate::text::eq_literal(&sv, "ordered") {
        push_decimal(&mut r, (i as u64) + 1);
        r.push('.');
        r.push(' ');
    } else {
        r.push('\u{2022}');
        r.push(' ');
    }
    assert(r@ =~= list_prefix(style@, i as int));
    r
}

/// The output lines of one rich-text block.
fn rich_block_pieces_exec(b: &RichTextBlock) -> (r: Vec<String>)
    ensures
        views(r@) == rich_block_pieces(*b),
    decreases b,
{
    match b {
        RichTextBlock::Section { elements } => {
            let s = render_rich_elements(elements.as_slice());
            let mut r: Vec<String> = Vec::new();
            if !s.as_str().is_empty() {
                r.push(s);
            }
            assert(views(r@) =~= rich_block_pieces(*b));
            r
        },
        RichTextBlock::List { style, elements } => {
            let mut r: Vec<String> = Vec::new();
            let mut i: usize = 0;
            while i < elements.len()
                invariant
                    i <= elements.len(),
                    b is List,
                    b->List_elements == *elements,
                    views(r@) + list_pieces(style@, elements@, i as int) == list_pieces(style@, elements@, 0),
                decreases elements.len() - i,
            {
                let ghost r0 = views(r@);
                let inner = match &elements[i] {
                    RichTextBlock::Section { elements: els } => render_rich_elements(els.as_slice()),
                    other => {
                        proof {
                            vstd::std_specs::vec::axiom_vec_index_decreases(*elements, i as int);
                            assert(decreases_to!(*b => b->List_elements));
                        }
                        let ps = rich_block_pieces_exec(other);
                        let mut nl = String::new();
                        nl.push('\n');
                        assert(nl@ =~= seq!['\n']);
                        join_strings(&ps, nl.as_str())
                    },
                };
                let mut piece = list_prefix_exec(style, i);
                piece.push_str(inner.as_str());
                r.push(piece);
                assert(views(r@) =~= r0 + seq![list_prefix(style@, i as int) + inner@]);
                assert(r0 + list_pieces(style@, elements@, i as int) =~= views(r@) + list_pieces(style@, elements@, i + 1));
                i += 1;
            }
            assert(views(r@) =~= views(r@) + list_pieces(style@, elements@, i as int));
            r
        },
        RichTextBlock::Quote { elements } => {
            let s = render_rich_elements(elements.as_slice());
            let lines = std_lines(&s);
            let mut r: Vec<String> = Vec::new();
            let mut i: usize = 0;
            while i < lines.len()
                invariant
                    i <= lines.len(),
                    views(lines@) == std_lines_from(s@, 0),
                    views(r@) =~= quote_lines(views(lines@)).take(i as int),
                decreases lines.len() - i,
            {
                let mut piece = String::new();
                piece.push('>');
                piece.push(' ');
                piece.push_str(lines[i].as_str());
                let ghost r0 = r@;
                assert(piece@ =~= seq!['>', ' '] + lines@[i as int]@);
                r.push(piece);
                assert(views(r@) =~= views(r0).push(seq!['>', ' '] + lines@[i as int]@));
                i += 1;
            }
            assert(quote_lines(views(lines@)).take(lines.len() as int) =~= quote_lines(views(lines@)));
            r
        },
        RichTextBlock::Preformatted { elements } => {
            let s = render_rich_elements(elements.as_slice());
            let mut piece = String::new();
            piece.push('`');
            piece.push('`');
            piece.push('`');
            piece.push('\n');
            piece.push_str(s.as_str());
            piece.push('\n');
            piece.push('`');
            piece.push('`');
            piece.push('`');
            assert(piece@ =~= seq!['`', '`', '`', '\n'] + s@ + seq!['\n', '`', '`', '`']);
            let mut r: Vec<String> = Vec::new();
            r.push(piece);
            assert(views(r@) =~= rich_block_pieces(*b));
            r
        },
        RichTextBlock::Other => {
            let r: Vec<String> = Vec::new();
            assert(views(r@) =~= rich_block_pieces(*b));
            r
        },
    }
}

pub fn render_rich_text(blocks: &[RichTextBlock]) -> (r: String)
    ensures
        r@ == rich_text(blocks@),
{
    let mut out: Vec<String> = Vec::new();
    let mut i: usize = 0;
    while i < blocks.len()
        invariant
            i <= blocks.len(),
            views(out@) == rich_blocks_pieces(blocks@.take(i as int)),
        decreases blocks.len() - i,
    {
        let ps = rich_block_pieces_exec(&blocks[i]);
        let ghost o = views(out@);
        let mut ps = ps;
        let ghost pv = views(ps@);
        out.append(&mut ps);
        assert(views(out@) =~= o + pv);
        assert(blocks@.take(i + 1).drop_last() =~= blocks@.take(i as int));
        i += 1;
    }
    assert(blocks@.take(blocks.len() as int) =~= blocks@);
    let mut nl = String::new();
    nl.push('\n');
    assert(nl@ =~= seq!['\n']);
    join_strings(&out, nl.as_str())
}

// ---------------------------------------------------------------------------
// Blocks
// ---------------------------------------------------------------------------

/// The text of a text object, if present and non-empty.
pub open spec fn text_obj_piece(t: Option<SlackTextObject>) -> Seq<Seq<char>> {
    match t {
        Some(o) => if o.text@.len() > 0 { seq![o.text@] } else { Seq::empty() },
        None => Seq::empty(),
    }
}

/// A string, if present and non-empty.
pub open spec fn nonempty_piece(t: Option<String>) -> Seq<Seq<char>> {
    match t {
        Some(s) => if s@.len() > 0 { seq![s@] } else { Seq::empty() },
        None => Seq::empty(),
    }
}

/// The non-empty texts of section fields.
pub open spec fn field_texts(fs: Seq<SlackTextObject>) -> Seq<Seq<char>>
    decreases fs.len(),
{
    if fs.len() == 0 {
        Seq::empty()
    } else {
        field_texts(fs.drop_last()) + (if fs.last().text@.len() > 0 {
            seq![fs.last().text@]
        } else {
            Seq::empty()
        })
    }
}

/// The non-empty texts of context elements.
pub open spec fn context_texts(es: Seq<SlackContextElement>) -> Seq<Seq<char>>
    decreases es.len(),
{
    if es.len() == 0 {
        Seq::empty()
    } else {
        context_texts(es.drop_last()) + match es.last() {
            SlackContextElement::Mrkdwn { text } => if text@.len() > 0 { seq![text@] } else { Seq::empty() },
            SlackContextElement::PlainText { text } => if text@.len() > 0 { seq![text@] } else { Seq::empty() },
            SlackContextElement::Other => Seq::empty(),
        }
    }
}

/// ` · `
pub open spec fn dot_sep() -> Seq<char> {
    seq![' ', '\u{B7}', ' ']
}

/// ` — `
pub open spec fn dash_sep() -> Seq<char> {
    seq![' ', '\u{2014}', ' ']
}

/// The divider line.
pub open spec fn divider_line() -> Seq<char> {
    seq!['\u{2500}', '\u{2500}', '\u{2500}', '\u{2500}', '\u{2500}']
}

/// `[image] `
pub open spec fn image_tag() -> Seq<char> {
    seq!['[', 'i', 'm', 'a', 'g', 'e', ']', ' ']
}

/// The parts an image block shows: title, alt text, `<url>`.
pub open spec fn image_parts(title: Option<SlackTextObject>, alt_text: Option<String>, image_url: Option<String>) -> Seq<Seq<char>> {
    text_obj_piece(title) + nonempty_piece(alt_text) + match image_url {
        Some(u) => if u@.len() > 0 { seq![angle(u@)] } else { Seq::empty() },
        None => Seq::empty(),
    }
}

/// The output lines of one block.
pub open spec fn block_pieces(b: SlackBlock) -> Seq<Seq<char>> {
    match b {
        SlackBlock::Section { text, fields } => text_obj_piece(text) + field_texts(fields@),
        SlackBlock::Header { text } => match text {
            Some(o) => if o.text@.len() > 0 { seq![wrap('*', o.text@)] } else { Seq::empty() },
            None => Seq::empty(),
        },
        SlackBlock::Context { elements } => {
            let parts = context_texts(elements@);
            if parts.len() > 0 { seq![join(parts, dot_sep())] } else { Seq::empty() }
        },
        SlackBlock::Divider => seq![divider_line()],
        SlackBlock::RichText { elements } => {
            let r = rich_text(elements@);
            if r.len() > 0 { seq![r] } else { Seq::empty() }
        },
        SlackBlock::Image { title, alt_text, image_url } => {
            let parts = image_parts(title, alt_text, image_url);
            if parts.len() > 0 { seq![image_tag() + join(parts, dash_sep())] } else { Seq::empty() }
        },
        SlackBlock::Other => Seq::empty(),
    }
}

/// The output lines of a sequence of blocks.
pub open spec fn blocks_pieces(bs: Seq<SlackBlock>) -> Seq<Seq<char>>
    decreases bs.len(),
{
    if bs.len() == 0 {
        Seq::empty()
    } else {
        blocks_pieces(bs.drop_last()) + block_pieces(bs.last())
    }
}

/// The mrkdwn text of a sequence of blocks: their lines joined by newlines.
pub open spec fn blocks_text(bs: Seq<SlackBlock>) -> Seq<char> {
    join(blocks_pieces(bs), seq!['\n'])
}

fn push_piece(out: &mut Vec<String>, s: String)
    ensures
        views(final(out)@) == views(old(out)@) + (if s@.len() > 0 { seq![s@] } else { Seq::<Seq<char>>::empty() }),
{
    let ghost o = views(out@);
    if !s.as_str().is_empty() {
        out.push(s);
        assert(views(out@) =~= o + seq![s@]);
    } else {
        assert(views(out@) =~= o + Seq::<Seq<char>>::empty());
    }
}

fn text_obj_piece_exec(t: &Option<SlackTextObject>, out: &mut Vec<String>)
    ensures
        views(final(out)@) == views(old(out)@) + text_obj_piece(*t),
{
    match t {
        Some(o) => push_piece(out, o.text.clone()),
        None => {
            assert(views(out@) =~= views(out@) + text_obj_piece(*t));
        },
    }
}

fn nl_string() -> (s: String)
    ensures
        s@ == seq!['\n'],
{
    let mut s = String::new();
    s.push('\n');
    assert(s@ =~= seq!['\n']);
    s
}

fn string_from_chars(cs: &[char]) -> (s: String)
    ensures
        s@ == cs@,
{
    let mut s = String::new();
    let mut i: usize = 0;
    while i < cs.len()
        invariant
            i <= cs.len(),
            s@ =~= cs@.take(i as int),
        decreases cs.len() - i,
    {
        s.push(cs[i]);
        i += 1;
    }
    assert(cs@.take(cs.len() as int) =~= cs@);
    s
}

/// The output lines of one block.
fn block_pieces_exec(b: &SlackBlock) -> (r: Vec<String>)
    ensures
        views(r@) == block_pieces(*b),
{
    let mut out: Vec<String> = Vec::new();
    match b {
        SlackBlock::Section { text, fields } => {
            text_obj_piece_exec(text, &mut out);
            let ghost o = views(out@);
            let mut i: usize = 0;
            while i < fields.len()
                invariant
                    i <= fields.len(),
                    views(out@) == o + field_texts(fields@.take(i as int)),
                decreases fields.len() - i,
            {
                push_piece(&mut out, fields[i].text.clone());
                assert(fields@.take(i + 1).drop_last() =~= fields@.take(i as int));
                i += 1;
            }
            assert(fields@.take(fields.len() as int) =~= fields@);
        },
        SlackBlock::Header { text } => {
            match text {
                Some(o) => {
                    if !o.text.as_str().is_empty() {
                        out.push(wrapped('*', o.text.clone()));
                    }
                },
                None => {},
            }
            assert(views(out@) =~= block_pieces(*b));
        },
        SlackBlock::Context { elements } => {
            let mut parts: Vec<String> = Vec::new();
            let mut i: usize = 0;
            while i < elements.len()
                invariant
                    i <= elements.len(),
                    views(parts@) == context_texts(elements@.take(i as int)),
                decreases elements.len() - i,
            {
                match &elements[i] {
                    SlackContextElement::Mrkdwn { text } => push_piece(&mut parts, text.clone()),
                    SlackContextElement::PlainText { text } => push_piece(&mut parts, text.clone()),
                    SlackContextElement::Other => {},
                }
                assert(elements@.take(i + 1).drop_last() =~= elements@.take(i as int));
                assert(views(parts@) =~= context_texts(elements@.take(i + 1)));
                i += 1;
            }
            assert(elements@.take(elements.len() as int) =~= elements@);
            if parts.len() > 0 {
                let sep = string_from_chars(&[' ', '\u{B7}', ' ']);
                assert(sep@ =~= dot_sep());
                out.push(join_strings(&parts, sep.as_str()));
            }
            assert(views(out@) =~= block_pieces(*b));
        },
        SlackBlock::Divider => {
            let d = string_from_chars(&['\u{2500}', '\u{2500}', '\u{2500}', '\u{2500}', '\u{2500}']);
            assert(d@ =~= divider_line());
            out.push(d);
            assert(views(out@) =~= block_pieces(*b));
        },
        SlackBlock::RichText { elements } => {
            let r = render_rich_text(elements.as_slice());
            push_piece(&mut out, r);
            assert(views(out@) =~= block_pieces(*b));
        },
        SlackBlock::Image { title, alt_text, image_url } => {
            let mut parts: Vec<String> = Vec::new();
            text_obj_piece_exec(title, &mut parts);
            match alt_text {
                Some(a) => push_piece(&mut parts, a.clone()),
                None => {},
            }
            match image_url {
                Some(u) => {
                    if !u.as_str().is_empty() {
                        let mut s = String::new();
                        s.push('<');
                        s.push_str(u.as_str());
                        s.push('>');
                        assert(s@ =~= angle(u@));
                        push_piece(&mut parts, s);
                    }
                },
                None => {},
            }
            assert(views(parts@) =~= image_parts(*title, *alt_text, *image_url));
            if parts.len() > 0 {
                let sep = string_from_chars(&[' ', '\u{2014}', ' ']);
                assert(sep@ =~= dash_sep());
                let mut s = string_from_chars(&['[', 'i', 'm', 'a', 'g', 'e', ']', ' ']);
                assert(s@ =~= image_tag());
                let j = join_strings(&parts, sep.as_str());
                s.push_str(j.as_str());
                out.push(s);
            }
            assert(views(out@) =~= block_pieces(*b));
        },
        SlackBlock::Other => {
            assert(views(out@) =~= block_pieces(*b));
        },
    }
    out
}

/// Render a Block Kit blocks array into mrkdwn-flavored text.
pub fn render_blocks(blocks: &[SlackBlock]) -> (r: String)
    ensures
        r@ == blocks_text(blocks@),
{
    let mut out: Vec<String> = Vec::new();
    let mut i: usize = 0;
    while i < blocks.len()
        invariant
            i <= blocks.len(),
            views(out@) == blocks_pieces(blocks@.take(i as int)),
        decreases blocks.len() - i,
    {
        let mut ps = block_pieces_exec(&blocks[i]);
        let ghost o = views(out@);
        let ghost pv = views(ps@);
        out.append(&mut ps);
        assert(views(out@) =~= o + pv);
        assert(blocks@.take(i + 1).drop_last() =~= blocks@.take(i as int));
        i += 1;
    }
    assert(blocks@.take(blocks.len() as int) =~= blocks@);
    let nl = nl_string();
    join_strings(&out, nl.as_str())
}

// ---------------------------------------------------------------------------
// Attachments and message text
// ---------------------------------------------------------------------------

/// A string that is absent or empty.
pub open spec fn blank(o: Option<String>) -> bool {
    o is None || o->0@.len() == 0
}

/// A string that is present and non-empty.
pub open spec fn filled(o: Option<String>) -> Option<Seq<char>> {
    if blank(o) {
        None
    } else {
        Some(o->0@)
    }
}

/// The first char count `k >= i` at which the UTF-8 length of `s.take(k)`
/// reaches `n` (or the whole text).
pub open spec fn cut_from(s: Seq<char>, n: nat, k: int) -> int
    decreases s.len() - k,
{
    if k < 0 || k >= s.len() || utf8_len(s.take(k)) >= n {
        k
    } else {
        cut_from(s, n, k + 1)
    }
}

/// The first `n` bytes of `s` end on a character boundary.
pub open spec fn byte_boundary(s: Seq<char>, n: nat) -> bool {
    utf8_len(s.take(cut_from(s, n, 0))) == n
}

/// A fallback text as a card body: longer than 400 bytes it is cut to its
/// first 400 bytes and marked with `...`.
pub open spec fn fallback_body(f: Seq<char>) -> Seq<char> {
    if utf8_len(f) > 400 {
        f.take(cut_from(f, 400, 0)) + seq!['.', '.', '.']
    } else {
        f
    }
}

/// The body text of an attachment card.
pub open spec fn card_body(a: SlackAttachment) -> Seq<char> {
    if a.blocks@.len() > 0 {
        let r = blocks_text(a.blocks@);
        if r.len() > 0 {
            r
        } else {
            match a.text {
                Some(t) => t@,
                None => Seq::empty(),
            }
        }
    } else if !blank(a.text) {
        a.text->0@
    } else if !blank(a.fallback) {
        fallback_body(a.fallback->0@)
    } else {
        Seq::empty()
    }
}

/// Cutting the attachment's fallback at 400 bytes, when that happens, falls
/// on a character boundary.
pub open spec fn fallback_cut_ok(a: SlackAttachment) -> bool {
    (a.blocks@.len() == 0 && blank(a.text) && !blank(a.fallback) && utf8_len(a.fallback->0@) > 400)
        ==> byte_boundary(a.fallback->0@, 400)
}

/// Whether an attachment has anything to show.
pub open spec fn card_shown(a: SlackAttachment) -> bool {
    !(card_body(a).len() == 0 && blank(a.author_name) && blank(a.title) && blank(a.pretext)
        && blank(a.footer))
}

/// The card an attachment becomes.
pub open spec fn card_of(a: SlackAttachment) -> CardV {
    CardV {
        color: filled(a.color),
        author: filled(a.author_name),
        title: filled(a.title),
        title_link: filled(a.title_link),
        pretext: filled(a.pretext),
        body: card_body(a),
        footer: filled(a.footer),
    }
}

/// The cards of the attachments that have anything to show, in order.
pub open spec fn cards_of(atts: Seq<SlackAttachment>) -> Seq<CardV>
    decreases atts.len(),
{
    if atts.len() == 0 {
        Seq::empty()
    } else {
        cards_of(atts.drop_last()) + if card_shown(atts.last()) {
            seq![card_of(atts.last())]
        } else {
            Seq::empty()
        }
    }
}

fn is_blank(o: &Option<String>) -> (r: bool)
    ensures
        r == blank(*o),
{
    match o {
        Some(s) => s.as_str().is_empty(),
        None => true,
    }
}

fn filled_exec(o: &Option<String>) -> (r: Option<String>)
    ensures
        option_view(r) == filled(*o),
{
    match o {
        Some(s) => {
            if s.as_str().is_empty() {
                None
            } else {
                Some(s.clone())
            }
        },
        None => None,
    }
}

/// The fallback text as a card body.
fn fallback_body_exec(f: &String) -> (r: String)
    requires
        utf8_len(f@) > 400 ==> byte_boundary(f@, 400),
    ensures
        r@ == fallback_body(f@),
{
    let v = chars_of(f.as_str());
    let n = v.len();
    let mut k: usize = 0;
    let mut bytes: usize = 0;
    while k < n && bytes < 400
        invariant
            k <= n,
            n == v.len(),
            bytes == utf8_len(v@.take(k as int)),
            cut_from(v@, 400, k as int) == cut_from(v@, 400, 0),
            bytes <= 400 + 4,
        decreases n - k,
    {
        proof {
            crate::text::lemma_utf8_len_take(v@, k as int);
        }
        bytes = bytes + utf8_width_exec(v[k]);
        k += 1;
    }
    let mut total = bytes;
    let mut j = k;
    while j < n && total <= 400
        invariant
            k <= j <= n,
            n == v.len(),
            total == utf8_len(v@.take(j as int)),
            total <= 400 + 4,
        decreases n - j,
    {
        proof {
            crate::text::lemma_utf8_len_take(v@, j as int);
        }
        total = total + utf8_width_exec(v[j]);
        j += 1;
    }
    proof {
        lemma_utf8_len_mono(v@, j as int);
        assert(v@.take(n as int) =~= v@);
    }
    if total > 400 {
        let mut r = string_of_range(&v, 0, k);
        r.push('.');
        r.push('.');
        r.push('.');
        assert(v@.take(k as int) =~= v@.subrange(0, k as int));
        assert(r@ =~= fallback_body(f@));
        r
    } else {
        f.clone()
    }
}

proof fn lemma_utf8_len_mono(s: Seq<char>, j: int)
    requires
        0 <= j <= s.len(),
    ensures
        utf8_len(s.take(j)) <= utf8_len(s),
    decreases s.len() - j,
{
    if j < s.len() {
        crate::text::lemma_utf8_len_take(s, j);
        lemma_utf8_len_mono(s, j + 1);
    } else {
        assert(s.take(j) =~= s);
    }
}

/// The body of an attachment card.
fn card_body_exec(a: &SlackAttachment) -> (r: String)
    requires
        fallback_cut_ok(*a),
    ensures
        r@ == card_body(*a),
{
    if a.blocks.len() > 0 {
        let rendered = render_blocks(a.blocks.as_slice());
        if !rendered.as_str().is_empty() {
            rendered
        } else {
            match &a.text {
                Some(t) => t.clone(),
                None => String::new(),
            }
        }
    } else if !is_blank(&a.text) {
        a.text.as_ref().unwrap().clone()
    } else if !is_blank(&a.fallback) {
        fallback_body_exec(a.fallback.as_ref().unwrap())
    } else {
        String::new()
    }
}

/// Convert Slack attachments into structured cards for boxed UI rendering.
pub fn attachments_to_cards(attachments: &[SlackAttachment]) -> (r: Vec<AttachmentCard>)
    requires
        forall|i: int| 0 <= i < attachments@.len() ==> #[trigger] fallback_cut_ok(attachments@[i]),
    ensures
        cards_view(r@) == cards_of(attachments@),
{
    let mut out: Vec<AttachmentCard> = Vec::new();
    let mut i: usize = 0;
    while i < attachments.len()
        invariant
            i <= attachments.len(),
            forall|j: int| 0 <= j < attachments@.len() ==> #[trigger] fallback_cut_ok(attachments@[j]),
            cards_view(out@) == cards_of(attachments@.take(i as int)),
        decreases attachments.len() - i,
    {
        let att = &attachments[i];
        assert(fallback_cut_ok(attachments@[i as int]));
        let body = card_body_exec(att);
        let ghost o = cards_view(out@);
        assert(attachments@.take(i + 1).drop_last() =~= attachments@.take(i as int));
        if body.as_str().is_empty() && is_blank(&att.author_name) && is_blank(&att.title)
            && is_blank(&att.pretext) && is_blank(&att.footer) {
            assert(cards_of(attachments@.take(i + 1)) =~= o);
        } else {
            let card = AttachmentCard {
                color: filled_exec(&att.color),
                author: filled_exec(&att.author_name),
                title: filled_exec(&att.title),
                title_link: filled_exec(&att.title_link),
                pretext: filled_exec(&att.pretext),
                body,
                footer: filled_exec(&att.footer),
            };
            assert(card@ == card_of(*att));
            out.push(card);
            assert(cards_view(out@) =~= o + seq![card_of(*att)]);
        }
        i += 1;
    }
    assert(attachments@.take(attachments.len() as int) =~= attachments@);
    out
}

/// `<@id>`
pub open spec fn mention_pattern(id: Seq<char>) -> Seq<char> {
    seq!['<', '@'] + id + seq!['>']
}

/// `<@id|`
pub open spec fn labelled_mention_pattern(id: Seq<char>) -> Seq<char> {
    seq!['<', '@'] + id + seq!['|']
}

/// The text mentions user `id` (never for an empty id).
pub open spec fn mentions_user(text: Seq<char>, id: Seq<char>) -> bool {
    id.len() > 0 && (crate::text::contains(text, mention_pattern(id)) || crate::text::contains(
        text,
        labelled_mention_pattern(id),
    ))
}

/// Whether `text` mentions user `user_id`.
pub fn mentions_user_exec(text: &str, user_id: &str) -> (r: bool)
    ensures
        r == mentions_user(text@, user_id@),
{
    if user_id.is_empty() {
        return false;
    }
    let v = chars_of(text);
    let mut p1: Vec<char> = Vec::new();
    p1.push('<');
    p1.push('@');
    let id = chars_of(user_id);
    let mut i: usize = 0;
    while i < id.len()
        invariant
            i <= id.len(),
            p1@ =~= seq!['<', '@'] + id@.take(i as int),
        decreases id.len() - i,
    {
        p1.push(id[i]);
        i += 1;
    }
    assert(id@.take(id.len() as int) =~= id@);
    let mut p2 = p1.clone();
    p1.push('>');
    p2.push('|');
    assert(p1@ =~= mention_pattern(user_id@));
    assert(p2@ =~= labelled_mention_pattern(user_id@));
    crate::text::find_seq(&v, 0, &p1).is_some() || crate::text::find_seq(&v, 0, &p2).is_some()
}

/// Check if the text contains a mention of the specified user ID
/// Looks for patterns like <@U12345> or <@U12345|name>
pub fn text_mentions_user(text: &str, user_id: &str) -> (r: bool)
    ensures
        r == mentions_user(text@, user_id@),
{
    mentions_user_exec(text, user_id)
}

/// The first text an attachment offers from `i` on: rendered blocks, text,
/// pretext or fallback.
pub open spec fn attachment_text_from(atts: Seq<SlackAttachment>, i: int) -> Option<Seq<char>>
    decreases atts.len() - i,
{
    if i < 0 || i >= atts.len() {
        None
    } else {
        let a = atts[i];
        let r = blocks_text(a.blocks@);
        if r.len() > 0 {
            Some(r)
        } else if !blank(a.text) {
            Some(a.text->0@)
        } else if !blank(a.pretext) {
            Some(a.pretext->0@)
        } else if !blank(a.fallback) {
            Some(a.fallback->0@)
        } else {
            attachment_text_from(atts, i + 1)
        }
    }
}

/// The text a message shows: rendered blocks, else the plain text, else the
/// first text an attachment offers.
pub open spec fn message_text(m: SlackMessage) -> Seq<char> {
    let b = blocks_text(m.blocks@);
    if b.len() > 0 {
        b
    } else if m.text@.len() > 0 {
        m.text@
    } else {
        match attachment_text_from(m.attachments@, 0) {
            Some(t) => t,
            None => Seq::empty(),
        }
    }
}

impl SlackMessage {
    /// Returns the message text. Rendered blocks win when present, then
    /// plain text, then attachment content.
    pub fn rendered_text(&self) -> (r: String)
        ensures
            r@ == message_text(*self),
    {
        let from_blocks = render_blocks(self.blocks.as_slice());
        if !from_blocks.as_str().is_empty() {
            return from_blocks;
        }
        if !self.text.as_str().is_empty() {
            return self.text.clone();
        }
        let mut i: usize = 0;
        while i < self.attachments.len()
            invariant
                i <= self.attachments.len(),
                blocks_text(self.blocks@).len() == 0,
                self.text@.len() == 0,
                attachment_text_from(self.attachments@, i as int) == attachment_text_from(self.attachments@, 0),
            decreases self.attachments.len() - i,
        {
            let att = &self.attachments[i];
            let rendered = render_blocks(att.blocks.as_slice());
            if !rendered.as_str().is_empty() {
                return rendered;
            }
            if !is_blank(&att.text) {
                return att.text.as_ref().unwrap().clone();
            }
            if !is_blank(&att.pretext) {
                return att.pretext.as_ref().unwrap().clone();
            }
            if !is_blank(&att.fallback) {
                return att.fallback.as_ref().unwrap().clone();
            }
            i += 1;
        }
        String::new()
    }
}

} // verus!
