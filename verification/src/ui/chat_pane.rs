//! The lines a chat pane shows for its messages, and the arithmetic of its
//! layout: scrolling, image placement and the compose box.
use vstd::prelude::*;
use crate::style::{Color, Style, StyledSpan, plain, patched, with_modifier, spans_view, BOLD, ITALIC};
use crate::ui::cards::{SpanV, wrapped, lines_view, str_width, char_width, display_width, sat_sub, wrap_spans_hanging};
use crate::widgets::{MessageData, MessageV};
use crate::text::decimal;
use crate::formatting::emoji_text;

verus! {

/// Which parts of a message a pane shows.
#[derive(Clone, Copy, Debug)]
pub struct PaneSettings {
    pub show_emojis: bool,
    pub show_reactions: bool,
    pub show_line_numbers: bool,
    pub show_timestamps: bool,
    pub show_user_colors: bool,
    pub show_image_preview: bool,
}

/// `a + b`, or `usize::MAX` when that does not fit.
pub open spec fn sat_add(a: int, b: int) -> int {
    if a + b > usize::MAX {
        usize::MAX as int
    } else {
        a + b
    }
}

/// The columns a text takes, counting characters without a width as none
/// (adding up saturates at `usize::MAX`).
pub open spec fn chars_width(s: Seq<char>) -> int
    decreases s.len(),
{
    if s.len() == 0 {
        0
    } else {
        sat_add(
            chars_width(s.drop_last()),
            match char_width(s.last()) {
                Some(w) => w as int,
                None => 0,
            },
        )
    }
}

/// The columns a sequence of spans takes.
pub open spec fn spans_width(v: Seq<SpanV>) -> int
    decreases v.len(),
{
    if v.len() == 0 {
        0
    } else {
        sat_add(spans_width(v.drop_last()), chars_width(v.last().0))
    }
}

proof fn lemma_chars_width_bound(s: Seq<char>)
    ensures
        0 <= chars_width(s) <= usize::MAX,
    decreases s.len(),
{
    if s.len() > 0 {
        lemma_chars_width_bound(s.drop_last());
    }
}

proof fn lemma_spans_width_bound(v: Seq<SpanV>)
    ensures
        0 <= spans_width(v) <= usize::MAX,
    decreases v.len(),
{
    if v.len() > 0 {
        lemma_spans_width_bound(v.drop_last());
        lemma_chars_width_bound(v.last().0);
    }
}

/// The columns a text takes; see `chars_width`.
pub fn text_columns(s: &str) -> (r: usize)
    ensures
        r == chars_width(s@),
{
    let v = crate::text::chars_of(s);
    let mut total: usize = 0;
    let mut i: usize = 0;
    while i < v.len()
        invariant
            i <= v.len(),
            total == chars_width(v@.take(i as int)),
        decreases v.len() - i,
    {
        assert(v@.take(i + 1).drop_last() =~= v@.take(i as int));
        let w: usize = match crate::ui::cards::char_display_width(v[i]) {
            Some(w) => w,
            None => 0,
        };
        total = if total > usize::MAX - w {
            usize::MAX
        } else {
            total + w
        };
        i += 1;
    }
    assert(v@.take(i as int) =~= v@);
    total
}

/// The columns spans take; see `spans_width`.
pub fn span_columns(spans: &Vec<StyledSpan>) -> (r: usize)
    ensures
        r == spans_width(spans_view(spans@)),
{
    let ghost sv = spans_view(spans@);
    let mut total: usize = 0;
    let mut i: usize = 0;
    while i < spans.len()
        invariant
            i <= spans.len(),
            sv == spans_view(spans@),
            total == spans_width(sv.take(i as int)),
        decreases spans.len() - i,
    {
        assert(sv.take(i + 1).drop_last() =~= sv.take(i as int));
        let w = text_columns(spans[i].content.as_str());
        total = if total > usize::MAX - w {
            usize::MAX
        } else {
            total + w
        };
        i += 1;
    }
    assert(sv.take(i as int) =~= sv);
    total
}

/// A style with foreground `c`.
pub open spec fn fg_style(c: Color) -> Style {
    Style { fg: Some(c), ..plain() }
}

/// A bold style with foreground `c`.
pub open spec fn bold(c: Color) -> Style {
    with_modifier(fg_style(c), BOLD)
}

/// `n` spaces.
pub open spec fn spaces_of(n: nat) -> Seq<char> {
    Seq::new(n, |i: int| ' ')
}

/// The style of a sender's name when names are not colored per user.
pub open spec fn name_style(m: MessageV, st: PaneSettings) -> Style {
    if !st.show_user_colors {
        bold(Color::DarkGray)
    } else if m.is_outgoing {
        bold(Color::Green)
    } else {
        bold(Color::Cyan)
    }
}

/// The style of a sender's name: someone else's name takes its own color
/// when names are colored.
pub open spec fn username_style(m: MessageV, st: PaneSettings, name_color: Color) -> Style {
    if !st.show_user_colors || m.is_outgoing {
        name_style(m, st)
    } else {
        bold(name_color)
    }
}

/// What stands before a message's text: `[DELETED]`, its number, its clock
/// time, and the sender's name padded to the widest name in the pane.
pub open spec fn message_prefix(
    m: MessageV,
    idx: int,
    st: PaneSettings,
    clock: Option<Seq<char>>,
    name_color: Color,
    nick_pad: int,
) -> Seq<SpanV> {
    (if m.is_deleted {
        seq![("[DELETED] "@, with_modifier(fg_style(Color::Red), ITALIC))]
    } else {
        Seq::empty()
    }) + (if st.show_line_numbers {
        seq![("#"@ + decimal((idx + 1) as nat) + " "@, fg_style(Color::DarkGray))]
    } else {
        Seq::empty()
    }) + (match clock {
        Some(t) => seq![("["@ + t + "] "@, fg_style(Color::DarkGray))],
        None => Seq::empty(),
    }) + seq![
        (
            m.sender_name + spaces_of(sat_sub(nick_pad, str_width(m.sender_name) as int) as nat) + " "@,
            username_style(m, st, name_color),
        ),
    ]
}

/// The style of a reaction pill.
pub open spec fn pill_style() -> Style {
    Style { fg: Some(Color::White), bg: Some(Color::Rgb(60, 60, 65)), ..plain() }
}

/// The text of a reaction pill: the emoji, and the count when above one.
pub open spec fn pill_label(name: Seq<char>, count: u32) -> Seq<char> {
    if count > 1 {
        " "@ + emoji_text(name) + " "@ + decimal(count as nat) + " "@
    } else {
        " "@ + emoji_text(name) + " "@
    }
}

/// Reaction pills, separated by single spaces.
pub open spec fn pills(rs: Seq<(Seq<char>, u32)>) -> Seq<SpanV>
    decreases rs.len(),
{
    if rs.len() == 0 {
        Seq::empty()
    } else {
        pills(rs.drop_last()) + (if rs.len() > 1 {
            seq![(" "@, plain())]
        } else {
            Seq::empty()
        }) + seq![(pill_label(rs.last().0, rs.last().1), pill_style())]
    }
}

/// The marker for a message's media: `[img]` or `[video]`.
pub open spec fn media_marker(m: MessageV) -> Seq<SpanV> {
    match m.media_type {
        Some(t) => if t == "image"@ {
            seq![(" [img]"@, bold(Color::Blue))]
        } else if t == "video"@ {
            seq![(" [video]"@, bold(Color::Blue))]
        } else {
            Seq::empty()
        },
        None => Seq::empty(),
    }
}

/// A message's text spans followed by its media marker, `(edited)`, reply
/// count and reaction pills.
pub open spec fn message_content(m: MessageV, st: PaneSettings, body: Seq<SpanV>) -> Seq<SpanV> {
    body + media_marker(m) + (if m.is_edited && !m.is_deleted {
        seq![(" (edited)"@, with_modifier(fg_style(Color::DarkGray), ITALIC))]
    } else {
        Seq::empty()
    }) + (if m.reply_count > 0 {
        seq![(" ["@ + decimal(m.reply_count as nat) + " replies]"@, bold(Color::Magenta))]
    } else {
        Seq::empty()
    }) + (if st.show_reactions && m.reactions.len() > 0 {
        seq![("  "@, plain())] + pills(m.reactions)
    } else {
        Seq::empty()
    })
}

/// A message's text lines: the prefix, then the content wrapped to the
/// width left beside it, continuation lines indented under the text.
pub open spec fn message_text_lines(
    m: MessageV,
    idx: int,
    st: PaneSettings,
    width: usize,
    nick_pad: int,
    body: Seq<SpanV>,
    clock: Option<Seq<char>>,
    name_color: Color,
) -> Seq<Seq<SpanV>> {
    let prefix = message_prefix(m, idx, st, clock, name_color, nick_pad);
    let pw = spans_width(prefix);
    let indent = spaces_of(pw as nat);
    let w0 = wrapped(
        message_content(m, st, body),
        sat_sub(width as int, pw),
        sat_sub(width as int, str_width(indent) as int),
        indent,
    );
    let w = if w0.len() == 0 {
        seq![Seq::<SpanV>::empty()]
    } else {
        w0
    };
    seq![prefix + w[0]] + w.skip(1)
}


/// A string of `n` spaces.
fn spaces_string(n: usize) -> (r: String)
    ensures
        r@ == spaces_of(n as nat),
{
    let mut r = String::new();
    let mut i: usize = 0;
    while i < n
        invariant
            i <= n,
            r@ == spaces_of(i as nat),
        decreases n - i,
    {
        r.push(' ');
        i += 1;
        assert(r@ =~= spaces_of(i as nat));
    }
    r
}

/// Appends one span, tracking the view.
fn push_span(v: &mut Vec<StyledSpan>, text: String, style: Style)
    ensures
        spans_view(final(v)@) == spans_view(old(v)@).push((text@, style)),
{
    let ghost before = spans_view(v@);
    v.push(StyledSpan::styled(text, style));
    assert(spans_view(v@) =~= before.push((text@, style)));
}

/// The spans before a message's text; see `message_prefix`.
fn message_prefix_spans(
    m: &MessageData,
    idx: usize,
    st: PaneSettings,
    clock: &Option<String>,
    name_color: Color,
    nick_pad: usize,
) -> (r: Vec<StyledSpan>)
    requires
        idx < usize::MAX,
    ensures
        spans_view(r@) == message_prefix(m@, idx as int, st, crate::text::option_view(*clock), name_color, nick_pad as int),
{
    let dg = Style::new().fg(Color::DarkGray);
    let mut out: Vec<StyledSpan> = Vec::new();
    let ghost p0 = spans_view(out@);
    if m.is_deleted {
        push_span(&mut out, "[DELETED] ".to_string(), Style::new().fg(Color::Red).add_modifier(ITALIC));
    }
    let ghost p1 = spans_view(out@);
    if st.show_line_numbers {
        let mut t = "#".to_string();
        crate::text::push_decimal(&mut t, (idx + 1) as u64);
        t.push_str(" ");
        push_span(&mut out, t, dg);
    }
    let ghost p2 = spans_view(out@);
    match clock {
        Some(c) => {
            let mut t = "[".to_string();
            t.push_str(c.as_str());
            t.push_str("] ");
            push_span(&mut out, t, dg);
        },
        None => {},
    }
    let ghost p3 = spans_view(out@);
    let name_st = if !st.show_user_colors {
        Style::new().fg(Color::DarkGray).add_modifier(BOLD)
    } else if m.is_outgoing {
        Style::new().fg(Color::Green).add_modifier(BOLD)
    } else {
        Style::new().fg(Color::Cyan).add_modifier(BOLD)
    };
    let user_st = if !st.show_user_colors || m.is_outgoing {
        name_st
    } else {
        Style::new().fg(name_color).add_modifier(BOLD)
    };
    let nick_w = display_width(m.sender_name.as_str());
    let pad: usize = if nick_pad > nick_w {
        nick_pad - nick_w
    } else {
        0
    };
    let mut t = crate::text::copy_string(&m.sender_name);
    t.push_str(spaces_string(pad).as_str());
    t.push_str(" ");
    push_span(&mut out, t, user_st);
    let ghost mv = m@;
    assert(p1 =~= p0 + (if mv.is_deleted {
        seq![("[DELETED] "@, with_modifier(fg_style(Color::Red), ITALIC))]
    } else {
        Seq::empty()
    }));
    assert(p2 =~= p1 + (if st.show_line_numbers {
        seq![("#"@ + decimal((idx + 1) as nat) + " "@, fg_style(Color::DarkGray))]
    } else {
        Seq::empty()
    }));
    assert(p3 =~= p2 + (match crate::text::option_view(*clock) {
        Some(t) => seq![("["@ + t + "] "@, fg_style(Color::DarkGray))],
        None => Seq::empty(),
    }));
    assert(spans_view(out@) =~= message_prefix(mv, idx as int, st, crate::text::option_view(*clock), name_color, nick_pad as int));
    out
}

/// Appends reaction pills; see `pills`.
fn push_pills(out: &mut Vec<StyledSpan>, rs: &Vec<(String, u32)>)
    ensures
        spans_view(final(out)@) == spans_view(old(out)@) + pills(Seq::new(rs@.len(), |i: int| (rs@[i].0@, rs@[i].1))),
{
    let ghost rv = Seq::new(rs@.len(), |i: int| (rs@[i].0@, rs@[i].1));
    let ghost o0 = spans_view(out@);
    let mut i: usize = 0;
    assert(rv.take(0) =~= Seq::<(Seq<char>, u32)>::empty());
    assert(spans_view(out@) =~= o0 + pills(rv.take(0)));
    while i < rs.len()
        invariant
            i <= rs.len(),
            rv == Seq::new(rs@.len(), |i: int| (rs@[i].0@, rs@[i].1)),
            spans_view(out@) == o0 + pills(rv.take(i as int)),
        decreases rs.len() - i,
    {
        let ghost before = spans_view(out@);
        assert(rv.take(i + 1).drop_last() =~= rv.take(i as int));
        if i > 0 {
            push_span(out, " ".to_string(), Style::new());
        }
        let emoji = crate::formatting::slack_emoji_to_unicode(rs[i].0.as_str());
        let count = rs[i].1;
        let mut label = " ".to_string();
        label.push_str(emoji.as_str());
        label.push_str(" ");
        if count > 1 {
            crate::text::push_decimal(&mut label, count as u64);
            label.push_str(" ");
        }
        let pill = Style::new().fg(Color::White).bg(Color::Rgb(60, 60, 65));
        assert(label@ == pill_label(rv[i as int].0, rv[i as int].1));
        push_span(out, label, pill);
        i += 1;
        assert(spans_view(out@) =~= o0 + pills(rv.take(i as int)));
    }
    assert(rv.take(i as int) =~= rv);
}

/// A message's content spans; see `message_content`.
fn message_content_spans(m: &MessageData, st: PaneSettings, body: Vec<StyledSpan>) -> (r: Vec<StyledSpan>)
    ensures
        spans_view(r@) == message_content(m@, st, spans_view(body@)),
{
    let ghost b = spans_view(body@);
    let ghost mv = m@;
    let mut out = body;
    match &m.media_type {
        Some(t) => {
            if crate::events::str_eq(t.as_str(), "image") {
                push_span(&mut out, " [img]".to_string(), Style::new().fg(Color::Blue).add_modifier(BOLD));
            } else if crate::events::str_eq(t.as_str(), "video") {
                push_span(&mut out, " [video]".to_string(), Style::new().fg(Color::Blue).add_modifier(BOLD));
            }
        },
        None => {},
    }
    let ghost c1 = spans_view(out@);
    assert(c1 =~= b + media_marker(mv));
    if m.is_edited && !m.is_deleted {
        push_span(&mut out, " (edited)".to_string(), Style::new().fg(Color::DarkGray).add_modifier(ITALIC));
    }
    let ghost c2 = spans_view(out@);
    if m.reply_count > 0 {
        let mut t = " [".to_string();
        crate::text::push_decimal(&mut t, m.reply_count as u64);
        t.push_str(" replies]");
        push_span(&mut out, t, Style::new().fg(Color::Magenta).add_modifier(BOLD));
    }
    let ghost c3 = spans_view(out@);
    if st.show_reactions && m.reactions.len() > 0 {
        push_span(&mut out, "  ".to_string(), Style::new());
        push_pills(&mut out, &m.reactions);
    }
    assert(c2 =~= c1 + (if mv.is_edited && !mv.is_deleted {
        seq![(" (edited)"@, with_modifier(fg_style(Color::DarkGray), ITALIC))]
    } else {
        Seq::empty()
    }));
    assert(c3 =~= c2 + (if mv.reply_count > 0 {
        seq![(" ["@ + decimal(mv.reply_count as nat) + " replies]"@, bold(Color::Magenta))]
    } else {
        Seq::empty()
    }));
    assert(spans_view(out@) =~= message_content(mv, st, b));
    out
}

/// A message's text lines; see `message_text_lines`.
pub fn message_text_lines_of(
    m: &MessageData,
    idx: usize,
    st: PaneSettings,
    width: usize,
    nick_pad: usize,
    body: Vec<StyledSpan>,
    clock: &Option<String>,
    name_color: Color,
) -> (r: Vec<Vec<StyledSpan>>)
    requires
        idx < usize::MAX,
    ensures
        lines_view(r@) == message_text_lines(
            m@,
            idx as int,
            st,
            width,
            nick_pad as int,
            spans_view(body@),
            crate::text::option_view(*clock),
            name_color,
        ),
{
    let prefix = message_prefix_spans(m, idx, st, clock, name_color, nick_pad);
    let content = message_content_spans(m, st, body);
    let pw = span_columns(&prefix);
    let indent = spaces_string(pw);
    let iw = display_width(indent.as_str());
    let first: usize = if width > pw {
        width - pw
    } else {
        0
    };
    let rest: usize = if width > iw {
        width - iw
    } else {
        0
    };
    let mut w = wrap_spans_hanging(content.as_slice(), first, rest, indent.as_str());
    if w.len() == 0 {
        w.push(Vec::new());
        assert(spans_view(w@[0]@) =~= Seq::<SpanV>::empty());
        assert(lines_view(w@) =~= seq![Seq::<SpanV>::empty()]);
    }
    let ghost wv = lines_view(w@);
    let first_piece = w.remove(0);
    let ghost pv = spans_view(prefix@);
    assert(spans_view(first_piece@) == wv[0]);
    let mut first_line = prefix;
    let mut fp = first_piece;
    first_line.append(&mut fp);
    assert(spans_view(first_line@) =~= pv + wv[0]);
    let ghost fl = spans_view(first_line@);
    let ghost rest_v = lines_view(w@);
    assert(rest_v =~= wv.skip(1));
    let mut out: Vec<Vec<StyledSpan>> = Vec::new();
    out.push(first_line);
    assert(lines_view(out@) =~= seq![fl]);
    let ghost o1 = lines_view(out@);
    out.append(&mut w);
    assert(lines_view(out@) =~= o1 + rest_v);
    out
}


/// Rows kept free under a message for an inline image.
pub const IMAGE_PREVIEW_ROWS: usize = 16;

/// The background of code blocks.
pub open spec fn code_block_bg() -> Color {
    Color::Rgb(25, 25, 35)
}

/// Some span of the line has the code-block background.
pub open spec fn has_code_bg(line: Seq<SpanV>) -> bool {
    exists|i: int| 0 <= i < line.len() && (#[trigger] line[i]).1.bg == Some(code_block_bg())
}

/// A line with code in it, filled with code-block background to the width.
pub open spec fn pad_code_line(line: Seq<SpanV>, width: usize) -> Seq<SpanV> {
    if has_code_bg(line) && spans_width(line) < width {
        line.push((spaces_of((width - spans_width(line)) as nat), Style { bg: Some(code_block_bg()), ..plain() }))
    } else {
        line
    }
}

/// The style laid over a message that mentions the user.
pub open spec fn mention_style() -> Style {
    Style { fg: Some(Color::White), bg: Some(Color::Red), ..plain() }
}

/// A line of a message that mentions the user: every span in white on
/// red, filled to the width.
pub open spec fn highlight_line(line: Seq<SpanV>, width: usize) -> Seq<SpanV> {
    let hl = Seq::new(line.len(), |i: int| (line[i].0, patched(line[i].1, mention_style())));
    if spans_width(line) < width {
        hl.push((spaces_of((width - spans_width(line)) as nat), mention_style()))
    } else {
        hl
    }
}

/// The message has an inline image preview.
pub open spec fn shows_image(m: MessageV, st: PaneSettings) -> bool {
    st.show_image_preview && m.media_type == Some("image"@) && m.file_urls.len() > 0
}

/// The lines of a message before filling: its text lines, its cards, and
/// the rows kept for an image.
pub open spec fn raw_message_lines(text_lines: Seq<Seq<SpanV>>, cards: Seq<Seq<Seq<SpanV>>>, image: bool) -> Seq<Seq<SpanV>> {
    text_lines + crate::mrkdwn::concat_all(cards) + if image {
        Seq::new(IMAGE_PREVIEW_ROWS as nat, |i: int| Seq::<SpanV>::empty())
    } else {
        Seq::empty()
    }
}

/// Lines with code filled, then highlighted when the message mentions the user.
pub open spec fn finished_lines(raw: Seq<Seq<SpanV>>, width: usize, mentions_me: bool) -> Seq<Seq<SpanV>> {
    Seq::new(
        raw.len(),
        |i: int|
            if mentions_me {
                highlight_line(pad_code_line(raw[i], width), width)
            } else {
                pad_code_line(raw[i], width)
            },
    )
}

/// Fills one line; see `pad_code_line`.
fn pad_code(line: Vec<StyledSpan>, width: usize) -> (r: Vec<StyledSpan>)
    ensures
        spans_view(r@) == pad_code_line(spans_view(line@), width),
{
    let ghost lv = spans_view(line@);
    let mut found = false;
    let mut i: usize = 0;
    while i < line.len()
        invariant
            i <= line.len(),
            lv == spans_view(line@),
            found == (exists|j: int| 0 <= j < i && (#[trigger] lv[j]).1.bg == Some(code_block_bg())),
        decreases line.len() - i,
    {
        if line[i].style.bg == Some(Color::Rgb(25, 25, 35)) {
            found = true;
        }
        assert(lv[i as int].1.bg == line@[i as int].style.bg);
        i += 1;
    }
    let mut out = line;
    if found {
        let w = span_columns(&out);
        if w < width {
            push_span(&mut out, spaces_string(width - w), Style::new().bg(Color::Rgb(25, 25, 35)));
        }
    }
    out
}

/// Highlights one line; see `highlight_line`.
fn highlight(line: Vec<StyledSpan>, width: usize) -> (r: Vec<StyledSpan>)
    ensures
        spans_view(r@) == highlight_line(spans_view(line@), width),
{
    let ghost lv = spans_view(line@);
    let w = span_columns(&line);
    let red = Style::new().bg(Color::Red).fg(Color::White);
    assert(red == mention_style());
    let mut out: Vec<StyledSpan> = Vec::new();
    let mut rest = line;
    let ghost orig = rest@;
    let mut i: usize = 0;
    assert(orig.skip(0) =~= orig);
    assert(rest@.len() == rest.len());
    while rest.len() > 0
        invariant
            i + rest@.len() == orig.len(),
            orig.len() <= usize::MAX,
            rest@ == orig.skip(i as int),
            lv == spans_view(orig),
            red == mention_style(),
            spans_view(out@) == Seq::new(i as nat, |k: int| (lv[k].0, patched(lv[k].1, mention_style()))),
        decreases rest.len(),
    {
        let s = rest.remove(0);
        assert(s == orig[i as int]);
        let st = s.style.patch(red);
        push_span(&mut out, s.content, st);
        assert(rest@ =~= orig.skip(i + 1));
        i += 1;
        assert(spans_view(out@) =~= Seq::new(i as nat, |k: int| (lv[k].0, patched(lv[k].1, mention_style()))));
    }
    if w < width {
        push_span(&mut out, spaces_string(width - w), red);
    }
    out
}

/// Fills and highlights lines; see `finished_lines`.
fn finish_lines(raw: Vec<Vec<StyledSpan>>, width: usize, mentions_me: bool) -> (r: Vec<Vec<StyledSpan>>)
    ensures
        lines_view(r@) == finished_lines(lines_view(raw@), width, mentions_me),
{
    let ghost orig = raw@;
    let ghost rv = lines_view(orig);
    let mut out: Vec<Vec<StyledSpan>> = Vec::new();
    let mut rest = raw;
    let mut i: usize = 0;
    assert(orig.skip(0) =~= orig);
    assert(rest@.len() == rest.len());
    while rest.len() > 0
        invariant
            i + rest@.len() == orig.len(),
            orig.len() <= usize::MAX,
            rest@ == orig.skip(i as int),
            rv == lines_view(orig),
            lines_view(out@) == finished_lines(rv, width, mentions_me).take(i as int),
        decreases rest.len(),
    {
        let line = rest.remove(0);
        assert(line == orig[i as int]);
        let padded = pad_code(line, width);
        let done = if mentions_me {
            highlight(padded, width)
        } else {
            padded
        };
        let ghost dv = spans_view(done@);
        let ghost before = lines_view(out@);
        out.push(done);
        assert(lines_view(out@) =~= before.push(dv));
        assert(rest@ =~= orig.skip(i + 1));
        i += 1;
        assert(lines_view(out@) =~= finished_lines(rv, width, mentions_me).take(i as int));
    }
    assert(finished_lines(rv, width, mentions_me).take(i as int) =~= finished_lines(rv, width, mentions_me));
    out
}


/// What a message's lines are made from besides the message itself: the
/// spans formatted from its text, its clock time, the color of its
/// sender's name, and the lines of each of its cards.
pub struct MessageParts {
    pub body: Seq<SpanV>,
    pub clock: Option<Seq<char>>,
    pub name_color: Color,
    pub cards: Seq<Seq<Seq<SpanV>>>,
}

/// The lines a pane shows for one message.
pub open spec fn message_lines(m: MessageV, idx: int, st: PaneSettings, width: usize, nick_pad: int, p: MessageParts) -> Seq<Seq<SpanV>> {
    finished_lines(
        raw_message_lines(
            message_text_lines(m, idx, st, width, nick_pad, p.body, p.clock, p.name_color),
            p.cards,
            shows_image(m, st),
        ),
        width,
        m.mentions_me,
    )
}

/// Where a message's image rows start among its lines.
pub open spec fn image_offset(m: MessageV, idx: int, st: PaneSettings, width: usize, nick_pad: int, p: MessageParts) -> int {
    (message_text_lines(m, idx, st, width, nick_pad, p.body, p.clock, p.name_color) + crate::mrkdwn::concat_all(p.cards)).len() as int
}

/// The lines of each of a list of rendered cards.
pub open spec fn card_line_views(v: Seq<Vec<Vec<StyledSpan>>>) -> Seq<Seq<Seq<SpanV>>> {
    Seq::new(v.len(), |i: int| lines_view(v[i]@))
}

/// Appends lines.
fn append_lines(out: &mut Vec<Vec<StyledSpan>>, more: Vec<Vec<StyledSpan>>)
    ensures
        lines_view(final(out)@) == lines_view(old(out)@) + lines_view(more@),
{
    let mut m = more;
    let ghost mv = lines_view(m@);
    let ghost o0 = lines_view(out@);
    out.append(&mut m);
    assert(lines_view(out@) =~= o0 + mv);
}

/// The lines of one message, and where its image rows start; see
/// `message_lines` and `image_offset`.
pub fn message_lines_of(
    m: &MessageData,
    idx: usize,
    st: PaneSettings,
    width: usize,
    nick_pad: usize,
    body: Vec<StyledSpan>,
    clock: &Option<String>,
    name_color: Color,
    cards: Vec<Vec<Vec<StyledSpan>>>,
) -> (r: (Vec<Vec<StyledSpan>>, usize))
    requires
        idx < usize::MAX,
    ensures
        ({
            let p = MessageParts {
                body: spans_view(body@),
                clock: crate::text::option_view(*clock),
                name_color: name_color,
                cards: card_line_views(cards@),
            };
            &&& lines_view(r.0@) == message_lines(m@, idx as int, st, width, nick_pad as int, p)
            &&& r.1 == image_offset(m@, idx as int, st, width, nick_pad as int, p)
        }),
        r.1 <= r.0@.len(),
{
    let ghost cv = card_line_views(cards@);
    let mut raw = message_text_lines_of(m, idx, st, width, nick_pad, body, clock, name_color);
    let ghost tl = lines_view(raw@);
    let mut rest = cards;
    let ghost orig = rest@;
    let mut i: usize = 0;
    assert(orig.skip(0) =~= orig);
    assert(rest@.len() == rest.len());
    assert(cv.take(0) =~= Seq::<Seq<Seq<SpanV>>>::empty());
    assert(tl + crate::mrkdwn::concat_all(cv.take(0)) =~= tl);
    while rest.len() > 0
        invariant
            i + rest@.len() == orig.len(),
            orig.len() <= usize::MAX,
            rest@ == orig.skip(i as int),
            cv == card_line_views(orig),
            lines_view(raw@) == tl + crate::mrkdwn::concat_all(cv.take(i as int)),
        decreases rest.len(),
    {
        let c = rest.remove(0);
        assert(c == orig[i as int]);
        let ghost before = lines_view(raw@);
        append_lines(&mut raw, c);
        proof {
            assert(cv.take(i + 1) =~= cv.take(i as int).push(cv[i as int]));
            crate::mrkdwn::lemma_concat_push(cv.take(i as int), cv[i as int]);
        }
        assert(rest@ =~= orig.skip(i + 1));
        i += 1;
    }
    assert(cv.take(i as int) =~= cv);
    let offset = raw.len();
    let image = st.show_image_preview && match &m.media_type {
        Some(t) => crate::events::str_eq(t.as_str(), "image"),
        None => false,
    } && m.file_urls.len() > 0;
    let ghost before_img = lines_view(raw@);
    if image {
        let mut k: usize = 0;
        while k < IMAGE_PREVIEW_ROWS
            invariant
                k <= IMAGE_PREVIEW_ROWS,
                lines_view(raw@) == before_img + Seq::new(k as nat, |j: int| Seq::<SpanV>::empty()),
            decreases IMAGE_PREVIEW_ROWS - k,
        {
            let ghost b = lines_view(raw@);
            raw.push(Vec::new());
            assert(spans_view(raw@[raw@.len() - 1]@) =~= Seq::<SpanV>::empty());
            assert(lines_view(raw@) =~= b.push(Seq::<SpanV>::empty()));
            k += 1;
            assert(lines_view(raw@) =~= before_img + Seq::new(k as nat, |j: int| Seq::<SpanV>::empty()));
        }
    }
    assert(shows_image(m@, st) == image);
    assert(lines_view(raw@) =~= raw_message_lines(tl, cv, image));
    let ghost rl = raw@.len();
    assert(lines_view(raw@).len() == rl);
    let done = finish_lines(raw, width, m.mentions_me);
    assert(lines_view(done@).len() == done@.len());
    (done, offset)
}


/// The widest sender name among the messages (0 when there are none).
pub open spec fn max_name_width(ms: Seq<MessageV>) -> int
    decreases ms.len(),
{
    if ms.len() == 0 {
        0
    } else {
        let r = max_name_width(ms.drop_last());
        let w = str_width(ms.last().sender_name) as int;
        if w > r {
            w
        } else {
            r
        }
    }
}

/// `lines` are what `render_card` gives for the card with resolver `f`.
pub open spec fn card_rendered<F: Fn(&str) -> String>(
    f: &F,
    card: crate::widgets::CardV,
    width: usize,
    show_emojis: bool,
    lines: Seq<Seq<SpanV>>,
) -> bool {
    exists|pre: Seq<SpanV>, body: Seq<Seq<SpanV>>, foot: Seq<SpanV>|
        #[trigger] crate::ui::cards::card_formatted(f, card, show_emojis, pre, body, foot) && lines
            == crate::ui::cards::card_lines(card, width, pre, body, foot)
}

/// The parts of a message's lines are what the pane computes for it: the
/// text formatted with resolver `f`, a clock time only when timestamps
/// are shown and the timestamp has whole seconds (always one when those
/// seconds are in `clock_range`), the palette color of the sender name's
/// hash, and each card rendered.
pub open spec fn parts_ok<F: Fn(&str) -> String>(
    f: &F,
    m: MessageV,
    st: PaneSettings,
    width: usize,
    p: MessageParts,
) -> bool {
    &&& crate::ui::cards::formatted(f, m.text, st.show_emojis, p.body)
    &&& (!st.show_timestamps || crate::ui::chat_list::ts_seconds(m.ts) is None) ==> p.clock is None
    &&& p.clock matches Some(t) ==> crate::ui::chat_list::is_clock_time(t)
    &&& st.show_timestamps ==> match crate::ui::chat_list::ts_seconds(m.ts) {
        Some(secs) => crate::ui::chat_list::clock_range(secs) ==> p.clock is Some,
        None => true,
    }
    &&& p.name_color == crate::formatting::palette_color(crate::formatting::name_hash_of(m.sender_name))
    &&& p.cards.len() == m.cards.len()
    &&& forall|k: int| 0 <= k < p.cards.len() ==> #[trigger] card_rendered(f, m.cards[k], width, st.show_emojis, p.cards[k])
}

/// The name under an image preview: the first file's name, else `image`.
pub open spec fn image_name(m: MessageV) -> Seq<char> {
    if m.file_names.len() > 0 {
        m.file_names[0]
    } else {
        "image"@
    }
}

/// The lines of the first `k` messages of a pane and the image previews
/// among them (the line they start at, the image's URL and its name).
pub open spec fn pane_upto(
    ms: Seq<MessageV>,
    st: PaneSettings,
    width: usize,
    nick_pad: int,
    parts: Seq<MessageParts>,
    k: nat,
) -> (Seq<Seq<SpanV>>, Seq<(int, Seq<char>, Seq<char>)>)
    decreases k,
{
    if k == 0 {
        (Seq::empty(), Seq::empty())
    } else {
        let prev = pane_upto(ms, st, width, nick_pad, parts, (k - 1) as nat);
        let i = k - 1;
        let m = ms[i];
        let images = if shows_image(m, st) {
            prev.1.push(
                (prev.0.len() + image_offset(m, i, st, width, nick_pad, parts[i]), m.file_urls[0], image_name(m)),
            )
        } else {
            prev.1
        };
        (prev.0 + message_lines(m, i, st, width, nick_pad, parts[i]), images)
    }
}

/// An inline image to draw over the rows kept for it.
#[derive(Debug)]
pub struct ImagePlacement {
    /// The pane line the image's rows start at.
    pub line: usize,
    pub url: String,
    pub name: String,
}

/// The lines of a pane's messages and the images to draw over them.
#[derive(Debug)]
pub struct PaneLines {
    pub lines: Vec<Vec<StyledSpan>>,
    pub images: Vec<ImagePlacement>,
}

/// The placements as (line, URL, name).
pub open spec fn placements_view(v: Seq<ImagePlacement>) -> Seq<(int, Seq<char>, Seq<char>)> {
    Seq::new(v.len(), |i: int| (v[i].line as int, v[i].url@, v[i].name@))
}

/// The widest sender name; see `max_name_width`.
fn widest_name(msgs: &Vec<MessageData>) -> (r: usize)
    ensures
        r == max_name_width(crate::widgets::messages_view(msgs@)),
{
    let ghost mv = crate::widgets::messages_view(msgs@);
    let mut best: usize = 0;
    let mut i: usize = 0;
    while i < msgs.len()
        invariant
            i <= msgs.len(),
            mv == crate::widgets::messages_view(msgs@),
            best == max_name_width(mv.take(i as int)),
        decreases msgs.len() - i,
    {
        assert(mv.take(i + 1).drop_last() =~= mv.take(i as int));
        let w = display_width(msgs[i].sender_name.as_str());
        if w > best {
            best = w;
        }
        i += 1;
    }
    assert(mv.take(i as int) =~= mv);
    best
}

/// Renders each of a message's cards.
fn render_cards<F: Fn(&str) -> String>(
    m: &MessageData,
    width: usize,
    show_emojis: bool,
    resolve_user: &F,
) -> (r: Vec<Vec<Vec<StyledSpan>>>)
    requires
        forall|a: &str| call_requires(*resolve_user, (a,)),
        forall|k: int|
            0 <= k < m@.cards.len() ==> crate::ui::cards::card_color_ok(#[trigger] m@.cards[k]),
    ensures
        r@.len() == m@.cards.len(),
        forall|k: int| 0 <= k < r@.len() ==> #[trigger] card_rendered(resolve_user, m@.cards[k], width, show_emojis, lines_view(r@[k]@)),
{
    let mut out: Vec<Vec<Vec<StyledSpan>>> = Vec::new();
    let mut k: usize = 0;
    while k < m.cards.len()
        invariant
            k <= m.cards.len(),
            out@.len() == k,
            forall|a: &str| call_requires(*resolve_user, (a,)),
            forall|j: int|
                0 <= j < m@.cards.len() ==> crate::ui::cards::card_color_ok(#[trigger] m@.cards[j]),
            forall|j: int| 0 <= j < k ==> #[trigger] card_rendered(resolve_user, m@.cards[j], width, show_emojis, lines_view(out@[j]@)),
        decreases m.cards.len() - k,
    {
        assert(m.cards@[k as int]@ == m@.cards[k as int]);
        let lines = crate::ui::cards::render_card(&m.cards[k], width, show_emojis, resolve_user);
        out.push(lines);
        k += 1;
    }
    out
}

/// The lines a pane shows for its messages, `width` columns wide, and the
/// inline images to draw over them; see `pane_upto`. `resolve_user` names
/// the users the messages mention.
pub fn pane_message_lines<F: Fn(&str) -> String>(
    msgs: &Vec<MessageData>,
    st: PaneSettings,
    width: usize,
    resolve_user: &F,
) -> (r: PaneLines)
    requires
        forall|a: &str| call_requires(*resolve_user, (a,)),
        forall|i: int, k: int|
            0 <= i < msgs@.len() && 0 <= k < msgs@[i]@.cards.len() ==> crate::ui::cards::card_color_ok(#[trigger] msgs@[i]@.cards[k]),
    ensures
        exists|parts: Seq<MessageParts>|
            {
                &&& parts.len() == msgs@.len()
                &&& forall|i: int| 0 <= i < parts.len() ==> #[trigger] parts_ok(resolve_user, msgs@[i]@, st, width, parts[i])
                &&& (lines_view(r.lines@), placements_view(r.images@)) == pane_upto(
                    crate::widgets::messages_view(msgs@),
                    st,
                    width,
                    max_name_width(crate::widgets::messages_view(msgs@)),
                    parts,
                    msgs@.len(),
                )
            },
{
    let ghost mv = crate::widgets::messages_view(msgs@);
    let nick_pad = widest_name(msgs);
    let mut lines: Vec<Vec<StyledSpan>> = Vec::new();
    let mut images: Vec<ImagePlacement> = Vec::new();
    let ghost mut parts: Seq<MessageParts> = Seq::empty();
    let mut i: usize = 0;
    assert(lines_view(lines@) =~= Seq::<Seq<SpanV>>::empty());
    assert(placements_view(images@) =~= Seq::<(int, Seq<char>, Seq<char>)>::empty());
    while i < msgs.len()
        invariant
            i <= msgs.len(),
            mv == crate::widgets::messages_view(msgs@),
            nick_pad == max_name_width(mv),
            forall|a: &str| call_requires(*resolve_user, (a,)),
            forall|i: int, k: int|
                0 <= i < msgs@.len() && 0 <= k < msgs@[i]@.cards.len() ==> crate::ui::cards::card_color_ok(#[trigger] msgs@[i]@.cards[k]),
            parts.len() == i,
            forall|j: int| 0 <= j < i ==> #[trigger] parts_ok(resolve_user, msgs@[j]@, st, width, parts[j]),
            (lines_view(lines@), placements_view(images@)) == pane_upto(mv, st, width, nick_pad as int, parts, i as nat),
        decreases msgs.len() - i,
    {
        let m = &msgs[i];
        let body = crate::ui::cards::format_spans(m.text.as_str(), st.show_emojis, resolve_user);
        let clock = crate::ui::chat_list::message_clock(m.ts.as_str(), st.show_timestamps);
        let color = crate::formatting::username_color(m.sender_name.as_str());
        let cards = render_cards(m, width, st.show_emojis, resolve_user);
        let ghost p = MessageParts {
            body: spans_view(body@),
            clock: crate::text::option_view(clock),
            name_color: color,
            cards: card_line_views(cards@),
        };
        assert(parts_ok(resolve_user, m@, st, width, p));
        let ghost parts0 = parts;
        let ghost prev = pane_upto(mv, st, width, nick_pad as int, parts0, i as nat);
        proof {
            parts = parts.push(p);
            lemma_pane_upto_prefix(mv, st, width, nick_pad as int, parts0, parts, i as nat);
        }
        let base = lines.len();
        let (ml, offset) = message_lines_of(m, i, st, width, nick_pad, body, &clock, color, cards);
        let ghost lv0 = lines_view(lines@);
        let ghost ml_len = ml@.len();
        assert(lines_view(ml@).len() == ml_len);
        append_lines(&mut lines, ml);
        assert(lines_view(lines@).len() == lines@.len());
        assert(lines@.len() == base + ml_len);
        let image = st.show_image_preview && match &m.media_type {
            Some(t) => crate::events::str_eq(t.as_str(), "image"),
            None => false,
        } && m.file_urls.len() > 0;
        assert(image == shows_image(mv[i as int], st));
        if image {
            let name = if m.file_names.len() > 0 {
                crate::text::copy_string(&m.file_names[0])
            } else {
                "image".to_string()
            };
            assert(name@ == image_name(mv[i as int]));
            let ghost iv = placements_view(images@);
            assert(base as int + offset as int <= lines@.len());
            assert(lines@.len() == lines.len());
            images.push(ImagePlacement { line: base + offset, url: crate::text::copy_string(&m.file_urls[0]), name });
            assert(placements_view(images@) =~= iv.push(((base + offset) as int, mv[i as int].file_urls[0], image_name(mv[i as int]))));
        }
        i += 1;
    }
    lines_images(lines, images)
}

fn lines_images(lines: Vec<Vec<StyledSpan>>, images: Vec<ImagePlacement>) -> (r: PaneLines)
    ensures
        r.lines == lines,
        r.images == images,
{
    PaneLines { lines, images }
}

proof fn lemma_pane_upto_prefix(
    ms: Seq<MessageV>,
    st: PaneSettings,
    width: usize,
    nick_pad: int,
    parts: Seq<MessageParts>,
    more: Seq<MessageParts>,
    k: nat,
)
    requires
        k <= parts.len(),
        parts.len() <= more.len(),
        forall|j: int| 0 <= j < parts.len() ==> more[j] == parts[j],
    ensures
        pane_upto(ms, st, width, nick_pad, more, k) == pane_upto(ms, st, width, nick_pad, parts, k),
    decreases k,
{
    if k > 0 {
        lemma_pane_upto_prefix(ms, st, width, nick_pad, parts, more, (k - 1) as nat);
    }
}


/// Rows of a pane's header: two without borders or in compact mode, else three.
pub fn header_height(show_borders: bool, compact_mode: bool) -> (r: u16)
    ensures
        r == (if !show_borders || compact_mode {
            2u16
        } else {
            3u16
        }),
{
    if !show_borders || compact_mode {
        2
    } else {
        3
    }
}

/// The style of a pane's header: the focused pane's is bold, yellow while
/// the sidebar has the keys (it is the target of what is opened there) and
/// green otherwise; other panes' are cyan.
pub fn header_style(is_focused: bool, focus_on_chat_list: bool) -> (r: Style)
    ensures
        r == (if is_focused && focus_on_chat_list {
            bold(Color::Yellow)
        } else if is_focused {
            bold(Color::Green)
        } else {
            fg_style(Color::Cyan)
        }),
{
    if is_focused {
        if focus_on_chat_list {
            Style::new().fg(Color::Yellow).add_modifier(BOLD)
        } else {
            Style::new().fg(Color::Green).add_modifier(BOLD)
        }
    } else {
        Style::new().fg(Color::Cyan)
    }
}

/// A pane's header text, marked `[TARGET] ` while it is the focused pane
/// and the sidebar has the keys.
pub fn header_line(is_focused: bool, focus_on_chat_list: bool, header_text: &str) -> (r: String)
    ensures
        r@ == (if is_focused && focus_on_chat_list {
            "[TARGET] "@ + header_text@
        } else {
            header_text@
        }),
{
    let mut t = String::new();
    if is_focused && focus_on_chat_list {
        t.push_str("[TARGET] ");
    }
    t.push_str(header_text);
    t
}

/// The scroll position used for drawing: the pane's offset, but no further
/// than shows the last line at the bottom.
pub fn visible_scroll(scroll_offset: usize, total_lines: usize, height: usize) -> (r: usize)
    ensures
        r == (if scroll_offset < sat_sub(total_lines as int, height as int) {
            scroll_offset as int
        } else {
            sat_sub(total_lines as int, height as int)
        }),
        r <= scroll_offset,
{
    let max_scroll: usize = if total_lines > height {
        total_lines - height
    } else {
        0
    };
    if scroll_offset < max_scroll {
        scroll_offset
    } else {
        max_scroll
    }
}

/// The rows of the viewport an image starting at pane line `line` covers
/// when the view is scrolled by `scroll`: the first row and the number of
/// rows, or `None` when none of it is in view or the area is empty.
pub open spec fn image_rows(line: i32, scroll: i32, viewport_h: i32, width: u16) -> Option<(int, int)> {
    let top = line - scroll;
    let bottom = top + IMAGE_PREVIEW_ROWS;
    if bottom <= 0 || top >= viewport_h {
        None
    } else {
        let clip_top = if top > 0 {
            top
        } else {
            0
        };
        let clip_bottom = if bottom < viewport_h {
            bottom
        } else {
            viewport_h as int
        };
        if clip_bottom - clip_top == 0 || width == 0 {
            None
        } else {
            Some((clip_top, clip_bottom - clip_top))
        }
    }
}

/// Where an inline image is drawn in the viewport; see `image_rows`.
pub fn image_clip(line: usize, scroll: usize, viewport_h: u16, width: u16) -> (r: Option<(u16, u16)>)
    requires
        i32::MIN <= (line as i32) - (scroll as i32),
        (line as i32) - (scroll as i32) + IMAGE_PREVIEW_ROWS <= i32::MAX,
    ensures
        r matches Some(v) ==> image_rows(line as i32, scroll as i32, viewport_h as i32, width) == Some((v.0 as int, v.1 as int)),
        r is None ==> image_rows(line as i32, scroll as i32, viewport_h as i32, width) is None,
{
    let vh = viewport_h as i32;
    let top: i32 = line as i32 - scroll as i32;
    let bottom: i32 = top + 16;
    if bottom <= 0 || top >= vh {
        return None;
    }
    let clip_top: i32 = if top > 0 {
        top
    } else {
        0
    };
    let clip_bottom: i32 = if bottom < vh {
        bottom
    } else {
        vh
    };
    let h = clip_bottom - clip_top;
    if h == 0 || width == 0 {
        return None;
    }
    Some((clip_top as u16, h as u16))
}

/// How far the compose box scrolls so that the cursor's line is its last
/// visible one.
pub fn input_scroll(cursor_line: usize, inner_height: u16) -> (r: usize)
    ensures
        r == (if inner_height > 0 {
            sat_sub(cursor_line as int, inner_height - 1)
        } else {
            0
        }),
{
    if inner_height > 0 {
        let h = (inner_height - 1) as usize;
        if cursor_line > h {
            cursor_line - h
        } else {
            0
        }
    } else {
        0
    }
}

} // verus!
