//! Text styles and styled spans: the colors and emphasis a terminal renderer
//! applies to pieces of text.
use vstd::prelude::*;

verus! {

/// A terminal color.
#[derive(Clone, Copy, PartialEq, Eq, Structural, Debug)]
pub enum Color {
    Reset,
    Black,
    Red,
    Green,
    Yellow,
    Blue,
    Magenta,
    Cyan,
    Gray,
    DarkGray,
    LightRed,
    LightGreen,
    LightYellow,
    LightBlue,
    LightMagenta,
    LightCyan,
    White,
    Rgb(u8, u8, u8),
    Indexed(u8),
}

/// Emphasis bits.
pub const BOLD: u16 = 1;
pub const DIM: u16 = 2;
pub const ITALIC: u16 = 4;
pub const UNDERLINED: u16 = 8;
pub const CROSSED_OUT: u16 = 256;

/// Foreground and background colors plus the emphasis a style adds and
/// removes.
#[derive(Clone, Copy, PartialEq, Eq, Structural, Debug)]
pub struct Style {
    pub fg: Option<Color>,
    pub bg: Option<Color>,
    pub underline_color: Option<Color>,
    pub add_modifier: u16,
    pub sub_modifier: u16,
}

/// The first option if present, else the second.
pub open spec fn or_else(a: Option<Color>, b: Option<Color>) -> Option<Color> {
    match a {
        Some(x) => Some(x),
        None => b,
    }
}

/// The empty style.
pub open spec fn plain() -> Style {
    Style { fg: None, bg: None, underline_color: None, add_modifier: 0, sub_modifier: 0 }
}

/// `a` overlaid by `b`: `b`'s colors win where set, `b`'s removed emphasis
/// is dropped from `a`'s and `b`'s added emphasis is added.
pub open spec fn patched(a: Style, b: Style) -> Style {
    Style {
        fg: or_else(b.fg, a.fg),
        bg: or_else(b.bg, a.bg),
        underline_color: or_else(b.underline_color, a.underline_color),
        add_modifier: (a.add_modifier & !b.sub_modifier) | b.add_modifier,
        sub_modifier: (a.sub_modifier & !b.add_modifier) | b.sub_modifier,
    }
}

/// `a` with emphasis `m` added.
pub open spec fn with_modifier(a: Style, m: u16) -> Style {
    Style { add_modifier: a.add_modifier | m, sub_modifier: a.sub_modifier & !m, ..a }
}

impl Style {
    /// The empty style.
    pub fn new() -> (s: Style)
        ensures
            s == plain(),
    {
        Style { fg: None, bg: None, underline_color: None, add_modifier: 0, sub_modifier: 0 }
    }

    /// This style with foreground `c`.
    pub fn fg(self, c: Color) -> (s: Style)
        ensures
            s == (Style { fg: Some(c), ..self }),
    {
        Style { fg: Some(c), ..self }
    }

    /// This style with background `c`.
    pub fn bg(self, c: Color) -> (s: Style)
        ensures
            s == (Style { bg: Some(c), ..self }),
    {
        Style { bg: Some(c), ..self }
    }

    /// This style with emphasis `m` added.
    pub fn add_modifier(self, m: u16) -> (s: Style)
        ensures
            s == with_modifier(self, m),
    {
        Style { add_modifier: self.add_modifier | m, sub_modifier: self.sub_modifier & !m, ..self }
    }

    /// This style overlaid by `other`.
    pub fn patch(self, other: Style) -> (s: Style)
        ensures
            s == patched(self, other),
    {
        Style {
            fg: match other.fg {
                Some(c) => Some(c),
                None => self.fg,
            },
            bg: match other.bg {
                Some(c) => Some(c),
                None => self.bg,
            },
            underline_color: match other.underline_color {
                Some(c) => Some(c),
                None => self.underline_color,
            },
            add_modifier: (self.add_modifier & !other.sub_modifier) | other.add_modifier,
            sub_modifier: (self.sub_modifier & !other.add_modifier) | other.sub_modifier,
        }
    }
}

/// Overlaying the empty style changes nothing.
pub proof fn lemma_patch_plain(a: Style)
    ensures
        patched(a, plain()) == a,
{
    let x = a.add_modifier;
    let y = a.sub_modifier;
    assert((x & !0u16) | 0u16 == x) by (bit_vector);
    assert((y & !0u16) | 0u16 == y) by (bit_vector);
}

/// A piece of text with one style.
#[derive(Debug)]
pub struct StyledSpan {
    pub content: String,
    pub style: Style,
}

/// The text and style of a span.
pub open spec fn span_view(s: StyledSpan) -> (Seq<char>, Style) {
    (s.content@, s.style)
}

/// The texts and styles of a sequence of spans.
pub open spec fn spans_view(v: Seq<StyledSpan>) -> Seq<(Seq<char>, Style)> {
    Seq::new(v.len(), |i: int| span_view(v[i]))
}

impl StyledSpan {
    /// A span of `content` in `style`.
    pub fn styled(content: String, style: Style) -> (s: StyledSpan)
        ensures
            s.content@ == content@,
            s.style == style,
    {
        StyledSpan { content, style }
    }

    /// A span of `content` in the empty style.
    pub fn raw(content: String) -> (s: StyledSpan)
        ensures
            s.content@ == content@,
            s.style == plain(),
    {
        StyledSpan { content, style: Style::new() }
    }
}

} // verus!
