//! Character classes and display widths that come from the standard library
//! and from the `unicode-width` crate.
use vstd::prelude::*;

verus! {

/// Whether `c` has the Unicode `Alphabetic` or `Numeric` property.
pub uninterp spec fn is_unicode_alphanumeric(c: char) -> bool;

/// Whether `c` has the Unicode `White_Space` property: tab to carriage
/// return, space, next line, no-break space, ogham space mark, en quad to
/// hair space, line and paragraph separators, narrow no-break space,
/// medium mathematical space and ideographic space (25 code points).
pub open spec fn is_unicode_whitespace(c: char) -> bool {
    let u = c as u32;
    ||| 0x09 <= u <= 0x0d
    ||| u == 0x20
    ||| u == 0x85
    ||| u == 0xa0
    ||| u == 0x1680
    ||| 0x2000 <= u <= 0x200a
    ||| u == 0x2028
    ||| u == 0x2029
    ||| u == 0x202f
    ||| u == 0x205f
    ||| u == 0x3000
}

/// ASCII letters and digits.
pub open spec fn is_ascii_alnum(c: char) -> bool {
    ('a' <= c && c <= 'z') || ('A' <= c && c <= 'Z') || ('0' <= c && c <= '9')
}

/// ASCII whitespace in the Unicode sense: tab, line feed, vertical tab,
/// form feed, carriage return and space.
pub open spec fn is_ascii_space(c: char) -> bool {
    ('\t' <= c && c <= '\r') || c == ' '
}

/// `char::is_alphanumeric`: the std documentation defines it as
/// "alphabetic or numeric"; among ASCII characters exactly the letters and
/// digits qualify. Nothing more is stated for other characters.
pub assume_specification[ char::is_alphanumeric ](c: char) -> (b: bool)
    ensures
        b == is_unicode_alphanumeric(c),
        (c as u32) < 128 ==> (b == is_ascii_alnum(c)),
;

/// `char::is_whitespace`: the std documentation defines it as the Unicode
/// `White_Space` property (PropList.txt), stated in full in
/// `is_unicode_whitespace`; among ASCII characters exactly tab through
/// carriage return and space qualify.
pub assume_specification[ char::is_whitespace ](c: char) -> (b: bool)
    ensures
        b == is_unicode_whitespace(c),
        (c as u32) < 128 ==> (b == is_ascii_space(c)),
;

/// Unicode control codes (general category Cc): U+0000 to U+001F and
/// U+007F to U+009F.
pub open spec fn is_control_code(c: char) -> bool {
    (c as u32) <= 0x1f || (0x7f <= (c as u32) && (c as u32) <= 0x9f)
}

/// Whether `c` is a control code, as `char::is_control` decides it: std
/// defines it as the general category Cc, which is exactly these two
/// ranges.
pub fn is_control(c: char) -> (b: bool)
    ensures
        b == is_control_code(c),
{
    let u = c as u32;
    u <= 0x1f || (0x7f <= u && u <= 0x9f)
}

/// What `str::to_lowercase` returns for a string.
pub uninterp spec fn lowercase(s: Seq<char>) -> Seq<char>;

/// ASCII upper-case letters made lower-case; everything else kept.
pub open spec fn ascii_lowercase(s: Seq<char>) -> Seq<char> {
    Seq::new(s.len(), |i: int| if 'A' <= s[i] <= 'Z' { ((s[i] as u32) + 32) as char } else { s[i] })
}

/// Calls `str::to_lowercase`, which maps each character by the Unicode
/// lowercase mapping; for text made only of ASCII characters that turns
/// `A`-`Z` into `a`-`z` and keeps the rest. Other text is left to the name.
#[verifier::external_body]
pub(crate) fn to_lowercase(s: &str) -> (r: String)
    ensures
        r@ == lowercase(s@),
        (forall|i: int| 0 <= i < s@.len() ==> (#[trigger] s@[i] as u32) < 128) ==> r@ == ascii_lowercase(s@),
{
    s.to_lowercase()
}

} // verus!
