//! The frame around the panes: the sidebar's width and the status lines
//! at the bottom.
use vstd::prelude::*;
use crate::models::{ChatInfo, ChatSection, ChatV, chats_view};
use crate::text::{decimal, utf8_len, join};
use crate::events::counts_view;

verus! {

/// The mention counts of workspaces other than `current` that have
/// mentions, in order.
pub open spec fn other_mentions(v: Seq<(Seq<char>, u32)>, current: Seq<char>) -> Seq<(Seq<char>, u32)>
    decreases v.len(),
{
    if v.len() == 0 {
        Seq::empty()
    } else {
        let r = other_mentions(v.drop_last(), current);
        let l = v.last();
        if l.0 != current && l.1 > 0 {
            r.push(l)
        } else {
            r
        }
    }
}

/// The workspaces other than `current` with mentions; see `other_mentions`.
pub fn other_workspace_mentions(counts: &Vec<(String, u32)>, current: &str) -> (r: Vec<(String, u32)>)
    ensures
        counts_view(r@) == other_mentions(counts_view(counts@), current@),
{
    let ghost cv = counts_view(counts@);
    let mut out: Vec<(String, u32)> = Vec::new();
    let mut i: usize = 0;
    assert(counts_view(out@) =~= other_mentions(cv.take(0), current@));
    while i < counts.len()
        invariant
            i <= counts.len(),
            cv == counts_view(counts@),
            counts_view(out@) == other_mentions(cv.take(i as int), current@),
        decreases counts.len() - i,
    {
        assert(cv.take(i + 1).drop_last() =~= cv.take(i as int));
        let ghost before = counts_view(out@);
        if !crate::events::str_eq(counts[i].0.as_str(), current) && counts[i].1 > 0 {
            out.push((crate::text::copy_string(&counts[i].0), counts[i].1));
            assert(counts_view(out@) =~= before.push(cv[i as int]));
        }
        i += 1;
    }
    assert(cv.take(i as int) =~= cv);
    out
}

/// One entry of the mentions line: `name: count@`.
pub open spec fn mention_entry(e: (Seq<char>, u32)) -> Seq<char> {
    e.0 + ": "@ + decimal(e.1 as nat) + "@"@
}

/// The line announcing mentions in other workspaces.
pub open spec fn mentions_banner_text(v: Seq<(Seq<char>, u32)>) -> Seq<char> {
    " Mentions in other workspaces: "@ + join(Seq::new(v.len(), |i: int| mention_entry(v[i])), " | "@)
        + " (Ctrl+N to switch)"@
}

/// The line announcing mentions in other workspaces; see `mentions_banner_text`.
pub fn mentions_banner(v: &Vec<(String, u32)>) -> (r: String)
    ensures
        r@ == mentions_banner_text(counts_view(v@)),
{
    let ghost cv = counts_view(v@);
    let mut parts: Vec<String> = Vec::new();
    let mut i: usize = 0;
    while i < v.len()
        invariant
            i <= v.len(),
            cv == counts_view(v@),
            crate::formatting::views(parts@) == Seq::new(i as nat, |j: int| mention_entry(cv[j])),
        decreases v.len() - i,
    {
        let mut t = crate::text::copy_string(&v[i].0);
        t.push_str(": ");
        crate::text::push_decimal(&mut t, v[i].1 as u64);
        t.push_str("@");
        assert(t@ =~= mention_entry(cv[i as int]));
        let ghost before = crate::formatting::views(parts@);
        let ghost tv = t@;
        parts.push(t);
        assert(crate::formatting::views(parts@) =~= before.push(tv));
        i += 1;
        assert(crate::formatting::views(parts@) =~= Seq::new(i as nat, |j: int| mention_entry(cv[j])));
    }
    assert(Seq::new(i as nat, |j: int| mention_entry(cv[j])) =~= Seq::new(cv.len(), |j: int| mention_entry(cv[j])));
    let mut r = " Mentions in other workspaces: ".to_string();
    r.push_str(crate::text::join_strings(&parts, " | ").as_str());
    r.push_str(" (Ctrl+N to switch)");
    r
}

/// Bytes of the icon the sidebar puts before a chat of the section: `# `
/// for public channels, an emoji and a space otherwise.
pub open spec fn section_icon_bytes(s: ChatSection) -> int {
    match s {
        ChatSection::Public => 2,
        _ => 5,
    }
}

/// Bytes of a chat's sidebar entry: `(unread) ` when it has unread
/// messages, its icon and its name.
pub open spec fn sidebar_entry_bytes(c: ChatV) -> int {
    (if c.unread > 0 {
        decimal(c.unread as nat).len() + 3
    } else {
        0
    }) + section_icon_bytes(c.section) + utf8_len(c.name)
}

/// The longest sidebar entry, if there are chats.
pub open spec fn widest_entry(cs: Seq<ChatV>) -> Option<int>
    decreases cs.len(),
{
    if cs.len() == 0 {
        None
    } else {
        let w = sidebar_entry_bytes(cs.last());
        match widest_entry(cs.drop_last()) {
            Some(r) => Some(if w > r {
                w
            } else {
                r
            }),
            None => Some(w),
        }
    }
}

/// The sidebar width when none was chosen: the longest entry plus six,
/// between 15 and 40 (20 plus six when there are no chats).
pub open spec fn auto_sidebar_width(cs: Seq<ChatV>) -> int {
    let m = match widest_entry(cs) {
        Some(w) => w,
        None => 20,
    };
    let a = if m + 6 < 40 {
        m + 6
    } else {
        40
    };
    if a < 15 {
        15
    } else {
        a
    }
}

/// A chosen sidebar width, kept between 10 and what leaves the panes 20
/// columns (never below 10).
pub open spec fn chosen_sidebar_width(w: u16, total: u16) -> int {
    let max_w = if total > 30 {
        total - 20
    } else {
        10
    };
    if w < 10 {
        10
    } else if w > max_w {
        max_w
    } else {
        w as int
    }
}

/// Every chat's name is short enough for the entry length to be counted.
pub open spec fn names_measurable(cs: Seq<ChatV>) -> bool {
    forall|i: int| 0 <= i < cs.len() ==> utf8_len(#[trigger] cs[i].name) + 40 <= usize::MAX
}

/// The bytes of a chat's sidebar entry; see `sidebar_entry_bytes`.
fn entry_bytes(c: &ChatInfo) -> (r: usize)
    requires
        utf8_len(c.name@) + 40 <= usize::MAX,
    ensures
        r == sidebar_entry_bytes(c@),
{
    let prefix: usize = if c.unread > 0 {
        let mut t = String::new();
        crate::text::push_decimal(&mut t, c.unread as u64);
        let digits = crate::text::chars_of(t.as_str());
        proof {
            lemma_decimal_u32_len(c.unread as nat);
        }
        digits.len() + 3
    } else {
        0
    };
    let icon: usize = match c.section {
        ChatSection::Public => 2,
        _ => 5,
    };
    let name = crate::text::chars_of(c.name.as_str());
    let n = crate::input::utf8_len_exec(&name);
    prefix + icon + n
}

/// `10` to the power `d`.
spec fn ten_pow(d: nat) -> nat
    decreases d,
{
    if d == 0 {
        1
    } else {
        10 * ten_pow((d - 1) as nat)
    }
}

proof fn lemma_decimal_u32_len(n: nat)
    requires
        n <= u32::MAX,
    ensures
        decimal(n).len() <= 10,
{
    reveal_with_fuel(ten_pow, 11);
    assert(ten_pow(10) == 10000000000nat);
    lemma_decimal_len(n, 10);
}

proof fn lemma_decimal_len(n: nat, d: nat)
    requires
        n < ten_pow(d),
        d >= 1,
    ensures
        decimal(n).len() <= d,
    decreases d,
{
    if n >= 10 {
        let d1 = (d - 1) as nat;
        assert(d > 1) by {
            if d == 1 {
                assert(ten_pow(1) == 10 * ten_pow(0));
            }
        }
        let p = ten_pow(d1);
        assert(n < 10 * p);
        assert(n / 10 < p) by (nonlinear_arith)
            requires
                n < 10 * p,
        ;
        lemma_decimal_len(n / 10, d1);
    }
}

/// The sidebar width: the chosen width kept in range, or else one fitted
/// to the longest entry; see `chosen_sidebar_width` and
/// `auto_sidebar_width`.
pub fn sidebar_width(chosen: Option<u16>, total_width: u16, chats: &Vec<ChatInfo>) -> (r: u16)
    requires
        names_measurable(chats_view(chats@)),
    ensures
        r == match chosen {
            Some(w) => chosen_sidebar_width(w, total_width),
            None => auto_sidebar_width(chats_view(chats@)),
        },
{
    match chosen {
        Some(w) => {
            let max_w: u16 = if total_width > 30 {
                total_width - 20
            } else {
                10
            };
            if w < 10 {
                10
            } else if w > max_w {
                max_w
            } else {
                w
            }
        },
        None => {
            let ghost cv = chats_view(chats@);
            let mut widest: Option<usize> = None;
            let mut i: usize = 0;
            while i < chats.len()
                invariant
                    i <= chats.len(),
                    cv == chats_view(chats@),
                    names_measurable(cv),
                    (match widest {
                        Some(w) => Some(w as int),
                        None => None,
                    }) == widest_entry(cv.take(i as int)),
                decreases chats.len() - i,
            {
                assert(cv.take(i + 1).drop_last() =~= cv.take(i as int));
                assert(cv[i as int] == chats@[i as int]@);
                assert(utf8_len(cv[i as int].name) + 40 <= usize::MAX);
                let w = entry_bytes(&chats[i]);
                widest = match widest {
                    Some(r) => Some(if w > r {
                        w
                    } else {
                        r
                    }),
                    None => Some(w),
                };
                i += 1;
            }
            assert(cv.take(i as int) =~= cv);
            let m: usize = match widest {
                Some(w) => w,
                None => 20,
            };
            let a: usize = if m < 34 {
                m + 6
            } else {
                40
            };
            let b: usize = if a < 15 {
                15
            } else {
                a
            };
            b as u16
        },
    }
}

/// The realtime connection line: `RT ok` or, after 30 seconds without an
/// event, `RT stale`, with the seconds since the last event; `RT —` before
/// any.
pub open spec fn realtime_status_text(age_secs: Option<u64>) -> Seq<char> {
    match age_secs {
        Some(a) => " RT "@ + (if a >= 30 {
            "stale"@
        } else {
            "ok"@
        }) + " "@ + decimal(a as nat) + "s"@,
        None => " RT —"@,
    }
}

/// The realtime connection line; see `realtime_status_text`.
pub fn realtime_status(age_secs: Option<u64>) -> (r: String)
    ensures
        r@ == realtime_status_text(age_secs),
{
    match age_secs {
        Some(a) => {
            let mut t = " RT ".to_string();
            if a >= 30 {
                t.push_str("stale");
            } else {
                t.push_str("ok");
            }
            t.push_str(" ");
            crate::text::push_decimal(&mut t, a);
            t.push_str("s");
            t
        },
        None => " RT —".to_string(),
    }
}

} // verus!
