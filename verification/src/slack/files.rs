//! Finding the real download URL of a Slack file in the HTML page Slack
//! serves instead of the file.
use vstd::prelude::*;
use crate::text::{
    chars_of, find, find_from, find_seq, lemma_find_from, matches_at, matches_at_exec, contains, starts_with,
    replace_all, replace_all_exec, string_of, index_of, lemma_index_of_from, find_char,
    last_index_before, lemma_last_index_before, rfind_char_before, utf8_len, utf8_width_exec,
};
use crate::input::{byte_pos, is_boundary, char_at_byte, fits, byte_of_char_index, char_index_of_byte, utf8_len_exec, lemma_char_at_byte, lemma_byte_pos_bound};
use crate::mrkdwn::subvec;

verus! {

/// The characters that end a URL in the JSON of the file page.
pub open spec fn json_delim(c: char) -> bool {
    c == '"' || c == ',' || c == '}'
}

/// The characters that end a URL in HTML or script text.
pub open spec fn html_delim(c: char) -> bool {
    c == '"' || c == '\'' || c == ' ' || c == '>' || c == '<' || c == ')' || c == ';' || c == ',' || c == '}'
        || c == ']' || c == '\n' || c == '\r'
}

/// The characters that end a plain URL.
pub open spec fn plain_delim(c: char) -> bool {
    c == '"' || c == '\'' || c == ' ' || c == '>' || c == '<' || c == ')' || c == ';'
}

/// The first position at or after `i` holding a delimiter of kind `kind`
/// (0: JSON, 1: HTML, 2: plain), or the end.
pub open spec fn delim_from(s: Seq<char>, kind: int, i: int) -> int
    decreases s.len() - i,
{
    if i < 0 || i >= s.len() {
        s.len() as int
    } else if (kind == 0 && json_delim(s[i])) || (kind == 1 && html_delim(s[i])) || (kind == 2 && plain_delim(s[i])) {
        i
    } else {
        delim_from(s, kind, i + 1)
    }
}

/// A URL end moved back before a trailing `&quot;` or `&amp;` that starts
/// at the last `&` before it.
pub open spec fn before_entity(part: Seq<char>, end: int) -> int {
    match last_index_before(part, '&', end) {
        Some(a) => if starts_with(part.skip(a), "&quot;"@) || starts_with(part.skip(a), "&amp;"@) {
            a
        } else {
            end
        },
        None => end,
    }
}

/// `s` with escaped `\/`, `\"` and `\'` turned back into `/`, `"` and `'`.
pub open spec fn unescaped(s: Seq<char>) -> Seq<char> {
    replace_all(replace_all(replace_all(s, "\\/"@, "/"@), "\\\""@, "\""@), "\\'"@, "'"@)
}

/// `s` with every trailing copy of `p` removed.
pub open spec fn strip_suffixes(s: Seq<char>, p: Seq<char>) -> Seq<char>
    decreases s.len(),
{
    if p.len() > 0 && s.len() >= p.len() && s.skip(s.len() - p.len()) == p {
        strip_suffixes(s.take(s.len() - p.len()), p)
    } else {
        s
    }
}

/// `s` without trailing `&quot;`, then `&amp;`, then `"`, then `'`.
pub open spec fn cleaned(s: Seq<char>) -> Seq<char> {
    strip_suffixes(strip_suffixes(strip_suffixes(strip_suffixes(s, "&quot;"@), "&amp;"@), "\""@), "'"@)
}

/// A URL on the file host that is not a tracking URL.
pub open spec fn untracked(url: Seq<char>) -> bool {
    !contains(url, "/beacon/"@) && !contains(url, "/tracking/"@)
}

/// A file-host URL good to download from.
pub open spec fn good_file_url(url: Seq<char>) -> bool {
    starts_with(url, "https://files.slack.com"@) && untracked(url)
}

/// The JSON-escaped file-host prefix.
pub open spec fn escaped_files() -> Seq<char> {
    "https:\\/\\/files.slack.com"@
}

/// The URL that starts `part`, ending at a delimiter of `kind`, before a
/// trailing entity, unescaped and cleaned.
pub open spec fn escaped_url(part: Seq<char>, kind: int) -> Seq<char> {
    let end = delim_from(part, kind, 0);
    cleaned(unescaped(part.take(before_entity(part, end))))
}

/// First attempt: an escaped file URL after the page's `"entryPoint"`.
pub open spec fn from_entry_point(h: Seq<char>) -> Option<Seq<char>> {
    match find(h, "\"entryPoint\""@) {
        None => None,
        Some(e) => {
            let after = h.skip(e);
            match find(after, escaped_files()) {
                None => None,
                Some(u) => {
                    let url = escaped_url(after.skip(u), 0);
                    if good_file_url(url) {
                        Some(url)
                    } else {
                        None
                    }
                },
            }
        },
    }
}

/// Second attempt: the first escaped file URL anywhere.
pub open spec fn from_escaped(h: Seq<char>) -> Option<Seq<char>> {
    match find(h, escaped_files()) {
        None => None,
        Some(s) => {
            let url = escaped_url(h.skip(s), 1);
            if good_file_url(url) {
                Some(url)
            } else {
                None
            }
        },
    }
}

fn is_delim(c: char, kind: u8) -> (r: bool)
    ensures
        r == ((kind == 0 && json_delim(c)) || (kind == 1 && html_delim(c)) || (kind == 2 && plain_delim(c))),
{
    if kind == 0 {
        c == '"' || c == ',' || c == '}'
    } else if kind == 1 {
        c == '"' || c == '\'' || c == ' ' || c == '>' || c == '<' || c == ')' || c == ';' || c == ',' || c == '}'
            || c == ']' || c == '\n' || c == '\r'
    } else if kind == 2 {
        c == '"' || c == '\'' || c == ' ' || c == '>' || c == '<' || c == ')' || c == ';'
    } else {
        false
    }
}

fn delim_exec(v: &Vec<char>, kind: u8) -> (r: usize)
    ensures
        r == delim_from(v@, kind as int, 0),
        r <= v.len(),
{
    let mut i: usize = 0;
    while i < v.len()
        invariant
            i <= v.len(),
            delim_from(v@, kind as int, i as int) == delim_from(v@, kind as int, 0),
        decreases v.len() - i,
    {
        if is_delim(v[i], kind) {
            return i;
        }
        i += 1;
    }
    v.len()
}

fn lit(s: &str) -> (r: Vec<char>)
    ensures
        r@ == s@,
{
    chars_of(s)
}

fn before_entity_exec(part: &Vec<char>, end: usize) -> (r: usize)
    requires
        end <= part.len(),
    ensures
        r == before_entity(part@, end as int),
        r <= end,
{
    proof {
        lemma_last_index_before(part@, '&', end as int);
    }
    match rfind_char_before(part, '&', end) {
        Some(a) => {
            let tail = subvec(part, a, part.len());
            assert(tail@ =~= part@.skip(a as int));
            if matches_at_exec(&tail, &lit("&quot;"), 0) || matches_at_exec(&tail, &lit("&amp;"), 0) {
                a
            } else {
                end
            }
        },
        None => end,
    }
}

fn strip_suffixes_exec(v: Vec<char>, p: &Vec<char>) -> (r: Vec<char>)
    ensures
        r@ == strip_suffixes(v@, p@),
{
    let ghost v0 = v@;
    let mut s = v;
    let mut done = false;
    while !done
        invariant
            strip_suffixes(s@, p@) == strip_suffixes(v0, p@),
            done ==> strip_suffixes(s@, p@) == s@,
        decreases s.len() + (if done { 0int } else { 1int }),
    {
        if p.len() > 0 && s.len() >= p.len() && matches_at_exec(&s, p, s.len() - p.len()) {
            assert(s@.subrange(s.len() - p.len(), s.len() - p.len() + p.len()) =~= s@.skip(s.len() - p.len()));
            s = subvec(&s, 0, s.len() - p.len());
        } else {
            proof {
                if p.len() > 0 && s.len() >= p.len() && s@.skip(s.len() - p.len()) == p@ {
                    assert(s@.subrange(s.len() - p.len(), s.len() - p.len() + p.len()) =~= s@.skip(s.len() - p.len()));
                    assert(matches_at(s@, p@, s.len() - p.len()));
                }
            }
            done = true;
        }
    }
    s
}

fn cleaned_exec(v: Vec<char>) -> (r: Vec<char>)
    ensures
        r@ == cleaned(v@),
{
    let a = strip_suffixes_exec(v, &lit("&quot;"));
    let b = strip_suffixes_exec(a, &lit("&amp;"));
    let c = strip_suffixes_exec(b, &lit("\""));
    strip_suffixes_exec(c, &lit("'"))
}

fn unescaped_exec(v: &Vec<char>) -> (r: Vec<char>)
    ensures
        r@ == unescaped(v@),
{
    let a = replace_all_exec(v, &lit("\\/"), &lit("/"));
    let b = replace_all_exec(&a, &lit("\\\""), &lit("\""));
    replace_all_exec(&b, &lit("\\'"), &lit("'"))
}

fn escaped_url_exec(part: &Vec<char>, kind: u8) -> (r: Vec<char>)
    ensures
        r@ == escaped_url(part@, kind as int),
{
    let end = delim_exec(part, kind);
    let end = before_entity_exec(part, end);
    let head = subvec(part, 0, end);
    assert(head@ =~= part@.take(end as int));
    cleaned_exec(unescaped_exec(&head))
}

fn contains_exec(v: &Vec<char>, p: &str) -> (r: bool)
    ensures
        r == contains(v@, p@),
{
    find_seq(v, 0, &lit(p)).is_some()
}

fn starts_with_exec(v: &Vec<char>, p: &str) -> (r: bool)
    ensures
        r == starts_with(v@, p@),
{
    matches_at_exec(v, &lit(p), 0)
}

fn good_file_url_exec(v: &Vec<char>) -> (r: bool)
    ensures
        r == good_file_url(v@),
{
    starts_with_exec(v, "https://files.slack.com") && !contains_exec(v, "/beacon/") && !contains_exec(v, "/tracking/")
}

fn find_in(v: &Vec<char>, from: usize, p: &str) -> (r: Option<usize>)
    ensures
        r == (match find_from(v@, p@, from as int) {
            Some(k) => Some(k as usize),
            None => None::<usize>,
        }),
        r matches Some(k) ==> from <= k && k + p@.len() <= v.len() && find_from(v@, p@, from as int) == Some(k as int),
        r is None ==> find_from(v@, p@, from as int) is None,
{
    proof {
        lemma_find_from(v@, p@, from as int);
    }
    find_seq(v, from, &lit(p))
}

proof fn lemma_find_skip(s: Seq<char>, p: Seq<char>, e: int)
    requires
        0 <= e <= s.len(),
    ensures
        match find(s.skip(e), p) {
            Some(k) => find_from(s, p, e) == Some(k + e),
            None => find_from(s, p, e) is None,
        },
{
    lemma_find_shift(s, p, e, 0);
}

proof fn lemma_find_shift(s: Seq<char>, p: Seq<char>, e: int, j: int)
    requires
        0 <= e <= s.len(),
        0 <= j,
    ensures
        match find_from(s.skip(e), p, j) {
            Some(k) => find_from(s, p, e + j) == Some(k + e),
            None => find_from(s, p, e + j) is None,
        },
    decreases s.len() - e - j,
{
    let t = s.skip(e);
    if j + p.len() <= t.len() {
        assert(t.subrange(j, j + p.len()) =~= s.subrange(e + j, e + j + p.len()));
        if !matches_at(t, p, j) {
            lemma_find_shift(s, p, e, j + 1);
        }
    }
}

/// First attempt: an escaped file URL after the page's `"entryPoint"`.
fn from_entry_point_exec(h: &Vec<char>) -> (r: Option<Vec<char>>)
    ensures
        match r {
            Some(u) => from_entry_point(h@) == Some(u@),
            None => from_entry_point(h@) is None,
        },
{
    let e = match find_in(h, 0, "\"entryPoint\"") {
        Some(e) => e,
        None => {
            return None;
        },
    };
    let after = subvec(h, e, h.len());
    assert(after@ =~= h@.skip(e as int));
    let u = match find_in(&after, 0, "https:\\/\\/files.slack.com") {
        Some(u) => u,
        None => {
            return None;
        },
    };
    let part = subvec(&after, u, after.len());
    assert(part@ =~= after@.skip(u as int));
    let url = escaped_url_exec(&part, 0);
    if good_file_url_exec(&url) {
        Some(url)
    } else {
        None
    }
}

/// Second attempt: the first escaped file URL anywhere.
fn from_escaped_exec(h: &Vec<char>) -> (r: Option<Vec<char>>)
    ensures
        match r {
            Some(u) => from_escaped(h@) == Some(u@),
            None => from_escaped(h@) is None,
        },
{
    let st = match find_in(h, 0, "https:\\/\\/files.slack.com") {
        Some(x) => x,
        None => {
            return None;
        },
    };
    let part = subvec(h, st, h.len());
    assert(part@ =~= h@.skip(st as int));
    let url = escaped_url_exec(&part, 1);
    if good_file_url_exec(&url) {
        Some(url)
    } else {
        None
    }
}

/// A `http://` or `https://` starts at byte offset `cs`.
pub open spec fn protocol_at(h: Seq<char>, cs: int) -> bool {
    let k = char_at_byte(h, cs);
    matches_at(h, "http://"@, k) || matches_at(h, "https://"@, k)
}

/// The earliest byte offset `abs - i`, for `i` from `top` down to 0, where a
/// protocol starts.
pub open spec fn protocol_from(h: Seq<char>, abs: int, top: int) -> Option<int>
    decreases top + 1,
{
    if top < 0 {
        None
    } else if protocol_at(h, abs - top) {
        Some(abs - top)
    } else {
        protocol_from(h, abs, top - 1)
    }
}

/// The byte slices the protocol search takes are on character boundaries:
/// 7 bytes at each offset it tries, and 8 more where `http://` is absent.
pub open spec fn protocol_search_ok(h: Seq<char>, abs: int, top: int) -> bool
    decreases top + 1,
{
    if top < 0 {
        true
    } else {
        let cs = abs - top;
        &&& is_boundary(h, cs)
        &&& is_boundary(h, cs + 7)
        &&& (matches_at(h, "http://"@, char_at_byte(h, cs)) || is_boundary(h, cs + 8))
        &&& (protocol_at(h, cs) || protocol_search_ok(h, abs, top - 1))
    }
}

/// The URL found before the occurrence of the file host at character
/// position `ka` (byte offset `abs`): from the earliest protocol start in
/// the 200 bytes before it (the offset 0 excluded) up to an HTML
/// delimiter, when it is no tracking, analytics or API URL and still starts
/// with a protocol once unescaped.
pub open spec fn url_at_occurrence(h: Seq<char>, abs: int) -> Option<Seq<char>> {
    let mx = if abs < 200 { abs } else { 200 };
    match protocol_from(h, abs, mx - 1) {
        None => None,
        Some(cs) => {
            let part = h.skip(char_at_byte(h, cs));
            let url = part.take(delim_from(part, 1, 0));
            if untracked(url) && !contains(url, "/analytics/"@) && !contains(url, "/api/"@) {
                let u = unescaped(url);
                if starts_with(u, "http://"@) || starts_with(u, "https://"@) {
                    Some(u)
                } else {
                    None
                }
            } else {
                None
            }
        },
    }
}

/// Third attempt: each occurrence of the file host from character position
/// `from` on, in order, with a protocol shortly before it.
pub open spec fn scan_occurrences(h: Seq<char>, from: int) -> Option<Seq<char>>
    decreases h.len() - from,
{
    if from < 0 {
        None
    } else {
        match find_from(h, "files.slack.com"@, from) {
            None => None,
            Some(ka) => if ka < from || ka >= h.len() {
                None
            } else {
                let abs = byte_pos(h, ka);
                match url_at_occurrence(h, abs) {
                    Some(u) => Some(u),
                    None => if abs + 1 >= utf8_len(h) {
                        None
                    } else {
                        scan_occurrences(h, ka + 1)
                    },
                }
            },
        }
    }
}

/// The slices of the third attempt are on character boundaries.
pub open spec fn scan_ok(h: Seq<char>, from: int) -> bool
    decreases h.len() - from,
{
    if from < 0 {
        true
    } else {
        match find_from(h, "files.slack.com"@, from) {
            None => true,
            Some(ka) => if ka < from || ka >= h.len() {
                true
            } else {
                let abs = byte_pos(h, ka);
                let mx = if abs < 200 { abs } else { 200 };
                &&& protocol_search_ok(h, abs, mx - 1)
                &&& (url_at_occurrence(h, abs) is Some || abs + 1 >= utf8_len(h) || scan_ok(h, ka + 1))
            },
        }
    }
}

/// Fourth attempt: a link `href="https://files.slack.com...` up to its quote.
pub open spec fn from_href(h: Seq<char>) -> Option<Seq<char>> {
    match find(h, "href=\"https://files.slack.com"@) {
        None => None,
        Some(s) => {
            let part = h.skip(s + 6);
            match index_of(part, '"') {
                None => None,
                Some(e) => if untracked(part.take(e)) {
                    Some(part.take(e))
                } else {
                    None
                },
            }
        },
    }
}

/// Fifth attempt: the first plain `https://files.slack.com` URL.
pub open spec fn from_plain(h: Seq<char>) -> Option<Seq<char>> {
    match find(h, "https://files.slack.com"@) {
        None => None,
        Some(s) => {
            let part = h.skip(s);
            let url = part.take(delim_from(part, 2, 0));
            if untracked(url) {
                Some(url)
            } else {
                None
            }
        },
    }
}

/// A quoted redirect target that points at the file host.
pub open spec fn quoted_target(part: Seq<char>, q: char) -> Option<Seq<char>> {
    match index_of(part, q) {
        None => None,
        Some(e) => if untracked(part.take(e)) && contains(part.take(e), "files.slack.com"@) {
            Some(part.take(e))
        } else {
            None
        },
    }
}

/// Sixth attempt: a `<meta http-equiv="refresh" content="...url=...">`.
pub open spec fn from_meta_refresh(h: Seq<char>) -> Option<Seq<char>> {
    match find(h, "http-equiv=\"refresh\""@) {
        None => None,
        Some(st) => match find(h.skip(st), "content=\""@) {
            None => None,
            Some(c) => {
                let content = h.skip(st + c + 9);
                match find(content, "url="@) {
                    None => None,
                    Some(u) => quoted_target(content.skip(u + 4), '"'),
                }
            },
        },
    }
}

/// Seventh attempt: a `window.location = "..."` or `= '...'` assignment.
pub open spec fn from_window_location(h: Seq<char>) -> Option<Seq<char>> {
    match find(h, "window.location"@) {
        None => None,
        Some(st) => {
            let after = h.skip(st);
            let dq = match find(after, "= \""@) {
                None => None,
                Some(u) => quoted_target(after.skip(u + 3), '"'),
            };
            if dq is Some {
                dq
            } else {
                match find(after, "= '"@) {
                    None => None,
                    Some(u) => quoted_target(after.skip(u + 3), '\''),
                }
            }
        },
    }
}

/// The download URL in a file page: the attempts in order, the first that
/// finds one.
pub open spec fn redirect_in(h: Seq<char>) -> Option<Seq<char>> {
    if from_entry_point(h) is Some {
        from_entry_point(h)
    } else if from_escaped(h) is Some {
        from_escaped(h)
    } else if scan_occurrences(h, 0) is Some {
        scan_occurrences(h, 0)
    } else if from_href(h) is Some {
        from_href(h)
    } else if from_plain(h) is Some {
        from_plain(h)
    } else if from_meta_refresh(h) is Some {
        from_meta_refresh(h)
    } else {
        from_window_location(h)
    }
}

/// The URL found before the occurrence of the file host at byte offset `abs`.
fn url_at_occurrence_exec(h: &Vec<char>, abs: usize) -> (r: Option<Vec<char>>)
    requires
        protocol_search_ok(h@, abs as int, (if abs < 200 { abs as int } else { 200 }) - 1),
    ensures
        match r {
            Some(u) => url_at_occurrence(h@, abs as int) == Some(u@),
            None => url_at_occurrence(h@, abs as int) is None,
        },
{
    let mx: usize = if abs < 200 {
        abs
    } else {
        200
    };
    let ghost top0 = mx as int - 1;
    let http = lit("http://");
    let https = lit("https://");
    let mut n: usize = mx;
    let mut found: Option<usize> = None;
    while n > 0
        invariant_except_break
            found is None,
            protocol_from(h@, abs as int, n as int - 1) == protocol_from(h@, abs as int, top0),
            protocol_search_ok(h@, abs as int, n as int - 1),
        invariant
            n <= mx <= abs,
            http@ == "http://"@,
            https@ == "https://"@,
        ensures
            (found matches Some(c) && protocol_from(h@, abs as int, top0) == Some(c as int) && is_boundary(h@, c as int)) || (found is None
                && protocol_from(h@, abs as int, top0) is None),
        decreases n,
    {
        let i = n - 1;
        let cs = abs - i;
        let k = char_index_of_byte(h, cs);
        if matches_at_exec(h, &http, k) || matches_at_exec(h, &https, k) {
            found = Some(cs);
            break;
        }
        n = n - 1;
    }
    let ghost pf = protocol_from(h@, abs as int, top0);
    let cs = match found {
        Some(cs) => cs,
        None => {
            assert(pf is None);
            return None;
        },
    };
    assert(pf == Some(cs as int));
    proof {
        lemma_char_at_byte(h@, cs as int);
    }
    let k = char_index_of_byte(h, cs);
    let part = subvec(h, k, h.len());
    assert(part@ =~= h@.skip(k as int));
    let end = delim_exec(&part, 1);
    let url = subvec(&part, 0, end);
    assert(url@ =~= part@.take(end as int));
    if !contains_exec(&url, "/beacon/") && !contains_exec(&url, "/tracking/") && !contains_exec(&url, "/analytics/")
        && !contains_exec(&url, "/api/") {
        let u = unescaped_exec(&url);
        if starts_with_exec(&u, "http://") || starts_with_exec(&u, "https://") {
            return Some(u);
        }
    }
    None
}

/// Third attempt over the occurrences of the file host.
fn scan_occurrences_exec(h: &Vec<char>) -> (r: Option<Vec<char>>)
    requires
        fits(h@),
        scan_ok(h@, 0),
    ensures
        match r {
            Some(u) => scan_occurrences(h@, 0) == Some(u@),
            None => scan_occurrences(h@, 0) is None,
        },
{
    let total = utf8_len_exec(h);
    let mut from: usize = 0;
    loop
        invariant
            from <= h.len(),
            fits(h@),
            total == utf8_len(h@),
            scan_occurrences(h@, from as int) == scan_occurrences(h@, 0),
            scan_ok(h@, from as int),
        decreases h.len() - from,
    {
        let ka = match find_in(h, from, "files.slack.com") {
            Some(ka) => ka,
            None => {
                return None;
            },
        };
        proof {
            reveal_strlit("files.slack.com");
        }
        let abs = byte_of_char_index(h, ka);
        match url_at_occurrence_exec(h, abs) {
            Some(u) => {
                return Some(u);
            },
            None => {},
        }
        proof {
            crate::input::lemma_byte_pos_grows(h@, ka as int, ka + 15);
            lemma_byte_pos_bound(h@, ka + 15);
        }
        if abs + 1 >= total {
            return None;
        }
        from = ka + 1;
    }
}

/// Fourth attempt: a link to the file host.
fn from_href_exec(h: &Vec<char>) -> (r: Option<Vec<char>>)
    ensures
        match r {
            Some(u) => from_href(h@) == Some(u@),
            None => from_href(h@) is None,
        },
{
    let st = match find_in(h, 0, "href=\"https://files.slack.com") {
        Some(x) => x,
        None => {
            return None;
        },
    };
    proof {
        reveal_strlit("href=\"https://files.slack.com");
    }
    let part = subvec(h, st + 6, h.len());
    assert(part@ =~= h@.skip(st + 6));
    proof {
        lemma_index_of_from(part@, '"', 0);
    }
    match find_char(&part, 0, '"') {
        Some(e) => {
            let url = subvec(&part, 0, e);
            assert(url@ =~= part@.take(e as int));
            if !contains_exec(&url, "/beacon/") && !contains_exec(&url, "/tracking/") {
                Some(url)
            } else {
                None
            }
        },
        None => None,
    }
}

/// Fifth attempt: a plain file-host URL.
fn from_plain_exec(h: &Vec<char>) -> (r: Option<Vec<char>>)
    ensures
        match r {
            Some(u) => from_plain(h@) == Some(u@),
            None => from_plain(h@) is None,
        },
{
    let st = match find_in(h, 0, "https://files.slack.com") {
        Some(x) => x,
        None => {
            return None;
        },
    };
    let part = subvec(h, st, h.len());
    assert(part@ =~= h@.skip(st as int));
    let end = delim_exec(&part, 2);
    let url = subvec(&part, 0, end);
    assert(url@ =~= part@.take(end as int));
    if !contains_exec(&url, "/beacon/") && !contains_exec(&url, "/tracking/") {
        Some(url)
    } else {
        None
    }
}

fn quoted_target_exec(part: &Vec<char>, q: char) -> (r: Option<Vec<char>>)
    ensures
        match r {
            Some(u) => quoted_target(part@, q) == Some(u@),
            None => quoted_target(part@, q) is None,
        },
{
    proof {
        lemma_index_of_from(part@, q, 0);
    }
    match find_char(part, 0, q) {
        Some(e) => {
            let url = subvec(part, 0, e);
            assert(url@ =~= part@.take(e as int));
            if !contains_exec(&url, "/beacon/") && !contains_exec(&url, "/tracking/") && contains_exec(&url, "files.slack.com") {
                Some(url)
            } else {
                None
            }
        },
        None => None,
    }
}

/// Sixth attempt: a meta refresh.
fn from_meta_refresh_exec(h: &Vec<char>) -> (r: Option<Vec<char>>)
    ensures
        match r {
            Some(u) => from_meta_refresh(h@) == Some(u@),
            None => from_meta_refresh(h@) is None,
        },
{
    let st = match find_in(h, 0, "http-equiv=\"refresh\"") {
        Some(x) => x,
        None => {
            return None;
        },
    };
    let after = subvec(h, st, h.len());
    assert(after@ =~= h@.skip(st as int));
    let c = match find_in(&after, 0, "content=\"") {
        Some(x) => x,
        None => {
            return None;
        },
    };
    proof {
        reveal_strlit("content=\"");
    }
    let content = subvec(h, st + c + 9, h.len());
    assert(content@ =~= h@.skip(st + c + 9));
    let u = match find_in(&content, 0, "url=") {
        Some(x) => x,
        None => {
            return None;
        },
    };
    proof {
        reveal_strlit("url=");
    }
    let part = subvec(&content, u + 4, content.len());
    assert(part@ =~= content@.skip(u + 4));
    quoted_target_exec(&part, '"')
}

/// Seventh attempt: a script assignment to `window.location`.
fn from_window_location_exec(h: &Vec<char>) -> (r: Option<Vec<char>>)
    ensures
        match r {
            Some(u) => from_window_location(h@) == Some(u@),
            None => from_window_location(h@) is None,
        },
{
    let st = match find_in(h, 0, "window.location") {
        Some(x) => x,
        None => {
            return None;
        },
    };
    let after = subvec(h, st, h.len());
    assert(after@ =~= h@.skip(st as int));
    proof {
        reveal_strlit("= \"");
        reveal_strlit("= '");
    }
    match find_in(&after, 0, "= \"") {
        Some(u) => {
            let part = subvec(&after, u + 3, after.len());
            assert(part@ =~= after@.skip(u + 3));
            match quoted_target_exec(&part, '"') {
                Some(url) => {
                    return Some(url);
                },
                None => {},
            }
        },
        None => {},
    }
    match find_in(&after, 0, "= '") {
        Some(u) => {
            let part = subvec(&after, u + 3, after.len());
            assert(part@ =~= after@.skip(u + 3));
            quoted_target_exec(&part, '\'')
        },
        None => None,
    }
}

/// Whether the UTF-8 length of `v` fits in `usize`.
fn utf8_fits(v: &Vec<char>) -> (r: bool)
    ensures
        r == fits(v@),
{
    let mut i: usize = 0;
    let mut acc: usize = 0;
    while i < v.len()
        invariant
            i <= v.len(),
            acc == byte_pos(v@, i as int),
        decreases v.len() - i,
    {
        proof {
            crate::input::lemma_byte_pos_step(v@, i as int);
        }
        let w = utf8_width_exec(v[i]);
        if acc > usize::MAX - w {
            proof {
                crate::input::lemma_byte_pos_grows(v@, i + 1, v.len() as int);
                crate::input::lemma_byte_pos_end(v@);
            }
            return false;
        }
        acc = acc + w;
        i += 1;
    }
    proof {
        crate::input::lemma_byte_pos_end(v@);
    }
    true
}

/// Whether byte offset `b` starts a character of `v` or is its end.
fn boundary_exec(v: &Vec<char>, b: usize) -> (r: bool)
    requires
        fits(v@),
    ensures
        r == is_boundary(v@, b as int),
{
    let mut k: usize = 0;
    let mut acc: usize = 0;
    while acc < b && k < v.len()
        invariant
            k <= v.len(),
            fits(v@),
            acc == byte_pos(v@, k as int),
            forall|j: int| 0 <= j < k ==> byte_pos(v@, j) < b,
        decreases v.len() - k,
    {
        proof {
            crate::input::lemma_byte_pos_step(v@, k as int);
            lemma_byte_pos_bound(v@, k + 1);
        }
        acc = acc + utf8_width_exec(v[k]);
        k += 1;
    }
    proof {
        if acc != b {
            assert forall|j: int| 0 <= j <= v.len() implies byte_pos(v@, j) != b by {
                if j < k {
                } else if j > k {
                    crate::input::lemma_byte_pos_grows(v@, k as int, j);
                }
            }
        }
    }
    acc == b
}

/// Whether `base + off` is a boundary of `v`, whose UTF-8 length is `total`.
fn boundary_after(v: &Vec<char>, total: usize, base: usize, off: usize) -> (r: bool)
    requires
        fits(v@),
        total == utf8_len(v@),
    ensures
        r == is_boundary(v@, base + off),
{
    if base > total || off > total - base {
        proof {
            if is_boundary(v@, base + off) {
                let k = choose|k: int| 0 <= k <= v@.len() && byte_pos(v@, k) == base + off;
                lemma_byte_pos_bound(v@, k);
            }
        }
        return false;
    }
    boundary_exec(v, base + off)
}

/// Whether the protocol search before byte offset `abs` slices only on
/// character boundaries.
fn protocol_search_ok_exec(h: &Vec<char>, total: usize, abs: usize) -> (r: bool)
    requires
        fits(h@),
        total == utf8_len(h@),
        abs <= total,
    ensures
        r == protocol_search_ok(h@, abs as int, (if abs < 200 { abs as int } else { 200 }) - 1),
{
    let mx: usize = if abs < 200 {
        abs
    } else {
        200
    };
    let ghost top0 = mx as int - 1;
    let http = lit("http://");
    let https = lit("https://");
    let mut n: usize = mx;
    while n > 0
        invariant
            n <= mx <= abs <= total,
            fits(h@),
            total == utf8_len(h@),
            http@ == "http://"@,
            https@ == "https://"@,
            top0 == (if abs < 200 { abs as int } else { 200 }) - 1,
            protocol_search_ok(h@, abs as int, n as int - 1) == protocol_search_ok(h@, abs as int, top0),
        decreases n,
    {
        let i = n - 1;
        let cs = abs - i;
        if !boundary_exec(h, cs) || !boundary_after(h, total, cs, 7) {
            return false;
        }
        let k = char_index_of_byte(h, cs);
        let plain = matches_at_exec(h, &http, k);
        if !plain && !boundary_after(h, total, cs, 8) {
            return false;
        }
        if plain || matches_at_exec(h, &https, k) {
            return true;
        }
        n = n - 1;
    }
    true
}

/// Whether the third attempt slices only on character boundaries.
fn scan_ok_exec(h: &Vec<char>) -> (r: bool)
    requires
        fits(h@),
    ensures
        r == scan_ok(h@, 0),
{
    let total = utf8_len_exec(h);
    let mut from: usize = 0;
    loop
        invariant
            from <= h.len(),
            fits(h@),
            total == utf8_len(h@),
            scan_ok(h@, from as int) == scan_ok(h@, 0),
        decreases h.len() - from,
    {
        let ka = match find_in(h, from, "files.slack.com") {
            Some(ka) => ka,
            None => {
                return true;
            },
        };
        proof {
            reveal_strlit("files.slack.com");
            lemma_byte_pos_bound(h@, ka as int);
        }
        let abs = byte_of_char_index(h, ka);
        if !protocol_search_ok_exec(h, total, abs) {
            return false;
        }
        match url_at_occurrence_exec(h, abs) {
            Some(_) => {
                return true;
            },
            None => {},
        }
        if abs >= total - 1 {
            return true;
        }
        from = ka + 1;
    }
}

/// Whether [`extract_redirect_from_html`] may be called on `html`: the
/// page's UTF-8 length fits in `usize` and, where the first two attempts
/// find nothing, the third one slices the page only on character
/// boundaries.
pub fn redirect_scan_ok(html: &str) -> (r: bool)
    ensures
        r == (fits(html@) && ((from_entry_point(html@) is None && from_escaped(html@) is None) ==> scan_ok(html@, 0))),
{
    let h = chars_of(html);
    if !utf8_fits(&h) {
        return false;
    }
    if from_entry_point_exec(&h).is_some() || from_escaped_exec(&h).is_some() {
        return true;
    }
    scan_ok_exec(&h)
}

/// The download URL in the HTML page Slack serves for a file, trying in
/// turn: an escaped URL after `"entryPoint"`, any escaped file URL, file
/// URLs with a protocol shortly before them, a link, a plain URL, a meta
/// refresh and a `window.location` assignment. The third attempt reads
/// the page by bytes; it needs the bytes it compares to lie on character
/// boundaries.
pub fn extract_redirect_from_html(html: &str) -> (r: Option<String>)
    requires
        fits(html@),
        (from_entry_point(html@) is None && from_escaped(html@) is None) ==> scan_ok(html@, 0),
    ensures
        crate::text::option_view(r) == redirect_in(html@),
{
    let h = chars_of(html);
    match from_entry_point_exec(&h) {
        Some(u) => {
            return Some(string_of(&u));
        },
        None => {},
    }
    match from_escaped_exec(&h) {
        Some(u) => {
            return Some(string_of(&u));
        },
        None => {},
    }
    match scan_occurrences_exec(&h) {
        Some(u) => {
            return Some(string_of(&u));
        },
        None => {},
    }
    match from_href_exec(&h) {
        Some(u) => {
            return Some(string_of(&u));
        },
        None => {},
    }
    match from_plain_exec(&h) {
        Some(u) => {
            return Some(string_of(&u));
        },
        None => {},
    }
    match from_meta_refresh_exec(&h) {
        Some(u) => {
            return Some(string_of(&u));
        },
        None => {},
    }
    match from_window_location_exec(&h) {
        Some(u) => Some(string_of(&u)),
        None => None,
    }
}

} // verus!
