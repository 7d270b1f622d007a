//! Slack message text formatting: links, mentions, emoji shortcodes and
//! skin-tone modifiers.
use vstd::prelude::*;
use crate::text::{
    chars_of, contains_char, find_char, find_char_in, find_seq, index_of_from,
    index_of_in, lemma_find_from, lemma_index_of_from, lemma_index_of_in, find_from, option_view, push_range, replace_all, replace_all_exec, replace_char,
    replace_char_exec, starts_with_in, starts_with_in_exec, string_of,
    string_of_range,
};
use crate::unicode::is_unicode_alphanumeric;
use crate::emoji_table::{curated_emoji, lookup_curated};
use crate::style::Color;
use std::hash::BuildHasher;

verus! {

// ---------------------------------------------------------------------------
// Emoji shortcodes
// ---------------------------------------------------------------------------

/// The emoji that the `emojis` crate's GitHub shortcode database gives for
/// a shortcode, if any.
pub uninterp spec fn shortcode_emoji(name: Seq<char>) -> Option<Seq<char>>;

/// Calls `emojis::get_by_shortcode`, a lookup in a fixed table compiled into
/// the crate, and returns the emoji's text. The contract only names the
/// result: the table's contents are not stated.
#[verifier::external_body]
fn emoji_by_shortcode(name: &str) -> (r: Option<String>)
    ensures
        option_view(r) == shortcode_emoji(name@),
{
    match emojis::get_by_shortcode(name) {
        Some(e) => Some(e.as_str().to_string()),
        None => None,
    }
}

/// `:name:`
pub open spec fn colon_wrapped(name: Seq<char>) -> Seq<char> {
    seq![':'] + name + seq![':']
}

/// The shortcode with any `::skin-tone-N` suffix removed.
pub open spec fn emoji_base_name(name: Seq<char>) -> Seq<char> {
    match crate::text::find(name, "::skin-tone-"@) {
        Some(k) => name.subrange(0, k),
        None => name,
    }
}

/// The alternative spelling tried when neither table knows the base name:
/// underscores become hyphens, or else hyphens become underscores.
pub open spec fn alt_emoji_name(base: Seq<char>) -> Seq<char> {
    if base.contains('_') {
        replace_char(base, '_', '-')
    } else if base.contains('-') {
        replace_char(base, '-', '_')
    } else {
        Seq::empty()
    }
}

/// The text that a Slack shortcode renders as: the curated table first, then
/// the shortcode database, then the database under the alternative
/// spelling, and otherwise the shortcode itself between colons.
pub open spec fn emoji_text(name: Seq<char>) -> Seq<char> {
    let base = emoji_base_name(name);
    match curated_emoji(base) {
        Some(e) => e,
        None => match shortcode_emoji(base) {
            Some(e) => e,
            None => {
                let alt = alt_emoji_name(base);
                if alt.len() > 0 {
                    match shortcode_emoji(alt) {
                        Some(e) => e,
                        None => colon_wrapped(name),
                    }
                } else {
                    colon_wrapped(name)
                }
            },
        },
    }
}

/// Convert a Slack emoji name to its Unicode character.
pub fn slack_emoji_to_unicode(name: &str) -> (r: String)
    ensures
        r@ == emoji_text(name@),
{
    let v = chars_of(name);
    let pat = chars_of("::skin-tone-");
    let base_end = match find_seq(&v, 0, &pat) {
        Some(k) => k,
        None => v.len(),
    };
    let base = crate::text::string_of_range(&v, 0, base_end);
    let base_v = chars_of(base.as_str());
    assert(base_v@ == emoji_base_name(name@)) by {
        assert(pat@ == "::skin-tone-"@);
        assert(v@ == name@);
        lemma_find_from(name@, "::skin-tone-"@, 0);
        match crate::text::find(name@, "::skin-tone-"@) {
            Some(k) => {
                assert(base_end == k);
            },
            None => {
                assert(base_end == v.len());
                assert(name@.subrange(0, name@.len() as int) =~= name@);
            },
        }
    }
    if let Some(e) = lookup_curated(&base_v) {
        return e;
    }
    if let Some(e) = emoji_by_shortcode(base.as_str()) {
        return e;
    }
    let alt = if contains_char(&base_v, '_') {
        replace_char_exec(&base_v, '_', '-')
    } else if contains_char(&base_v, '-') {
        replace_char_exec(&base_v, '-', '_')
    } else {
        Vec::new()
    };
    assert(alt@ == alt_emoji_name(base_v@)) by {
        if !base_v@.contains('_') && !base_v@.contains('-') {
            assert(alt@ =~= Seq::<char>::empty());
        }
    }
    if alt.len() > 0 {
        let alt_s = string_of(&alt);
        if let Some(e) = emoji_by_shortcode(alt_s.as_str()) {
            return e;
        }
    }
    let mut r = String::new();
    r.push(':');
    r.push_str(name);
    r.push(':');
    assert(r@ =~= colon_wrapped(name@));
    r
}

/// A character allowed in an emoji shortcode.
pub open spec fn emoji_name_char(c: char) -> bool {
    is_unicode_alphanumeric(c) || c == '_' || c == '-' || c == '+'
}

/// A well-formed emoji shortcode: non-empty, no space, only name characters.
pub open spec fn emoji_name_ok(name: Seq<char>) -> bool {
    &&& name.len() > 0
    &&& !name.contains(' ')
    &&& forall|i: int| 0 <= i < name.len() ==> emoji_name_char(#[trigger] name[i])
}

/// Whether the text of shortcode `name` counts as a conversion (it does not
/// start with a colon).
pub open spec fn emoji_converts(name: Seq<char>) -> bool {
    !(emoji_text(name).len() > 0 && emoji_text(name)[0] == ':')
}

/// `:name:` patterns from position `i` on, replaced by their emoji.
pub open spec fn emojis_from(s: Seq<char>, i: int) -> Seq<char>
    decreases s.len() - i,
{
    if i < 0 || i >= s.len() {
        Seq::empty()
    } else if s[i] == ':' {
        match index_of_from(s, ':', i + 1) {
            Some(e) => {
                proof {
                    lemma_index_of_from(s, ':', i + 1);
                }
                let name = s.subrange(i + 1, e);
                if emoji_name_ok(name) && emoji_converts(name) {
                    emoji_text(name) + emojis_from(s, e + 1)
                } else {
                    seq![':'] + emojis_from(s, i + 1)
                }
            },
            None => seq![':'] + emojis_from(s, i + 1),
        }
    } else {
        seq![s[i]] + emojis_from(s, i + 1)
    }
}

/// Whether `v[lo..hi]` is a well-formed emoji shortcode.
fn emoji_name_ok_exec(v: &Vec<char>, lo: usize, hi: usize) -> (r: bool)
    requires
        lo <= hi <= v.len(),
    ensures
        r == emoji_name_ok(v@.subrange(lo as int, hi as int)),
{
    let ghost name = v@.subrange(lo as int, hi as int);
    if lo == hi {
        return false;
    }
    let mut i = lo;
    while i < hi
        invariant
            lo <= i <= hi <= v.len(),
            name == v@.subrange(lo as int, hi as int),
            forall|j: int| 0 <= j < i - lo ==> emoji_name_char(#[trigger] name[j]) && name[j] != ' ',
        decreases hi - i,
    {
        let c = v[i];
        let ok = c.is_alphanumeric() || c == '_' || c == '-' || c == '+';
        if !ok || c == ' ' {
            assert(name[i - lo] == c);
            if c == ' ' {
                assert(name.contains(' '));
            }
            return false;
        }
        i += 1;
    }
    assert(!name.contains(' ')) by {
        if name.contains(' ') {
            let j = choose|j: int| 0 <= j < name.len() && name[j] == ' ';
            assert(name[j] != ' ');
        }
    }
    true
}

/// Replace :emoji_name: patterns in text with Unicode characters.
pub fn convert_slack_emojis(text: &str) -> (r: String)
    ensures
        r@ == emojis_from(text@, 0),
{
    let v = chars_of(text);
    let mut out = String::new();
    let mut i: usize = 0;
    while i < v.len()
        invariant
            i <= v.len(),
            v@ == text@,
            out@ + emojis_from(v@, i as int) == emojis_from(v@, 0),
        decreases v.len() - i,
    {
        let c = v[i];
        let ghost out0 = out@;
        if c == ':' {
            proof {
                lemma_index_of_from(v@, ':', i + 1);
            }
            if let Some(e) = find_char(&v, i + 1, ':') {
                if emoji_name_ok_exec(&v, i + 1, e) {
                    let name = string_of_range(&v, i + 1, e);
                    let converted = slack_emoji_to_unicode(name.as_str());
                    let cv = chars_of(converted.as_str());
                    if !(cv.len() > 0 && cv[0] == ':') {
                        out.push_str(converted.as_str());
                        assert(out0 + emojis_from(v@, i as int) =~= out@ + emojis_from(v@, e + 1));
                        i = e + 1;
                        continue;
                    }
                }
            }
            out.push(c);
            assert(out0 + emojis_from(v@, i as int) =~= out@ + emojis_from(v@, i + 1));
            i += 1;
        } else {
            out.push(c);
            assert(out0 + emojis_from(v@, i as int) =~= out@ + emojis_from(v@, i + 1));
            i += 1;
        }
    }
    assert(emojis_from(v@, i as int) =~= Seq::<char>::empty());
    assert(out@ =~= out@ + emojis_from(v@, i as int));
    out
}

// ---------------------------------------------------------------------------
// Links
// ---------------------------------------------------------------------------

/// What the text between `<` (at `a - 1`) and `>` (at `b`) becomes: a URL
/// loses its `|label`, a user mention keeps its brackets, anything else
/// loses them.
pub open spec fn link_token(s: Seq<char>, a: int, b: int) -> Seq<char> {
    if starts_with_in(s, "http://"@, a, b) || starts_with_in(s, "https://"@, a, b) {
        match index_of_in(s, '|', a, b) {
            Some(p) => s.subrange(a, p),
            None => s.subrange(a, b),
        }
    } else if a < b && s[a] == '@' {
        seq!['<'] + s.subrange(a, b) + seq!['>']
    } else {
        s.subrange(a, b)
    }
}

/// The text from `pos` on with Slack `<...>` link tokens converted.
pub open spec fn links_from(s: Seq<char>, pos: int) -> Seq<char>
    decreases s.len() - pos,
{
    if pos < 0 || pos > s.len() {
        Seq::empty()
    } else {
        match index_of_from(s, '<', pos) {
            None => s.subrange(pos, s.len() as int),
            Some(st) => {
                proof {
                    lemma_index_of_from(s, '<', pos);
                    lemma_index_of_from(s, '>', st + 1);
                }
                match index_of_from(s, '>', st + 1) {
                    None => s.subrange(pos, st) + seq!['<'] + links_from(s, st + 1),
                    Some(e) => s.subrange(pos, st) + link_token(s, st + 1, e) + links_from(s, e + 1),
                }
            },
        }
    }
}

/// Convert Slack link format <URL|text> and <URL> to just the URL.
pub fn convert_slack_links(text: &str) -> (r: String)
    ensures
        r@ == links_from(text@, 0),
{
    let v = chars_of(text);
    let http = chars_of("http://");
    let https = chars_of("https://");
    let mut out = String::new();
    let mut pos: usize = 0;
    loop
        invariant
            pos <= v.len(),
            v@ == text@,
            http@ == "http://"@,
            https@ == "https://"@,
            out@ + links_from(v@, pos as int) == links_from(v@, 0),
        decreases v.len() - pos,
    {
        let ghost out0 = out@;
        proof {
            lemma_index_of_from(v@, '<', pos as int);
        }
        match find_char(&v, pos, '<') {
            None => {
                push_range(&mut out, &v, pos, v.len());
                assert(out@ =~= out0 + links_from(v@, pos as int));
                return out;
            },
            Some(st) => {
                push_range(&mut out, &v, pos, st);
                proof {
                    lemma_index_of_from(v@, '>', st + 1);
                }
                match find_char(&v, st + 1, '>') {
                    None => {
                        out.push('<');
                        assert(out0 + links_from(v@, pos as int) =~= out@ + links_from(v@, st + 1));
                        pos = st + 1;
                    },
                    Some(e) => {
                        let a = st + 1;
                        let ghost out1 = out@;
                        let ghost tok = link_token(v@, a as int, e as int);
                        if starts_with_in_exec(&v, &http, a, e) || starts_with_in_exec(&v, &https, a, e) {
                            proof {
                                lemma_index_of_in(v@, '|', a as int, e as int);
                            }
                            match find_char_in(&v, a, e, '|') {
                                Some(p) => {
                                    push_range(&mut out, &v, a, p);
                                    assert(tok == v@.subrange(a as int, p as int));
                                },
                                None => {
                                    push_range(&mut out, &v, a, e);
                                    assert(tok == v@.subrange(a as int, e as int));
                                },
                            }
                        } else if a < e && v[a] == '@' {
                            out.push('<');
                            push_range(&mut out, &v, a, e);
                            out.push('>');
                            assert(out@ =~= out1 + tok);
                        } else {
                            push_range(&mut out, &v, a, e);
                        }
                        assert(out@ =~= out1 + tok);
                        assert(out@ =~= out0 + v@.subrange(pos as int, st as int) + link_token(v@, a as int, e as int));
                        assert(out0 + links_from(v@, pos as int) =~= out@ + links_from(v@, e + 1));
                        pos = e + 1;
                    },
                }
            },
        }
    }
}

// ---------------------------------------------------------------------------
// Mentions
// ---------------------------------------------------------------------------

/// `<@`
pub open spec fn mention_open() -> Seq<char> {
    seq!['<', '@']
}

/// End of the user id inside a mention body `[a, e)`: the first `|`, or `e`.
pub open spec fn mention_id_end(s: Seq<char>, a: int, e: int) -> int {
    match index_of_in(s, '|', a, e) {
        Some(p) => p,
        None => e,
    }
}

/// The user ids of the complete `<@...>` mentions from `pos` on, in order.
pub open spec fn mention_ids_from(s: Seq<char>, pos: int) -> Seq<Seq<char>>
    decreases s.len() - pos,
{
    if pos < 0 || pos > s.len() {
        Seq::empty()
    } else {
        match find_from(s, mention_open(), pos) {
            None => Seq::empty(),
            Some(st) => {
                proof {
                    lemma_find_from(s, mention_open(), pos);
                    lemma_index_of_from(s, '>', st + 2);
                }
                match index_of_from(s, '>', st + 2) {
                    None => mention_ids_from(s, st + 2),
                    Some(e) => seq![s.subrange(st + 2, mention_id_end(s, st + 2, e))]
                        + mention_ids_from(s, e + 1),
                }
            },
        }
    }
}

/// The text from `pos` on with each complete mention replaced by `@` and the
/// next of `names`.
pub open spec fn mentions_from(s: Seq<char>, pos: int, names: Seq<Seq<char>>) -> Seq<char>
    decreases s.len() - pos,
{
    if pos < 0 || pos > s.len() {
        Seq::empty()
    } else {
        match find_from(s, mention_open(), pos) {
            None => s.subrange(pos, s.len() as int),
            Some(st) => {
                proof {
                    lemma_find_from(s, mention_open(), pos);
                    lemma_index_of_from(s, '>', st + 2);
                }
                match index_of_from(s, '>', st + 2) {
                    None => s.subrange(pos, st) + mention_open() + mentions_from(s, st + 2, names),
                    Some(e) => s.subrange(pos, st) + seq!['@'] + names[0] + mentions_from(
                        s,
                        e + 1,
                        names.drop_first(),
                    ),
                }
            },
        }
    }
}

/// The views of a sequence of strings.
pub open spec fn views(v: Seq<String>) -> Seq<Seq<char>> {
    Seq::new(v.len(), |i: int| v[i]@)
}

/// Calling `f` on a string spelling `id` may return a string spelling `name`.
pub open spec fn resolves_to<F: Fn(&str) -> String>(f: &F, id: Seq<char>, name: Seq<char>) -> bool {
    exists|a: &str, r: String| a@ == id && r@ == name && call_ensures(*f, (a,), r)
}

/// `names` are answers of `f` for `ids`, one for one.
pub open spec fn names_resolved<F: Fn(&str) -> String>(
    f: &F,
    ids: Seq<Seq<char>>,
    names: Seq<Seq<char>>,
) -> bool {
    &&& names.len() == ids.len()
    &&& forall|i: int| 0 <= i < ids.len() ==> #[trigger] resolves_to(f, ids[i], names[i])
}

fn mention_open_exec() -> (v: Vec<char>)
    ensures
        v@ == mention_open(),
{
    let mut v: Vec<char> = Vec::new();
    v.push('<');
    v.push('@');
    assert(v@ =~= mention_open());
    v
}

/// The user ids of the complete mentions in `v`.
fn collect_mention_ids(v: &Vec<char>) -> (ids: Vec<String>)
    ensures
        views(ids@) == mention_ids_from(v@, 0),
{
    let pat = mention_open_exec();
    let mut ids: Vec<String> = Vec::new();
    let mut pos: usize = 0;
    loop
        invariant
            pos <= v.len(),
            pat@ == mention_open(),
            views(ids@) + mention_ids_from(v@, pos as int) == mention_ids_from(v@, 0),
        decreases v.len() - pos,
    {
        let ghost ids0 = views(ids@);
        proof {
            lemma_find_from(v@, mention_open(), pos as int);
        }
        match find_seq(v, pos, &pat) {
            None => {
                assert(views(ids@) =~= views(ids@) + mention_ids_from(v@, pos as int));
                return ids;
            },
            Some(st) => {
                proof {
                    lemma_index_of_from(v@, '>', st + 2);
                }
                match find_char(v, st + 2, '>') {
                    None => {
                        pos = st + 2;
                    },
                    Some(e) => {
                        proof {
                            lemma_index_of_in(v@, '|', st + 2, e as int);
                        }
                        let id_end = match find_char_in(v, st + 2, e, '|') {
                            Some(p) => p,
                            None => e,
                        };
                        let id = string_of_range(v, st + 2, id_end);
                        ids.push(id);
                        assert(views(ids@) =~= ids0 + seq![v@.subrange(st + 2, id_end as int)]);
                        assert(ids0 + mention_ids_from(v@, pos as int) =~= views(ids@)
                            + mention_ids_from(v@, e + 1));
                        pos = e + 1;
                    },
                }
            },
        }
    }
}

/// Rewrites the mentions of `v` with `names`.
fn rewrite_mentions(v: &Vec<char>, names: &Vec<String>) -> (r: String)
    requires
        names@.len() == mention_ids_from(v@, 0).len(),
    ensures
        r@ == mentions_from(v@, 0, views(names@)),
{
    let pat = mention_open_exec();
    let mut out = String::new();
    let mut pos: usize = 0;
    let mut k: usize = 0;
    assert(views(names@).skip(0) =~= views(names@));
    assert(out@ + mentions_from(v@, 0, views(names@)) =~= mentions_from(v@, 0, views(names@)));
    loop
        invariant
            pos <= v.len(),
            pat@ == mention_open(),
            k + mention_ids_from(v@, pos as int).len() == names@.len(),
            out@ + mentions_from(v@, pos as int, views(names@).skip(k as int)) == mentions_from(
                v@,
                0,
                views(names@),
            ),
        decreases v.len() - pos,
    {
        let ghost out0 = out@;
        let ghost rest = views(names@).skip(k as int);
        proof {
            lemma_find_from(v@, mention_open(), pos as int);
        }
        match find_seq(v, pos, &pat) {
            None => {
                push_range(&mut out, v, pos, v.len());
                assert(out@ =~= out0 + mentions_from(v@, pos as int, rest));
                assert(views(names@).skip(0) =~= views(names@));
                return out;
            },
            Some(st) => {
                push_range(&mut out, v, pos, st);
                proof {
                    lemma_index_of_from(v@, '>', st + 2);
                }
                match find_char(v, st + 2, '>') {
                    None => {
                        out.push('<');
                        out.push('@');
                        assert(out0 + mentions_from(v@, pos as int, rest) =~= out@ + mentions_from(
                            v@,
                            st + 2,
                            rest,
                        ));
                        pos = st + 2;
                    },
                    Some(e) => {
                        assert(mention_ids_from(v@, pos as int).len() == 1 + mention_ids_from(
                            v@,
                            e + 1,
                        ).len());
                        out.push('@');
                        assert(k < names.len());
                        out.push_str(names[k].as_str());
                        assert(rest[0] == names@[k as int]@);
                        assert(rest.drop_first() =~= views(names@).skip(k + 1));
                        assert(out0 + mentions_from(v@, pos as int, rest) =~= out@ + mentions_from(
                            v@,
                            e + 1,
                            views(names@).skip(k + 1),
                        ));
                        k = k + 1;
                        pos = e + 1;
                    },
                }
            },
        }
    }
}

/// Resolves each id with `f`, in order.
pub fn resolve_all<F: Fn(&str) -> String>(ids: &Vec<String>, f: &F) -> (names: Vec<String>)
    requires
        forall|a: &str| call_requires(*f, (a,)),
    ensures
        names_resolved(f, views(ids@), views(names@)),
{
    let mut names: Vec<String> = Vec::new();
    let mut i: usize = 0;
    while i < ids.len()
        invariant
            i <= ids.len(),
            names@.len() == i,
            forall|a: &str| call_requires(*f, (a,)),
            forall|j: int| 0 <= j < i ==> #[trigger] resolves_to(f, ids@[j]@, names@[j]@),
        decreases ids.len() - i,
    {
        let a = ids[i].as_str();
        let n = f(a);
        assert(call_ensures(*f, (a,), n));
        assert(resolves_to(f, ids@[i as int]@, n@));
        names.push(n);
        i += 1;
    }
    proof {
        assert forall|j: int| 0 <= j < views(ids@).len() implies #[trigger] resolves_to(
            f,
            views(ids@)[j],
            views(names@)[j],
        ) by {
            assert(resolves_to(f, ids@[j]@, names@[j]@));
        }
    }
    names
}

/// Convert Slack user mentions <@U12345> to @name.
pub fn convert_slack_mentions<F: Fn(&str) -> String>(text: &str, resolve_user: &F) -> (r: String)
    requires
        forall|a: &str| call_requires(*resolve_user, (a,)),
    ensures
        exists|names: Seq<Seq<char>>|
            #[trigger] names_resolved(resolve_user, mention_ids_from(text@, 0), names) && r@ == mentions_from(
                text@,
                0,
                names,
            ),
{
    let v = chars_of(text);
    let ids = collect_mention_ids(&v);
    let names = resolve_all(&ids, resolve_user);
    let r = rewrite_mentions(&v, &names);
    assert(names_resolved(resolve_user, mention_ids_from(text@, 0), views(names@)));
    r
}

// ---------------------------------------------------------------------------
// Skin-tone modifiers and the combined text formatter
// ---------------------------------------------------------------------------

/// `:skin-tone-d:`
pub open spec fn skin_pattern(d: char) -> Seq<char> {
    ":skin-tone-"@ + seq![d, ':']
}

/// The text with `:skin-tone-1:` through `:skin-tone-6:` removed, one
/// modifier after the other.
pub open spec fn strip_skin_tones(s: Seq<char>) -> Seq<char> {
    let e = Seq::<char>::empty();
    replace_all(
        replace_all(
            replace_all(
                replace_all(
                    replace_all(replace_all(s, skin_pattern('1'), e), skin_pattern('2'), e),
                    skin_pattern('3'),
                    e,
                ),
                skin_pattern('4'),
                e,
            ),
            skin_pattern('5'),
            e,
        ),
        skin_pattern('6'),
        e,
    )
}

fn skin_pattern_exec(d: char) -> (v: Vec<char>)
    ensures
        v@ == skin_pattern(d),
{
    let mut v = chars_of(":skin-tone-");
    v.push(d);
    v.push(':');
    assert(v@ =~= skin_pattern(d));
    v
}

fn strip_skin_tones_exec(v: &Vec<char>) -> (r: Vec<char>)
    ensures
        r@ == strip_skin_tones(v@),
{
    let e: Vec<char> = Vec::new();
    assert(e@ =~= Seq::<char>::empty());
    let r1 = replace_all_exec(v, &skin_pattern_exec('1'), &e);
    let r2 = replace_all_exec(&r1, &skin_pattern_exec('2'), &e);
    let r3 = replace_all_exec(&r2, &skin_pattern_exec('3'), &e);
    let r4 = replace_all_exec(&r3, &skin_pattern_exec('4'), &e);
    let r5 = replace_all_exec(&r4, &skin_pattern_exec('5'), &e);
    replace_all_exec(&r5, &skin_pattern_exec('6'), &e)
}

/// Remove skin-tone modifiers like :skin-tone-6: from text
pub fn remove_skin_tone_modifiers(text: &str) -> (r: String)
    ensures
        r@ == strip_skin_tones(text@),
{
    let v = chars_of(text);
    let r = strip_skin_tones_exec(&v);
    string_of(&r)
}

/// Format message text: convert links, mentions, and emojis.
pub fn format_message_text<F: Fn(&str) -> String>(
    text: &str,
    show_emojis: bool,
    resolve_user: &F,
) -> (r: String)
    requires
        forall|a: &str| call_requires(*resolve_user, (a,)),
    ensures
        exists|names: Seq<Seq<char>>|
            #[trigger] names_resolved(
                resolve_user,
                mention_ids_from(strip_skin_tones(links_from(text@, 0)), 0),
                names,
            ) && r@ == if show_emojis {
                emojis_from(mentions_from(strip_skin_tones(links_from(text@, 0)), 0, names), 0)
            } else {
                mentions_from(strip_skin_tones(links_from(text@, 0)), 0, names)
            },
{
    let out = convert_slack_links(text);
    let out = remove_skin_tone_modifiers(out.as_str());
    let out = convert_slack_mentions(out.as_str(), resolve_user);
    if show_emojis {
        convert_slack_emojis(out.as_str())
    } else {
        out
    }
}


/// What std's `hash_one` of a default-built `DefaultHasher` gives for a
/// string.
pub uninterp spec fn name_hash_of(s: Seq<char>) -> u64;

/// Calls std's `hash_one` of a default-built `DefaultHasher` on the name:
/// the same hash as hashing the name into `DefaultHasher::new()` and
/// finishing. `DefaultHasher::new()` starts from fixed keys, not from a
/// per-process seed, so the hash is a function of the name; std leaves
/// which function unspecified (it may change between Rust releases), so
/// the result is only named.
#[verifier::external_body]
fn name_hash(name: &str) -> (r: u64)
    ensures
        r == name_hash_of(name@),
{
    std::hash::BuildHasherDefault::<std::collections::hash_map::DefaultHasher>::default().hash_one(name)
}

/// The sender-name color for a hash: one of sixteen colors, picked by the
/// hash modulo sixteen.
pub open spec fn palette_color(h: u64) -> Color {
    let i = h % 16;
    if i == 0 {
        Color::Cyan
    } else if i == 1 {
        Color::Green
    } else if i == 2 {
        Color::Yellow
    } else if i == 3 {
        Color::Blue
    } else if i == 4 {
        Color::Magenta
    } else if i == 5 {
        Color::LightCyan
    } else if i == 6 {
        Color::LightGreen
    } else if i == 7 {
        Color::LightYellow
    } else if i == 8 {
        Color::LightBlue
    } else if i == 9 {
        Color::LightMagenta
    } else if i == 10 {
        Color::Rgb(255, 165, 0)
    } else if i == 11 {
        Color::Rgb(147, 112, 219)
    } else if i == 12 {
        Color::Rgb(64, 224, 208)
    } else if i == 13 {
        Color::Rgb(255, 105, 180)
    } else if i == 14 {
        Color::Rgb(50, 205, 50)
    } else {
        Color::Rgb(255, 215, 0)
    }
}

/// The sender-name color for a name hash; see `palette_color`.
pub fn color_for_hash(h: u64) -> (c: Color)
    ensures
        c == palette_color(h),
{
    let i = h % 16;
    if i == 0 {
        Color::Cyan
    } else if i == 1 {
        Color::Green
    } else if i == 2 {
        Color::Yellow
    } else if i == 3 {
        Color::Blue
    } else if i == 4 {
        Color::Magenta
    } else if i == 5 {
        Color::LightCyan
    } else if i == 6 {
        Color::LightGreen
    } else if i == 7 {
        Color::LightYellow
    } else if i == 8 {
        Color::LightBlue
    } else if i == 9 {
        Color::LightMagenta
    } else if i == 10 {
        Color::Rgb(255, 165, 0)
    } else if i == 11 {
        Color::Rgb(147, 112, 219)
    } else if i == 12 {
        Color::Rgb(64, 224, 208)
    } else if i == 13 {
        Color::Rgb(255, 105, 180)
    } else if i == 14 {
        Color::Rgb(50, 205, 50)
    } else {
        Color::Rgb(255, 215, 0)
    }
}

/// A stable color for a user name, from a hash of the name: one of the
/// sixteen palette colors, the same on every call for the same name.
pub fn username_color(username: &str) -> (c: Color)
    ensures
        c == palette_color(name_hash_of(username@)),
{
    let h = name_hash(username);
    color_for_hash(h)
}

} // verus!
