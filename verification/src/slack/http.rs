//! Decisions around the Slack Web API: which conversations the sidebar lists
//! and how, and how paged listings continue.
use vstd::prelude::*;
use crate::text::{chars_of, option_view, join, join_strings, string_of_range};
use crate::unicode::is_unicode_whitespace;
use crate::formatting::views;
use crate::models::{ChatInfo, ChatSection, ChatV};
use crate::events::str_eq;
use super::types::{CachedUserInfo, Channel, User};

verus! {

/// The name shown for a user: the profile's display name when it is set
/// and non-empty, else the account name.
pub open spec fn user_display_name(u: User) -> Seq<char> {
    match u.profile {
        Some(p) => match p.display_name {
            Some(d) => if d@.len() > 0 {
                d@
            } else {
                u.name@
            },
            None => u.name@,
        },
        None => u.name@,
    }
}

/// The name shown for a user.
pub fn display_name_for_user(user: &User) -> (r: String)
    ensures
        r@ == user_display_name(*user),
{
    match &user.profile {
        Some(p) => match &p.display_name {
            Some(d) => if d.as_str().is_empty() {
                user.name.clone()
            } else {
                d.clone()
            },
            None => user.name.clone(),
        },
        None => user.name.clone(),
    }
}

/// The sidebar section of a conversation: group DMs, then DMs (with bots
/// apart), then shared, private and public channels.
pub open spec fn section_of(ch: Channel, dm_user: Option<CachedUserInfo>) -> ChatSection {
    if ch.is_mpim {
        ChatSection::Group
    } else if ch.is_im {
        if dm_user matches Some(u) && u.is_bot {
            ChatSection::Bot
        } else {
            ChatSection::DirectMessage
        }
    } else if ch.is_ext_shared || ch.is_shared || ch.is_org_shared {
        ChatSection::Shared
    } else if ch.is_private || ch.is_group {
        ChatSection::Private
    } else {
        ChatSection::Public
    }
}

/// The sidebar section of a conversation, given what is known of the other
/// user of a direct message.
pub fn chat_section_for(ch: &Channel, dm_user: &Option<CachedUserInfo>) -> (r: ChatSection)
    ensures
        r == section_of(*ch, *dm_user),
{
    if ch.is_mpim {
        ChatSection::Group
    } else if ch.is_im {
        let is_bot = match dm_user {
            Some(u) => u.is_bot,
            None => false,
        };
        if is_bot {
            ChatSection::Bot
        } else {
            ChatSection::DirectMessage
        }
    } else if ch.is_ext_shared || ch.is_shared || ch.is_org_shared {
        ChatSection::Shared
    } else if ch.is_private || ch.is_group {
        ChatSection::Private
    } else {
        ChatSection::Public
    }
}

/// Whether the sidebar lists a conversation: not archived, and not a direct
/// message with a deleted user.
pub open spec fn listed(ch: Channel, dm_user: Option<CachedUserInfo>) -> bool {
    !ch.is_archived && !(dm_user matches Some(u) && u.deleted)
}

/// Whether the sidebar lists a conversation.
pub fn is_listed(ch: &Channel, dm_user: &Option<CachedUserInfo>) -> (r: bool)
    ensures
        r == listed(*ch, *dm_user),
{
    if ch.is_archived {
        return false;
    }
    match dm_user {
        Some(u) => !u.deleted,
        None => true,
    }
}

/// A conversation's own name, or its id when it has none.
pub open spec fn own_name(ch: Channel) -> Seq<char> {
    match ch.name {
        Some(n) => n@,
        None => ch.id@,
    }
}

fn own_name_exec(ch: &Channel) -> (r: String)
    ensures
        r@ == own_name(*ch),
{
    match &ch.name {
        Some(n) => n.clone(),
        None => ch.id.clone(),
    }
}

/// Position of the first non-whitespace character at or after `i`.
pub open spec fn word_start(s: Seq<char>, i: int) -> int
    decreases s.len() - i,
{
    if i < 0 || i >= s.len() || !is_unicode_whitespace(s[i]) {
        i
    } else {
        word_start(s, i + 1)
    }
}

/// Position of the first whitespace character at or after `i`, or the end.
pub open spec fn word_end(s: Seq<char>, i: int) -> int
    decreases s.len() - i,
{
    if i < 0 || i >= s.len() || is_unicode_whitespace(s[i]) {
        i
    } else {
        word_end(s, i + 1)
    }
}

/// The first whitespace-separated word of `s`, or `s` itself when it holds
/// no word.
pub open spec fn first_word_of(s: Seq<char>) -> Seq<char> {
    let a = word_start(s, 0);
    if a >= s.len() {
        s
    } else {
        s.subrange(a, word_end(s, a))
    }
}

pub proof fn lemma_word_start_bounds(s: Seq<char>, i: int)
    requires
        0 <= i <= s.len(),
    ensures
        i <= word_start(s, i) <= s.len(),
{
    lemma_word_start(s, i);
}

proof fn lemma_word_start(s: Seq<char>, i: int)
    requires
        0 <= i <= s.len(),
    ensures
        i <= word_start(s, i) <= s.len(),
    decreases s.len() - i,
{
    if i < s.len() && is_unicode_whitespace(s[i]) {
        lemma_word_start(s, i + 1);
    }
}

proof fn lemma_word_end(s: Seq<char>, i: int)
    requires
        0 <= i <= s.len(),
    ensures
        i <= word_end(s, i) <= s.len(),
    decreases s.len() - i,
{
    if i < s.len() && !is_unicode_whitespace(s[i]) {
        lemma_word_end(s, i + 1);
    }
}

/// The first word of a name.
pub fn first_word(name: &str) -> (r: String)
    ensures
        r@ == first_word_of(name@),
{
    let v = chars_of(name);
    proof {
        lemma_word_start(v@, 0);
    }
    let mut a: usize = 0;
    while a < v.len() && v[a].is_whitespace()
        invariant
            a <= v.len(),
            word_start(v@, a as int) == word_start(v@, 0),
        decreases v.len() - a,
    {
        a += 1;
    }
    if a >= v.len() {
        return name.to_string();
    }
    proof {
        lemma_word_end(v@, a as int);
    }
    let mut b: usize = a;
    while b < v.len() && !v[b].is_whitespace()
        invariant
            a <= b <= v.len(),
            word_end(v@, b as int) == word_end(v@, a as int),
        decreases v.len() - b,
    {
        b += 1;
    }
    string_of_range(&v, a, b)
}

/// The name of a group DM: the first words of its other members' names,
/// joined with `, `; the conversation's own name when the members are
/// unknown or there are none.
pub open spec fn group_name_of(ch: Channel, member_names: Option<Seq<Seq<char>>>) -> Seq<char> {
    match member_names {
        Some(ns) => if ns.len() == 0 {
            own_name(ch)
        } else {
            join(Seq::new(ns.len(), |i: int| first_word_of(ns[i])), ", "@)
        },
        None => own_name(ch),
    }
}

/// The name of a group DM from the resolved names of its other members
/// (`None` when listing the members failed).
pub fn group_chat_name(ch: &Channel, member_names: &Option<Vec<String>>) -> (r: String)
    ensures
        r@ == group_name_of(*ch, match member_names {
            Some(v) => Some(views(v@)),
            None => None,
        }),
{
    match member_names {
        Some(ns) => {
            if ns.len() == 0 {
                return own_name_exec(ch);
            }
            let mut words: Vec<String> = Vec::new();
            let mut i: usize = 0;
            while i < ns.len()
                invariant
                    i <= ns.len(),
                    views(words@) =~= Seq::new(i as nat, |j: int| first_word_of(views(ns@)[j])),
                decreases ns.len() - i,
            {
                let w = first_word(ns[i].as_str());
                let ghost before = views(words@);
                words.push(w);
                assert(views(words@) =~= before.push(first_word_of(views(ns@)[i as int])));
                i += 1;
            }
            proof {
                reveal_strlit(", ");
            }
            join_strings(&words, ", ")
        },
        None => own_name_exec(ch),
    }
}

/// The members of a conversation other than the user.
pub open spec fn others_of(members: Seq<Seq<char>>, me: Seq<char>) -> Seq<Seq<char>>
    decreases members.len(),
{
    if members.len() == 0 {
        Seq::empty()
    } else {
        others_of(members.drop_last(), me) + if members.last() != me {
            seq![members.last()]
        } else {
            Seq::empty()
        }
    }
}

/// The members of a conversation other than the user, in order.
pub fn other_members(members: &Vec<String>, my_user_id: &str) -> (r: Vec<String>)
    ensures
        views(r@) == others_of(views(members@), my_user_id@),
{
    let ghost mv = views(members@);
    let mut r: Vec<String> = Vec::new();
    let mut i: usize = 0;
    while i < members.len()
        invariant
            i <= members.len(),
            mv == views(members@),
            views(r@) == others_of(mv.take(i as int), my_user_id@),
        decreases members.len() - i,
    {
        let ghost before = views(r@);
        assert(mv.take(i + 1).drop_last() =~= mv.take(i as int));
        if !str_eq(members[i].as_str(), my_user_id) {
            r.push(members[i].clone());
            assert(views(r@) =~= before.push(mv[i as int]));
        } else {
            assert(others_of(mv.take(i + 1), my_user_id@) =~= before);
        }
        i += 1;
    }
    assert(mv.take(members.len() as int) =~= mv);
    r
}

/// The name of a direct message: the other user's known name, else the
/// name resolved for its user id, else the conversation's own name.
pub open spec fn dm_name_of(ch: Channel, dm_user: Option<CachedUserInfo>, resolved: Option<Seq<char>>) -> Seq<char> {
    match dm_user {
        Some(u) => u.name@,
        None => if ch.user is Some && resolved is Some {
            resolved->0
        } else {
            own_name(ch)
        },
    }
}

/// The name of a direct message. `resolved` is the name looked up for the
/// conversation's user id when nothing else was known of that user.
pub fn dm_chat_name(ch: &Channel, dm_user: &Option<CachedUserInfo>, resolved: &Option<String>) -> (r: String)
    ensures
        r@ == dm_name_of(*ch, *dm_user, option_view(*resolved)),
{
    match dm_user {
        Some(u) => u.name.clone(),
        None => {
            if ch.user.is_some() {
                match resolved {
                    Some(n) => {
                        return n.clone();
                    },
                    None => {},
                }
            }
            own_name_exec(ch)
        },
    }
}

/// The sidebar entry of a listed conversation.
pub open spec fn chat_info_of(ch: Channel, is_member: bool, section: ChatSection, name: Seq<char>) -> ChatV {
    ChatV {
        id: ch.id@,
        name: name,
        username: match ch.user {
            Some(u) => Some(u@),
            None => Some(ch.id@),
        },
        unread: match ch.unread_count {
            Some(n) => n,
            None => 0,
        },
        section: section,
        is_member: is_member,
    }
}

/// The sidebar entry of a listed conversation with the given section and name.
pub fn chat_info_for(ch: &Channel, is_member: bool, section: ChatSection, name: String) -> (r: ChatInfo)
    ensures
        r@ == chat_info_of(*ch, is_member, section, name@),
{
    ChatInfo {
        id: ch.id.clone(),
        name,
        username: match &ch.user {
            Some(u) => Some(u.clone()),
            None => Some(ch.id.clone()),
        },
        unread: match ch.unread_count {
            Some(n) => n,
            None => 0,
        },
        section,
        is_member,
    }
}

/// Messages fetched per page for a request of `limit` messages: between 1 and 200.
pub fn page_size(limit: usize) -> (r: usize)
    ensures
        r == (if limit > 200 { 200 } else if limit < 1 { 1 } else { limit }),
{
    if limit > 200 {
        200
    } else if limit < 1 {
        1
    } else {
        limit
    }
}

/// Text made only of whitespace.
pub open spec fn blank_text(s: Seq<char>) -> bool {
    forall|i: int| 0 <= i < s.len() ==> is_unicode_whitespace(#[trigger] s[i])
}

/// The cursor of the next page: the one the response gives, unless it is
/// missing or blank.
pub fn next_page_cursor(next_cursor: Option<String>) -> (r: Option<String>)
    ensures
        r is Some <==> (next_cursor matches Some(c) && !blank_text(c@)),
        r matches Some(c) ==> next_cursor matches Some(n) && c@ == n@,
{
    match next_cursor {
        Some(c) => {
            let v = chars_of(c.as_str());
            let mut i: usize = 0;
            while i < v.len()
                invariant
                    i <= v.len(),
                    v@ == c@,
                    next_cursor matches Some(n) && n@ == c@,
                    forall|j: int| 0 <= j < i ==> is_unicode_whitespace(#[trigger] v@[j]),
                decreases v.len() - i,
            {
                if !v[i].is_whitespace() {
                    assert(!is_unicode_whitespace(c@[i as int]));
                    return Some(c);
                }
                i += 1;
            }
            None
        },
        None => None,
    }
}

/// What a paged listing does after a page arrives.
#[derive(Debug, PartialEq, Eq)]
pub enum PageStep {
    /// Enough items: keep the first `keep` and stop.
    Truncate { keep: usize },
    /// Ask for the page at this cursor.
    Continue { cursor: String },
    /// No more pages.
    Finish,
}

/// Decides what a history listing of at most `limit` messages does once
/// `collected` messages have arrived and the response gave `next_cursor`.
pub fn page_step(collected: usize, limit: usize, next_cursor: Option<String>) -> (r: PageStep)
    ensures
        collected >= limit ==> r == (PageStep::Truncate { keep: limit }),
        collected < limit ==> match r {
            PageStep::Continue { cursor } => next_cursor matches Some(c) && !blank_text(c@) && cursor@ == c@,
            PageStep::Finish => !(next_cursor matches Some(c) && !blank_text(c@)),
            PageStep::Truncate { .. } => false,
        },
{
    if collected >= limit {
        return PageStep::Truncate { keep: limit };
    }
    match next_page_cursor(next_cursor) {
        Some(c) => PageStep::Continue { cursor: c },
        None => PageStep::Finish,
    }
}

/// A copy of a conversation listing.
pub fn copy_channel(c: &Channel) -> (r: Channel)
    ensures
        r == *c,
{
    Channel {
        id: c.id.clone(),
        name: match &c.name {
            Some(n) => Some(n.clone()),
            None => None,
        },
        user: match &c.user {
            Some(u) => Some(u.clone()),
            None => None,
        },
        is_group: c.is_group,
        is_im: c.is_im,
        is_mpim: c.is_mpim,
        is_private: c.is_private,
        is_archived: c.is_archived,
        is_member: c.is_member,
        is_shared: c.is_shared,
        is_ext_shared: c.is_ext_shared,
        is_org_shared: c.is_org_shared,
        unread_count: c.unread_count,
    }
}

/// The last of the first `n` listings with id `id`.
pub open spec fn last_with_id(cs: Seq<Channel>, id: Seq<char>, n: int) -> Option<int>
    decreases n,
{
    if n <= 0 {
        None
    } else if cs[n - 1].id@ == id {
        Some(n - 1)
    } else {
        last_with_id(cs, id, n - 1)
    }
}

/// The first of the first `n` unarchived listings with id `id`.
pub open spec fn first_open_with_id(cs: Seq<Channel>, id: Seq<char>, n: int) -> Option<int>
    decreases n,
{
    if n <= 0 {
        None
    } else {
        match first_open_with_id(cs, id, n - 1) {
            Some(k) => Some(k),
            None => if !cs[n - 1].is_archived && cs[n - 1].id@ == id {
                Some(n - 1)
            } else {
                None
            },
        }
    }
}

/// The sidebar entry for conversation `id` after merging the first `n`
/// member listings and the first `m` public listings: the last member
/// listing (as a member), else the first unarchived public listing (as a
/// non-member).
pub open spec fn merged_upto(member: Seq<Channel>, public: Seq<Channel>, id: Seq<char>, n: int, m: int) -> Option<(Channel, bool)> {
    match last_with_id(member, id, n) {
        Some(k) => Some((member[k], true)),
        None => match first_open_with_id(public, id, m) {
            Some(k) => Some((public[k], false)),
            None => None,
        },
    }
}

/// The sidebar entry for conversation `id`.
pub open spec fn merged_entry(member: Seq<Channel>, public: Seq<Channel>, id: Seq<char>) -> Option<(Channel, bool)> {
    merged_upto(member, public, id, member.len() as int, public.len() as int)
}

/// `out` holds, once per conversation id, exactly the merged entries.
pub open spec fn merge_holds(out: Seq<(Channel, bool)>, member: Seq<Channel>, public: Seq<Channel>, n: int, m: int) -> bool {
    &&& forall|p: int, q: int| 0 <= p < q < out.len() ==> out[p].0.id@ != out[q].0.id@
    &&& forall|q: int| 0 <= q < out.len() ==> merged_upto(member, public, (#[trigger] out[q]).0.id@, n, m) == Some(out[q])
    &&& forall|id: Seq<char>| (#[trigger] merged_upto(member, public, id, n, m)) is Some ==> exists|q: int| 0 <= q < out.len() && (#[trigger] out[q]).0.id@ == id
}

proof fn lemma_last_with_id(cs: Seq<Channel>, id: Seq<char>, n: int)
    requires
        0 <= n <= cs.len(),
    ensures
        last_with_id(cs, id, n) matches Some(k) ==> 0 <= k < n && cs[k].id@ == id,
    decreases n,
{
    if n > 0 && cs[n - 1].id@ != id {
        lemma_last_with_id(cs, id, n - 1);
    }
}

proof fn lemma_first_open(cs: Seq<Channel>, id: Seq<char>, n: int)
    requires
        0 <= n <= cs.len(),
    ensures
        first_open_with_id(cs, id, n) matches Some(k) ==> 0 <= k < n && cs[k].id@ == id && !cs[k].is_archived,
    decreases n,
{
    if n > 0 {
        lemma_first_open(cs, id, n - 1);
    }
}

fn find_id(out: &Vec<(Channel, bool)>, id: &str) -> (r: Option<usize>)
    ensures
        r matches Some(p) ==> p < out@.len() && out@[p as int].0.id@ == id@,
        r is None ==> forall|q: int| 0 <= q < out@.len() ==> (#[trigger] out@[q]).0.id@ != id@,
{
    let mut i: usize = 0;
    while i < out.len()
        invariant
            i <= out.len(),
            forall|q: int| 0 <= q < i ==> (#[trigger] out@[q]).0.id@ != id@,
        decreases out.len() - i,
    {
        if str_eq(out[i].0.id.as_str(), id) {
            return Some(i);
        }
        i += 1;
    }
    None
}

/// Merges the conversations the user is a member of with the workspace's
/// public channels, once per id: a member listing wins (the last one when
/// listed twice) and is marked as joined; archived public channels are
/// left out. The order of the entries is not specified.
#[verifier::spinoff_prover]
#[verifier::rlimit(50)]
pub fn merge_channels_for_sidebar(member: Vec<Channel>, public: Vec<Channel>) -> (r: Vec<(Channel, bool)>)
    ensures
        forall|p: int, q: int| 0 <= p < q < r@.len() ==> r@[p].0.id@ != r@[q].0.id@,
        forall|q: int| 0 <= q < r@.len() ==> merged_entry(member@, public@, (#[trigger] r@[q]).0.id@) == Some(r@[q]),
        forall|id: Seq<char>| (#[trigger] merged_entry(member@, public@, id)) is Some ==> exists|q: int| 0 <= q < r@.len() && (#[trigger] r@[q]).0.id@ == id,
{
    let ghost ms = member@;
    let ghost ps = public@;
    let mut out: Vec<(Channel, bool)> = Vec::new();
    let mut i: usize = 0;
    while i < member.len()
        invariant
            i <= member.len(),
            ms == member@,
            ps == public@,
            merge_holds(out@, ms, ps, i as int, 0),
        decreases member.len() - i,
    {
        let c = copy_channel(&member[i]);
        let ghost before = out@;
        proof {
            lemma_last_with_id(ms, ms[i as int].id@, i as int);
        }
        match find_id(&out, member[i].id.as_str()) {
            Some(p) => {
                out.remove(p);
                out.insert(p, (c, true));
                assert(out@ =~= before.update(p as int, (ms[i as int], true)));
            },
            None => {
                out.push((c, true));
            },
        }
        proof {
            let o = out@;
            let nid = ms[i as int].id@;
            assert forall|q: int| 0 <= q < o.len() implies merged_upto(ms, ps, (#[trigger] o[q]).0.id@, i + 1, 0) == Some(o[q]) by {
                if o[q].0.id@ != nid {
                    assert(o[q] == before[q]);
                    assert(merged_upto(ms, ps, before[q].0.id@, i as int, 0) == Some(before[q]));
                }
            }
            assert forall|id: Seq<char>| (#[trigger] merged_upto(ms, ps, id, i + 1, 0)) is Some implies exists|q: int| 0 <= q < o.len() && (#[trigger] o[q]).0.id@ == id by {
                if id == nid {
                    if before.len() < o.len() {
                        assert(o[o.len() - 1].0.id@ == id);
                    } else {
                        let p = choose|p: int| 0 <= p < before.len() && before[p].0.id@ == nid;
                        assert(o[p].0.id@ == id);
                    }
                } else {
                    assert(merged_upto(ms, ps, id, i as int, 0) is Some);
                    let q = choose|q: int| 0 <= q < before.len() && (#[trigger] before[q]).0.id@ == id;
                    assert(o[q].0.id@ == id);
                }
            }
        }
        i += 1;
    }
    let mut j: usize = 0;
    while j < public.len()
        invariant
            j <= public.len(),
            ms == member@,
            ps == public@,
            merge_holds(out@, ms, ps, ms.len() as int, j as int),
        decreases public.len() - j,
    {
        let ghost before = out@;
        let ghost nid = ps[j as int].id@;
        proof {
            lemma_first_open(ps, nid, j as int);
            lemma_last_with_id(ms, nid, ms.len() as int);
        }
        if !public[j].is_archived {
            match find_id(&out, public[j].id.as_str()) {
                Some(_) => {},
                None => {
                    let c = copy_channel(&public[j]);
                    out.push((c, false));
                },
            }
        }
        proof {
            let o = out@;
            assert forall|q: int| 0 <= q < o.len() implies merged_upto(ms, ps, (#[trigger] o[q]).0.id@, ms.len() as int, j + 1) == Some(o[q]) by {
                if q < before.len() {
                    assert(merged_upto(ms, ps, before[q].0.id@, ms.len() as int, j as int) == Some(before[q]));
                }
            }
            assert forall|id: Seq<char>| (#[trigger] merged_upto(ms, ps, id, ms.len() as int, j + 1)) is Some implies exists|q: int| 0 <= q < o.len() && (#[trigger] o[q]).0.id@ == id by {
                if merged_upto(ms, ps, id, ms.len() as int, j as int) is Some {
                    let q = choose|q: int| 0 <= q < before.len() && (#[trigger] before[q]).0.id@ == id;
                    assert(o[q].0.id@ == id);
                } else {
                    assert(id == nid);
                    assert(o[o.len() - 1].0.id@ == id);
                }
            }
        }
        j += 1;
    }
    out
}

} // verus!
