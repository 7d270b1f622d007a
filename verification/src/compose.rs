//! Preparing composed text for sending: `@name` mentions become Slack's
//! `<@USER_ID>` tokens.
use vstd::prelude::*;
use crate::text::{chars_of, index_of_from, lemma_index_of_from, find_char, string_of_range, push_range};
use crate::unicode::{is_unicode_whitespace, lowercase, to_lowercase};
use crate::messages::NameCache;
use crate::events::pairs_view;
use crate::formatting::views;

verus! {

/// ASCII punctuation: `!`-`/`, `:`-`@`, `[`-`` ` `` and `{`-`~`.
pub open spec fn is_ascii_punct(c: char) -> bool {
    ('!' <= c && c <= '/') || (':' <= c && c <= '@') || ('[' <= c && c <= '`') || ('{' <= c && c <= '~')
}

/// A character that ends a typed mention: whitespace or ASCII punctuation.
pub open spec fn ends_mention(c: char) -> bool {
    is_unicode_whitespace(c) || is_ascii_punct(c)
}

/// The end of a mention whose name starts at `i`.
pub open spec fn mention_end_from(s: Seq<char>, i: int) -> int
    decreases s.len() - i,
{
    if i < 0 || i >= s.len() {
        s.len() as int
    } else if ends_mention(s[i]) {
        i
    } else {
        mention_end_from(s, i + 1)
    }
}

/// The id of the user whose name, lower-cased, is `key` (the last such
/// entry of the cache).
pub open spec fn id_for_name(entries: Seq<(Seq<char>, Seq<char>)>, key: Seq<char>) -> Option<Seq<char>>
    decreases entries.len(),
{
    if entries.len() == 0 {
        None
    } else if lowercase(entries.last().1) == key {
        Some(entries.last().0)
    } else {
        id_for_name(entries.drop_last(), key)
    }
}

/// `s` from `pos` on with each `@name` of a known user (matched without
/// regard to case) replaced by `<@ID>`; other `@`s are kept.
pub open spec fn ids_from(s: Seq<char>, pos: int, users: Seq<(Seq<char>, Seq<char>)>) -> Seq<char>
    decreases s.len() - pos, 1int,
{
    if pos < 0 || pos > s.len() {
        Seq::empty()
    } else {
        match index_of_from(s, '@', pos) {
            None => s.subrange(pos, s.len() as int),
            Some(a) => {
                proof {
                    lemma_index_of_from(s, '@', pos);
                    lemma_mention_end(s, a + 1);
                }
                let e = mention_end_from(s, a + 1);
                if e > a + 1 {
                    match id_for_name(users, lowercase(s.subrange(a + 1, e))) {
                        Some(id) => s.subrange(pos, a) + "<@"@ + id + ">"@ + ids_from(s, e, users),
                        None => s.subrange(pos, a + 1) + ids_from(s, a + 1, users),
                    }
                } else {
                    s.subrange(pos, a + 1) + ids_from(s, a + 1, users)
                }
            },
        }
    }
}

/// Text without an `@` is sent exactly as typed.
pub proof fn law_text_without_mentions_unchanged(s: Seq<char>, users: Seq<(Seq<char>, Seq<char>)>)
    requires
        !s.contains('@'),
    ensures
        ids_from(s, 0, users) == s,
{
    lemma_index_of_from(s, '@', 0);
    if let Some(k) = index_of_from(s, '@', 0) {
        assert(s[k] == '@');
        assert(s.contains('@'));
    }
    assert(s.subrange(0, s.len() as int) =~= s);
}

pub proof fn lemma_mention_end(s: Seq<char>, i: int)
    requires
        0 <= i <= s.len(),
    ensures
        i <= mention_end_from(s, i) <= s.len(),
    decreases s.len() - i,
{
    if i < s.len() && !ends_mention(s[i]) {
        lemma_mention_end(s, i + 1);
    }
}

/// The char is ASCII punctuation; see `is_ascii_punct`.
fn is_ascii_punct_exec(c: char) -> (b: bool)
    ensures
        b == is_ascii_punct(c),
{
    ('!' <= c && c <= '/') || (':' <= c && c <= '@') || ('[' <= c && c <= '`') || ('{' <= c && c <= '~')
}

/// The end of the mention starting at `i`; see `mention_end_from`.
fn mention_end(v: &Vec<char>, i: usize) -> (r: usize)
    requires
        i <= v.len(),
    ensures
        r == mention_end_from(v@, i as int),
{
    proof {
        lemma_mention_end(v@, i as int);
    }
    let mut j = i;
    while j < v.len() && !(v[j].is_whitespace() || is_ascii_punct_exec(v[j]))
        invariant
            i <= j <= v.len(),
            mention_end_from(v@, j as int) == mention_end_from(v@, i as int),
        decreases v.len() - j,
    {
        j += 1;
    }
    j
}

/// The id for a lower-cased name; see `id_for_name`.
fn find_id(entries: &Vec<(String, String)>, lowered: &Vec<String>, key: &str) -> (r: Option<String>)
    requires
        lowered@.len() == entries@.len(),
        forall|i: int| 0 <= i < entries@.len() ==> #[trigger] lowered@[i]@ == lowercase(entries@[i].1@),
    ensures
        crate::text::option_view(r) == id_for_name(pairs_view(entries@), key@),
{
    let ghost pv = pairs_view(entries@);
    let mut i: usize = entries.len();
    assert(pv.take(i as int) =~= pv);
    while i > 0
        invariant
            i <= entries.len(),
            pv == pairs_view(entries@),
            lowered@.len() == entries@.len(),
            forall|i: int| 0 <= i < entries@.len() ==> #[trigger] lowered@[i]@ == lowercase(entries@[i].1@),
            id_for_name(pv.take(i as int), key@) == id_for_name(pv, key@),
        decreases i,
    {
        assert(pv.take(i as int).drop_last() =~= pv.take(i - 1));
        assert(lowered@[i - 1]@ == lowercase(entries@[i - 1].1@));
        if crate::events::str_eq(lowered[i - 1].as_str(), key) {
            return Some(entries[i - 1].0.clone());
        }
        i -= 1;
    }
    assert(pv.take(0) =~= Seq::<(Seq<char>, Seq<char>)>::empty());
    None
}

/// Replaces each `@name` of a known user in `text` by `<@ID>`, matching
/// names without regard to case; see `ids_from`.
pub fn convert_mentions_to_ids(text: &str, users: &NameCache) -> (r: String)
    ensures
        r@ == ids_from(text@, 0, pairs_view(users.entries@)),
{
    let ghost uv = pairs_view(users.entries@);
    let mut lowered: Vec<String> = Vec::new();
    let mut k: usize = 0;
    while k < users.entries.len()
        invariant
            k <= users.entries.len(),
            lowered@.len() == k,
            forall|i: int| 0 <= i < k ==> #[trigger] lowered@[i]@ == lowercase(users.entries@[i].1@),
        decreases users.entries.len() - k,
    {
        lowered.push(to_lowercase(users.entries[k].1.as_str()));
        k += 1;
    }
    let v = chars_of(text);
    let mut out = String::new();
    let mut pos: usize = 0;
    loop
        invariant
            pos <= v.len(),
            v@ == text@,
            uv == pairs_view(users.entries@),
            lowered@.len() == users.entries@.len(),
            forall|i: int| 0 <= i < users.entries@.len() ==> #[trigger] lowered@[i]@ == lowercase(users.entries@[i].1@),
            out@ + ids_from(v@, pos as int, uv) == ids_from(v@, 0, uv),
        decreases v.len() - pos, 0int,
    {
        proof {
            lemma_index_of_from(v@, '@', pos as int);
        }
        match find_char(&v, pos, '@') {
            None => {
                push_range(&mut out, &v, pos, v.len());
                return out;
            },
            Some(a) => {
                let e = mention_end(&v, a + 1);
                proof {
                    lemma_mention_end(v@, a + 1);
                }
                let ghost o0 = out@;
                if e > a + 1 {
                    let name = string_of_range(&v, a + 1, e);
                    let key = to_lowercase(name.as_str());
                    match find_id(&users.entries, &lowered, key.as_str()) {
                        Some(id) => {
                            push_range(&mut out, &v, pos, a);
                            out.push_str("<@");
                            out.push_str(id.as_str());
                            out.push_str(">");
                            assert(out@ =~= o0 + (v@.subrange(pos as int, a as int) + "<@"@ + id@ + ">"@));
                            pos = e;
                        },
                        None => {
                            push_range(&mut out, &v, pos, a + 1);
                            pos = a + 1;
                        },
                    }
                } else {
                    push_range(&mut out, &v, pos, a + 1);
                    pos = a + 1;
                }
            },
        }
    }
}


/// What sending the compose box of the focused pane leads to.
#[derive(Debug)]
pub enum Outgoing {
    /// Nothing is sent.
    Nothing,
    /// A slash command, for the command handler.
    Command(String),
    /// A message to post to a channel, or to a thread in it.
    Message { channel_id: String, text: String, thread_ts: Option<String> },
}

/// The text the user sends from a compose buffer.
pub open spec fn send_text(buffer: Seq<char>) -> Seq<char> {
    crate::ui::cards::trimmed(buffer)
}

/// The name the local echo shows for the user: the cached name, else `You`.
pub open spec fn echo_sender(users: Seq<(String, String)>, my_user_id: Seq<char>) -> Seq<char> {
    match crate::messages::lookup_in(users, my_user_id) {
        Some(n) => n,
        None => "You"@,
    }
}

/// The focused pane after a message is sent from it: the local echo
/// appended, following the newest message, the compose box emptied.
pub open spec fn pane_after_send(p: crate::widgets::PaneV, echo: crate::widgets::MessageV) -> crate::widgets::PaneV {
    crate::widgets::PaneV {
        msg_data: p.msg_data.push(echo),
        render_stale: true,
        scroll_offset: usize::MAX,
        input_buffer: Seq::empty(),
        input_cursor: 0,
        tab_complete_state: None,
        ..p
    }
}

/// Everything but the panes and the redraw flag is left as it was.
pub open spec fn same_but_panes(new: crate::events::ClientState, old: crate::events::ClientState) -> bool {
    &&& new.chats == old.chats
    &&& new.threads == old.threads
    &&& new.focused_pane_idx == old.focused_pane_idx
    &&& new.focus_on_chat_list == old.focus_on_chat_list
    &&& new.my_message_ts == old.my_message_ts
    &&& new.threads_dirty == old.threads_dirty
    &&& new.unread_dirty == old.unread_dirty
    &&& new.pending_refresh_chats == old.pending_refresh_chats
    &&& new.show_notifications == old.show_notifications
    &&& new.workspace_name == old.workspace_name
    &&& new.unread_mentions == old.unread_mentions
}

/// Takes the text of the focused pane's compose box: nothing happens when
/// it is blank; a text starting with `/` is a command; otherwise, when the
/// pane shows a channel, the text is posted there (to the pane's thread
/// when it shows one) with `@name` mentions turned into ids, a local echo
/// is shown at once (stamped with the clock reading `now_secs`), the text
/// is added to the history and the box is emptied.
pub fn prepare_send(
    st: &mut crate::events::ClientState,
    users: &NameCache,
    my_user_id: &str,
    next_echo_id: &mut u64,
    history: &mut Vec<String>,
    now_secs: i64,
) -> (r: Outgoing)
    requires
        old(st).focused_pane_idx < old(st).panes@.len(),
        *old(next_echo_id) < u64::MAX,
    ensures
        ({
            let f = old(st).focused_pane_idx as int;
            let p = old(st).panes@[f]@;
            let input = send_text(p.input_buffer);
            let sends = input.len() > 0 && input[0] != '/' && p.channel_id_str is Some;
            &&& input.len() == 0 ==> r is Nothing
            &&& (input.len() > 0 && input[0] == '/') ==> (r matches Outgoing::Command(c) && c@ == input)
            &&& (input.len() > 0 && input[0] != '/' && p.channel_id_str is None) ==> r is Nothing
            &&& !sends ==> *final(st) == *old(st) && *final(next_echo_id) == *old(next_echo_id) && final(history)@
                == old(history)@
            &&& sends ==> {
                &&& r matches Outgoing::Message { channel_id, text, thread_ts } && Some(channel_id@)
                    == p.channel_id_str && text@ == ids_from(input, 0, pairs_view(users.entries@))
                    && crate::text::option_view(thread_ts) == p.thread_ts
                &&& *final(next_echo_id) == *old(next_echo_id) + 1
                &&& views(final(history)@) == views(old(history)@).push(input)
                &&& final(st).panes@.len() == old(st).panes@.len()
                &&& forall|i: int| 0 <= i < old(st).panes@.len() && i != f ==> #[trigger] final(st).panes@[i] == old(st).panes@[i]
                &&& final(st).panes@[f]@ == pane_after_send(
                    p,
                    crate::messages::echo_view(
                        echo_sender(users.entries@, my_user_id@),
                        input,
                        *old(next_echo_id),
                        now_secs as int,
                    ),
                )
                &&& final(st).needs_redraw
                &&& same_but_panes(*final(st), *old(st))
            }
        }),
{
    let f = st.focused_pane_idx;
    let buf = chars_of(st.panes[f].input_buffer.as_str());
    let input_chars = crate::ui::cards::trimmed_exec(&buf);
    if input_chars.len() == 0 {
        return Outgoing::Nothing;
    }
    let input = crate::text::string_of(&input_chars);
    if input_chars[0] == '/' {
        return Outgoing::Command(input);
    }
    let channel = match &st.panes[f].channel_id_str {
        Some(c) => c.clone(),
        None => {
            return Outgoing::Nothing;
        },
    };
    let thread_ts = crate::text::copy_opt_string(&st.panes[f].thread_ts);
    let text = convert_mentions_to_ids(input.as_str(), users);
    let my_name = match users.get(my_user_id) {
        Some(n) => n,
        None => "You".to_string(),
    };
    let echo_id = *next_echo_id;
    *next_echo_id = echo_id + 1;
    let ghost name_v = my_name@;
    assert(name_v == echo_sender(users.entries@, my_user_id@));
    let echo = crate::messages::local_echo_message_data(my_name, crate::text::copy_string(&input), echo_id, now_secs);
    let ghost ev = echo@;
    let ghost old_panes = st.panes@;
    let mut pane = st.panes.remove(f);
    let ghost pv = pane@;
    pane.msg_data.push(echo);
    pane.render_stale = true;
    pane.scroll_offset = usize::MAX;
    pane.input_buffer = String::new();
    pane.input_cursor = 0;
    pane.tab_complete_state = None;
    assert(crate::widgets::messages_view(pane.msg_data@) =~= pv.msg_data.push(ev));
    assert(pane@ == pane_after_send(pv, ev));
    st.panes.insert(f, pane);
    assert(st.panes@[f as int]@ == pane_after_send(
        pv,
        crate::messages::echo_view(echo_sender(users.entries@, my_user_id@), input_chars@, echo_id, now_secs as int),
    ));
    assert(st.panes@ =~= old_panes.update(f as int, st.panes@[f as int]));
    st.needs_redraw = true;
    let ghost h0 = views(history@);
    history.push(input);
    assert(views(history@) =~= h0.push(input_chars@));
    Outgoing::Message { channel_id: channel, text, thread_ts }
}

/// Empties the focused pane's compose box after a command ran.
pub fn clear_compose(st: &mut crate::events::ClientState)
    requires
        old(st).focused_pane_idx < old(st).panes@.len(),
    ensures
        final(st).panes@.len() == old(st).panes@.len(),
        forall|i: int|
            0 <= i < old(st).panes@.len() && i != old(st).focused_pane_idx ==> #[trigger] final(st).panes@[i]
                == old(st).panes@[i],
        final(st).panes@[old(st).focused_pane_idx as int]@ == (crate::widgets::PaneV {
            input_buffer: Seq::empty(),
            input_cursor: 0,
            tab_complete_state: None,
            ..old(st).panes@[old(st).focused_pane_idx as int]@
        }),
        same_but_panes(*final(st), *old(st)),
        final(st).needs_redraw == old(st).needs_redraw,
{
    let f = st.focused_pane_idx;
    let mut pane = st.panes.remove(f);
    pane.input_buffer = String::new();
    pane.input_cursor = 0;
    pane.tab_complete_state = None;
    st.panes.insert(f, pane);
}

} // verus!
