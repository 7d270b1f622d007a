//! Applying realtime Slack updates to the client's chats, threads and panes.
use vstd::prelude::*;
use crate::text::{chars_of, seq_eq, option_view};
use crate::widgets::{AttachmentCard, ChatPane, MessageData, MessageV, PaneV, copy_message, messages_view, panes_view};
use crate::slack::types::{SlackFile, SlackUpdate};
use crate::messages::{realtime_message_to_message_data, realtime_view};
use crate::models::{ChatInfo, ChatSection, ChatV, ThreadInfo, ThreadV, chats_view, threads_view};

verus! {

/// Minimum time between two saves of unread counters and threads, in milliseconds.
pub const UNREAD_SAVE_DEBOUNCE_MS: u64 = 5000;

/// `a` and `b` spell the same text.
pub fn str_eq(a: &str, b: &str) -> (r: bool)
    ensures
        r == (a@ == b@),
{
    let va = chars_of(a);
    let vb = chars_of(b);
    seq_eq(&va, &vb)
}

/// `o` holds a text equal to `s`.
pub fn opt_eq_str(o: &Option<String>, s: &str) -> (r: bool)
    ensures
        r == (option_view(*o) == Some(s@)),
{
    match o {
        Some(t) => str_eq(t.as_str(), s),
        None => false,
    }
}

/// True when `thread_ts` points at a parent message other than this message's own `ts`.
pub fn is_thread_reply(ts: &str, thread_ts: &Option<String>) -> (r: bool)
    ensures
        r == (thread_ts matches Some(t) && t@ != ts@),
{
    match thread_ts {
        Some(t) => !str_eq(t.as_str(), ts),
        None => false,
    }
}

/// Thread unread is bumped for replies from others while the thread is not focused.
pub fn should_bump_thread_unread(is_self: bool, in_focused_thread: bool) -> (r: bool)
    ensures
        r == (!is_self && !in_focused_thread),
{
    !is_self && !in_focused_thread
}

/// Whether a thread reply should appear in the Threads sidebar section.
pub fn thread_concerns_me(
    on_my_message: bool,
    mentions_me: bool,
    already_known: bool,
    i_replied_now: bool,
) -> (r: bool)
    ensures
        r == (on_my_message || mentions_me || already_known || i_replied_now),
{
    on_my_message || mentions_me || already_known || i_replied_now
}

/// Whether a debounced save of unread counters and threads is due at time
/// `now`, given the time of the last save (both in milliseconds of one
/// monotonic clock). A clock that went backwards counts as no time passed.
pub fn debounced_save_due(last_save: Option<u64>, now: u64) -> (r: bool)
    ensures
        r == (match last_save {
            None => true,
            Some(t) => now >= t && now - t >= UNREAD_SAVE_DEBOUNCE_MS,
        }),
{
    match last_save {
        None => true,
        Some(t) => now >= t && now - t >= UNREAD_SAVE_DEBOUNCE_MS,
    }
}

/// `c + 1`, staying at the maximum.
pub open spec fn sat_inc(c: u32) -> u32 {
    if c == u32::MAX {
        c
    } else {
        (c + 1) as u32
    }
}

/// The first message at or after `i` with timestamp `ts`.
pub open spec fn first_ts_from(ms: Seq<MessageV>, ts: Seq<char>, i: int) -> Option<int>
    decreases ms.len() - i,
{
    if i < 0 || i >= ms.len() {
        None
    } else if ms[i].ts == ts {
        Some(i)
    } else {
        first_ts_from(ms, ts, i + 1)
    }
}

/// The first message with timestamp `ts`.
pub open spec fn first_with_ts(ms: Seq<MessageV>, ts: Seq<char>) -> Option<int> {
    first_ts_from(ms, ts, 0)
}

proof fn lemma_first_ts_from(ms: Seq<MessageV>, ts: Seq<char>, i: int)
    requires
        0 <= i <= ms.len(),
    ensures
        match first_ts_from(ms, ts, i) {
            Some(k) => i <= k < ms.len() && ms[k].ts == ts && forall|j: int| i <= j < k ==> ms[j].ts != ts,
            None => forall|j: int| i <= j < ms.len() ==> ms[j].ts != ts,
        },
    decreases ms.len() - i,
{
    if i < ms.len() && ms[i].ts != ts {
        lemma_first_ts_from(ms, ts, i + 1);
    }
}

/// `m` is a local echo of an own message with text `text`.
pub open spec fn is_echo_of(m: MessageV, text: Seq<char>) -> bool {
    m.text == text && m.is_outgoing && m.local_echo_id is Some
}

/// The newest local echo with text `text`.
pub open spec fn last_echo(ms: Seq<MessageV>, text: Seq<char>) -> Option<int>
    decreases ms.len(),
{
    if ms.len() == 0 {
        None
    } else if is_echo_of(ms.last(), text) {
        Some(ms.len() - 1)
    } else {
        last_echo(ms.drop_last(), text)
    }
}

proof fn lemma_last_echo(ms: Seq<MessageV>, text: Seq<char>)
    ensures
        match last_echo(ms, text) {
            Some(k) => 0 <= k < ms.len() && is_echo_of(ms[k], text)
                && forall|j: int| k < j < ms.len() ==> !is_echo_of(ms[j], text),
            None => forall|j: int| 0 <= j < ms.len() ==> !is_echo_of(ms[j], text),
        },
    decreases ms.len(),
{
    if ms.len() > 0 && !is_echo_of(ms.last(), text) {
        let d = ms.drop_last();
        lemma_last_echo(d, text);
        assert forall|j: int| 0 <= j < d.len() implies d[j] == ms[j] by {}
    }
}

/// The messages with the newest local echo of `text` dropped, for an own message.
pub open spec fn without_echo(ms: Seq<MessageV>, text: Seq<char>, is_self: bool) -> Seq<MessageV> {
    if is_self {
        match last_echo(ms, text) {
            Some(k) => ms.remove(k),
            None => ms,
        }
    } else {
        ms
    }
}

/// The messages with the reply count of the first message stamped `root` raised by one.
pub open spec fn bump_reply(ms: Seq<MessageV>, root: Seq<char>) -> Seq<MessageV> {
    match first_with_ts(ms, root) {
        Some(k) => ms.update(
            k,
            MessageV {
                sender_name: ms[k].sender_name,
                text: ms[k].text,
                is_outgoing: ms[k].is_outgoing,
                ts: ms[k].ts,
                reactions: ms[k].reactions,
                reply_count: sat_inc(ms[k].reply_count),
                cards: ms[k].cards,
                mentions_me: ms[k].mentions_me,
                local_echo_id: ms[k].local_echo_id,
                is_edited: ms[k].is_edited,
                is_deleted: ms[k].is_deleted,
                media_type: ms[k].media_type,
                file_ids: ms[k].file_ids,
                file_urls: ms[k].file_urls,
                file_names: ms[k].file_names,
            },
        ),
        None => ms,
    }
}

/// A pane with its messages replaced.
pub open spec fn with_messages(p: PaneV, ms: Seq<MessageV>, stale: bool, scroll: usize) -> PaneV {
    PaneV {
        channel_id_str: p.channel_id_str,
        thread_ts: p.thread_ts,
        chat_name: p.chat_name,
        msg_data: ms,
        scroll_offset: scroll,
        input_buffer: p.input_buffer,
        input_cursor: p.input_cursor,
        tab_complete_state: p.tab_complete_state,
        reply_to_message: p.reply_to_message,
        typing_user: p.typing_user,
        render_stale: stale,
    }
}

/// A pane after a new message `m` is appended: a local echo it replaces
/// is dropped, and the view follows the newest message.
pub open spec fn appended(p: PaneV, m: MessageV, is_self: bool) -> PaneV {
    with_messages(p, without_echo(p.msg_data, m.text, is_self).push(m), true, usize::MAX as usize)
}

/// A pane after a new message `m` of channel `channel` arrives, and whether
/// the pane now shows it. A pane on the message's thread, or a channel pane
/// for a message outside threads, appends it unless a message with its
/// timestamp is already there; a channel pane counts a reply against its
/// parent message `root`.
pub open spec fn delivered(
    p: PaneV,
    m: MessageV,
    channel: Seq<char>,
    thread_ts: Option<Seq<char>>,
    is_self: bool,
    is_reply: bool,
    root: Seq<char>,
) -> (PaneV, bool) {
    if p.channel_id_str != Some(channel) {
        (p, false)
    } else {
        match p.thread_ts {
            Some(pt) => if thread_ts == Some(pt) && first_with_ts(p.msg_data, m.ts) is None {
                (appended(p, m, is_self), true)
            } else {
                (p, false)
            },
            None => if is_reply {
                (with_messages(p, bump_reply(p.msg_data, root), p.render_stale, p.scroll_offset), false)
            } else if first_with_ts(p.msg_data, m.ts) is None {
                (appended(p, m, is_self), true)
            } else {
                (p, false)
            },
        }
    }
}

/// Position of the first message stamped `ts`.
fn find_ts(ms: &Vec<MessageData>, ts: &str) -> (r: Option<usize>)
    ensures
        r == (match first_with_ts(messages_view(ms@), ts@) {
            Some(k) => Some(k as usize),
            None => None::<usize>,
        }),
{
    let ghost mv = messages_view(ms@);
    let mut i: usize = 0;
    while i < ms.len()
        invariant
            i <= ms.len(),
            mv == messages_view(ms@),
            first_ts_from(mv, ts@, i as int) == first_with_ts(mv, ts@),
        decreases ms.len() - i,
    {
        if str_eq(ms[i].ts.as_str(), ts) {
            return Some(i);
        }
        i += 1;
    }
    None
}

/// Position of the newest local echo of `text`.
fn find_last_echo(ms: &Vec<MessageData>, text: &str) -> (r: Option<usize>)
    ensures
        r == (match last_echo(messages_view(ms@), text@) {
            Some(k) => Some(k as usize),
            None => None::<usize>,
        }),
{
    let ghost mv = messages_view(ms@);
    assert(mv.take(ms.len() as int) =~= mv);
    let mut j: usize = ms.len();
    while j > 0
        invariant
            j <= ms.len(),
            mv == messages_view(ms@),
            last_echo(mv.take(j as int), text@) == last_echo(mv, text@),
        decreases j,
    {
        assert(mv.take(j as int).drop_last() =~= mv.take(j - 1));
        if ms[j - 1].is_outgoing && ms[j - 1].local_echo_id.is_some() && str_eq(
            ms[j - 1].text.as_str(),
            text,
        ) {
            return Some(j - 1);
        }
        j -= 1;
    }
    None
}

/// Raises the reply count of the first message stamped `root`.
fn bump_reply_count(ms: &mut Vec<MessageData>, root: &str)
    ensures
        messages_view(final(ms)@) == bump_reply(messages_view(old(ms)@), root@),
{
    proof {
        lemma_first_ts_from(messages_view(ms@), root@, 0);
    }
    assert(ms@.len() == ms.len());
    match find_ts(ms, root) {
        Some(k) => {
            let ghost before = ms@;
            let mut m = ms.remove(k);
            m.reply_count = if m.reply_count == u32::MAX {
                m.reply_count
            } else {
                m.reply_count + 1
            };
            let ghost mg = m;
            ms.insert(k, m);
            assert(ms@ =~= before.update(k as int, mg));
            assert(messages_view(ms@) =~= messages_view(before).update(k as int, mg@));
            assert(mg@.reactions =~= before[k as int]@.reactions);
            let ghost bv = messages_view(before);
            assert(bv[k as int] == before[k as int]@);
            assert(first_with_ts(bv, root@) == Some(k as int));
            assert(mg@.reply_count == sat_inc(bv[k as int].reply_count));
            assert(mg@ == MessageV {
                sender_name: bv[k as int].sender_name,
                text: bv[k as int].text,
                is_outgoing: bv[k as int].is_outgoing,
                ts: bv[k as int].ts,
                reactions: bv[k as int].reactions,
                reply_count: sat_inc(bv[k as int].reply_count),
                cards: bv[k as int].cards,
                mentions_me: bv[k as int].mentions_me,
                local_echo_id: bv[k as int].local_echo_id,
                is_edited: bv[k as int].is_edited,
                is_deleted: bv[k as int].is_deleted,
                media_type: bv[k as int].media_type,
                file_ids: bv[k as int].file_ids,
                file_urls: bv[k as int].file_urls,
                file_names: bv[k as int].file_names,
            });
            assert(messages_view(ms@) =~= bump_reply(messages_view(before), root@));
        },
        None => {},
    }
}

/// Appends `msg`, first dropping the newest local echo of its text when it
/// is an own message.
fn append_message(ms: &mut Vec<MessageData>, msg: &MessageData, is_self: bool)
    ensures
        messages_view(final(ms)@) == without_echo(messages_view(old(ms)@), msg@.text, is_self).push(
            msg@,
        ),
{
    let ghost before = ms@;
    assert(ms@.len() == ms.len());
    proof {
        lemma_last_echo(messages_view(ms@), msg.text@);
    }
    if is_self {
        match find_last_echo(ms, msg.text.as_str()) {
            Some(k) => {
                ms.remove(k);
                assert(messages_view(ms@) =~= messages_view(before).remove(k as int));
            },
            None => {},
        }
    }
    let ghost mid = ms@;
    ms.push(copy_message(msg));
    assert(messages_view(ms@) =~= messages_view(mid).push(msg@));
}

/// Delivers a new message to one pane; returns whether the pane now shows it.
pub fn deliver_to_pane(
    pane: &mut ChatPane,
    msg: &MessageData,
    channel_id: &str,
    thread_ts: &Option<String>,
    is_self: bool,
    is_reply: bool,
    root: &str,
) -> (seen: bool)
    ensures
        (final(pane)@, seen) == delivered(
            old(pane)@,
            msg@,
            channel_id@,
            option_view(*thread_ts),
            is_self,
            is_reply,
            root@,
        ),
{
    if !opt_eq_str(&pane.channel_id_str, channel_id) {
        return false;
    }
    let for_thread = match &pane.thread_ts {
        Some(pt) => Some(opt_eq_str(thread_ts, pt.as_str())),
        None => None,
    };
    match for_thread {
        Some(same_thread) => {
            if !same_thread {
                return false;
            }
        },
        None => {
            if is_reply {
                bump_reply_count(&mut pane.msg_data, root);
                return false;
            }
        },
    }
    if find_ts(&pane.msg_data, msg.ts.as_str()).is_some() {
        return false;
    }
    append_message(&mut pane.msg_data, msg, is_self);
    pane.render_stale = true;
    pane.scroll_offset = usize::MAX;
    true
}

/// Every pane after a new message arrives.
pub open spec fn delivered_all(
    ps: Seq<PaneV>,
    m: MessageV,
    channel: Seq<char>,
    thread_ts: Option<Seq<char>>,
    is_self: bool,
    is_reply: bool,
    root: Seq<char>,
) -> Seq<PaneV> {
    Seq::new(ps.len(), |i: int| delivered(ps[i], m, channel, thread_ts, is_self, is_reply, root).0)
}

/// Some pane shows a new message after it arrives.
pub open spec fn seen_anywhere(
    ps: Seq<PaneV>,
    m: MessageV,
    channel: Seq<char>,
    thread_ts: Option<Seq<char>>,
    is_self: bool,
    is_reply: bool,
    root: Seq<char>,
) -> bool {
    exists|i: int| 0 <= i < ps.len() && (#[trigger] delivered(ps[i], m, channel, thread_ts, is_self, is_reply, root)).1
}

/// Delivers a new message to every pane; returns whether some pane now shows it.
pub fn deliver_to_panes(
    panes: &mut Vec<ChatPane>,
    msg: &MessageData,
    channel_id: &str,
    thread_ts: &Option<String>,
    is_self: bool,
    is_reply: bool,
    root: &str,
) -> (seen: bool)
    ensures
        panes_view(final(panes)@) == delivered_all(
            panes_view(old(panes)@),
            msg@,
            channel_id@,
            option_view(*thread_ts),
            is_self,
            is_reply,
            root@,
        ),
        seen == seen_anywhere(
            panes_view(old(panes)@),
            msg@,
            channel_id@,
            option_view(*thread_ts),
            is_self,
            is_reply,
            root@,
        ),
{
    let ghost ps = panes_view(panes@);
    let ghost tt = option_view(*thread_ts);
    let mut seen = false;
    let mut i: usize = 0;
    while i < panes.len()
        invariant
            i <= panes.len(),
            panes.len() == ps.len(),
            tt == option_view(*thread_ts),
            forall|j: int| 0 <= j < i ==> (#[trigger] panes@[j])@ == delivered(ps[j], msg@, channel_id@, tt, is_self, is_reply, root@).0,
            forall|j: int| i <= j < panes.len() ==> (#[trigger] panes@[j])@ == ps[j],
            seen == exists|j: int| 0 <= j < i && (#[trigger] delivered(ps[j], msg@, channel_id@, tt, is_self, is_reply, root@)).1,
        decreases ps.len() - i,
    {
        let ghost before = panes@;
        assert(before[i as int]@ == ps[i as int]);
        let mut p = panes.remove(i);
        let s = deliver_to_pane(&mut p, msg, channel_id, thread_ts, is_self, is_reply, root);
        let ghost pg = p;
        panes.insert(i, p);
        assert(panes@ =~= before.update(i as int, pg));
        proof {
            if s {
                assert(delivered(ps[i as int], msg@, channel_id@, tt, is_self, is_reply, root@).1);
            }
        }
        seen = seen || s;
        i += 1;
    }
    assert(panes_view(panes@) =~= delivered_all(ps, msg@, channel_id@, tt, is_self, is_reply, root@));
    seen
}

/// The client state that realtime updates change.
#[derive(Debug)]
pub struct ClientState {
    pub chats: Vec<ChatInfo>,
    pub threads: Vec<ThreadInfo>,
    pub panes: Vec<ChatPane>,
    pub focused_pane_idx: usize,
    pub focus_on_chat_list: bool,
    /// `(channel, ts)` of messages the user sent.
    pub my_message_ts: Vec<(String, String)>,
    pub threads_dirty: bool,
    pub unread_dirty: bool,
    pub pending_refresh_chats: bool,
    pub needs_redraw: bool,
    pub show_notifications: bool,
    /// Name of the active workspace.
    pub workspace_name: String,
    /// Unread mention counts by workspace name.
    pub unread_mentions: Vec<(String, u32)>,
}

/// The contents of a list of string pairs.
pub open spec fn pairs_view(v: Seq<(String, String)>) -> Seq<(Seq<char>, Seq<char>)> {
    Seq::new(v.len(), |i: int| (v[i].0@, v[i].1@))
}

/// The contents of a list of counters.
pub open spec fn counts_view(v: Seq<(String, u32)>) -> Seq<(Seq<char>, u32)> {
    Seq::new(v.len(), |i: int| (v[i].0@, v[i].1))
}

/// Records that the user sent the message `ts` in `channel`.
pub fn remember_my_message(mine: &mut Vec<(String, String)>, channel_id: &str, ts: &str)
    ensures
        pairs_view(final(mine)@) == if pairs_view(old(mine)@).contains((channel_id@, ts@)) {
            pairs_view(old(mine)@)
        } else {
            pairs_view(old(mine)@).push((channel_id@, ts@))
        },
{
    let ghost pv = pairs_view(mine@);
    let mut i: usize = 0;
    while i < mine.len()
        invariant
            i <= mine.len(),
            pv == pairs_view(mine@),
            forall|j: int| 0 <= j < i ==> pv[j] != (channel_id@, ts@),
        decreases mine.len() - i,
    {
        if str_eq(mine[i].0.as_str(), channel_id) && str_eq(mine[i].1.as_str(), ts) {
            assert(pv[i as int] == (channel_id@, ts@));
            return;
        }
        i += 1;
    }
    mine.push((channel_id.to_string(), ts.to_string()));
    assert(pairs_view(mine@) =~= pv.push((channel_id@, ts@)));
}

fn contains_pair(mine: &Vec<(String, String)>, a: &str, b: &str) -> (r: bool)
    ensures
        r == pairs_view(mine@).contains((a@, b@)),
{
    let ghost pv = pairs_view(mine@);
    let mut i: usize = 0;
    while i < mine.len()
        invariant
            i <= mine.len(),
            pv == pairs_view(mine@),
            forall|j: int| 0 <= j < i ==> pv[j] != (a@, b@),
        decreases mine.len() - i,
    {
        if str_eq(mine[i].0.as_str(), a) && str_eq(mine[i].1.as_str(), b) {
            assert(pv[i as int] == (a@, b@));
            return true;
        }
        i += 1;
    }
    false
}

/// The first thread entry at or after `i` for `parent` in `channel`.
pub open spec fn thread_from(ts: Seq<ThreadV>, channel: Seq<char>, parent: Seq<char>, i: int) -> Option<int>
    decreases ts.len() - i,
{
    if i < 0 || i >= ts.len() {
        None
    } else if ts[i].channel_id == channel && ts[i].thread_ts == parent {
        Some(i)
    } else {
        thread_from(ts, channel, parent, i + 1)
    }
}

/// The first thread entry for `parent` in `channel`.
pub open spec fn find_thread(ts: Seq<ThreadV>, channel: Seq<char>, parent: Seq<char>) -> Option<int> {
    thread_from(ts, channel, parent, 0)
}

proof fn lemma_thread_from(ts: Seq<ThreadV>, channel: Seq<char>, parent: Seq<char>, i: int)
    requires
        0 <= i <= ts.len(),
    ensures
        match thread_from(ts, channel, parent, i) {
            Some(k) => i <= k < ts.len() && ts[k].channel_id == channel && ts[k].thread_ts == parent,
            None => true,
        },
    decreases ts.len() - i,
{
    if i < ts.len() && !(ts[i].channel_id == channel && ts[i].thread_ts == parent) {
        lemma_thread_from(ts, channel, parent, i + 1);
    }
}

/// The first chat entry at or after `i` with id `id`.
pub open spec fn chat_from(cs: Seq<ChatV>, id: Seq<char>, i: int) -> Option<int>
    decreases cs.len() - i,
{
    if i < 0 || i >= cs.len() {
        None
    } else if cs[i].id == id {
        Some(i)
    } else {
        chat_from(cs, id, i + 1)
    }
}

/// The first chat entry with id `id`.
pub open spec fn find_chat(cs: Seq<ChatV>, id: Seq<char>) -> Option<int> {
    chat_from(cs, id, 0)
}

proof fn lemma_chat_from(cs: Seq<ChatV>, id: Seq<char>, i: int)
    requires
        0 <= i <= cs.len(),
    ensures
        match chat_from(cs, id, i) {
            Some(k) => i <= k < cs.len() && cs[k].id == id,
            None => true,
        },
    decreases cs.len() - i,
{
    if i < cs.len() && cs[i].id != id {
        lemma_chat_from(cs, id, i + 1);
    }
}

/// Position of the first chat with id `id`.
pub fn find_chat_exec(chats: &Vec<ChatInfo>, id: &str) -> (r: Option<usize>)
    ensures
        r == (match find_chat(chats_view(chats@), id@) {
            Some(k) => Some(k as usize),
            None => None::<usize>,
        }),
        r matches Some(k) ==> k < chats@.len() && find_chat(chats_view(chats@), id@) == Some(k as int),
        r is None ==> find_chat(chats_view(chats@), id@) is None,
{
    let ghost cv = chats_view(chats@);
    proof {
        lemma_chat_from(cv, id@, 0);
    }
    let mut i: usize = 0;
    while i < chats.len()
        invariant
            i <= chats.len(),
            cv == chats_view(chats@),
            chat_from(cv, id@, i as int) == find_chat(cv, id@),
        decreases chats.len() - i,
    {
        if str_eq(chats[i].id.as_str(), id) {
            return Some(i);
        }
        i += 1;
    }
    None
}

/// Position of the first entry of thread `parent` in `channel`.
pub fn find_thread_exec(threads: &Vec<ThreadInfo>, channel: &str, parent: &str) -> (r: Option<usize>)
    ensures
        r == (match find_thread(threads_view(threads@), channel@, parent@) {
            Some(k) => Some(k as usize),
            None => None::<usize>,
        }),
        r matches Some(k) ==> k < threads@.len() && find_thread(threads_view(threads@), channel@, parent@) == Some(
            k as int,
        ),
        r is None ==> find_thread(threads_view(threads@), channel@, parent@) is None,
{
    let ghost tv = threads_view(threads@);
    proof {
        lemma_thread_from(tv, channel@, parent@, 0);
    }
    let mut i: usize = 0;
    while i < threads.len()
        invariant
            i <= threads.len(),
            tv == threads_view(threads@),
            thread_from(tv, channel@, parent@, i as int) == find_thread(tv, channel@, parent@),
        decreases threads.len() - i,
    {
        if str_eq(threads[i].channel_id.as_str(), channel) && str_eq(threads[i].thread_ts.as_str(), parent) {
            return Some(i);
        }
        i += 1;
    }
    None
}

/// The sidebar name of channel `id`: its chat's name, or the id itself.
pub open spec fn channel_display_name(cs: Seq<ChatV>, id: Seq<char>) -> Seq<char> {
    match find_chat(cs, id) {
        Some(k) => cs[k].name,
        None => id,
    }
}

/// The focused pane shows thread `parent` of `channel`.
pub open spec fn focused_on_thread(ps: Seq<PaneV>, focused: int, channel: Seq<char>, parent: Seq<char>) -> bool {
    0 <= focused < ps.len() && ps[focused].channel_id_str == Some(channel) && ps[focused].thread_ts
        == Some(parent)
}

/// The focused pane shows `channel`.
pub open spec fn focused_on_channel(ps: Seq<PaneV>, focused: int, channel: Seq<char>) -> bool {
    0 <= focused < ps.len() && ps[focused].channel_id_str == Some(channel)
}

/// The threads after a reply `ts` by `user` to `parent` in `channel`, given
/// that it concerns the user: the known entry is refreshed, or a new one is
/// added.
pub open spec fn threads_with_reply(
    ts: Seq<ThreadV>,
    channel: Seq<char>,
    channel_name: Seq<char>,
    parent: Seq<char>,
    reply_ts: Seq<char>,
    user: Seq<char>,
    bump: bool,
    mentions_me: bool,
    is_self: bool,
    on_my_message: bool,
) -> Seq<ThreadV> {
    match find_thread(ts, channel, parent) {
        Some(k) => ts.update(
            k,
            ThreadV {
                channel_id: ts[k].channel_id,
                channel_name: ts[k].channel_name,
                thread_ts: ts[k].thread_ts,
                last_reply_ts: reply_ts,
                unread: if bump { sat_inc(ts[k].unread) } else { ts[k].unread },
                mentioned: ts[k].mentioned || mentions_me,
                on_my_message: ts[k].on_my_message || on_my_message,
                i_replied: ts[k].i_replied || is_self,
                last_reply_user: Some(user),
            },
        ),
        None => ts.push(
            ThreadV {
                channel_id: channel,
                channel_name: channel_name,
                thread_ts: parent,
                last_reply_ts: reply_ts,
                unread: if bump { 1 } else { 0 },
                mentioned: mentions_me,
                on_my_message: on_my_message,
                i_replied: is_self,
                last_reply_user: Some(user),
            },
        ),
    }
}

/// Whether a reply to `parent` in `channel` concerns the user: the parent is
/// one of the user's messages, the reply mentions or is by the user, or the
/// thread is already listed.
pub open spec fn reply_concerns_me(
    mine: Seq<(Seq<char>, Seq<char>)>,
    threads: Seq<ThreadV>,
    channel: Seq<char>,
    parent: Seq<char>,
    mentions_me: bool,
    is_self: bool,
) -> bool {
    mine.contains((channel, parent)) || mentions_me || find_thread(threads, channel, parent) is Some
        || is_self
}

/// The thread list after a reply that concerns the user. Unread replies
/// are counted unless the user wrote the reply or is looking at the thread.
pub open spec fn threads_after_reply(
    mine: Seq<(Seq<char>, Seq<char>)>,
    threads: Seq<ThreadV>,
    chats: Seq<ChatV>,
    panes: Seq<PaneV>,
    focused: int,
    channel: Seq<char>,
    parent: Seq<char>,
    reply_ts: Seq<char>,
    user: Seq<char>,
    mentions_me: bool,
    is_self: bool,
) -> Seq<ThreadV> {
    threads_with_reply(
        threads,
        channel,
        channel_display_name(chats, channel),
        parent,
        reply_ts,
        user,
        !is_self && !focused_on_thread(panes, focused, channel, parent),
        mentions_me,
        is_self,
        mine.contains((channel, parent)),
    )
}

fn focused_pane_on(panes: &Vec<ChatPane>, focused: usize, channel: &str, parent: Option<&str>) -> (r: bool)
    ensures
        r == (match parent {
            Some(p) => focused_on_thread(panes_view(panes@), focused as int, channel@, p@),
            None => focused_on_channel(panes_view(panes@), focused as int, channel@),
        }),
{
    if focused >= panes.len() {
        return false;
    }
    let p = &panes[focused];
    let on_channel = opt_eq_str(&p.channel_id_str, channel);
    match parent {
        Some(t) => on_channel && opt_eq_str(&p.thread_ts, t),
        None => on_channel,
    }
}

/// Updates the Threads section for a reply `ts` by `user_name` to `parent`
/// in `channel_id`; only replies that concern the user are listed.
pub fn track_thread_reply(
    st: &mut ClientState,
    channel_id: &str,
    user_name: &str,
    ts: &str,
    parent: &str,
    is_self: bool,
    mentions_me: bool,
)
    ensures
        ({
            let concerns = reply_concerns_me(
                pairs_view(old(st).my_message_ts@),
                threads_view(old(st).threads@),
                channel_id@,
                parent@,
                mentions_me,
                is_self,
            );
            &&& concerns ==> threads_view(final(st).threads@) == threads_after_reply(
                pairs_view(old(st).my_message_ts@),
                threads_view(old(st).threads@),
                chats_view(old(st).chats@),
                panes_view(old(st).panes@),
                old(st).focused_pane_idx as int,
                channel_id@,
                parent@,
                ts@,
                user_name@,
                mentions_me,
                is_self,
            )
            &&& !concerns ==> threads_view(final(st).threads@) == threads_view(old(st).threads@)
            &&& final(st).threads_dirty == (old(st).threads_dirty || concerns)
        }),
        final(st).chats == old(st).chats,
        final(st).panes == old(st).panes,
        final(st).focused_pane_idx == old(st).focused_pane_idx,
        final(st).focus_on_chat_list == old(st).focus_on_chat_list,
        final(st).my_message_ts == old(st).my_message_ts,
        final(st).unread_dirty == old(st).unread_dirty,
        final(st).pending_refresh_chats == old(st).pending_refresh_chats,
        final(st).needs_redraw == old(st).needs_redraw,
        final(st).show_notifications == old(st).show_notifications,
        final(st).workspace_name == old(st).workspace_name,
        final(st).unread_mentions == old(st).unread_mentions,
{
    let on_my_message = contains_pair(&st.my_message_ts, channel_id, parent);
    let known = find_thread_exec(&st.threads, channel_id, parent);
    let concerns = thread_concerns_me(on_my_message, mentions_me, known.is_some(), is_self);
    if !concerns {
        return;
    }
    let in_focused = focused_pane_on(&st.panes, st.focused_pane_idx, channel_id, Some(parent));
    let bump = should_bump_thread_unread(is_self, in_focused);
    let ghost tv = threads_view(st.threads@);
    proof {
        lemma_thread_from(tv, channel_id@, parent@, 0);
    }
    assert(st.threads@.len() == st.threads.len());
    match known {
        Some(k) => {
            let ghost before = st.threads@;
            let mut t = st.threads.remove(k);
            t.last_reply_ts = ts.to_string();
            t.last_reply_user = Some(user_name.to_string());
            if bump {
                t.unread = if t.unread == u32::MAX {
                    t.unread
                } else {
                    t.unread + 1
                };
            }
            t.mentioned = t.mentioned || mentions_me;
            t.i_replied = t.i_replied || is_self;
            t.on_my_message = t.on_my_message || on_my_message;
            let ghost tg = t;
            st.threads.insert(k, t);
            assert(st.threads@ =~= before.update(k as int, tg));
            assert(threads_view(st.threads@) =~= threads_view(before).update(k as int, tg@));
        },
        None => {
            let channel_name = match find_chat_exec(&st.chats, channel_id) {
                Some(i) => {
                    proof {
                        lemma_chat_from(chats_view(st.chats@), channel_id@, 0);
                    }
                    assert(st.chats@.len() == st.chats.len());
                    st.chats[i].name.clone()
                },
                None => channel_id.to_string(),
            };
            let ghost before = st.threads@;
            st.threads.push(
                ThreadInfo {
                    channel_id: channel_id.to_string(),
                    channel_name,
                    thread_ts: parent.to_string(),
                    last_reply_ts: ts.to_string(),
                    unread: if bump { 1 } else { 0 },
                    mentioned: mentions_me,
                    on_my_message,
                    i_replied: is_self,
                    last_reply_user: Some(user_name.to_string()),
                },
            );
            assert(threads_view(st.threads@) =~= threads_view(before).push(st.threads@.last()@));
        },
    }
    st.threads_dirty = true;
}

/// A chat entry with its unread count set to `n`.
pub open spec fn with_unread(c: ChatV, n: u32) -> ChatV {
    ChatV { id: c.id, name: c.name, username: c.username, unread: n, section: c.section, is_member: c.is_member }
}

/// The chats after a new message in `channel`: a message the focused pane
/// showed clears the channel's unread count, one from someone else raises it.
pub open spec fn chats_after_message(cs: Seq<ChatV>, channel: Seq<char>, focused_saw: bool, is_self: bool) -> Seq<ChatV> {
    match find_chat(cs, channel) {
        Some(k) => if focused_saw {
            cs.update(k, with_unread(cs[k], 0))
        } else if !is_self {
            cs.update(k, with_unread(cs[k], sat_inc(cs[k].unread)))
        } else {
            cs
        },
        None => cs,
    }
}

/// Whether the unread counters changed after a new message in `channel`.
pub open spec fn unread_changed(cs: Seq<ChatV>, channel: Seq<char>, focused_saw: bool, is_self: bool) -> bool {
    match find_chat(cs, channel) {
        Some(k) => if focused_saw {
            cs[k].unread != 0
        } else {
            !is_self
        },
        None => false,
    }
}

/// Updates the unread count of `channel_id` after a new message; a message
/// from someone else in a channel not in the list asks for a refresh of the list.
pub fn mark_chat_activity(st: &mut ClientState, channel_id: &str, focused_saw: bool, is_self: bool)
    ensures
        chats_view(final(st).chats@) == chats_after_message(chats_view(old(st).chats@), channel_id@, focused_saw, is_self),
        final(st).unread_dirty == (old(st).unread_dirty || unread_changed(
            chats_view(old(st).chats@),
            channel_id@,
            focused_saw,
            is_self,
        )),
        final(st).pending_refresh_chats == (old(st).pending_refresh_chats || (find_chat(
            chats_view(old(st).chats@),
            channel_id@,
        ) is None && !is_self)),
        final(st).threads == old(st).threads,
        final(st).panes == old(st).panes,
        final(st).focused_pane_idx == old(st).focused_pane_idx,
        final(st).focus_on_chat_list == old(st).focus_on_chat_list,
        final(st).my_message_ts == old(st).my_message_ts,
        final(st).threads_dirty == old(st).threads_dirty,
        final(st).needs_redraw == old(st).needs_redraw,
        final(st).show_notifications == old(st).show_notifications,
        final(st).workspace_name == old(st).workspace_name,
        final(st).unread_mentions == old(st).unread_mentions,
{
    proof {
        lemma_chat_from(chats_view(st.chats@), channel_id@, 0);
    }
    assert(st.chats@.len() == st.chats.len());
    match find_chat_exec(&st.chats, channel_id) {
        Some(k) => {
            let ghost before = st.chats@;
            if focused_saw {
                if st.chats[k].unread != 0 {
                    let mut c = st.chats.remove(k);
                    c.unread = 0;
                    let ghost cg = c;
                    st.chats.insert(k, c);
                    assert(st.chats@ =~= before.update(k as int, cg));
                    assert(chats_view(st.chats@) =~= chats_view(before).update(k as int, cg@));
                    st.unread_dirty = true;
                } else {
                    assert(chats_view(before).update(k as int, with_unread(chats_view(before)[k as int], 0))
                        =~= chats_view(before));
                }
            } else if !is_self {
                let mut c = st.chats.remove(k);
                c.unread = if c.unread == u32::MAX {
                    c.unread
                } else {
                    c.unread + 1
                };
                let ghost cg = c;
                st.chats.insert(k, c);
                assert(st.chats@ =~= before.update(k as int, cg));
                assert(chats_view(st.chats@) =~= chats_view(before).update(k as int, cg@));
                st.unread_dirty = true;
            }
        },
        None => {
            if !is_self {
                st.pending_refresh_chats = true;
            }
        },
    }
}

/// A desktop notification to show.
#[derive(Debug)]
pub struct Notification {
    pub title: String,
    pub body: String,
    /// `"critical"` for mentions, `"normal"` otherwise.
    pub urgency: String,
}

/// The first pane at or after `i` showing `channel`.
pub open spec fn pane_from(ps: Seq<PaneV>, channel: Seq<char>, i: int) -> Option<int>
    decreases ps.len() - i,
{
    if i < 0 || i >= ps.len() {
        None
    } else if ps[i].channel_id_str == Some(channel) {
        Some(i)
    } else {
        pane_from(ps, channel, i + 1)
    }
}

/// The first pane showing `channel`.
pub open spec fn find_pane(ps: Seq<PaneV>, channel: Seq<char>) -> Option<int> {
    pane_from(ps, channel, 0)
}

proof fn lemma_pane_from(ps: Seq<PaneV>, channel: Seq<char>, i: int)
    requires
        0 <= i <= ps.len(),
    ensures
        match pane_from(ps, channel, i) {
            Some(k) => i <= k < ps.len() && ps[k].channel_id_str == Some(channel),
            None => forall|j: int| i <= j < ps.len() ==> ps[j].channel_id_str != Some(channel),
        },
    decreases ps.len() - i,
{
    if i < ps.len() && ps[i].channel_id_str != Some(channel) {
        lemma_pane_from(ps, channel, i + 1);
    }
}

fn find_pane_exec(panes: &Vec<ChatPane>, channel: &str) -> (r: Option<usize>)
    ensures
        r == (match find_pane(panes_view(panes@), channel@) {
            Some(k) => Some(k as usize),
            None => None::<usize>,
        }),
        r matches Some(k) ==> k < panes@.len() && find_pane(panes_view(panes@), channel@) == Some(k as int),
        r is None ==> find_pane(panes_view(panes@), channel@) is None,
{
    let ghost pv = panes_view(panes@);
    proof {
        lemma_pane_from(pv, channel@, 0);
    }
    let mut i: usize = 0;
    while i < panes.len()
        invariant
            i <= panes.len(),
            pv == panes_view(panes@),
            pane_from(pv, channel@, i as int) == find_pane(pv, channel@),
        decreases panes.len() - i,
    {
        if opt_eq_str(&panes[i].channel_id_str, channel) {
            return Some(i);
        }
        i += 1;
    }
    None
}

/// The chat in `channel` is a direct message or a group chat.
pub open spec fn is_direct_chat(cs: Seq<ChatV>, channel: Seq<char>) -> bool {
    match find_chat(cs, channel) {
        Some(k) => cs[k].section == ChatSection::DirectMessage || cs[k].section == ChatSection::Group,
        None => false,
    }
}

/// Whether a new message should raise a desktop notification: when
/// notifications are on, for messages of others that the focused pane did
/// not show, when they mention the user or come from a person in a direct
/// or group chat.
pub open spec fn wants_notification(
    show: bool,
    cs: Seq<ChatV>,
    channel: Seq<char>,
    mentions_me: bool,
    is_bot: bool,
    is_self: bool,
    focused_saw: bool,
) -> bool {
    show && !is_self && !focused_saw && (mentions_me || (is_direct_chat(cs, channel) && !is_bot))
}

/// The name a notification gives `channel`: its chat's name, else the name
/// of a pane showing it, else the id.
pub open spec fn notification_channel_name(cs: Seq<ChatV>, ps: Seq<PaneV>, channel: Seq<char>) -> Seq<char> {
    match find_chat(cs, channel) {
        Some(k) => cs[k].name,
        None => match find_pane(ps, channel) {
            Some(j) => ps[j].chat_name,
            None => channel,
        },
    }
}

/// Notification title: `Slack [<workspace>]: <channel>`, with ` - mention`
/// appended for mentions.
pub open spec fn notification_title(workspace: Seq<char>, channel_name: Seq<char>, mentions_me: bool) -> Seq<char> {
    "Slack ["@ + workspace + "]: "@ + channel_name + if mentions_me {
        " - mention"@
    } else {
        Seq::empty()
    }
}

/// The mention count recorded for `ws`, if any.
pub open spec fn count_from(v: Seq<(Seq<char>, u32)>, ws: Seq<char>, i: int) -> Option<int>
    decreases v.len() - i,
{
    if i < 0 || i >= v.len() {
        None
    } else if v[i].0 == ws {
        Some(i)
    } else {
        count_from(v, ws, i + 1)
    }
}

/// The mention count of workspace `ws`, 0 when none is recorded.
pub open spec fn mention_count(v: Seq<(Seq<char>, u32)>, ws: Seq<char>) -> u32 {
    match count_from(v, ws, 0) {
        Some(k) => v[k].1,
        None => 0,
    }
}

/// The counters with the mention count of `ws` raised by one.
pub open spec fn bump_mentions(v: Seq<(Seq<char>, u32)>, ws: Seq<char>) -> Seq<(Seq<char>, u32)> {
    match count_from(v, ws, 0) {
        Some(k) => v.update(k, (ws, (v[k].1 + 1) as u32)),
        None => v.push((ws, 1u32)),
    }
}

pub proof fn lemma_count_from(v: Seq<(Seq<char>, u32)>, ws: Seq<char>, i: int)
    requires
        0 <= i <= v.len(),
    ensures
        match count_from(v, ws, i) {
            Some(k) => i <= k < v.len() && v[k].0 == ws,
            None => true,
        },
    decreases v.len() - i,
{
    if i < v.len() && v[i].0 != ws {
        lemma_count_from(v, ws, i + 1);
    }
}

fn bump_mentions_exec(v: &mut Vec<(String, u32)>, ws: &str)
    requires
        mention_count(counts_view(old(v)@), ws@) < u32::MAX,
    ensures
        counts_view(final(v)@) == bump_mentions(counts_view(old(v)@), ws@),
{
    let ghost cv = counts_view(v@);
    proof {
        lemma_count_from(cv, ws@, 0);
    }
    let mut i: usize = 0;
    while i < v.len()
        invariant
            i <= v.len(),
            v@ == old(v)@,
            cv == counts_view(v@),
            count_from(cv, ws@, i as int) == count_from(cv, ws@, 0),
            mention_count(cv, ws@) < u32::MAX,
        decreases v.len() - i,
    {
        if str_eq(v[i].0.as_str(), ws) {
            let ghost before = v@;
            let (name, n) = v.remove(i);
            v.insert(i, (name, n + 1));
            assert(counts_view(v@) =~= bump_mentions(cv, ws@));
            return;
        }
        i += 1;
    }
    v.push((ws.to_string(), 1));
    assert(counts_view(v@) =~= bump_mentions(cv, ws@));
}

/// The counters with the mention count of `ws` set to `n` (added when missing).
pub open spec fn set_mentions(v: Seq<(Seq<char>, u32)>, ws: Seq<char>, n: u32) -> Seq<(Seq<char>, u32)> {
    match count_from(v, ws, 0) {
        Some(k) => v.update(k, (ws, n)),
        None => v.push((ws, n)),
    }
}

/// Sets the mention count of workspace `ws` to `n`.
pub fn set_mentions_exec(v: &mut Vec<(String, u32)>, ws: &str, n: u32)
    ensures
        counts_view(final(v)@) == set_mentions(counts_view(old(v)@), ws@, n),
{
    let ghost cv = counts_view(v@);
    proof {
        lemma_count_from(cv, ws@, 0);
    }
    let mut i: usize = 0;
    while i < v.len()
        invariant
            i <= v.len(),
            v@ == old(v)@,
            cv == counts_view(v@),
            count_from(cv, ws@, i as int) == count_from(cv, ws@, 0),
        decreases v.len() - i,
    {
        if str_eq(v[i].0.as_str(), ws) {
            let (name, _old_count) = v.remove(i);
            v.insert(i, (name, n));
            assert(counts_view(v@) =~= set_mentions(cv, ws@, n));
            return;
        }
        i += 1;
    }
    v.push((ws.to_string(), n));
    assert(counts_view(v@) =~= set_mentions(cv, ws@, n));
}

/// The contents of a notification.
pub open spec fn notification_view(n: Notification) -> (Seq<char>, Seq<char>, Seq<char>) {
    (n.title@, n.body@, n.urgency@)
}

/// The notification for a message by `user` with text `text`.
pub open spec fn notification_for(
    workspace: Seq<char>,
    channel_name: Seq<char>,
    user: Seq<char>,
    text: Seq<char>,
    mentions_me: bool,
) -> (Seq<char>, Seq<char>, Seq<char>) {
    (
        notification_title(workspace, channel_name, mentions_me),
        user + ": "@ + text,
        if mentions_me { "critical"@ } else { "normal"@ },
    )
}

fn concat3(a: &str, b: &str, c: &str) -> (r: String)
    ensures
        r@ == a@ + b@ + c@,
{
    let mut r = a.to_string();
    r.push_str(b);
    r.push_str(c);
    r
}

/// Decides the desktop notification for a new message and counts mentions
/// of the user per workspace.
pub fn decide_notification(
    st: &mut ClientState,
    channel_id: &str,
    user_name: &str,
    text: &str,
    mentions_me: bool,
    is_bot: bool,
    is_self: bool,
    focused_saw: bool,
) -> (r: Option<Notification>)
    requires
        mentions_me ==> mention_count(counts_view(old(st).unread_mentions@), old(st).workspace_name@) < u32::MAX,
    ensures
        ({
            let wanted = wants_notification(
                old(st).show_notifications,
                chats_view(old(st).chats@),
                channel_id@,
                mentions_me,
                is_bot,
                is_self,
                focused_saw,
            );
            &&& wanted ==> (r matches Some(n) && notification_view(n) == notification_for(
                old(st).workspace_name@,
                notification_channel_name(chats_view(old(st).chats@), panes_view(old(st).panes@), channel_id@),
                user_name@,
                text@,
                mentions_me,
            ))
            &&& !wanted ==> r is None
            &&& counts_view(final(st).unread_mentions@) == if wanted && mentions_me {
                bump_mentions(counts_view(old(st).unread_mentions@), old(st).workspace_name@)
            } else {
                counts_view(old(st).unread_mentions@)
            }
        }),
        final(st).chats == old(st).chats,
        final(st).threads == old(st).threads,
        final(st).panes == old(st).panes,
        final(st).focused_pane_idx == old(st).focused_pane_idx,
        final(st).focus_on_chat_list == old(st).focus_on_chat_list,
        final(st).my_message_ts == old(st).my_message_ts,
        final(st).threads_dirty == old(st).threads_dirty,
        final(st).unread_dirty == old(st).unread_dirty,
        final(st).pending_refresh_chats == old(st).pending_refresh_chats,
        final(st).needs_redraw == old(st).needs_redraw,
        final(st).show_notifications == old(st).show_notifications,
        final(st).workspace_name == old(st).workspace_name,
{
    if !st.show_notifications || is_self || focused_saw {
        return None;
    }
    proof {
        lemma_chat_from(chats_view(st.chats@), channel_id@, 0);
        lemma_pane_from(panes_view(st.panes@), channel_id@, 0);
    }
    assert(st.chats@.len() == st.chats.len());
    let chat = find_chat_exec(&st.chats, channel_id);
    let is_direct = match chat {
        Some(k) => match st.chats[k].section {
            ChatSection::DirectMessage => true,
            ChatSection::Group => true,
            _ => false,
        },
        None => false,
    };
    if !(mentions_me || (is_direct && !is_bot)) {
        return None;
    }
    let channel_name = match chat {
        Some(k) => st.chats[k].name.clone(),
        None => match find_pane_exec(&st.panes, channel_id) {
            Some(j) => st.panes[j].chat_name.clone(),
            None => channel_id.to_string(),
        },
    };
    let mut title = concat3("Slack [", st.workspace_name.as_str(), "]: ");
    title.push_str(channel_name.as_str());
    let urgency = if mentions_me {
        bump_mentions_exec(&mut st.unread_mentions, st.workspace_name.as_str());
        title.push_str(" - mention");
        "critical".to_string()
    } else {
        "normal".to_string()
    };
    let body = concat3(user_name, ": ", text);
    proof {
        reveal_strlit("Slack [");
        reveal_strlit("]: ");
        reveal_strlit(" - mention");
        reveal_strlit(": ");
        reveal_strlit("critical");
        reveal_strlit("normal");
    }
    let n = Notification { title, body, urgency };
    assert(notification_view(n) =~= notification_for(
        st.workspace_name@,
        notification_channel_name(chats_view(st.chats@), panes_view(st.panes@), channel_id@),
        user_name@,
        text@,
        mentions_me,
    ));
    Some(n)
}

/// A message with new text and flags.
pub open spec fn retexted(m: MessageV, text: Seq<char>, is_edited: bool, is_deleted: bool) -> MessageV {
    MessageV {
        sender_name: m.sender_name,
        text: text,
        is_outgoing: m.is_outgoing,
        ts: m.ts,
        reactions: m.reactions,
        reply_count: m.reply_count,
        cards: m.cards,
        mentions_me: m.mentions_me,
        local_echo_id: m.local_echo_id,
        is_edited: is_edited,
        is_deleted: is_deleted,
        media_type: m.media_type,
        file_ids: m.file_ids,
        file_urls: m.file_urls,
        file_names: m.file_names,
    }
}

/// The text shown for a deleted message.
pub open spec fn deleted_text() -> Seq<char> {
    "[Message deleted]"@
}

/// A pane shows `channel` and holds a message stamped `ts`.
pub open spec fn pane_has(p: PaneV, channel: Seq<char>, ts: Seq<char>) -> bool {
    p.channel_id_str == Some(channel) && first_with_ts(p.msg_data, ts) is Some
}

/// A pane after the message `ts` of `channel` was edited (`deleted` false)
/// or deleted (`deleted` true).
pub open spec fn pane_after_change(p: PaneV, channel: Seq<char>, ts: Seq<char>, new_text: Seq<char>, deleted: bool) -> PaneV {
    if pane_has(p, channel, ts) {
        let k = first_with_ts(p.msg_data, ts)->0;
        let m = p.msg_data[k];
        with_messages(
            p,
            p.msg_data.update(
                k,
                if deleted {
                    retexted(m, deleted_text(), m.is_edited, true)
                } else {
                    retexted(m, new_text, true, m.is_deleted)
                },
            ),
            true,
            p.scroll_offset,
        )
    } else {
        p
    }
}

/// Every pane after the message `ts` of `channel` was edited or deleted.
pub open spec fn panes_after_change(ps: Seq<PaneV>, channel: Seq<char>, ts: Seq<char>, new_text: Seq<char>, deleted: bool) -> Seq<PaneV> {
    Seq::new(ps.len(), |i: int| pane_after_change(ps[i], channel, ts, new_text, deleted))
}

/// Some pane holds the message `ts` of `channel`.
pub open spec fn any_pane_has(ps: Seq<PaneV>, channel: Seq<char>, ts: Seq<char>) -> bool {
    exists|i: int| 0 <= i < ps.len() && #[trigger] pane_has(ps[i], channel, ts)
}

fn change_in_pane(pane: &mut ChatPane, channel_id: &str, ts: &str, new_text: &str, deleted: bool) -> (hit: bool)
    ensures
        final(pane)@ == pane_after_change(old(pane)@, channel_id@, ts@, new_text@, deleted),
        hit == pane_has(old(pane)@, channel_id@, ts@),
{
    if !opt_eq_str(&pane.channel_id_str, channel_id) {
        return false;
    }
    proof {
        lemma_first_ts_from(messages_view(pane.msg_data@), ts@, 0);
    }
    assert(pane.msg_data@.len() == pane.msg_data.len());
    match find_ts(&pane.msg_data, ts) {
        Some(k) => {
            let ghost before = pane.msg_data@;
            let mut m = pane.msg_data.remove(k);
            if deleted {
                m.is_deleted = true;
                m.text = "[Message deleted]".to_string();
            } else {
                m.text = new_text.to_string();
                m.is_edited = true;
            }
            let ghost mg = m;
            pane.msg_data.insert(k, m);
            proof {
                reveal_strlit("[Message deleted]");
                assert(pane.msg_data@ =~= before.update(k as int, mg));
                assert(mg@.reactions =~= before[k as int]@.reactions);
                assert(messages_view(pane.msg_data@) =~= messages_view(before).update(k as int, mg@));
            }
            pane.render_stale = true;
            true
        },
        None => false,
    }
}

/// Applies an edit (`deleted` false) or a deletion (`deleted` true) of the
/// message `ts` in `channel_id` to every pane.
pub fn apply_message_change(st: &mut ClientState, channel_id: &str, ts: &str, new_text: &str, deleted: bool)
    ensures
        panes_view(final(st).panes@) == panes_after_change(panes_view(old(st).panes@), channel_id@, ts@, new_text@, deleted),
        final(st).needs_redraw == (old(st).needs_redraw || any_pane_has(panes_view(old(st).panes@), channel_id@, ts@)),
        final(st).chats == old(st).chats,
        final(st).threads == old(st).threads,
        final(st).focused_pane_idx == old(st).focused_pane_idx,
        final(st).focus_on_chat_list == old(st).focus_on_chat_list,
        final(st).my_message_ts == old(st).my_message_ts,
        final(st).threads_dirty == old(st).threads_dirty,
        final(st).unread_dirty == old(st).unread_dirty,
        final(st).pending_refresh_chats == old(st).pending_refresh_chats,
        final(st).show_notifications == old(st).show_notifications,
        final(st).workspace_name == old(st).workspace_name,
        final(st).unread_mentions == old(st).unread_mentions,
{
    let ghost ps = panes_view(st.panes@);
    let ghost redraw0 = st.needs_redraw;
    let mut i: usize = 0;
    while i < st.panes.len()
        invariant
            i <= st.panes.len(),
            st.panes.len() == ps.len(),
            forall|j: int| 0 <= j < i ==> (#[trigger] st.panes@[j])@ == pane_after_change(ps[j], channel_id@, ts@, new_text@, deleted),
            forall|j: int| i <= j < st.panes.len() ==> (#[trigger] st.panes@[j])@ == ps[j],
            st.needs_redraw == (redraw0 || exists|j: int| 0 <= j < i && #[trigger] pane_has(ps[j], channel_id@, ts@)),
            st.chats == old(st).chats,
            st.threads == old(st).threads,
            st.focused_pane_idx == old(st).focused_pane_idx,
            st.focus_on_chat_list == old(st).focus_on_chat_list,
            st.my_message_ts == old(st).my_message_ts,
            st.threads_dirty == old(st).threads_dirty,
            st.unread_dirty == old(st).unread_dirty,
            st.pending_refresh_chats == old(st).pending_refresh_chats,
            st.show_notifications == old(st).show_notifications,
            st.workspace_name == old(st).workspace_name,
            st.unread_mentions == old(st).unread_mentions,
        decreases ps.len() - i,
    {
        let ghost before = st.panes@;
        assert(before[i as int]@ == ps[i as int]);
        let mut p = st.panes.remove(i);
        let hit = change_in_pane(&mut p, channel_id, ts, new_text, deleted);
        let ghost pg = p;
        st.panes.insert(i, p);
        assert(st.panes@ =~= before.update(i as int, pg));
        if hit {
            st.needs_redraw = true;
            assert(pane_has(ps[i as int], channel_id@, ts@));
        }
        i += 1;
    }
    assert(panes_view(st.panes@) =~= panes_after_change(ps, channel_id@, ts@, new_text@, deleted));
}

/// The panes after `user` starts typing in `channel`: the first pane on the
/// channel shows the typing line.
pub open spec fn panes_after_typing(ps: Seq<PaneV>, channel: Seq<char>, user: Seq<char>) -> Seq<PaneV> {
    match find_pane(ps, channel) {
        Some(k) => ps.update(
            k,
            PaneV {
                channel_id_str: ps[k].channel_id_str,
                thread_ts: ps[k].thread_ts,
                chat_name: ps[k].chat_name,
                msg_data: ps[k].msg_data,
                scroll_offset: ps[k].scroll_offset,
                input_buffer: ps[k].input_buffer,
                input_cursor: ps[k].input_cursor,
                tab_complete_state: ps[k].tab_complete_state,
                reply_to_message: ps[k].reply_to_message,
                typing_user: Some(user),
                render_stale: ps[k].render_stale,
            },
        ),
        None => ps,
    }
}

/// Shows that `user_name` is typing in the first pane on `channel_id`.
pub fn apply_user_typing(st: &mut ClientState, channel_id: &str, user_name: &str)
    ensures
        panes_view(final(st).panes@) == panes_after_typing(panes_view(old(st).panes@), channel_id@, user_name@),
        final(st).needs_redraw,
        final(st).chats == old(st).chats,
        final(st).threads == old(st).threads,
        final(st).focused_pane_idx == old(st).focused_pane_idx,
        final(st).focus_on_chat_list == old(st).focus_on_chat_list,
        final(st).my_message_ts == old(st).my_message_ts,
        final(st).threads_dirty == old(st).threads_dirty,
        final(st).unread_dirty == old(st).unread_dirty,
        final(st).pending_refresh_chats == old(st).pending_refresh_chats,
        final(st).show_notifications == old(st).show_notifications,
        final(st).workspace_name == old(st).workspace_name,
        final(st).unread_mentions == old(st).unread_mentions,
{
    match find_pane_exec(&st.panes, channel_id) {
        Some(k) => {
            let ghost before = st.panes@;
            let mut p = st.panes.remove(k);
            p.show_typing_indicator(user_name);
            let ghost pg = p;
            st.panes.insert(k, p);
            assert(st.panes@ =~= before.update(k as int, pg));
            assert(panes_view(st.panes@) =~= panes_after_typing(panes_view(before), channel_id@, user_name@));
        },
        None => {},
    }
    st.needs_redraw = true;
}

/// The user's sent messages after the message `ts` in `channel` arrives.
pub open spec fn mine_after(
    mine: Seq<(Seq<char>, Seq<char>)>,
    channel: Seq<char>,
    ts: Seq<char>,
    is_self: bool,
) -> Seq<(Seq<char>, Seq<char>)> {
    if is_self && !mine.contains((channel, ts)) {
        mine.push((channel, ts))
    } else {
        mine
    }
}

/// The message `ts` replies in a thread other than itself.
pub open spec fn is_reply(ts: Seq<char>, thread_ts: Option<Seq<char>>) -> bool {
    thread_ts matches Some(t) && t != ts
}

/// The thread root of the message `ts`.
pub open spec fn root_of(ts: Seq<char>, thread_ts: Option<Seq<char>>) -> Seq<char> {
    match thread_ts {
        Some(t) => t,
        None => ts,
    }
}

/// `new` and the notification `r` are what a new message makes of `old`.
pub open spec fn new_message_applied(
    old: ClientState,
    new: ClientState,
    r: Option<Notification>,
    channel: Seq<char>,
    user: Seq<char>,
    text: Seq<char>,
    ts: Seq<char>,
    thread_ts: Option<Seq<char>>,
    is_bot: bool,
    is_self: bool,
    cards: Seq<AttachmentCard>,
    inline_image_urls: Seq<(String, String)>,
    mentions_me: bool,
    files: Seq<SlackFile>,
) -> bool {
    let msg = realtime_view(user, text, ts, is_self, cards, mentions_me, files, inline_image_urls);
    let reply = is_reply(ts, thread_ts);
    let root = root_of(ts, thread_ts);
    let mine = mine_after(pairs_view(old.my_message_ts@), channel, ts, is_self);
    let tv = threads_view(old.threads@);
    let cv = chats_view(old.chats@);
    let pv = panes_view(old.panes@);
    let concerns = reply && reply_concerns_me(mine, tv, channel, root, mentions_me, is_self);
    let seen = seen_anywhere(pv, msg, channel, thread_ts, is_self, reply, root);
    let saw = seen && focused_on_channel(pv, old.focused_pane_idx as int, channel) && !old.focus_on_chat_list;
    let wanted = wants_notification(old.show_notifications, cv, channel, mentions_me, is_bot, is_self, saw);
    &&& pairs_view(new.my_message_ts@) == mine
    &&& threads_view(new.threads@) == if concerns {
        threads_after_reply(mine, tv, cv, pv, old.focused_pane_idx as int, channel, root, ts, user, mentions_me, is_self)
    } else {
        tv
    }
    &&& new.threads_dirty == (old.threads_dirty || concerns)
    &&& panes_view(new.panes@) == delivered_all(pv, msg, channel, thread_ts, is_self, reply, root)
    &&& chats_view(new.chats@) == chats_after_message(cv, channel, saw, is_self)
    &&& new.unread_dirty == (old.unread_dirty || unread_changed(cv, channel, saw, is_self))
    &&& new.pending_refresh_chats == (old.pending_refresh_chats || (find_chat(cv, channel) is None && !is_self))
    &&& new.needs_redraw
    &&& wanted ==> (r matches Some(n) && notification_view(n) == notification_for(
        old.workspace_name@,
        notification_channel_name(cv, pv, channel),
        user,
        text,
        mentions_me,
    ))
    &&& !wanted ==> r is None
    &&& counts_view(new.unread_mentions@) == if wanted && mentions_me {
        bump_mentions(counts_view(old.unread_mentions@), old.workspace_name@)
    } else {
        counts_view(old.unread_mentions@)
    }
    &&& new.focused_pane_idx == old.focused_pane_idx
    &&& new.focus_on_chat_list == old.focus_on_chat_list
    &&& new.show_notifications == old.show_notifications
    &&& new.workspace_name == old.workspace_name
}

proof fn lemma_same_chat_ids(a: Seq<ChatV>, b: Seq<ChatV>, id: Seq<char>, i: int)
    requires
        a.len() == b.len(),
        forall|j: int| 0 <= j < a.len() ==> a[j].id == b[j].id,
    ensures
        chat_from(a, id, i) == chat_from(b, id, i),
    decreases a.len() - i,
{
    if 0 <= i < a.len() && a[i].id != id {
        lemma_same_chat_ids(a, b, id, i + 1);
    }
}

proof fn lemma_same_pane_channels(a: Seq<PaneV>, b: Seq<PaneV>, channel: Seq<char>, i: int)
    requires
        a.len() == b.len(),
        forall|j: int| 0 <= j < a.len() ==> a[j].channel_id_str == b[j].channel_id_str,
    ensures
        pane_from(a, channel, i) == pane_from(b, channel, i),
    decreases a.len() - i,
{
    if 0 <= i < a.len() && a[i].channel_id_str != Some(channel) {
        lemma_same_pane_channels(a, b, channel, i + 1);
    }
}

/// Applies a new realtime message: remembers own messages, updates the
/// Threads section, the panes and the unread counters, and decides the
/// desktop notification.
pub fn apply_new_message(
    st: &mut ClientState,
    channel_id: &str,
    user_name: &str,
    text: &str,
    ts: &str,
    thread_ts: &Option<String>,
    is_bot: bool,
    is_self: bool,
    cards: &[AttachmentCard],
    inline_image_urls: &[(String, String)],
    mentions_me: bool,
    files: &[SlackFile],
) -> (r: Option<Notification>)
    requires
        mentions_me ==> mention_count(counts_view(old(st).unread_mentions@), old(st).workspace_name@) < u32::MAX,
    ensures
        new_message_applied(
            *old(st),
            *final(st),
            r,
            channel_id@,
            user_name@,
            text@,
            ts@,
            option_view(*thread_ts),
            is_bot,
            is_self,
            cards@,
            inline_image_urls@,
            mentions_me,
            files@,
        ),
{
    let ghost cv = chats_view(st.chats@);
    let ghost pv = panes_view(st.panes@);
    let msg = realtime_message_to_message_data(
        user_name,
        text,
        ts,
        is_self,
        cards,
        mentions_me,
        files,
        inline_image_urls,
    );
    let reply = is_thread_reply(ts, thread_ts);
    let root: &str = match thread_ts {
        Some(t) => t.as_str(),
        None => ts,
    };
    if is_self {
        remember_my_message(&mut st.my_message_ts, channel_id, ts);
    }
    if reply {
        track_thread_reply(st, channel_id, user_name, ts, root, is_self, mentions_me);
    }
    let seen = deliver_to_panes(&mut st.panes, &msg, channel_id, thread_ts, is_self, reply, root);
    let on_channel = focused_pane_on(&st.panes, st.focused_pane_idx, channel_id, None);
    let focused_saw = seen && on_channel && !st.focus_on_chat_list;
    mark_chat_activity(st, channel_id, focused_saw, is_self);
    st.needs_redraw = true;
    proof {
        let cv2 = chats_view(st.chats@);
        let pv2 = panes_view(st.panes@);
        lemma_chat_from(cv, channel_id@, 0);
        assert forall|j: int| 0 <= j < cv.len() implies cv[j].id == cv2[j].id && cv[j].name == cv2[j].name
            && cv[j].section == cv2[j].section by {}
        lemma_same_chat_ids(cv, cv2, channel_id@, 0);
        assert forall|j: int| 0 <= j < pv.len() implies pv[j].channel_id_str == pv2[j].channel_id_str
            && pv[j].chat_name == pv2[j].chat_name by {}
        lemma_same_pane_channels(pv, pv2, channel_id@, 0);
        lemma_pane_from(pv, channel_id@, 0);
        assert(notification_channel_name(cv2, pv2, channel_id@) == notification_channel_name(cv, pv, channel_id@));
        assert(is_direct_chat(cv2, channel_id@) == is_direct_chat(cv, channel_id@));
    }
    decide_notification(st, channel_id, user_name, text, mentions_me, is_bot, is_self, focused_saw)
}

/// `new` is `old` after the message `ts` of `channel` was edited or deleted.
pub open spec fn change_applied(
    old: ClientState,
    new: ClientState,
    channel: Seq<char>,
    ts: Seq<char>,
    new_text: Seq<char>,
    deleted: bool,
) -> bool {
    &&& panes_view(new.panes@) == panes_after_change(panes_view(old.panes@), channel, ts, new_text, deleted)
    &&& new.needs_redraw == (old.needs_redraw || any_pane_has(panes_view(old.panes@), channel, ts))
    &&& new.chats == old.chats
    &&& new.threads == old.threads
    &&& new.focused_pane_idx == old.focused_pane_idx
    &&& new.focus_on_chat_list == old.focus_on_chat_list
    &&& new.my_message_ts == old.my_message_ts
    &&& new.threads_dirty == old.threads_dirty
    &&& new.unread_dirty == old.unread_dirty
    &&& new.pending_refresh_chats == old.pending_refresh_chats
    &&& new.show_notifications == old.show_notifications
    &&& new.workspace_name == old.workspace_name
    &&& new.unread_mentions == old.unread_mentions
}

/// `new` is `old` after `user` started typing in `channel`.
pub open spec fn typing_applied(old: ClientState, new: ClientState, channel: Seq<char>, user: Seq<char>) -> bool {
    &&& panes_view(new.panes@) == panes_after_typing(panes_view(old.panes@), channel, user)
    &&& new.needs_redraw
    &&& new.chats == old.chats
    &&& new.threads == old.threads
    &&& new.focused_pane_idx == old.focused_pane_idx
    &&& new.focus_on_chat_list == old.focus_on_chat_list
    &&& new.my_message_ts == old.my_message_ts
    &&& new.threads_dirty == old.threads_dirty
    &&& new.unread_dirty == old.unread_dirty
    &&& new.pending_refresh_chats == old.pending_refresh_chats
    &&& new.show_notifications == old.show_notifications
    &&& new.workspace_name == old.workspace_name
    &&& new.unread_mentions == old.unread_mentions
}

/// Applies one realtime update to the client state; returns the desktop
/// notification to show, if any. Updates other than new, edited and
/// deleted messages and typing leave the state as it is.
pub fn apply_update(st: &mut ClientState, update: SlackUpdate) -> (r: Option<Notification>)
    requires
        update matches SlackUpdate::NewMessage { mentions_me, .. } && mentions_me ==> mention_count(
            counts_view(old(st).unread_mentions@),
            old(st).workspace_name@,
        ) < u32::MAX,
    ensures
        match update {
            SlackUpdate::NewMessage {
                channel_id,
                user_name,
                text,
                ts,
                thread_ts,
                is_bot,
                is_self,
                cards,
                inline_image_urls,
                mentions_me,
                files,
            } => new_message_applied(
                *old(st),
                *final(st),
                r,
                channel_id@,
                user_name@,
                text@,
                ts@,
                option_view(thread_ts),
                is_bot,
                is_self,
                cards@,
                inline_image_urls@,
                mentions_me,
                files@,
            ),
            SlackUpdate::MessageChanged { channel_id, ts, new_text } => r is None && change_applied(
                *old(st),
                *final(st),
                channel_id@,
                ts@,
                new_text@,
                false,
            ),
            SlackUpdate::MessageDeleted { channel_id, ts } => r is None && change_applied(
                *old(st),
                *final(st),
                channel_id@,
                ts@,
                Seq::empty(),
                true,
            ),
            SlackUpdate::UserTyping { channel_id, user_name } => r is None && typing_applied(
                *old(st),
                *final(st),
                channel_id@,
                user_name@,
            ),
            _ => r is None && *final(st) == *old(st),
        },
        thread_keys_unique(threads_view(old(st).threads@)) ==> thread_keys_unique(threads_view(final(st).threads@)),
        pairs_unique(pairs_view(old(st).my_message_ts@)) ==> pairs_unique(pairs_view(final(st).my_message_ts@)),
{
    let ghost tv = threads_view(st.threads@);
    let ghost cv = chats_view(st.chats@);
    let ghost pv = panes_view(st.panes@);
    let ghost mine0 = pairs_view(st.my_message_ts@);
    let ghost focused = st.focused_pane_idx as int;
    match update {
        SlackUpdate::NewMessage {
            channel_id,
            user_name,
            text,
            ts,
            thread_ts,
            is_bot,
            is_self,
            cards,
            inline_image_urls,
            mentions_me,
            files,
        } => {
            let cs = cards.as_slice();
            let us = inline_image_urls.as_slice();
            let fs = files.as_slice();
            let r = apply_new_message(
                st,
                channel_id.as_str(),
                user_name.as_str(),
                text.as_str(),
                ts.as_str(),
                &thread_ts,
                is_bot,
                is_self,
                cs,
                us,
                mentions_me,
                fs,
            );
            proof {
                let root = root_of(ts@, option_view(thread_ts));
                let mine = mine_after(mine0, channel_id@, ts@, is_self);
                if pairs_unique(mine0) {
                    law_own_messages_stay_unique(mine0, channel_id@, ts@, is_self);
                }
                if thread_keys_unique(tv) {
                law_thread_keys_stay_unique(
                    tv,
                    channel_id@,
                    channel_display_name(cv, channel_id@),
                    root,
                    ts@,
                    user_name@,
                    !is_self && !focused_on_thread(pv, focused, channel_id@, root),
                    mentions_me,
                    is_self,
                    mine.contains((channel_id@, root)),
                );
                }
            }
            r
        },
        SlackUpdate::MessageChanged { channel_id, ts, new_text } => {
            apply_message_change(st, channel_id.as_str(), ts.as_str(), new_text.as_str(), false);
            None
        },
        SlackUpdate::MessageDeleted { channel_id, ts } => {
            proof {
                reveal_strlit("");
                assert(""@ =~= Seq::<char>::empty());
            }
            apply_message_change(st, channel_id.as_str(), ts.as_str(), "", true);
            assert(change_applied(*old(st), *st, channel_id@, ts@, Seq::empty(), true));
            None
        },
        SlackUpdate::UserTyping { channel_id, user_name } => {
            apply_user_typing(st, channel_id.as_str(), user_name.as_str());
            None
        },
        _ => None,
    }
}

/// Whether the state has unsaved unread counters or threads and the last
/// save is at least the debounce interval ago.
pub fn debounced_save_wanted(st: &ClientState, last_save: Option<u64>, now: u64) -> (r: bool)
    ensures
        r == ((st.unread_dirty || st.threads_dirty) && match last_save {
            None => true,
            Some(t) => now >= t && now - t >= UNREAD_SAVE_DEBOUNCE_MS,
        }),
{
    (st.unread_dirty || st.threads_dirty) && debounced_save_due(last_save, now)
}

/// Records a successful save: nothing is left unsaved.
pub fn mark_saved(st: &mut ClientState)
    ensures
        !final(st).unread_dirty,
        !final(st).threads_dirty,
        final(st).chats == old(st).chats,
        final(st).threads == old(st).threads,
        final(st).panes == old(st).panes,
        final(st).focused_pane_idx == old(st).focused_pane_idx,
        final(st).focus_on_chat_list == old(st).focus_on_chat_list,
        final(st).my_message_ts == old(st).my_message_ts,
        final(st).pending_refresh_chats == old(st).pending_refresh_chats,
        final(st).needs_redraw == old(st).needs_redraw,
        final(st).show_notifications == old(st).show_notifications,
        final(st).workspace_name == old(st).workspace_name,
        final(st).unread_mentions == old(st).unread_mentions,
{
    st.unread_dirty = false;
    st.threads_dirty = false;
}

/// No two thread entries are for the same thread.
pub open spec fn thread_keys_unique(ts: Seq<ThreadV>) -> bool {
    forall|i: int, j: int|
        0 <= i < j < ts.len() ==> !(ts[i].channel_id == ts[j].channel_id && ts[i].thread_ts == ts[j].thread_ts)
}

/// No message is recorded twice as the user's own.
pub open spec fn pairs_unique(v: Seq<(Seq<char>, Seq<char>)>) -> bool {
    forall|i: int, j: int| 0 <= i < j < v.len() ==> v[i] != v[j]
}

/// A reply that concerns the user never lists a thread twice.
pub proof fn law_thread_keys_stay_unique(
    ts: Seq<ThreadV>,
    channel: Seq<char>,
    channel_name: Seq<char>,
    parent: Seq<char>,
    reply_ts: Seq<char>,
    user: Seq<char>,
    bump: bool,
    mentions_me: bool,
    is_self: bool,
    on_my_message: bool,
)
    requires
        thread_keys_unique(ts),
    ensures
        thread_keys_unique(
            threads_with_reply(ts, channel, channel_name, parent, reply_ts, user, bump, mentions_me, is_self, on_my_message),
        ),
{
    lemma_thread_from(ts, channel, parent, 0);
    if find_thread(ts, channel, parent) is None {
        assert forall|j: int| 0 <= j < ts.len() implies !(ts[j].channel_id == channel && ts[j].thread_ts == parent) by {
            lemma_thread_absent(ts, channel, parent, 0, j);
        }
    }
}

proof fn lemma_thread_absent(ts: Seq<ThreadV>, channel: Seq<char>, parent: Seq<char>, i: int, j: int)
    requires
        0 <= i <= j < ts.len(),
        thread_from(ts, channel, parent, i) is None,
    ensures
        !(ts[j].channel_id == channel && ts[j].thread_ts == parent),
    decreases j - i,
{
    if i < j {
        lemma_thread_absent(ts, channel, parent, i + 1, j);
    }
}

/// Remembering an own message never records it twice.
pub proof fn law_own_messages_stay_unique(
    mine: Seq<(Seq<char>, Seq<char>)>,
    channel: Seq<char>,
    ts: Seq<char>,
    is_self: bool,
)
    requires
        pairs_unique(mine),
    ensures
        pairs_unique(mine_after(mine, channel, ts, is_self)),
{
}

/// A message that is not a thread reply shows at most once in a pane:
/// delivering it again changes nothing.
pub proof fn law_delivery_idempotent(
    p: PaneV,
    m: MessageV,
    channel: Seq<char>,
    thread_ts: Option<Seq<char>>,
    is_self: bool,
    root: Seq<char>,
)
    ensures
        delivered(delivered(p, m, channel, thread_ts, is_self, false, root).0, m, channel, thread_ts, is_self, false, root)
            == (delivered(p, m, channel, thread_ts, is_self, false, root).0, false),
{
    let q = delivered(p, m, channel, thread_ts, is_self, false, root).0;
    if q != p {
        let ms = q.msg_data;
        lemma_first_ts_from(ms, m.ts, 0);
        assert(ms[ms.len() - 1].ts == m.ts);
        if first_with_ts(ms, m.ts) is None {
            assert(false);
        }
    } else if p.channel_id_str == Some(channel) {
        lemma_first_ts_from(p.msg_data, m.ts, 0);
    }
}

/// Delivering a message that is no thread reply to every pane a second
/// time changes no pane.
pub proof fn law_delivery_idempotent_all(
    ps: Seq<PaneV>,
    m: MessageV,
    channel: Seq<char>,
    thread_ts: Option<Seq<char>>,
    is_self: bool,
    root: Seq<char>,
)
    ensures
        delivered_all(delivered_all(ps, m, channel, thread_ts, is_self, false, root), m, channel, thread_ts, is_self, false, root)
            == delivered_all(ps, m, channel, thread_ts, is_self, false, root),
{
    let once = delivered_all(ps, m, channel, thread_ts, is_self, false, root);
    assert forall|i: int| 0 <= i < ps.len() implies delivered(once[i], m, channel, thread_ts, is_self, false, root).0 == once[i] by {
        law_delivery_idempotent(ps[i], m, channel, thread_ts, is_self, root);
    }
    assert(delivered_all(once, m, channel, thread_ts, is_self, false, root) =~= once);
}

/// A new message that is no thread reply, applied a second time, leaves
/// every pane as the first time left it: a shown timestamp is never
/// appended again. `s1` is any state `apply_update` may leave from `s0`,
/// and `s2` any state it may leave from `s1`, for the same message.
pub proof fn law_redelivery_keeps_panes(
    s0: ClientState,
    s1: ClientState,
    s2: ClientState,
    r1: Option<Notification>,
    r2: Option<Notification>,
    channel: Seq<char>,
    user: Seq<char>,
    text: Seq<char>,
    ts: Seq<char>,
    thread_ts: Option<Seq<char>>,
    is_bot: bool,
    is_self: bool,
    cards: Seq<AttachmentCard>,
    inline_image_urls: Seq<(String, String)>,
    mentions_me: bool,
    files: Seq<SlackFile>,
)
    requires
        !is_reply(ts, thread_ts),
        new_message_applied(s0, s1, r1, channel, user, text, ts, thread_ts, is_bot, is_self, cards, inline_image_urls, mentions_me, files),
        new_message_applied(s1, s2, r2, channel, user, text, ts, thread_ts, is_bot, is_self, cards, inline_image_urls, mentions_me, files),
    ensures
        panes_view(s2.panes@) == panes_view(s1.panes@),
{
    let msg = realtime_view(user, text, ts, is_self, cards, mentions_me, files, inline_image_urls);
    law_delivery_idempotent_all(panes_view(s0.panes@), msg, channel, thread_ts, is_self, root_of(ts, thread_ts));
}

proof fn lemma_chat_found(cs: Seq<ChatV>, id: Seq<char>, i: int, k: int)
    requires
        0 <= i <= k < cs.len(),
        cs[k].id == id,
        forall|j: int| 0 <= j < k ==> cs[j].id != id,
    ensures
        chat_from(cs, id, i) == Some(k),
    decreases k - i,
{
    if i < k {
        lemma_chat_found(cs, id, i + 1, k);
    }
}

/// A new message from someone else that the focused pane did not show
/// raises its chat's unread count by one (staying at the maximum once
/// there) and changes nothing else in the chat list. `k` is the first
/// chat listed with the message's channel.
pub proof fn law_message_from_other_counts_unread(cs: Seq<ChatV>, channel: Seq<char>, k: int)
    requires
        0 <= k < cs.len(),
        cs[k].id == channel,
        forall|j: int| 0 <= j < k ==> cs[j].id != channel,
    ensures
        ({
            let r = chats_after_message(cs, channel, false, false);
            &&& r.len() == cs.len()
            &&& r[k].unread == (if cs[k].unread < u32::MAX { (cs[k].unread + 1) as u32 } else { cs[k].unread })
            &&& r[k].id == cs[k].id && r[k].name == cs[k].name && r[k].username == cs[k].username
            &&& r[k].section == cs[k].section && r[k].is_member == cs[k].is_member
            &&& forall|j: int| 0 <= j < cs.len() && j != k ==> r[j] == cs[j]
        }),
{
    lemma_chat_found(cs, channel, 0, k);
}

/// Applying a new message from someone else in a listed channel that the
/// focused pane does not show raises that chat's unread count by one
/// (staying at the maximum once there). `s1` is any state `apply_update`
/// may leave from `s0` for the message.
pub proof fn law_unshown_message_counts_unread(
    s0: ClientState,
    s1: ClientState,
    r: Option<Notification>,
    channel: Seq<char>,
    user: Seq<char>,
    text: Seq<char>,
    ts: Seq<char>,
    thread_ts: Option<Seq<char>>,
    is_bot: bool,
    cards: Seq<AttachmentCard>,
    inline_image_urls: Seq<(String, String)>,
    mentions_me: bool,
    files: Seq<SlackFile>,
    k: int,
)
    requires
        new_message_applied(s0, s1, r, channel, user, text, ts, thread_ts, is_bot, false, cards, inline_image_urls, mentions_me, files),
        !focused_on_channel(panes_view(s0.panes@), s0.focused_pane_idx as int, channel),
        0 <= k < chats_view(s0.chats@).len(),
        chats_view(s0.chats@)[k].id == channel,
        forall|j: int| 0 <= j < k ==> chats_view(s0.chats@)[j].id != channel,
    ensures
        chats_view(s1.chats@).len() == chats_view(s0.chats@).len(),
        chats_view(s1.chats@)[k].unread == (if chats_view(s0.chats@)[k].unread < u32::MAX {
            (chats_view(s0.chats@)[k].unread + 1) as u32
        } else {
            chats_view(s0.chats@)[k].unread
        }),
        s1.unread_dirty,
{
    law_message_from_other_counts_unread(chats_view(s0.chats@), channel, k);
    lemma_chat_found(chats_view(s0.chats@), channel, 0, k);
}

/// A new message the focused pane showed clears its chat's unread count,
/// and one of the user's own that it did not show leaves the list as it
/// was. `k` is the first chat listed with the message's channel.
pub proof fn law_seen_or_own_message_unread(cs: Seq<ChatV>, channel: Seq<char>, k: int, is_self: bool)
    requires
        0 <= k < cs.len(),
        cs[k].id == channel,
        forall|j: int| 0 <= j < k ==> cs[j].id != channel,
    ensures
        chats_after_message(cs, channel, true, is_self)[k].unread == 0,
        chats_after_message(cs, channel, true, is_self).len() == cs.len(),
        chats_after_message(cs, channel, false, true) == cs,
{
    lemma_chat_found(cs, channel, 0, k);
}

} // verus!
