//! Opening chats and threads in panes, and filling panes with the history
//! loaded for them.
use vstd::prelude::*;
use crate::events::{
    ClientState, counts_view, find_chat_exec, find_thread, find_thread_exec, with_unread,
    set_mentions, set_mentions_exec, pairs_view, channel_display_name,
};
use crate::models::{ChatV, ThreadInfo, ThreadV, chats_view, threads_view};
use crate::widgets::{ChatPane, MessageData, MessageV, PaneV, messages_view, panes_view};
use crate::messages::{NameCache, attachments_ok, record_of, own_reply_count};
use crate::slack::types::SlackMessage;
use crate::slack::blocks::{message_text, mentions_user};
use crate::text::option_view;
use crate::formatting::views;

verus! {

/// Every message's attachments can be shown as cards.
pub open spec fn all_attachments_ok(msgs: Seq<SlackMessage>) -> bool {
    forall|i: int| 0 <= i < msgs.len() ==> #[trigger] attachments_ok(msgs[i])
}

/// The display records of messages, in their order or reversed (channel
/// history arrives newest first), with reply counts overridden when given.
pub open spec fn records(
    msgs: Seq<SlackMessage>,
    my_user_id: Seq<char>,
    cache: NameCache,
    reply_override: Option<u32>,
    reversed: bool,
) -> Seq<MessageV> {
    Seq::new(
        msgs.len(),
        |i: int|
            {
                let m = if reversed {
                    msgs[msgs.len() - 1 - i]
                } else {
                    msgs[i]
                };
                record_of(
                    m,
                    my_user_id,
                    cache,
                    match reply_override {
                        Some(c) => c,
                        None => own_reply_count(m),
                    },
                )
            },
    )
}

/// The display records of messages; see `records`.
pub fn records_of(
    msgs: &Vec<SlackMessage>,
    my_user_id: &str,
    cache: &NameCache,
    reply_override: Option<u32>,
    reversed: bool,
) -> (r: Vec<MessageData>)
    requires
        all_attachments_ok(msgs@),
    ensures
        messages_view(r@) == records(msgs@, my_user_id@, *cache, reply_override, reversed),
{
    let ghost target = records(msgs@, my_user_id@, *cache, reply_override, reversed);
    let mut out: Vec<MessageData> = Vec::new();
    let n = msgs.len();
    let mut i: usize = 0;
    while i < n
        invariant
            i <= n == msgs@.len(),
            all_attachments_ok(msgs@),
            target == records(msgs@, my_user_id@, *cache, reply_override, reversed),
            messages_view(out@) == target.take(i as int),
        decreases n - i,
    {
        let j = if reversed {
            n - 1 - i
        } else {
            i
        };
        assert(attachments_ok(msgs@[j as int]));
        let rec = crate::messages::slack_message_to_message_data_with_reply_count(
            &msgs[j],
            my_user_id,
            cache,
            reply_override,
        );
        let ghost before = messages_view(out@);
        let ghost rv = rec@;
        out.push(rec);
        assert(messages_view(out@) =~= before.push(rv));
        i += 1;
        assert(target.take(i as int) =~= target.take(i - 1).push(rv));
    }
    assert(target.take(i as int) =~= target);
    out
}

/// The focused pane after chat `c` is opened in it: the chat's channel and
/// name, no thread, no messages yet, to be redrawn.
pub open spec fn pane_opening(p: PaneV, c: ChatV) -> PaneV {
    PaneV {
        channel_id_str: Some(c.id),
        chat_name: c.name,
        thread_ts: None,
        msg_data: Seq::empty(),
        render_stale: true,
        ..p
    }
}

/// Opens the selected chat in the focused pane: the pane shows the chat
/// (its history is loaded next, for the returned channel id and name), the
/// chat and the workspace's mentions count as read, and the keys go to the
/// pane. A selection past the list opens nothing.
pub fn begin_open_chat(st: &mut ClientState, selected: usize) -> (r: Option<(String, String)>)
    requires
        old(st).focused_pane_idx < old(st).panes@.len(),
    ensures
        selected >= old(st).chats@.len() ==> r is None && *final(st) == *old(st),
        selected < old(st).chats@.len() ==> {
            let c = chats_view(old(st).chats@)[selected as int];
            let f = old(st).focused_pane_idx as int;
            &&& r matches Some(p) && p.0@ == c.id && p.1@ == c.name
            &&& final(st).panes@.len() == old(st).panes@.len()
            &&& forall|i: int| 0 <= i < old(st).panes@.len() && i != f ==> #[trigger] final(st).panes@[i] == old(st).panes@[i]
            &&& final(st).panes@[f]@ == pane_opening(old(st).panes@[f]@, c)
            &&& chats_view(final(st).chats@) == chats_view(old(st).chats@).update(selected as int, with_unread(c, 0))
            &&& final(st).unread_dirty == (old(st).unread_dirty || c.unread != 0)
            &&& counts_view(final(st).unread_mentions@) == set_mentions(
                counts_view(old(st).unread_mentions@),
                old(st).workspace_name@,
                0,
            )
            &&& !final(st).focus_on_chat_list
            &&& final(st).needs_redraw
            &&& final(st).threads == old(st).threads
            &&& final(st).focused_pane_idx == old(st).focused_pane_idx
            &&& final(st).my_message_ts == old(st).my_message_ts
            &&& final(st).threads_dirty == old(st).threads_dirty
            &&& final(st).pending_refresh_chats == old(st).pending_refresh_chats
            &&& final(st).show_notifications == old(st).show_notifications
            &&& final(st).workspace_name == old(st).workspace_name
        },
{
    if selected >= st.chats.len() {
        return None;
    }
    let ghost cv = chats_view(st.chats@);
    let id = st.chats[selected].id.clone();
    let name = st.chats[selected].name.clone();
    let f = st.focused_pane_idx;
    let mut pane = st.panes.remove(f);
    pane.channel_id_str = Some(id.clone());
    pane.chat_name = name.clone();
    pane.thread_ts = None;
    pane.msg_data = Vec::new();
    pane.render_stale = true;
    assert(messages_view(pane.msg_data@) =~= Seq::<MessageV>::empty());
    st.panes.insert(f, pane);
    let ghost before = st.chats@;
    let mut c = st.chats.remove(selected);
    if c.unread != 0 {
        st.unread_dirty = true;
    }
    c.unread = 0;
    let ghost cg = c;
    st.chats.insert(selected, c);
    assert(st.chats@ =~= before.update(selected as int, cg));
    assert(chats_view(st.chats@) =~= cv.update(selected as int, cg@));
    set_mentions_exec(&mut st.unread_mentions, st.workspace_name.as_str(), 0);
    st.focus_on_chat_list = false;
    st.needs_redraw = true;
    Some((id, name))
}

/// The ids among `ids` that are not in the cache, each once, in order of
/// first appearance.
pub open spec fn ids_to_fetch(ids: Seq<Option<Seq<char>>>, cache: NameCache) -> Seq<Seq<char>>
    decreases ids.len(),
{
    if ids.len() == 0 {
        Seq::empty()
    } else {
        let prev = ids_to_fetch(ids.drop_last(), cache);
        match ids.last() {
            Some(id) => if cache.lookup(id) is None && !prev.contains(id) {
                prev.push(id)
            } else {
                prev
            },
            None => prev,
        }
    }
}

/// The authors of messages: user ids, or else bot ids.
pub open spec fn author_ids(msgs: Seq<SlackMessage>, bots: bool) -> Seq<Option<Seq<char>>> {
    Seq::new(msgs.len(), |i: int| if bots {
        option_view(msgs[i].bot_id)
    } else {
        option_view(msgs[i].user)
    })
}

fn contains_string(v: &Vec<String>, s: &str) -> (r: bool)
    ensures
        r == views(v@).contains(s@),
{
    let mut i: usize = 0;
    while i < v.len()
        invariant
            i <= v.len(),
            forall|j: int| 0 <= j < i ==> views(v@)[j] != s@,
        decreases v.len() - i,
    {
        if crate::events::str_eq(v[i].as_str(), s) {
            assert(views(v@)[i as int] == s@);
            return true;
        }
        i += 1;
    }
    false
}

/// The users and the bots whose names a loaded history needs and the
/// cache lacks; see `ids_to_fetch`.
pub fn names_to_fetch(msgs: &Vec<SlackMessage>, cache: &NameCache) -> (r: (Vec<String>, Vec<String>))
    ensures
        views(r.0@) == ids_to_fetch(author_ids(msgs@, false), *cache),
        views(r.1@) == ids_to_fetch(author_ids(msgs@, true), *cache),
{
    let ghost us = author_ids(msgs@, false);
    let ghost bs = author_ids(msgs@, true);
    let mut users: Vec<String> = Vec::new();
    let mut bots: Vec<String> = Vec::new();
    let mut i: usize = 0;
    assert(us.take(0) =~= Seq::<Option<Seq<char>>>::empty());
    assert(bs.take(0) =~= Seq::<Option<Seq<char>>>::empty());
    assert(views(users@) =~= Seq::<Seq<char>>::empty());
    while i < msgs.len()
        invariant
            i <= msgs.len(),
            us == author_ids(msgs@, false),
            bs == author_ids(msgs@, true),
            views(users@) == ids_to_fetch(us.take(i as int), *cache),
            views(bots@) == ids_to_fetch(bs.take(i as int), *cache),
        decreases msgs.len() - i,
    {
        assert(us.take(i + 1).drop_last() =~= us.take(i as int));
        assert(bs.take(i + 1).drop_last() =~= bs.take(i as int));
        match &msgs[i].user {
            Some(u) => {
                if cache.get(u.as_str()).is_none() && !contains_string(&users, u.as_str()) {
                    let ghost b = views(users@);
                    users.push(u.clone());
                    assert(views(users@) =~= b.push(u@));
                }
            },
            None => {},
        }
        match &msgs[i].bot_id {
            Some(b) => {
                if cache.get(b.as_str()).is_none() && !contains_string(&bots, b.as_str()) {
                    let ghost b0 = views(bots@);
                    bots.push(b.clone());
                    assert(views(bots@) =~= b0.push(b@));
                }
            },
            None => {},
        }
        i += 1;
    }
    assert(us.take(i as int) =~= us);
    assert(bs.take(i as int) =~= bs);
    (users, bots)
}


/// `mine` with the pair added when missing.
pub open spec fn with_pair(mine: Seq<(Seq<char>, Seq<char>)>, p: (Seq<char>, Seq<char>)) -> Seq<(Seq<char>, Seq<char>)> {
    if mine.contains(p) {
        mine
    } else {
        mine.push(p)
    }
}

/// A thread entry seeded from history: already seen, no replies known yet.
pub open spec fn seeded_thread(channel: Seq<char>, channel_name: Seq<char>, ts: Seq<char>, mine: bool) -> ThreadV {
    ThreadV {
        channel_id: channel,
        channel_name: channel_name,
        thread_ts: ts,
        last_reply_ts: ts,
        unread: 0,
        mentioned: false,
        on_my_message: mine,
        i_replied: false,
        last_reply_user: None,
    }
}

/// Thread tracking after a loaded history of `channel`: each parent with
/// replies that the user wrote or that mentions the user gets a thread
/// entry (marked as the user's when it is), and the user's parents are
/// remembered as the user's messages. The flag tells whether an entry was
/// added.
pub open spec fn backfill(
    ts: Seq<ThreadV>,
    mine: Seq<(Seq<char>, Seq<char>)>,
    msgs: Seq<SlackMessage>,
    channel: Seq<char>,
    channel_name: Seq<char>,
    my_user_id: Seq<char>,
) -> (Seq<ThreadV>, Seq<(Seq<char>, Seq<char>)>, bool)
    decreases msgs.len(),
{
    if msgs.len() == 0 {
        (ts, mine, false)
    } else {
        let prev = backfill(ts, mine, msgs.drop_last(), channel, channel_name, my_user_id);
        let m = msgs.last();
        let is_mine = option_view(m.user) == Some(my_user_id);
        let mentions_me = mentions_user(message_text(m), my_user_id);
        if own_reply_count(m) == 0 || !(is_mine || mentions_me) {
            prev
        } else {
            let mine2 = if is_mine {
                with_pair(prev.1, (channel, m.ts@))
            } else {
                prev.1
            };
            match find_thread(prev.0, channel, m.ts@) {
                Some(k) => (
                    if is_mine {
                        prev.0.update(k, ThreadV { on_my_message: true, ..prev.0[k] })
                    } else {
                        prev.0
                    },
                    mine2,
                    prev.2,
                ),
                None => (prev.0.push(seeded_thread(channel, channel_name, m.ts@, is_mine)), mine2, true),
            }
        }
    }
}

/// The pane after its history is loaded: the records, to be redrawn,
/// following the newest message.
pub open spec fn pane_loaded(p: PaneV, recs: Seq<MessageV>) -> PaneV {
    PaneV { msg_data: recs, render_stale: true, scroll_offset: usize::MAX, ..p }
}

/// Tracks one loaded parent message; see `backfill`.
fn backfill_one(
    st: &mut ClientState,
    m: &SlackMessage,
    channel_id: &str,
    channel_name: &String,
    my_user_id: &str,
    added: bool,
) -> (r: bool)
    ensures
        ({
            let prev = (threads_view(old(st).threads@), pairs_view(old(st).my_message_ts@), added);
            let is_mine = option_view(m.user) == Some(my_user_id@);
            let mentions_me = mentions_user(message_text(*m), my_user_id@);
            let next = if own_reply_count(*m) == 0 || !(is_mine || mentions_me) {
                prev
            } else {
                let mine2 = if is_mine {
                    with_pair(prev.1, (channel_id@, m.ts@))
                } else {
                    prev.1
                };
                match find_thread(prev.0, channel_id@, m.ts@) {
                    Some(k) => (
                        if is_mine {
                            prev.0.update(k, ThreadV { on_my_message: true, ..prev.0[k] })
                        } else {
                            prev.0
                        },
                        mine2,
                        prev.2,
                    ),
                    None => (prev.0.push(seeded_thread(channel_id@, channel_name@, m.ts@, is_mine)), mine2, true),
                }
            };
            (threads_view(final(st).threads@), pairs_view(final(st).my_message_ts@), r) == next
        }),
        final(st).chats == old(st).chats,
        final(st).panes == old(st).panes,
        final(st).focused_pane_idx == old(st).focused_pane_idx,
        final(st).focus_on_chat_list == old(st).focus_on_chat_list,
        final(st).threads_dirty == old(st).threads_dirty,
        final(st).unread_dirty == old(st).unread_dirty,
        final(st).pending_refresh_chats == old(st).pending_refresh_chats,
        final(st).needs_redraw == old(st).needs_redraw,
        final(st).show_notifications == old(st).show_notifications,
        final(st).workspace_name == old(st).workspace_name,
        final(st).unread_mentions == old(st).unread_mentions,
{
    let rc: u32 = match m.reply_count {
        Some(c) => c,
        None => 0,
    };
    if rc == 0 {
        return added;
    }
    let is_mine = crate::events::opt_eq_str(&m.user, my_user_id);
    let text = m.rendered_text();
    let mentions_me = crate::messages::message_mentions_user(text.as_str(), my_user_id);
    if !(is_mine || mentions_me) {
        return added;
    }
    if is_mine {
        let ghost p0 = pairs_view(st.my_message_ts@);
        crate::events::remember_my_message(&mut st.my_message_ts, channel_id, m.ts.as_str());
    }
    match find_thread_exec(&st.threads, channel_id, m.ts.as_str()) {
        Some(k) => {
            if is_mine {
                let ghost before = st.threads@;
                let mut t = st.threads.remove(k);
                t.on_my_message = true;
                let ghost tg = t;
                st.threads.insert(k, t);
                assert(st.threads@ =~= before.update(k as int, tg));
                assert(threads_view(st.threads@) =~= threads_view(before).update(k as int, tg@));
            }
            added
        },
        None => {
            let ghost before = threads_view(st.threads@);
            let t = ThreadInfo {
                channel_id: channel_id.to_string(),
                channel_name: channel_name.clone(),
                thread_ts: m.ts.clone(),
                last_reply_ts: m.ts.clone(),
                unread: 0,
                mentioned: false,
                on_my_message: is_mine,
                i_replied: false,
                last_reply_user: None,
            };
            assert(t@ == seeded_thread(channel_id@, channel_name@, m.ts@, is_mine));
            st.threads.push(t);
            assert(threads_view(st.threads@) =~= before.push(seeded_thread(channel_id@, channel_name@, m.ts@, is_mine)));
            true
        },
    }
}

/// Applies a history loaded for pane `pane_idx` showing `channel_id`: the
/// pane shows the messages oldest first and follows the newest one, the
/// Threads section is backfilled (see `backfill`) and the screen redrawn.
/// Nothing happens (`false`) when the pane is gone or shows another
/// channel by now.
pub fn apply_chat_load(
    st: &mut ClientState,
    pane_idx: usize,
    channel_id: &str,
    msgs: &Vec<SlackMessage>,
    my_user_id: &str,
    cache: &NameCache,
) -> (r: bool)
    requires
        all_attachments_ok(msgs@),
    ensures
        r == (pane_idx < old(st).panes@.len() && old(st).panes@[pane_idx as int]@.channel_id_str == Some(channel_id@)),
        !r ==> *final(st) == *old(st),
        r ==> {
            let p = old(st).panes@[pane_idx as int]@;
            let name = channel_display_name(chats_view(old(st).chats@), channel_id@);
            let b = backfill(
                threads_view(old(st).threads@),
                pairs_view(old(st).my_message_ts@),
                msgs@,
                channel_id@,
                name,
                my_user_id@,
            );
            &&& final(st).panes@.len() == old(st).panes@.len()
            &&& forall|i: int| 0 <= i < old(st).panes@.len() && i != pane_idx ==> #[trigger] final(st).panes@[i] == old(st).panes@[i]
            &&& final(st).panes@[pane_idx as int]@ == pane_loaded(p, records(msgs@, my_user_id@, *cache, None, true))
            &&& threads_view(final(st).threads@) == b.0
            &&& pairs_view(final(st).my_message_ts@) == b.1
            &&& final(st).threads_dirty == (old(st).threads_dirty || b.2)
            &&& final(st).needs_redraw
            &&& final(st).chats == old(st).chats
            &&& final(st).focused_pane_idx == old(st).focused_pane_idx
            &&& final(st).focus_on_chat_list == old(st).focus_on_chat_list
            &&& final(st).unread_mentions == old(st).unread_mentions
        },
{
    if pane_idx >= st.panes.len() {
        return false;
    }
    if !crate::events::opt_eq_str(&st.panes[pane_idx].channel_id_str, channel_id) {
        return false;
    }
    let recs = records_of(msgs, my_user_id, cache, None, true);
    let ghost old_panes = st.panes@;
    let mut pane = st.panes.remove(pane_idx);
    let ghost p0 = pane@;
    pane.msg_data = recs;
    pane.render_stale = true;
    pane.scroll_offset = usize::MAX;
    assert(pane@ == pane_loaded(p0, records(msgs@, my_user_id@, *cache, None, true)));
    st.panes.insert(pane_idx, pane);
    let ghost pa = st.panes@;
    assert(pa =~= old_panes.update(pane_idx as int, pa[pane_idx as int]));
    let channel_name = match find_chat_exec(&st.chats, channel_id) {
        Some(k) => st.chats[k].name.clone(),
        None => channel_id.to_string(),
    };
    let ghost t0 = threads_view(st.threads@);
    let ghost m0 = pairs_view(st.my_message_ts@);
    let mut added = false;
    let mut i: usize = 0;
    assert(msgs@.take(0) =~= Seq::<SlackMessage>::empty());
    while i < msgs.len()
        invariant
            i <= msgs.len(),
            (threads_view(st.threads@), pairs_view(st.my_message_ts@), added) == backfill(
                t0,
                m0,
                msgs@.take(i as int),
                channel_id@,
                channel_name@,
                my_user_id@,
            ),
            st.panes@ == pa,
            st.chats == old(st).chats,
            st.focused_pane_idx == old(st).focused_pane_idx,
            st.focus_on_chat_list == old(st).focus_on_chat_list,
            st.threads_dirty == old(st).threads_dirty,
            st.needs_redraw == old(st).needs_redraw,
            st.unread_mentions == old(st).unread_mentions,
        decreases msgs.len() - i,
    {
        assert(msgs@.take(i + 1).drop_last() =~= msgs@.take(i as int));
        added = backfill_one(st, &msgs[i], channel_id, &channel_name, my_user_id, added);
        i += 1;
    }
    assert(msgs@.take(i as int) =~= msgs@);
    if added {
        st.threads_dirty = true;
    }
    st.needs_redraw = true;
    true
}


/// Takes the thread entry a click asked to open: its unread marks are
/// cleared and its channel, parent timestamp and the name to title the
/// pane with (the last replier, else the channel's name) are returned;
/// `None` for a position past the list.
pub fn take_pending_thread(threads: &mut Vec<ThreadInfo>, idx: usize) -> (r: Option<(String, String, String)>)
    ensures
        idx >= old(threads)@.len() ==> r is None && final(threads)@ == old(threads)@,
        idx < old(threads)@.len() ==> {
            let t = threads_view(old(threads)@)[idx as int];
            &&& r matches Some(x) && x.0@ == t.channel_id && x.1@ == t.thread_ts && x.2@ == (match t.last_reply_user {
                Some(u) => u,
                None => t.channel_name,
            })
            &&& threads_view(final(threads)@) == threads_view(old(threads)@).update(
                idx as int,
                ThreadV { unread: 0, mentioned: false, ..t },
            )
        },
{
    if idx >= threads.len() {
        return None;
    }
    let ghost before = threads@;
    let mut t = threads.remove(idx);
    t.unread = 0;
    t.mentioned = false;
    let channel = t.channel_id.clone();
    let ts = t.thread_ts.clone();
    let parent = match &t.last_reply_user {
        Some(u) => u.clone(),
        None => t.channel_name.clone(),
    };
    let ghost tg = t;
    threads.insert(idx, t);
    assert(threads@ =~= before.update(idx as int, tg));
    assert(threads_view(threads@) =~= threads_view(before).update(idx as int, tg@));
    Some((channel, ts, parent))
}

/// Opens a new pane on thread `thread_ts` of `channel_id`, titled after
/// `parent_user`, gives it the focus and the keys, and returns its index.
pub fn open_thread_pane(st: &mut ClientState, channel_id: &str, thread_ts: &str, parent_user: &str) -> (r: usize)
    requires
        old(st).panes@.len() < usize::MAX,
    ensures
        r == old(st).panes@.len(),
        final(st).panes@.len() == old(st).panes@.len() + 1,
        forall|i: int| 0 <= i < old(st).panes@.len() ==> #[trigger] final(st).panes@[i] == old(st).panes@[i],
        final(st).panes@[r as int]@ == (PaneV {
            channel_id_str: Some(channel_id@),
            thread_ts: Some(thread_ts@),
            chat_name: "Thread: "@ + parent_user@,
            ..crate::widgets::empty_pane()
        }),
        final(st).focused_pane_idx == r,
        !final(st).focus_on_chat_list,
        final(st).chats == old(st).chats,
        final(st).threads == old(st).threads,
        final(st).unread_mentions == old(st).unread_mentions,
{
    let mut pane = ChatPane::new();
    pane.channel_id_str = Some(channel_id.to_string());
    pane.thread_ts = Some(thread_ts.to_string());
    let mut name = "Thread: ".to_string();
    name.push_str(parent_user);
    pane.chat_name = name;
    let idx = st.panes.len();
    st.panes.push(pane);
    st.focused_pane_idx = idx;
    st.focus_on_chat_list = false;
    idx
}

/// Fills the pane with the replies of its thread, in order, each showing
/// no reply count, and follows the newest one.
pub fn fill_thread_pane(
    st: &mut ClientState,
    pane_idx: usize,
    msgs: &Vec<SlackMessage>,
    my_user_id: &str,
    cache: &NameCache,
)
    requires
        pane_idx < old(st).panes@.len(),
        all_attachments_ok(msgs@),
    ensures
        final(st).panes@.len() == old(st).panes@.len(),
        forall|i: int| 0 <= i < old(st).panes@.len() && i != pane_idx ==> #[trigger] final(st).panes@[i] == old(st).panes@[i],
        final(st).panes@[pane_idx as int]@ == (PaneV {
            msg_data: old(st).panes@[pane_idx as int]@.msg_data + records(msgs@, my_user_id@, *cache, Some(0u32), false),
            scroll_offset: usize::MAX,
            ..old(st).panes@[pane_idx as int]@
        }),
        final(st).focused_pane_idx == old(st).focused_pane_idx,
        final(st).chats == old(st).chats,
        final(st).threads == old(st).threads,
{
    let mut recs = records_of(msgs, my_user_id, cache, Some(0), false);
    let mut pane = st.panes.remove(pane_idx);
    let ghost m0 = messages_view(pane.msg_data@);
    let ghost rv = messages_view(recs@);
    pane.msg_data.append(&mut recs);
    assert(messages_view(pane.msg_data@) =~= m0 + rv);
    pane.scroll_offset = usize::MAX;
    st.panes.insert(pane_idx, pane);
}

/// The panes that show a channel, with the thread they show if any: the
/// ones whose history is (re)loaded.
pub open spec fn loadable_panes(ps: Seq<PaneV>) -> Seq<(int, Seq<char>, Option<Seq<char>>)>
    decreases ps.len(),
{
    if ps.len() == 0 {
        Seq::empty()
    } else {
        let prev = loadable_panes(ps.drop_last());
        match ps.last().channel_id_str {
            Some(c) => prev.push(((ps.len() - 1) as int, c, ps.last().thread_ts)),
            None => prev,
        }
    }
}

/// The panes whose history is loaded; see `loadable_panes`.
pub fn panes_to_load(panes: &Vec<ChatPane>) -> (r: Vec<(usize, String, Option<String>)>)
    ensures
        Seq::new(r@.len(), |i: int| (r@[i].0 as int, r@[i].1@, option_view(r@[i].2))) == loadable_panes(panes_view(panes@)),
{
    let ghost pv = panes_view(panes@);
    let mut out: Vec<(usize, String, Option<String>)> = Vec::new();
    let mut i: usize = 0;
    assert(pv.take(0) =~= Seq::<PaneV>::empty());
    assert(Seq::new(out@.len(), |k: int| (out@[k].0 as int, out@[k].1@, option_view(out@[k].2))) =~= Seq::<
        (int, Seq<char>, Option<Seq<char>>),
    >::empty());
    while i < panes.len()
        invariant
            i <= panes.len(),
            pv == panes_view(panes@),
            Seq::new(out@.len(), |k: int| (out@[k].0 as int, out@[k].1@, option_view(out@[k].2))) == loadable_panes(
                pv.take(i as int),
            ),
        decreases panes.len() - i,
    {
        assert(pv.take(i + 1).drop_last() =~= pv.take(i as int));
        assert(pv.take(i + 1).last() == panes@[i as int]@);
        let ghost before = Seq::new(out@.len(), |k: int| (out@[k].0 as int, out@[k].1@, option_view(out@[k].2)));
        match &panes[i].channel_id_str {
            Some(c) => {
                out.push((i, c.clone(), crate::text::copy_opt_string(&panes[i].thread_ts)));
                assert(Seq::new(out@.len(), |k: int| (out@[k].0 as int, out@[k].1@, option_view(out@[k].2))) =~= before.push(
                    (i as int, c@, option_view(panes@[i as int].thread_ts)),
                ));
            },
            None => {},
        }
        i += 1;
    }
    assert(pv.take(i as int) =~= pv);
    out
}

/// Replaces a pane's messages by a loaded history: a thread's replies come
/// oldest first, a channel's history newest first and is shown reversed;
/// the pane is redrawn and follows the newest message.
pub fn fill_pane_history(
    st: &mut ClientState,
    pane_idx: usize,
    msgs: &Vec<SlackMessage>,
    is_thread: bool,
    my_user_id: &str,
    cache: &NameCache,
)
    requires
        pane_idx < old(st).panes@.len(),
        all_attachments_ok(msgs@),
    ensures
        final(st).panes@.len() == old(st).panes@.len(),
        forall|i: int| 0 <= i < old(st).panes@.len() && i != pane_idx ==> #[trigger] final(st).panes@[i] == old(st).panes@[i],
        final(st).panes@[pane_idx as int]@ == pane_loaded(
            old(st).panes@[pane_idx as int]@,
            records(msgs@, my_user_id@, *cache, None, !is_thread),
        ),
        final(st).focused_pane_idx == old(st).focused_pane_idx,
        final(st).chats == old(st).chats,
        final(st).threads == old(st).threads,
{
    let recs = records_of(msgs, my_user_id, cache, None, !is_thread);
    let mut pane = st.panes.remove(pane_idx);
    pane.msg_data = recs;
    pane.render_stale = true;
    pane.scroll_offset = usize::MAX;
    st.panes.insert(pane_idx, pane);
}

/// The workspace list shown on request: a heading, then per workspace its
/// number, its name, `*` for the active one and its unread mentions.
pub open spec fn workspace_list_text(
    names: Seq<Seq<char>>,
    active: int,
    mentions: Seq<(Seq<char>, u32)>,
) -> Seq<char>
    decreases names.len(),
{
    if names.len() == 0 {
        "Workspaces (Ctrl+1-9 to switch):\n"@
    } else {
        let k = names.len() - 1;
        let n = crate::events::mention_count(mentions, names[k]);
        workspace_list_text(names.drop_last(), active, mentions) + (if k == active {
            "* "@
        } else {
            "  "@
        }) + crate::text::decimal((k + 1) as nat) + ". "@ + names[k] + (if n > 0 {
            " ["@ + crate::text::decimal(n as nat) + "@]"@
        } else {
            Seq::empty()
        }) + "\n"@
    }
}

/// The workspace list shown on request; see `workspace_list_text`.
pub fn show_workspace_list(names: &Vec<String>, active: usize, mentions: &Vec<(String, u32)>) -> (r: String)
    requires
        names@.len() < usize::MAX,
    ensures
        r@ == workspace_list_text(views(names@), active as int, counts_view(mentions@)),
{
    let ghost nv = views(names@);
    let mut msg = "Workspaces (Ctrl+1-9 to switch):\n".to_string();
    let mut i: usize = 0;
    assert(nv.take(0) =~= Seq::<Seq<char>>::empty());
    while i < names.len()
        invariant
            i <= names.len() < usize::MAX,
            nv == views(names@),
            msg@ == workspace_list_text(nv.take(i as int), active as int, counts_view(mentions@)),
        decreases names.len() - i,
    {
        assert(nv.take(i + 1).drop_last() =~= nv.take(i as int));
        let ghost m0 = msg@;
        if i == active {
            msg.push_str("* ");
        } else {
            msg.push_str("  ");
        }
        crate::text::push_decimal(&mut msg, (i + 1) as u64);
        msg.push_str(". ");
        msg.push_str(names[i].as_str());
        let n = mention_count_of(mentions, names[i].as_str());
        if n > 0 {
            msg.push_str(" [");
            crate::text::push_decimal(&mut msg, n as u64);
            msg.push_str("@]");
        }
        msg.push_str("\n");
        let ghost k = i as int;
        assert(nv.take(i + 1)[k] == nv[k]);
        assert(msg@ =~= workspace_list_text(nv.take(i + 1), active as int, counts_view(mentions@)));
        i += 1;
    }
    assert(nv.take(i as int) =~= nv);
    msg
}

/// The mention count recorded for workspace `ws` (0 when none).
pub fn mention_count_of(mentions: &Vec<(String, u32)>, ws: &str) -> (r: u32)
    ensures
        r == crate::events::mention_count(counts_view(mentions@), ws@),
{
    let ghost cv = counts_view(mentions@);
    proof {
        crate::events::lemma_count_from(cv, ws@, 0);
    }
    let mut i: usize = 0;
    while i < mentions.len()
        invariant
            i <= mentions.len(),
            cv == counts_view(mentions@),
            crate::events::count_from(cv, ws@, i as int) == crate::events::count_from(cv, ws@, 0),
        decreases mentions.len() - i,
    {
        if crate::events::str_eq(mentions[i].0.as_str(), ws) {
            return mentions[i].1;
        }
        i += 1;
    }
    0
}

} // verus!
