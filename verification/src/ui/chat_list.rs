//! The rows of the chat-list sidebar and moving the selection through them.
use vstd::prelude::*;
use chrono::TimeZone;
use crate::text::{lex_lt, lex_less, lemma_lex_irreflexive, lemma_lex_transitive, lemma_lex_total, lemma_lex_asymmetric};
use crate::models::{ChatInfo, ChatSection, ChatV, ThreadInfo, ThreadV, chats_view, threads_view, section_label};
use crate::formatting::views;
use crate::events::str_eq;
use crate::text::{chars_of, find_char, index_of, parse_i64, parsed_i64, lemma_index_of_from, digits_value};

verus! {

/// One row of the sidebar.
#[derive(Debug)]
pub enum ChatListRow {
    Header(String),
    Chat(usize),
    Thread(usize),
}

/// The contents of a sidebar row.
pub enum RowV {
    Header(Seq<char>),
    Chat(usize),
    Thread(usize),
}

impl View for ChatListRow {
    type V = RowV;

    open spec fn view(&self) -> RowV {
        match self {
            ChatListRow::Header(l) => RowV::Header(l@),
            ChatListRow::Chat(i) => RowV::Chat(*i),
            ChatListRow::Thread(i) => RowV::Thread(*i),
        }
    }
}

/// The contents of a list of rows.
pub open spec fn rows_view(v: Seq<ChatListRow>) -> Seq<RowV> {
    Seq::new(v.len(), |i: int| v[i]@)
}

/// Thread `x` comes before thread `y`: its last reply is newer, or the
/// replies are equally new and `x` was listed first.
pub open spec fn reply_before(ts: Seq<ThreadV>, x: usize, y: usize) -> bool {
    lex_lt(ts[y as int].last_reply_ts, ts[x as int].last_reply_ts) || (ts[x as int].last_reply_ts
        == ts[y as int].last_reply_ts && x < y)
}

/// `order` lists every thread index once, newest reply first; threads
/// with equally new replies keep their order.
pub open spec fn newest_first(ts: Seq<ThreadV>, order: Seq<usize>) -> bool {
    &&& order.len() == ts.len()
    &&& forall|q: int| 0 <= q < order.len() ==> order[q] < ts.len()
    &&& forall|p: int, q: int| 0 <= p < q < order.len() ==> order[p] != order[q]
    &&& forall|p: int, q: int| 0 <= p < q < order.len() ==> reply_before(ts, order[p], order[q])
}

/// Positions `k < n` of chats with unread messages, in order.
pub open spec fn unread_indices(cs: Seq<ChatV>, n: int) -> Seq<usize>
    decreases n,
{
    if n <= 0 {
        Seq::empty()
    } else {
        unread_indices(cs, n - 1) + if cs[n - 1].unread > 0 {
            seq![(n - 1) as usize]
        } else {
            Seq::empty()
        }
    }
}

/// Positions `k < n` of read chats in section `s`, in order.
pub open spec fn section_indices(cs: Seq<ChatV>, s: ChatSection, n: int) -> Seq<usize>
    decreases n,
{
    if n <= 0 {
        Seq::empty()
    } else {
        section_indices(cs, s, n - 1) + if cs[n - 1].section == s && cs[n - 1].unread == 0 {
            seq![(n - 1) as usize]
        } else {
            Seq::empty()
        }
    }
}

/// Chat rows for chat positions.
pub open spec fn chat_rows(idx: Seq<usize>) -> Seq<RowV> {
    Seq::new(idx.len(), |i: int| RowV::Chat(idx[i]))
}

/// Thread rows for thread positions.
pub open spec fn thread_rows(idx: Seq<usize>) -> Seq<RowV> {
    Seq::new(idx.len(), |i: int| RowV::Thread(idx[i]))
}

/// A titled group of rows: nothing when it has no rows, else its header,
/// followed by the rows unless the group is collapsed.
pub open spec fn group_rows(label: Seq<char>, members: Seq<RowV>, collapsed: Seq<Seq<char>>) -> Seq<RowV> {
    if members.len() == 0 {
        Seq::empty()
    } else {
        seq![RowV::Header(label)] + if collapsed.contains(label) {
            Seq::empty()
        } else {
            members
        }
    }
}

/// The rows of one chat section.
pub open spec fn section_rows(cs: Seq<ChatV>, s: ChatSection, collapsed: Seq<Seq<char>>) -> Seq<RowV> {
    group_rows(section_label(s), chat_rows(section_indices(cs, s, cs.len() as int)), collapsed)
}

/// The sidebar: chats with unread messages on top, then threads (in the
/// given order), then the read chats of each section in display order.
pub open spec fn sidebar_rows(
    cs: Seq<ChatV>,
    ts: Seq<ThreadV>,
    order: Seq<usize>,
    collapsed: Seq<Seq<char>>,
) -> Seq<RowV> {
    group_rows("New"@, chat_rows(unread_indices(cs, cs.len() as int)), collapsed) + group_rows(
        "Threads"@,
        thread_rows(order),
        collapsed,
    ) + section_rows(cs, ChatSection::Public, collapsed) + section_rows(cs, ChatSection::Private, collapsed)
        + section_rows(cs, ChatSection::Shared, collapsed) + section_rows(cs, ChatSection::Group, collapsed)
        + section_rows(cs, ChatSection::DirectMessage, collapsed) + section_rows(cs, ChatSection::Bot, collapsed)
}

proof fn lemma_unread_nonempty(cs: Seq<ChatV>, n: int, k: int)
    requires
        0 <= k < n <= cs.len(),
        cs[k].unread > 0,
    ensures
        unread_indices(cs, n).len() > 0,
    decreases n,
{
    if k < n - 1 {
        lemma_unread_nonempty(cs, n - 1, k);
    }
}

/// The New group is on top of the sidebar: whenever some chat has unread
/// messages, the first row is the New header.
pub proof fn law_new_on_top(cs: Seq<ChatV>, ts: Seq<ThreadV>, order: Seq<usize>, collapsed: Seq<Seq<char>>, k: int)
    requires
        0 <= k < cs.len(),
        cs[k].unread > 0,
    ensures
        sidebar_rows(cs, ts, order, collapsed)[0] == RowV::Header("New"@),
{
    lemma_unread_nonempty(cs, cs.len() as int, k);
}

/// Whether `label` is in the list.
fn contains_label(collapsed: &Vec<String>, label: &str) -> (r: bool)
    ensures
        r == views(collapsed@).contains(label@),
{
    let mut i: usize = 0;
    while i < collapsed.len()
        invariant
            i <= collapsed.len(),
            forall|j: int| 0 <= j < i ==> views(collapsed@)[j] != label@,
        decreases collapsed.len() - i,
    {
        if str_eq(collapsed[i].as_str(), label) {
            assert(views(collapsed@)[i as int] == label@);
            return true;
        }
        i += 1;
    }
    false
}

/// Thread positions, newest reply first.
fn thread_order(threads: &Vec<ThreadInfo>) -> (order: Vec<usize>)
    ensures
        newest_first(threads_view(threads@), order@),
{
    let ghost tv = threads_view(threads@);
    let mut order: Vec<usize> = Vec::new();
    let mut n: usize = 0;
    while n < threads.len()
        invariant
            n <= threads.len(),
            tv == threads_view(threads@),
            order@.len() == n,
            forall|q: int| 0 <= q < order@.len() ==> order@[q] < n,
            forall|p: int, q: int| 0 <= p < q < order@.len() ==> order@[p] != order@[q],
            forall|p: int, q: int| 0 <= p < q < order@.len() ==> reply_before(tv, order@[p], order@[q]),
        decreases threads.len() - n,
    {
        let key = threads[n].last_reply_ts.as_str();
        let mut p: usize = 0;
        while p < order.len() && !lex_less(threads[order[p]].last_reply_ts.as_str(), key)
            invariant
                p <= order@.len(),
                n < threads.len(),
                tv == threads_view(threads@),
                key@ == tv[n as int].last_reply_ts,
                forall|q: int| 0 <= q < order@.len() ==> order@[q] < n,
                forall|q: int| 0 <= q < p ==> !lex_lt(tv[order@[q] as int].last_reply_ts, key@),
            decreases order@.len() - p,
        {
            p += 1;
        }
        let ghost before = order@;
        proof {
            assert forall|q: int| 0 <= q < p implies reply_before(tv, before[q], n) by {
                lemma_lex_total(tv[before[q] as int].last_reply_ts, key@);
            }
            assert forall|q: int| p <= q < before.len() implies reply_before(tv, n, before[q]) by {
                let kq = tv[before[q] as int].last_reply_ts;
                let kp = tv[before[p as int] as int].last_reply_ts;
                if q > p {
                    assert(reply_before(tv, before[p as int], before[q]));
                    if lex_lt(kq, kp) {
                        lemma_lex_transitive(kq, kp, key@);
                    }
                }
            }
        }
        order.insert(p, n);
        proof {
            assert forall|a: int, b: int| 0 <= a < b < order@.len() implies reply_before(tv, order@[a], order@[b]) by {
                if a < p && b > p {
                    assert(order@[a] == before[a] && order@[b] == before[b - 1]);
                    assert(reply_before(tv, before[a], before[b - 1]));
                } else if a < p && b < p {
                    assert(reply_before(tv, before[a], before[b]));
                } else if a > p && b > p {
                    assert(reply_before(tv, before[a - 1], before[b - 1]));
                }
            }
        }
        n += 1;
    }
    order
}

fn push_group(rows: &mut Vec<ChatListRow>, label: &str, members: Vec<ChatListRow>, collapsed: &Vec<String>)
    ensures
        rows_view(final(rows)@) == rows_view(old(rows)@) + group_rows(label@, rows_view(members@), views(collapsed@)),
{
    if members.len() == 0 {
        assert(rows_view(rows@) =~= rows_view(rows@) + Seq::<RowV>::empty());
        return;
    }
    let ghost before = rows_view(rows@);
    let is_collapsed = contains_label(collapsed, label);
    rows.push(ChatListRow::Header(label.to_string()));
    if !is_collapsed {
        let mut i: usize = 0;
        while i < members.len()
            invariant
                i <= members.len(),
                rows_view(rows@) == before + seq![RowV::Header(label@)] + rows_view(members@).take(i as int),
            decreases members.len() - i,
        {
            let r = match &members[i] {
                ChatListRow::Header(l) => ChatListRow::Header(l.clone()),
                ChatListRow::Chat(k) => ChatListRow::Chat(*k),
                ChatListRow::Thread(k) => ChatListRow::Thread(*k),
            };
            let ghost r0 = rows_view(rows@);
            rows.push(r);
            assert(rows_view(rows@) =~= r0.push(members@[i as int]@));
            assert(rows_view(members@).take(i + 1) =~= rows_view(members@).take(i as int).push(members@[i as int]@));
            i += 1;
        }
        assert(rows_view(members@).take(members.len() as int) =~= rows_view(members@));
        assert(rows_view(rows@) =~= before + group_rows(label@, rows_view(members@), views(collapsed@)));
    } else {
        assert(rows_view(rows@) =~= before + group_rows(label@, rows_view(members@), views(collapsed@)));
    }
}

/// Chat rows of the chats with unread messages.
fn unread_chat_rows(chats: &Vec<ChatInfo>) -> (r: Vec<ChatListRow>)
    ensures
        rows_view(r@) == chat_rows(unread_indices(chats_view(chats@), chats@.len() as int)),
{
    let ghost cv = chats_view(chats@);
    let mut r: Vec<ChatListRow> = Vec::new();
    let mut i: usize = 0;
    while i < chats.len()
        invariant
            i <= chats.len(),
            cv == chats_view(chats@),
            rows_view(r@) == chat_rows(unread_indices(cv, i as int)),
        decreases chats.len() - i,
    {
        let ghost r0 = rows_view(r@);
        if chats[i].unread > 0 {
            r.push(ChatListRow::Chat(i));
            assert(unread_indices(cv, i + 1) =~= unread_indices(cv, i as int).push(i));
            assert(rows_view(r@) =~= r0.push(RowV::Chat(i)));
            assert(rows_view(r@) =~= chat_rows(unread_indices(cv, i + 1)));
        } else {
            assert(unread_indices(cv, i + 1) =~= unread_indices(cv, i as int));
        }
        i += 1;
    }
    r
}

/// Chat rows of the read chats of section `s`.
fn section_chat_rows(chats: &Vec<ChatInfo>, s: ChatSection) -> (r: Vec<ChatListRow>)
    ensures
        rows_view(r@) == chat_rows(section_indices(chats_view(chats@), s, chats@.len() as int)),
{
    let ghost cv = chats_view(chats@);
    let mut r: Vec<ChatListRow> = Vec::new();
    let mut i: usize = 0;
    while i < chats.len()
        invariant
            i <= chats.len(),
            cv == chats_view(chats@),
            rows_view(r@) == chat_rows(section_indices(cv, s, i as int)),
        decreases chats.len() - i,
    {
        let ghost r0 = rows_view(r@);
        if chats[i].section == s && chats[i].unread == 0 {
            r.push(ChatListRow::Chat(i));
            assert(section_indices(cv, s, i + 1) =~= section_indices(cv, s, i as int).push(i));
            assert(rows_view(r@) =~= r0.push(RowV::Chat(i)));
            assert(rows_view(r@) =~= chat_rows(section_indices(cv, s, i + 1)));
        } else {
            assert(section_indices(cv, s, i + 1) =~= section_indices(cv, s, i as int));
        }
        i += 1;
    }
    r
}

/// Builds the sidebar rows: a New group for chats with unread messages on
/// top, a Threads group, then each section's read chats; collapsed groups
/// show only their header.
pub fn build_chat_list_rows(
    chats: &Vec<ChatInfo>,
    threads: &Vec<ThreadInfo>,
    collapsed: &Vec<String>,
) -> (rows: Vec<ChatListRow>)
    ensures
        exists|order: Seq<usize>|
            newest_first(threads_view(threads@), order) && rows_view(rows@) == sidebar_rows(
                chats_view(chats@),
                threads_view(threads@),
                order,
                views(collapsed@),
            ),
{
    let mut rows: Vec<ChatListRow> = Vec::new();
    let order = thread_order(threads);
    let mut trows: Vec<ChatListRow> = Vec::new();
    let mut i: usize = 0;
    while i < order.len()
        invariant
            i <= order.len(),
            rows_view(trows@) == thread_rows(order@.take(i as int)),
        decreases order.len() - i,
    {
        let ghost r0 = rows_view(trows@);
        trows.push(ChatListRow::Thread(order[i]));
        assert(rows_view(trows@) =~= r0.push(RowV::Thread(order@[i as int])));
        assert(order@.take(i + 1) =~= order@.take(i as int).push(order@[i as int]));
        assert(rows_view(trows@) =~= thread_rows(order@.take(i + 1)));
        i += 1;
    }
    assert(order@.take(order.len() as int) =~= order@);
    assert(rows_view(rows@) =~= Seq::<RowV>::empty());
    proof {
        reveal_strlit("Threads");
        reveal_strlit("New");
    }
    push_group(&mut rows, "New", unread_chat_rows(chats), collapsed);
    push_group(&mut rows, "Threads", trows, collapsed);
    push_group(&mut rows, ChatSection::Public.label(), section_chat_rows(chats, ChatSection::Public), collapsed);
    push_group(&mut rows, ChatSection::Private.label(), section_chat_rows(chats, ChatSection::Private), collapsed);
    push_group(&mut rows, ChatSection::Shared.label(), section_chat_rows(chats, ChatSection::Shared), collapsed);
    push_group(&mut rows, ChatSection::Group.label(), section_chat_rows(chats, ChatSection::Group), collapsed);
    push_group(
        &mut rows,
        ChatSection::DirectMessage.label(),
        section_chat_rows(chats, ChatSection::DirectMessage),
        collapsed,
    );
    push_group(&mut rows, ChatSection::Bot.label(), section_chat_rows(chats, ChatSection::Bot), collapsed);
    assert(rows_view(rows@) =~= sidebar_rows(chats_view(chats@), threads_view(threads@), order@, views(collapsed@)));
    rows
}

proof fn lemma_reply_before_asymmetric(ts: Seq<ThreadV>, x: usize, y: usize)
    requires
        reply_before(ts, x, y),
    ensures
        !reply_before(ts, y, x),
{
    let kx = ts[x as int].last_reply_ts;
    let ky = ts[y as int].last_reply_ts;
    if lex_lt(ky, kx) {
        lemma_lex_asymmetric(ky, kx);
        lemma_lex_irreflexive(kx);
    } else {
        lemma_lex_irreflexive(kx);
    }
}

proof fn lemma_sorted_same_elements(ts: Seq<ThreadV>, a: Seq<usize>, b: Seq<usize>)
    requires
        forall|p: int, q: int| #![trigger a[p], a[q]] 0 <= p < q < a.len() ==> a[p] != a[q] && reply_before(ts, a[p], a[q]),
        forall|p: int, q: int| #![trigger b[p], b[q]] 0 <= p < q < b.len() ==> b[p] != b[q] && reply_before(ts, b[p], b[q]),
        forall|x: usize| a.contains(x) <==> b.contains(x),
    ensures
        a == b,
    decreases a.len(),
{
    if a.len() == 0 {
        if b.len() > 0 {
            assert(b.contains(b[0]));
        }
        assert(a =~= b);
    } else {
        assert(a.contains(a[0]));
        let j = choose|j: int| 0 <= j < b.len() && b[j] == a[0];
        assert(b.contains(b[0]));
        let i = choose|i: int| 0 <= i < a.len() && a[i] == b[0];
        if j > 0 {
            if i == 0 {
                assert(b[0] != b[j]);
                assert(false);
            } else {
                lemma_reply_before_asymmetric(ts, a[0], b[0]);
                assert(false);
            }
        }
        let a2 = a.drop_first();
        let b2 = b.drop_first();
        assert forall|x: usize| a2.contains(x) <==> b2.contains(x) by {
            if a2.contains(x) {
                let k = choose|k: int| 0 <= k < a2.len() && a2[k] == x;
                assert(a[k + 1] == x && a[0] != x);
                assert(a.contains(x));
                let m = choose|m: int| 0 <= m < b.len() && b[m] == x;
                assert(m != 0);
                assert(b2[m - 1] == x);
            }
            if b2.contains(x) {
                let k = choose|k: int| 0 <= k < b2.len() && b2[k] == x;
                assert(b[k + 1] == x && b[0] != x);
                assert(b.contains(x));
                let m = choose|m: int| 0 <= m < a.len() && a[m] == x;
                assert(m != 0);
                assert(a2[m - 1] == x);
            }
        }
        lemma_sorted_same_elements(ts, a2, b2);
        assert(a =~= seq![a[0]] + a2);
        assert(b =~= seq![b[0]] + b2);
    }
}

/// The order of the Threads group is determined: two orders that both list
/// every thread once, newest reply first, are the same.
pub proof fn law_thread_order_unique(ts: Seq<ThreadV>, a: Seq<usize>, b: Seq<usize>)
    requires
        ts.len() <= usize::MAX,
        newest_first(ts, a),
        newest_first(ts, b),
    ensures
        a == b,
{
    assert forall|x: usize| a.contains(x) <==> b.contains(x) by {
        if a.contains(x) || b.contains(x) {
            lemma_all_listed(a, ts.len() as int, x);
            lemma_all_listed(b, ts.len() as int, x);
        }
    }
    lemma_sorted_same_elements(ts, a, b);
}

/// A list of `n` distinct positions below `n` lists each of them.
pub(crate) proof fn lemma_all_listed(v: Seq<usize>, n: int, x: usize)
    requires
        v.len() == n,
        n <= usize::MAX,
        forall|q: int| 0 <= q < v.len() ==> v[q] < n,
        forall|p: int, q: int| 0 <= p < q < v.len() ==> v[p] != v[q],
        x < n,
    ensures
        v.contains(x),
{
    if !v.contains(x) {
        let s = v.to_set();
        let full = Set::new(|k: usize| k < n);
        assert forall|k: usize| s.contains(k) implies full.remove(x).contains(k) by {
            let q = choose|q: int| 0 <= q < v.len() && v[q] == k;
        }
        v.unique_seq_to_set();
        lemma_range_set_len(n);
        vstd::set_lib::lemma_len_subset(s, full.remove(x));
    }
}

pub(crate) proof fn lemma_range_set_len(n: int)
    requires
        0 <= n,
        n <= usize::MAX + 1,
    ensures
        Set::new(|k: usize| k < n).finite(),
        Set::new(|k: usize| k < n).len() == n,
    decreases n,
{
    if n == 0 {
        assert(Set::new(|k: usize| k < n) =~= Set::<usize>::empty());
    } else {
        lemma_range_set_len(n - 1);
        assert(Set::new(|k: usize| k < n) =~= Set::new(|k: usize| k < n - 1).insert((n - 1) as usize));
    }
}

/// The first row at or after `i` that shows chat `chat_idx`.
pub open spec fn chat_row_from(rows: Seq<RowV>, chat_idx: usize, i: int) -> Option<int>
    decreases rows.len() - i,
{
    if i < 0 || i >= rows.len() {
        None
    } else if rows[i] == RowV::Chat(chat_idx) {
        Some(i)
    } else {
        chat_row_from(rows, chat_idx, i + 1)
    }
}

/// The display row of chat `chat_idx`, or row 0 when it is not shown.
pub fn chat_idx_to_row(rows: &[ChatListRow], chat_idx: usize) -> (r: usize)
    ensures
        r == (match chat_row_from(rows_view(rows@), chat_idx, 0) {
            Some(k) => k as usize,
            None => 0usize,
        }),
{
    let ghost rv = rows_view(rows@);
    let mut i: usize = 0;
    while i < rows.len()
        invariant
            i <= rows.len(),
            rv == rows_view(rows@),
            chat_row_from(rv, chat_idx, i as int) == chat_row_from(rv, chat_idx, 0),
        decreases rows.len() - i,
    {
        match &rows[i] {
            ChatListRow::Chat(k) => {
                if *k == chat_idx {
                    return i;
                }
            },
            _ => {},
        }
        i += 1;
    }
    0
}

/// The chat positions shown, in row order.
pub open spec fn shown_chats(rows: Seq<RowV>) -> Seq<usize>
    decreases rows.len(),
{
    if rows.len() == 0 {
        Seq::empty()
    } else {
        shown_chats(rows.drop_last()) + match rows.last() {
            RowV::Chat(k) => seq![k],
            _ => Seq::empty(),
        }
    }
}

/// The thread positions shown, in row order.
pub open spec fn shown_threads(rows: Seq<RowV>) -> Seq<usize>
    decreases rows.len(),
{
    if rows.len() == 0 {
        Seq::empty()
    } else {
        shown_threads(rows.drop_last()) + match rows.last() {
            RowV::Thread(k) => seq![k],
            _ => Seq::empty(),
        }
    }
}

/// The chat positions of the chat rows, in order.
pub fn visible_chat_indices(rows: &[ChatListRow]) -> (r: Vec<usize>)
    ensures
        r@ == shown_chats(rows_view(rows@)),
{
    let ghost rv = rows_view(rows@);
    let mut r: Vec<usize> = Vec::new();
    let mut i: usize = 0;
    while i < rows.len()
        invariant
            i <= rows.len(),
            rv == rows_view(rows@),
            r@ == shown_chats(rv.take(i as int)),
        decreases rows.len() - i,
    {
        assert(rv.take(i + 1).drop_last() =~= rv.take(i as int));
        match &rows[i] {
            ChatListRow::Chat(k) => {
                r.push(*k);
            },
            _ => {},
        }
        assert(r@ =~= shown_chats(rv.take(i + 1)));
        i += 1;
    }
    assert(rv.take(rows.len() as int) =~= rv);
    r
}

/// The thread positions of the thread rows, in order.
pub fn visible_thread_indices(rows: &[ChatListRow]) -> (r: Vec<usize>)
    ensures
        r@ == shown_threads(rows_view(rows@)),
{
    let ghost rv = rows_view(rows@);
    let mut r: Vec<usize> = Vec::new();
    let mut i: usize = 0;
    while i < rows.len()
        invariant
            i <= rows.len(),
            rv == rows_view(rows@),
            r@ == shown_threads(rv.take(i as int)),
        decreases rows.len() - i,
    {
        assert(rv.take(i + 1).drop_last() =~= rv.take(i as int));
        match &rows[i] {
            ChatListRow::Thread(k) => {
                r.push(*k);
            },
            _ => {},
        }
        assert(r@ =~= shown_threads(rv.take(i + 1)));
        i += 1;
    }
    assert(rv.take(rows.len() as int) =~= rv);
    r
}

/// The first position at or after `i` holding `x`.
pub open spec fn pos_from(s: Seq<usize>, x: usize, i: int) -> Option<int>
    decreases s.len() - i,
{
    if i < 0 || i >= s.len() {
        None
    } else if s[i] == x {
        Some(i)
    } else {
        pos_from(s, x, i + 1)
    }
}

/// The position of `x` in `s`, or 0 when it is absent.
pub open spec fn pos_or_first(s: Seq<usize>, x: usize) -> int {
    match pos_from(s, x, 0) {
        Some(k) => k,
        None => 0,
    }
}

proof fn lemma_pos_from(s: Seq<usize>, x: usize, i: int)
    requires
        0 <= i <= s.len(),
    ensures
        match pos_from(s, x, i) {
            Some(k) => i <= k < s.len() && s[k] == x,
            None => true,
        },
    decreases s.len() - i,
{
    if i < s.len() && s[i] != x {
        lemma_pos_from(s, x, i + 1);
    }
}

fn position_of(s: &Vec<usize>, x: usize) -> (r: usize)
    ensures
        r == pos_or_first(s@, x),
        s@.len() > 0 ==> r < s@.len(),
{
    proof {
        lemma_pos_from(s@, x, 0);
    }
    let mut i: usize = 0;
    while i < s.len()
        invariant
            i <= s.len(),
            pos_from(s@, x, i as int) == pos_from(s@, x, 0),
        decreases s.len() - i,
    {
        if s[i] == x {
            return i;
        }
        i += 1;
    }
    0
}

/// Which sidebar row is selected: a chat, or a thread when one is set.
#[derive(Debug, Clone, Copy, PartialEq, Eq, Structural)]
pub struct ChatSelection {
    pub selected_chat_idx: usize,
    pub selected_thread_idx: Option<usize>,
}

/// The selection after moving down one row: through the shown threads, from
/// the last thread to the first shown chat, then down the shown chats,
/// stopping at the last one.
pub open spec fn selection_after_next(sel: ChatSelection, threads: Seq<usize>, chats: Seq<usize>) -> ChatSelection {
    match sel.selected_thread_idx {
        Some(cur) => {
            let pos = pos_or_first(threads, cur);
            if pos + 1 < threads.len() {
                ChatSelection { selected_chat_idx: sel.selected_chat_idx, selected_thread_idx: Some(threads[pos + 1]) }
            } else {
                ChatSelection {
                    selected_chat_idx: if chats.len() > 0 { chats[0] } else { sel.selected_chat_idx },
                    selected_thread_idx: None,
                }
            }
        },
        None => if chats.len() == 0 {
            sel
        } else {
            let pos = pos_or_first(chats, sel.selected_chat_idx);
            let next = if pos + 1 < chats.len() { pos + 1 } else { chats.len() - 1 };
            ChatSelection { selected_chat_idx: chats[next], selected_thread_idx: None }
        },
    }
}

/// The selection after moving up one row: up the shown chats, from the
/// first chat to the last shown thread, then up the threads, stopping at the
/// first one.
pub open spec fn selection_after_previous(sel: ChatSelection, threads: Seq<usize>, chats: Seq<usize>) -> ChatSelection {
    match sel.selected_thread_idx {
        Some(cur) => {
            let pos = pos_or_first(threads, cur);
            let prev = if pos > 0 { pos - 1 } else { 0 };
            ChatSelection { selected_chat_idx: sel.selected_chat_idx, selected_thread_idx: Some(threads[prev]) }
        },
        None => {
            let pos = pos_or_first(chats, sel.selected_chat_idx);
            if chats.len() == 0 || pos == 0 {
                if threads.len() > 0 {
                    ChatSelection { selected_chat_idx: sel.selected_chat_idx, selected_thread_idx: Some(threads.last()) }
                } else {
                    sel
                }
            } else {
                ChatSelection { selected_chat_idx: chats[pos - 1], selected_thread_idx: None }
            }
        },
    }
}

impl ChatSelection {
    /// Moves the selection one row down the sidebar `rows`.
    pub fn select_next_chat(&mut self, rows: &[ChatListRow])
        ensures
            *final(self) == selection_after_next(*old(self), shown_threads(rows_view(rows@)), shown_chats(rows_view(rows@))),
    {
        let threads = visible_thread_indices(rows);
        let chats = visible_chat_indices(rows);
        if let Some(cur) = self.selected_thread_idx {
            let pos = position_of(&threads, cur);
            if pos + 1 < threads.len() {
                self.selected_thread_idx = Some(threads[pos + 1]);
            } else {
                self.selected_thread_idx = None;
                if chats.len() > 0 {
                    self.selected_chat_idx = chats[0];
                }
            }
            return;
        }
        if chats.len() == 0 {
            return;
        }
        let pos = position_of(&chats, self.selected_chat_idx);
        let next = if pos + 1 < chats.len() {
            pos + 1
        } else {
            chats.len() - 1
        };
        self.selected_chat_idx = chats[next];
    }

    /// Moves the selection one row up the sidebar `rows`. A selected thread
    /// requires some thread row to be shown.
    pub fn select_previous_chat(&mut self, rows: &[ChatListRow])
        requires
            old(self).selected_thread_idx is Some ==> shown_threads(rows_view(rows@)).len() > 0,
        ensures
            *final(self) == selection_after_previous(*old(self), shown_threads(rows_view(rows@)), shown_chats(rows_view(rows@))),
    {
        let threads = visible_thread_indices(rows);
        let chats = visible_chat_indices(rows);
        if let Some(cur) = self.selected_thread_idx {
            let pos = position_of(&threads, cur);
            let prev = if pos > 0 {
                pos - 1
            } else {
                0
            };
            self.selected_thread_idx = Some(threads[prev]);
            return;
        }
        let pos = position_of(&chats, self.selected_chat_idx);
        if chats.len() == 0 || pos == 0 {
            if threads.len() > 0 {
                self.selected_thread_idx = Some(threads[threads.len() - 1]);
            }
            return;
        }
        self.selected_chat_idx = chats[pos - 1];
    }
}

/// The collapsed labels after toggling `label`: its first occurrence is
/// removed, or it is added at the end.
pub open spec fn toggled(collapsed: Seq<Seq<char>>, label: Seq<char>) -> Seq<Seq<char>> {
    match collapsed.index_of_first(label) {
        Some(k) => collapsed.remove(k),
        None => collapsed.push(label),
    }
}

/// Collapses or expands the group titled `label`; always reports a change.
pub fn toggle_section(collapsed: &mut Vec<String>, label: &str) -> (r: bool)
    ensures
        views(final(collapsed)@) == toggled(views(old(collapsed)@), label@),
        r,
{
    let ghost cv = views(collapsed@);
    let mut i: usize = 0;
    while i < collapsed.len()
        invariant
            i <= collapsed.len(),
            cv == views(collapsed@),
            collapsed@ == old(collapsed)@,
            forall|j: int| 0 <= j < i ==> cv[j] != label@,
        decreases collapsed.len() - i,
    {
        if str_eq(collapsed[i].as_str(), label) {
            proof {
                assert(cv[i as int] == label@);
                cv.index_of_first_ensures(label@);
                let k = cv.index_of_first(label@)->0;
                if k < i {
                    assert(cv[k] == label@);
                }
                assert(k == i);
            }
            collapsed.remove(i);
            assert(views(collapsed@) =~= cv.remove(i as int));
            return true;
        }
        i += 1;
    }
    proof {
        cv.index_of_first_ensures(label@);
    }
    collapsed.push(label.to_string());
    assert(views(collapsed@) =~= cv.push(label@));
    true
}

/// Collapsing a group that is expanded and then toggling it again gives
/// back the same collapsed labels.
pub proof fn law_toggle_twice_restores(collapsed: Seq<Seq<char>>, label: Seq<char>)
    requires
        !collapsed.contains(label),
    ensures
        toggled(toggled(collapsed, label), label) == collapsed,
{
    collapsed.index_of_first_ensures(label);
    let c2 = collapsed.push(label);
    assert(c2[collapsed.len() as int] == label);
    c2.index_of_first_ensures(label);
    let k = c2.index_of_first(label)->0;
    if k < collapsed.len() {
        assert(collapsed[k] == label);
    }
    assert(c2.remove(k) =~= collapsed);
}

/// Toggling a group flips whether it is collapsed and leaves every other
/// group as it was, when no label is listed twice.
pub proof fn law_toggle_flips_only_its_group(collapsed: Seq<Seq<char>>, label: Seq<char>, other: Seq<char>)
    requires
        forall|i: int, j: int| 0 <= i < j < collapsed.len() ==> collapsed[i] != collapsed[j],
        other != label,
    ensures
        toggled(collapsed, label).contains(label) == !collapsed.contains(label),
        toggled(collapsed, label).contains(other) == collapsed.contains(other),
{
    collapsed.index_of_first_ensures(label);
    let t = toggled(collapsed, label);
    match collapsed.index_of_first(label) {
        Some(k) => {
            if t.contains(label) {
                let j = choose|j: int| 0 <= j < t.len() && t[j] == label;
                if j < k {
                    assert(collapsed[j] == label);
                } else {
                    assert(collapsed[j + 1] == label);
                }
            }
            if collapsed.contains(other) {
                let j = choose|j: int| 0 <= j < collapsed.len() && collapsed[j] == other;
                if j < k {
                    assert(t[j] == other);
                } else {
                    assert(t[j - 1] == other);
                }
            }
            if t.contains(other) {
                let j = choose|j: int| 0 <= j < t.len() && t[j] == other;
                if j < k {
                    assert(collapsed[j] == other);
                } else {
                    assert(collapsed[j + 1] == other);
                }
            }
        },
        None => {
            assert(t[collapsed.len() as int] == label);
            if collapsed.contains(other) {
                let j = choose|j: int| 0 <= j < collapsed.len() && collapsed[j] == other;
                assert(t[j] == other);
            }
            if t.contains(other) {
                let j = choose|j: int| 0 <= j < t.len() && t[j] == other;
                assert(j < collapsed.len());
                assert(collapsed[j] == other);
            }
        },
    }
}

/// Toggling a group keeps the collapsed labels distinct.
pub proof fn law_toggle_keeps_labels_distinct(collapsed: Seq<Seq<char>>, label: Seq<char>)
    requires
        forall|i: int, j: int| 0 <= i < j < collapsed.len() ==> collapsed[i] != collapsed[j],
    ensures
        forall|i: int, j: int|
            0 <= i < j < toggled(collapsed, label).len() ==> toggled(collapsed, label)[i] != toggled(collapsed, label)[j],
{
    collapsed.index_of_first_ensures(label);
    let t = toggled(collapsed, label);
    match collapsed.index_of_first(label) {
        Some(k) => {
            assert forall|i: int, j: int| 0 <= i < j < t.len() implies t[i] != t[j] by {
                let ii = if i < k { i } else { i + 1 };
                let jj = if j < k { j } else { j + 1 };
                assert(t[i] == collapsed[ii]);
                assert(t[j] == collapsed[jj]);
            }
        },
        None => {
            assert forall|i: int, j: int| 0 <= i < j < t.len() implies t[i] != t[j] by {
                if j == collapsed.len() {
                    assert(t[i] == collapsed[i]);
                    if collapsed[i] == label {
                        assert(collapsed.contains(label));
                    }
                } else {
                    assert(t[i] == collapsed[i]);
                    assert(t[j] == collapsed[j]);
                }
            }
        },
    }
}

/// Toggling a group twice, from either side, gives back the same set of
/// collapsed groups, when no label is listed twice.
pub proof fn law_toggle_twice_same_groups(collapsed: Seq<Seq<char>>, label: Seq<char>, x: Seq<char>)
    requires
        forall|i: int, j: int| 0 <= i < j < collapsed.len() ==> collapsed[i] != collapsed[j],
    ensures
        toggled(toggled(collapsed, label), label).contains(x) == collapsed.contains(x),
{
    law_toggle_keeps_labels_distinct(collapsed, label);
    if x == label {
        let other = label.push('a');
        assert(other.len() != label.len());
        law_toggle_flips_only_its_group(collapsed, label, other);
        law_toggle_flips_only_its_group(toggled(collapsed, label), label, other);
    } else {
        law_toggle_flips_only_its_group(collapsed, label, x);
        law_toggle_flips_only_its_group(toggled(collapsed, label), label, x);
    }
}

/// The group a selected chat is listed in: New when it has unread
/// messages, else its section.
pub open spec fn selected_group_label(cs: Seq<ChatV>, idx: usize) -> Option<Seq<char>> {
    if idx < cs.len() {
        Some(if cs[idx as int].unread > 0 { "New"@ } else { section_label(cs[idx as int].section) })
    } else {
        None
    }
}

/// Whether some row is the header `label`.
pub open spec fn has_header(rows: Seq<RowV>, label: Seq<char>) -> bool {
    exists|i: int| 0 <= i < rows.len() && rows[i] == RowV::Header(label)
}

/// Toggles the group of the selected chat when its header is shown;
/// reports whether a group was toggled.
pub fn toggle_selected_section(
    chats: &Vec<ChatInfo>,
    selected_chat_idx: usize,
    rows: &[ChatListRow],
    collapsed: &mut Vec<String>,
) -> (r: bool)
    ensures
        r == (selected_group_label(chats_view(chats@), selected_chat_idx) matches Some(l) && has_header(
            rows_view(rows@),
            l,
        )),
        r ==> views(final(collapsed)@) == toggled(
            views(old(collapsed)@),
            selected_group_label(chats_view(chats@), selected_chat_idx)->0,
        ),
        !r ==> final(collapsed)@ == old(collapsed)@,
{
    if selected_chat_idx >= chats.len() {
        return false;
    }
    let chat = &chats[selected_chat_idx];
    let label: &str = if chat.unread > 0 {
        "New"
    } else {
        chat.section.label()
    };
    proof {
        reveal_strlit("New");
    }
    let ghost rv = rows_view(rows@);
    let mut i: usize = 0;
    while i < rows.len()
        invariant
            i <= rows.len(),
            rv == rows_view(rows@),
            collapsed@ == old(collapsed)@,
            selected_group_label(chats_view(chats@), selected_chat_idx) == Some(label@),
            forall|j: int| 0 <= j < i ==> rv[j] != RowV::Header(label@),
        decreases rows.len() - i,
    {
        let hit = match &rows[i] {
            ChatListRow::Header(l) => str_eq(l.as_str(), label),
            _ => false,
        };
        if hit {
            assert(rv[i as int] == RowV::Header(label@));
            return toggle_section(collapsed, label);
        }
        i += 1;
    }
    false
}

/// A clock time `HH:MM`: two-digit hour below 24, a colon, two-digit
/// minute below 60.
pub open spec fn is_clock_time(s: Seq<char>) -> bool {
    &&& s.len() == 5
    &&& s[2] == ':'
    &&& forall|i: int| 0 <= i < 5 && i != 2 ==> '0' <= #[trigger] s[i] <= '9'
    &&& digits_value(s.take(2)) < 24
    &&& digits_value(s.subrange(3, 5)) < 60
}

/// Seconds well inside the range chrono's dates cover (years -262143 to
/// 262142): within about 253,000 years of 1970.
pub open spec fn clock_range(secs: i64) -> bool {
    -8_000_000_000_000 <= secs <= 8_000_000_000_000
}

/// Calls chrono's `Local.timestamp_opt(secs, 0).single()` and formats the
/// result with `"%H:%M"`. The hour and minute depend on the machine's time
/// zone, so only the shape is stated: chrono documents `%H` as the hour
/// `00`-`23` and `%M` as the minute `00`-`59`, each zero-padded to two
/// digits. chrono documents `timestamp_opt` as giving no time only for an
/// out-of-range number of seconds or an invalid nanosecond, and a single
/// time otherwise; the nanosecond here is 0, so seconds in `clock_range`
/// always give a time.
#[verifier::external_body]
fn local_clock_time(secs: i64) -> (r: Option<String>)
    ensures
        clock_range(secs) ==> r is Some,
        r matches Some(t) ==> is_clock_time(t@),
{
    chrono::Local.timestamp_opt(secs, 0).single().map(|dt| dt.format("%H:%M").to_string())
}

/// The whole seconds of a Slack timestamp `"<secs>.<micros>"`: the text
/// before the first `.` (all of it when there is none), parsed as an `i64`.
pub open spec fn ts_seconds(ts: Seq<char>) -> Option<i64> {
    match index_of(ts, '.') {
        Some(k) => parsed_i64(ts.take(k)),
        None => parsed_i64(ts),
    }
}

/// A Slack timestamp as a short local `HH:MM` clock time for the Threads
/// section; the timestamp itself when its seconds do not parse or have no
/// single local time, which happens only outside `clock_range`; see
/// `thread_time_ok`.
pub fn format_thread_time(ts: &str) -> (r: String)
    ensures
        thread_time_ok(ts@, r@),
{
    match timestamp_seconds(ts) {
        Some(secs) => match local_clock_time(secs) {
            Some(t) => t,
            None => ts.to_string(),
        },
        None => ts.to_string(),
    }
}

/// The whole seconds of a Slack timestamp; see `ts_seconds`.
pub fn timestamp_seconds(ts: &str) -> (r: Option<i64>)
    ensures
        r == ts_seconds(ts@),
{
    let v = chars_of(ts);
    proof {
        lemma_index_of_from(v@, '.', 0);
    }
    let head = match find_char(&v, 0, '.') {
        Some(k) => {
            let mut h: Vec<char> = Vec::new();
            let mut i: usize = 0;
            while i < k
                invariant
                    i <= k <= v.len(),
                    h@ == v@.take(i as int),
                decreases k - i,
            {
                h.push(v[i]);
                i += 1;
            }
            h
        },
        None => v,
    };
    parse_i64(&head)
}

/// The `HH:MM` local clock time a pane shows before a message, when
/// timestamps are shown and the message's timestamp has whole seconds;
/// there is one for every such timestamp in `clock_range`.
pub fn message_clock(ts: &str, show_timestamps: bool) -> (r: Option<String>)
    ensures
        !show_timestamps ==> r is None,
        ts_seconds(ts@) is None ==> r is None,
        show_timestamps ==> match ts_seconds(ts@) {
            Some(secs) => clock_range(secs) ==> r is Some,
            None => true,
        },
        r matches Some(t) ==> is_clock_time(t@),
{
    if !show_timestamps {
        return None;
    }
    match timestamp_seconds(ts) {
        Some(secs) => local_clock_time(secs),
        None => None,
    }
}


/// The sidebar's scroll position after moving it just enough to show the
/// selected row.
pub open spec fn list_scroll(selected_row: int, scroll: int, visible_height: int) -> int {
    if selected_row < scroll {
        selected_row
    } else if selected_row >= scroll + visible_height {
        selected_row - (visible_height - 1)
    } else {
        scroll
    }
}

/// Scrolls the sidebar so the selected row is in view; see `list_scroll`.
pub fn sidebar_scroll(selected_row: usize, scroll: usize, visible_height: usize) -> (r: usize)
    requires
        visible_height > 0,
        scroll + visible_height <= usize::MAX,
    ensures
        r == list_scroll(selected_row as int, scroll as int, visible_height as int),
        r <= selected_row < r + visible_height,
{
    if selected_row < scroll {
        selected_row
    } else if selected_row >= scroll + visible_height {
        selected_row - (visible_height - 1)
    } else {
        scroll
    }
}

/// The chat and the thread entry the focused pane shows: a pane on a
/// thread marks no chat.
pub open spec fn active_entries(st: crate::events::ClientState) -> (Option<int>, Option<int>) {
    let ps = crate::widgets::panes_view(st.panes@);
    let f = st.focused_pane_idx as int;
    let (cid, tts) = if 0 <= f < ps.len() {
        (ps[f].channel_id_str, ps[f].thread_ts)
    } else {
        (None, None)
    };
    let chat = if tts is Some {
        None
    } else {
        match cid {
            Some(c) => crate::events::find_chat(chats_view(st.chats@), c),
            None => None,
        }
    };
    let thread = match (cid, tts) {
        (Some(c), Some(t)) => crate::events::find_thread(threads_view(st.threads@), c, t),
        _ => None,
    };
    (chat, thread)
}

/// The chat and thread entry the focused pane shows; see `active_entries`.
pub fn active_sidebar_entries(st: &crate::events::ClientState) -> (r: (Option<usize>, Option<usize>))
    ensures
        (match r.0 {
            Some(k) => Some(k as int),
            None => None,
        }) == active_entries(*st).0,
        (match r.1 {
            Some(k) => Some(k as int),
            None => None,
        }) == active_entries(*st).1,
        r.0 matches Some(k) ==> k < st.chats@.len(),
        r.1 matches Some(k) ==> k < st.threads@.len(),
{
    let f = st.focused_pane_idx;
    assert(st.panes@.len() == st.panes.len());
    if f >= st.panes.len() {
        return (None, None);
    }
    let pane = &st.panes[f];
    let chat = if pane.thread_ts.is_some() {
        None
    } else {
        match &pane.channel_id_str {
            Some(c) => crate::events::find_chat_exec(&st.chats, c.as_str()),
            None => None,
        }
    };
    let thread = match (&pane.channel_id_str, &pane.thread_ts) {
        (Some(c), Some(t)) => crate::events::find_thread_exec(&st.threads, c.as_str(), t.as_str()),
        _ => None,
    };
    (chat, thread)
}

/// A bold style with foreground `c`.
pub open spec fn bold_fg(c: crate::style::Color) -> crate::style::Style {
    crate::style::with_modifier(crate::style::Style { fg: Some(c), ..crate::style::plain() }, crate::style::BOLD)
}

/// The style of the row of the pane's own chat or thread.
pub open spec fn active_row_style() -> crate::style::Style {
    crate::style::Style { fg: Some(crate::style::Color::White), bg: Some(crate::style::Color::Blue), ..crate::style::plain() }
}

/// The style of a row that needs attention.
pub open spec fn alert_row_style() -> crate::style::Style {
    crate::style::with_modifier(
        crate::style::Style { fg: Some(crate::style::Color::White), bg: Some(crate::style::Color::Red), ..crate::style::plain() },
        crate::style::BOLD,
    )
}

/// The cursor mark: shown on the selected row while the sidebar has the
/// keys, unless the row is the pane's own.
pub open spec fn row_marker(is_cursor: bool, focus_on_chat_list: bool, is_active: bool) -> Seq<char> {
    if is_cursor && focus_on_chat_list && !is_active {
        "▸ "@
    } else {
        "  "@
    }
}

/// What the sidebar draws for the rows it shows, with the selection and
/// the pane's own entries.
pub struct SidebarMarks {
    pub active_chat: Option<usize>,
    pub active_thread: Option<usize>,
    pub selected_chat: usize,
    pub selected_thread: Option<usize>,
    pub focus_on_chat_list: bool,
}

/// A sidebar row's spans and line style. A header shows `v` or `>` (when
/// collapsed) and its label; a chat its name and unread count, on blue
/// when it is the pane's own and on red when it has unread messages; a
/// thread `↳ channel · time` and its unread count, on blue when it is the
/// pane's own, on red when it has unread replies that mention the user or
/// answer the user's message, bold white with other unread replies and
/// dim otherwise. `time` is the thread's clock time.
pub open spec fn row_line(
    row: RowV,
    cs: Seq<ChatV>,
    ts: Seq<ThreadV>,
    collapsed: Seq<Seq<char>>,
    marks: SidebarMarks,
    time: Seq<char>,
) -> (Seq<(Seq<char>, crate::style::Style)>, crate::style::Style) {
    match row {
        RowV::Header(label) => (
            seq![(
                (if collapsed.contains(label) {
                    ">"@
                } else {
                    "v"@
                }) + " "@ + label,
                bold_fg(crate::style::Color::DarkGray),
            )],
            crate::style::plain(),
        ),
        RowV::Chat(i) => {
            let c = cs[i as int];
            let is_active = marks.active_chat == Some(i);
            let base = if is_active {
                active_row_style()
            } else if c.unread > 0 {
                alert_row_style()
            } else {
                crate::style::plain()
            };
            (
                seq![(row_marker(i == marks.selected_chat, marks.focus_on_chat_list, is_active), base), (c.name, base)]
                    + if c.unread > 0 {
                    seq![(" ("@ + crate::text::decimal(c.unread as nat) + ")"@, base)]
                } else {
                    Seq::empty()
                },
                base,
            )
        },
        RowV::Thread(i) => {
            let t = ts[i as int];
            let is_active = marks.active_thread == Some(i);
            let base = if is_active {
                active_row_style()
            } else if t.unread > 0 && (t.mentioned || t.on_my_message) {
                alert_row_style()
            } else if t.unread > 0 {
                bold_fg(crate::style::Color::White)
            } else {
                crate::style::Style { fg: Some(crate::style::Color::DarkGray), ..crate::style::plain() }
            };
            let label = "↳ "@ + t.channel_name + " · "@ + time + if t.unread > 0 {
                " ("@ + crate::text::decimal(t.unread as nat) + ")"@
            } else {
                Seq::empty()
            };
            (seq![(row_marker(marks.selected_thread == Some(i), marks.focus_on_chat_list, is_active), base), (label, base)], base)
        },
    }
}

/// The time a thread row shows for timestamp `ts`, as `format_thread_time`
/// gives it: a local clock time when the timestamp's whole seconds are in
/// `clock_range`, the timestamp itself when they do not parse, and one of
/// the two for seconds beyond that range.
pub open spec fn thread_time_ok(ts: Seq<char>, time: Seq<char>) -> bool {
    match ts_seconds(ts) {
        None => time == ts,
        Some(secs) => if clock_range(secs) {
            is_clock_time(time)
        } else {
            time == ts || is_clock_time(time)
        },
    }
}

/// A sidebar row's spans and line style; see `row_line`.
pub fn sidebar_row_line(
    row: &ChatListRow,
    chats: &Vec<ChatInfo>,
    threads: &Vec<ThreadInfo>,
    collapsed: &Vec<String>,
    marks: SidebarMarks,
) -> (r: (Vec<crate::style::StyledSpan>, crate::style::Style))
    requires
        row@ matches RowV::Chat(i) ==> i < chats@.len(),
        row@ matches RowV::Thread(i) ==> i < threads@.len(),
    ensures
        exists|time: Seq<char>|
            {
                &&& (row@ matches RowV::Thread(i) ==> thread_time_ok(threads@[i as int]@.thread_ts, time))
                &&& (crate::style::spans_view(r.0@), r.1) == row_line(
                    row@,
                    chats_view(chats@),
                    threads_view(threads@),
                    views(collapsed@),
                    marks,
                    time,
                )
            },
{
    let mut spans: Vec<crate::style::StyledSpan> = Vec::new();
    match row {
        ChatListRow::Header(label) => {
            let mut t = if contains_label(collapsed, label.as_str()) {
                ">".to_string()
            } else {
                "v".to_string()
            };
            t.push_str(" ");
            t.push_str(label.as_str());
            spans.push(crate::style::StyledSpan::styled(
                t,
                crate::style::Style::new().fg(crate::style::Color::DarkGray).add_modifier(crate::style::BOLD),
            ));
            let ghost sv = crate::style::spans_view(spans@);
            assert(sv =~= row_line(row@, chats_view(chats@), threads_view(threads@), views(collapsed@), marks, Seq::empty()).0);
            (spans, crate::style::Style::new())
        },
        ChatListRow::Chat(i) => {
            let c = &chats[*i];
            let is_active = marks.active_chat == Some(*i);
            let base = if is_active {
                crate::style::Style::new().bg(crate::style::Color::Blue).fg(crate::style::Color::White)
            } else if c.unread > 0 {
                crate::style::Style::new().bg(crate::style::Color::Red).fg(crate::style::Color::White).add_modifier(
                    crate::style::BOLD,
                )
            } else {
                crate::style::Style::new()
            };
            let marker = if *i == marks.selected_chat && marks.focus_on_chat_list && !is_active {
                "▸ ".to_string()
            } else {
                "  ".to_string()
            };
            spans.push(crate::style::StyledSpan::styled(marker, base));
            spans.push(crate::style::StyledSpan::styled(crate::text::copy_string(&c.name), base));
            if c.unread > 0 {
                let mut t = " (".to_string();
                crate::text::push_decimal(&mut t, c.unread as u64);
                t.push_str(")");
                spans.push(crate::style::StyledSpan::styled(t, base));
            }
            let ghost sv = crate::style::spans_view(spans@);
            assert(chats_view(chats@)[*i as int] == chats@[*i as int]@);
            assert(sv =~= row_line(row@, chats_view(chats@), threads_view(threads@), views(collapsed@), marks, Seq::empty()).0);
            (spans, base)
        },
        ChatListRow::Thread(i) => {
            let t = &threads[*i];
            let is_active = marks.active_thread == Some(*i);
            let base = if is_active {
                crate::style::Style::new().bg(crate::style::Color::Blue).fg(crate::style::Color::White)
            } else if t.unread > 0 && (t.mentioned || t.on_my_message) {
                crate::style::Style::new().bg(crate::style::Color::Red).fg(crate::style::Color::White).add_modifier(
                    crate::style::BOLD,
                )
            } else if t.unread > 0 {
                crate::style::Style::new().fg(crate::style::Color::White).add_modifier(crate::style::BOLD)
            } else {
                crate::style::Style::new().fg(crate::style::Color::DarkGray)
            };
            let marker = if marks.selected_thread == Some(*i) && marks.focus_on_chat_list && !is_active {
                "▸ ".to_string()
            } else {
                "  ".to_string()
            };
            let time = format_thread_time(t.thread_ts.as_str());
            let mut label = "↳ ".to_string();
            label.push_str(t.channel_name.as_str());
            label.push_str(" · ");
            label.push_str(time.as_str());
            let ghost l1 = label@;
            if t.unread > 0 {
                label.push_str(" (");
                crate::text::push_decimal(&mut label, t.unread as u64);
                label.push_str(")");
                assert(label@ =~= l1 + (" ("@ + crate::text::decimal(t.unread as nat) + ")"@));
            } else {
                assert(label@ =~= l1 + Seq::<char>::empty());
            }
            spans.push(crate::style::StyledSpan::styled(marker, base));
            spans.push(crate::style::StyledSpan::styled(label, base));
            let ghost sv = crate::style::spans_view(spans@);
            assert(threads_view(threads@)[*i as int] == threads@[*i as int]@);
            assert(sv =~= row_line(row@, chats_view(chats@), threads_view(threads@), views(collapsed@), marks, time@).0);
            assert(thread_time_ok(threads@[*i as int]@.thread_ts, time@));
            (spans, base)
        },
    }
}

} // verus!
