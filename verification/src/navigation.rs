//! Moving the focus between panes, scrolling and sizing the sidebar.
use vstd::prelude::*;
use crate::events::{
    ClientState, counts_view, find_chat, find_chat_exec, find_thread, find_thread_exec, with_unread,
    set_mentions, set_mentions_exec,
};
use crate::models::{ChatV, ThreadV, chats_view, threads_view};
use crate::widgets::{ChatPane, PaneV, empty_pane, panes_view};
use crate::formatting::views;

verus! {

/// The unread counters after looking at the focused pane: its thread's
/// entry, or else its channel's chat, is marked read.
pub open spec fn focus_read(st: ClientState) -> (Seq<ThreadV>, Seq<ChatV>) {
    let ps = panes_view(st.panes@);
    let f = st.focused_pane_idx as int;
    let tv = threads_view(st.threads@);
    let cv = chats_view(st.chats@);
    if 0 <= f < ps.len() && ps[f].channel_id_str is Some && ps[f].thread_ts is Some {
        match find_thread(tv, ps[f].channel_id_str->0, ps[f].thread_ts->0) {
            Some(k) => (tv.update(k, ThreadV { unread: 0, mentioned: false, ..tv[k] }), cv),
            None => (tv, cv),
        }
    } else if 0 <= f < ps.len() && ps[f].channel_id_str is Some {
        match find_chat(cv, ps[f].channel_id_str->0) {
            Some(k) => (tv, cv.update(k, with_unread(cv[k], 0))),
            None => (tv, cv),
        }
    } else {
        (tv, cv)
    }
}

/// Everything but the unread counters is left as it was.
pub open spec fn same_but_counters(new: ClientState, old: ClientState) -> bool {
    &&& new.panes == old.panes
    &&& new.focused_pane_idx == old.focused_pane_idx
    &&& new.focus_on_chat_list == old.focus_on_chat_list
    &&& new.my_message_ts == old.my_message_ts
    &&& new.threads_dirty == old.threads_dirty
    &&& new.unread_dirty == old.unread_dirty
    &&& new.pending_refresh_chats == old.pending_refresh_chats
    &&& new.needs_redraw == old.needs_redraw
    &&& new.show_notifications == old.show_notifications
    &&& new.workspace_name == old.workspace_name
}

/// Marks what the focused pane shows as read, and clears the mention
/// count of the active workspace.
pub fn clear_unread_for_focused_pane(st: &mut ClientState)
    ensures
        (threads_view(final(st).threads@), chats_view(final(st).chats@)) == focus_read(*old(st)),
        counts_view(final(st).unread_mentions@) == set_mentions(
            counts_view(old(st).unread_mentions@),
            old(st).workspace_name@,
            0,
        ),
        same_but_counters(*final(st), *old(st)),
{
    let f = st.focused_pane_idx;
    let n = st.panes.len();
    assert(st.panes@.len() == n);
    if f < n && st.panes[f].channel_id_str.is_some() && st.panes[f].thread_ts.is_some() {
        let cid = st.panes[f].channel_id_str.as_ref().unwrap().as_str();
        let tts = st.panes[f].thread_ts.as_ref().unwrap().as_str();
        let found = find_thread_exec(&st.threads, cid, tts);
        match found {
            Some(k) => {
                let ghost before = st.threads@;
                let mut t = st.threads.remove(k);
                t.unread = 0;
                t.mentioned = false;
                let ghost tg = t;
                st.threads.insert(k, t);
                assert(st.threads@ =~= before.update(k as int, tg));
                assert(threads_view(st.threads@) =~= threads_view(before).update(k as int, tg@));
            },
            None => {},
        }
    } else if f < n && st.panes[f].channel_id_str.is_some() {
        let cid = st.panes[f].channel_id_str.as_ref().unwrap().as_str();
        let found = find_chat_exec(&st.chats, cid);
        match found {
            Some(k) => {
                let ghost before = st.chats@;
                let mut c = st.chats.remove(k);
                c.unread = 0;
                let ghost cg = c;
                st.chats.insert(k, c);
                assert(st.chats@ =~= before.update(k as int, cg));
                assert(chats_view(st.chats@) =~= chats_view(before).update(k as int, cg@));
            },
            None => {},
        }
    }
    set_mentions_exec(&mut st.unread_mentions, st.workspace_name.as_str(), 0);
}

/// The pane that gets the focus after `next_pane`.
pub open spec fn next_focus(on_chat_list: bool, focused: usize, n_panes: nat) -> usize {
    if on_chat_list || n_panes <= 1 {
        focused
    } else {
        ((focused + 1) % (n_panes as int)) as usize
    }
}

/// The focused pane after `k` presses of the pane key, starting from the panes.
pub open spec fn focus_after_presses(focused: usize, n_panes: nat, k: nat) -> usize
    decreases k,
{
    if k == 0 {
        focused
    } else {
        next_focus(false, focus_after_presses(focused, n_panes, (k - 1) as nat), n_panes)
    }
}

proof fn lemma_presses(focused: usize, n_panes: nat, k: nat)
    requires
        1 < n_panes <= usize::MAX,
        focused < n_panes,
    ensures
        focus_after_presses(focused, n_panes, k) == (focused + k) % (n_panes as int),
    decreases k,
{
    if k > 0 {
        lemma_presses(focused, n_panes, (k - 1) as nat);
        let prev = focus_after_presses(focused, n_panes, (k - 1) as nat);
        let n = n_panes as int;
        assert(0 <= prev < n) by {
            vstd::arithmetic::div_mod::lemma_mod_bound(focused + k - 1, n);
        }
        assert((prev + 1) % n == (focused + k) % n) by {
            vstd::arithmetic::div_mod::lemma_add_mod_noop(focused + k - 1, 1, n);
            vstd::arithmetic::div_mod::lemma_small_mod(1, n_panes);
        }
        assert(0 <= (prev + 1) % n < n) by {
            vstd::arithmetic::div_mod::lemma_mod_bound(prev + 1, n);
        }
        assert(focus_after_presses(focused, n_panes, k) == ((prev + 1) % n) as usize);
    } else {
        vstd::arithmetic::div_mod::lemma_small_mod(focused as nat, n_panes);
    }
}

/// Pressing the pane key visits the panes in turn: after `k` presses the
/// focus is `k` panes further on, and after as many presses as there are
/// panes it is back where it started.
pub proof fn law_next_pane_cycles(focused: usize, n_panes: nat, k: nat)
    requires
        1 < n_panes <= usize::MAX,
        focused < n_panes,
    ensures
        focus_after_presses(focused, n_panes, k) == (focused + k) % (n_panes as int),
        focus_after_presses(focused, n_panes, n_panes) == focused,
{
    lemma_presses(focused, n_panes, k);
    lemma_presses(focused, n_panes, n_panes);
    let n = n_panes as int;
    assert((focused + n) % n == focused) by {
        vstd::arithmetic::div_mod::lemma_add_mod_noop(focused as int, n, n);
        vstd::arithmetic::div_mod::lemma_mod_self_0(n);
        vstd::arithmetic::div_mod::lemma_small_mod(focused as nat, n_panes);
    }
}

/// Moves the focus from the sidebar to the panes, or to the next pane in
/// turn, and marks what the newly focused pane shows as read.
pub fn next_pane(st: &mut ClientState)
    requires
        old(st).focused_pane_idx < usize::MAX,
    ensures
        !final(st).focus_on_chat_list,
        final(st).focused_pane_idx == next_focus(
            old(st).focus_on_chat_list,
            old(st).focused_pane_idx,
            old(st).panes@.len(),
        ),
        ({
            let moved = ClientState {
                focus_on_chat_list: false,
                focused_pane_idx: final(st).focused_pane_idx,
                ..*old(st)
            };
            &&& (threads_view(final(st).threads@), chats_view(final(st).chats@)) == focus_read(moved)
            &&& counts_view(final(st).unread_mentions@) == set_mentions(
                counts_view(old(st).unread_mentions@),
                old(st).workspace_name@,
                0,
            )
            &&& same_but_counters(*final(st), moved)
        }),
{
    if st.focus_on_chat_list {
        st.focus_on_chat_list = false;
    } else if st.panes.len() > 1 {
        st.focused_pane_idx = (st.focused_pane_idx + 1) % st.panes.len();
    }
    clear_unread_for_focused_pane(st);
}

/// Makes the focused index name a pane, opening an empty one when there
/// is none.
pub fn ensure_valid_pane_idx(st: &mut ClientState)
    ensures
        old(st).panes@.len() == 0 ==> final(st).panes@.len() == 1 && final(st).focused_pane_idx == 0
            && final(st).panes@[0]@ == empty_pane(),
        old(st).panes@.len() > 0 ==> final(st).panes == old(st).panes && final(st).focused_pane_idx == (
        if old(st).focused_pane_idx < old(st).panes@.len() {
            old(st).focused_pane_idx as int
        } else {
            old(st).panes@.len() - 1
        }),
        final(st).focused_pane_idx < final(st).panes@.len(),
        final(st).chats == old(st).chats,
        final(st).threads == old(st).threads,
        final(st).focus_on_chat_list == old(st).focus_on_chat_list,
        final(st).unread_mentions == old(st).unread_mentions,
{
    if st.panes.len() == 0 {
        st.panes.push(ChatPane::new());
        st.focused_pane_idx = 0;
    } else if st.focused_pane_idx >= st.panes.len() {
        st.focused_pane_idx = st.panes.len() - 1;
    }
}

/// Sets the scroll offset of the focused pane.
fn set_focused_scroll(st: &mut ClientState, offset: usize)
    requires
        old(st).focused_pane_idx < old(st).panes@.len(),
    ensures
        final(st).panes@.len() == old(st).panes@.len(),
        forall|i: int|
            0 <= i < old(st).panes@.len() && i != old(st).focused_pane_idx ==> #[trigger] final(st).panes@[i]
                == old(st).panes@[i],
        final(st).panes@[old(st).focused_pane_idx as int]@ == (PaneV {
            scroll_offset: offset,
            ..old(st).panes@[old(st).focused_pane_idx as int]@
        }),
        final(st).focused_pane_idx == old(st).focused_pane_idx,
        final(st).chats == old(st).chats,
        final(st).threads == old(st).threads,
{
    let f = st.focused_pane_idx;
    let mut p = st.panes.remove(f);
    p.scroll_offset = offset;
    st.panes.insert(f, p);
}

/// Scrolls the focused pane back to its oldest message.
pub fn scroll_to_top(st: &mut ClientState)
    requires
        old(st).focused_pane_idx < old(st).panes@.len(),
    ensures
        final(st).panes@.len() == old(st).panes@.len(),
        forall|i: int|
            0 <= i < old(st).panes@.len() && i != old(st).focused_pane_idx ==> #[trigger] final(st).panes@[i]
                == old(st).panes@[i],
        final(st).panes@[old(st).focused_pane_idx as int]@ == (PaneV {
            scroll_offset: 0,
            ..old(st).panes@[old(st).focused_pane_idx as int]@
        }),
        final(st).focused_pane_idx == old(st).focused_pane_idx,
{
    set_focused_scroll(st, 0);
}

/// Makes the focused pane follow its newest message.
pub fn scroll_to_bottom(st: &mut ClientState)
    requires
        old(st).focused_pane_idx < old(st).panes@.len(),
    ensures
        final(st).panes@.len() == old(st).panes@.len(),
        forall|i: int|
            0 <= i < old(st).panes@.len() && i != old(st).focused_pane_idx ==> #[trigger] final(st).panes@[i]
                == old(st).panes@[i],
        final(st).panes@[old(st).focused_pane_idx as int]@ == (PaneV {
            scroll_offset: usize::MAX,
            ..old(st).panes@[old(st).focused_pane_idx as int]@
        }),
        final(st).focused_pane_idx == old(st).focused_pane_idx,
{
    set_focused_scroll(st, usize::MAX);
}

/// Width the sidebar starts from when none was chosen and none is drawn.
pub const DEFAULT_CHAT_LIST_WIDTH: u16 = 25;

/// Narrowest sidebar.
pub const MIN_CHAT_LIST_WIDTH: i32 = 10;

/// Widest sidebar.
pub const MAX_CHAT_LIST_WIDTH: i32 = 200;

/// The sidebar width after a resize by `delta`, from the chosen width, else
/// the drawn one, else the default; kept between the narrowest and widest.
pub open spec fn resized_width(chosen: Option<u16>, drawn: Option<u16>, delta: i16) -> u16 {
    let current: int = match chosen {
        Some(w) => w as int,
        None => match drawn {
            Some(w) => w as int,
            None => DEFAULT_CHAT_LIST_WIDTH as int,
        },
    };
    let next = current + delta;
    (if next < MIN_CHAT_LIST_WIDTH {
        MIN_CHAT_LIST_WIDTH as int
    } else if next > MAX_CHAT_LIST_WIDTH {
        MAX_CHAT_LIST_WIDTH as int
    } else {
        next
    }) as u16
}

/// The chosen sidebar width after widening it by `delta` columns (narrowing
/// when negative); nothing changes while the sidebar is hidden.
pub fn resize_chat_list(show_chat_list: bool, chosen: Option<u16>, drawn: Option<u16>, delta: i16) -> (r: Option<u16>)
    ensures
        !show_chat_list ==> r == chosen,
        show_chat_list ==> r == Some(resized_width(chosen, drawn, delta)),
        show_chat_list ==> MIN_CHAT_LIST_WIDTH <= r->0 <= MAX_CHAT_LIST_WIDTH,
{
    if !show_chat_list {
        return chosen;
    }
    let current: i32 = match chosen {
        Some(w) => w as i32,
        None => match drawn {
            Some(w) => w as i32,
            None => DEFAULT_CHAT_LIST_WIDTH as i32,
        },
    };
    let next: i32 = current + delta as i32;
    let clamped: i32 = if next < MIN_CHAT_LIST_WIDTH {
        MIN_CHAT_LIST_WIDTH
    } else if next > MAX_CHAT_LIST_WIDTH {
        MAX_CHAT_LIST_WIDTH
    } else {
        next
    };
    Some(clamped as u16)
}

/// The pane to focus after closing pane `closed`, given the panes in
/// layout order: the one after it, else the one before it, else the
/// first; then renumbered for the removal and kept in range.
pub open spec fn focus_after_close(order: Seq<usize>, closed: usize, n_after: nat) -> usize {
    let pos: int = match order.index_of_first(closed) {
        Some(p) => p,
        None => 0,
    };
    let target: int = if pos + 1 < order.len() {
        order[pos + 1] as int
    } else if pos > 0 {
        order[pos - 1] as int
    } else {
        0
    };
    let shifted: int = if target > closed {
        target - 1
    } else {
        target
    };
    if shifted >= n_after {
        (if n_after == 0 {
            0
        } else {
            n_after - 1
        }) as usize
    } else {
        shifted as usize
    }
}

fn position_of(order: &Vec<usize>, x: usize) -> (r: Option<usize>)
    ensures
        r matches Some(p) ==> p < order@.len() && order@.index_of_first(x) == Some(p as int),
        r is None ==> order@.index_of_first(x) is None,
{
    let mut i: usize = 0;
    while i < order.len()
        invariant
            i <= order.len(),
            forall|j: int| 0 <= j < i ==> order@[j] != x,
        decreases order.len() - i,
    {
        if order[i] == x {
            proof {
                order@.index_of_first_ensures(x);
            }
            return Some(i);
        }
        i += 1;
    }
    proof {
        order@.index_of_first_ensures(x);
    }
    None
}

/// Closes the focused pane, given the panes in layout order, and moves the
/// focus to its neighbour; the last pane is never closed (`false`).
pub fn close_pane(st: &mut ClientState, order: &Vec<usize>) -> (closed: bool)
    ensures
        closed == (old(st).panes@.len() > 1 && old(st).focused_pane_idx < old(st).panes@.len()),
        !closed ==> *final(st) == *old(st),
        closed ==> final(st).panes@ == old(st).panes@.remove(old(st).focused_pane_idx as int),
        closed ==> final(st).focused_pane_idx == focus_after_close(
            order@,
            old(st).focused_pane_idx,
            (old(st).panes@.len() - 1) as nat,
        ),
        closed ==> final(st).focused_pane_idx < final(st).panes@.len(),
        final(st).chats == old(st).chats,
        final(st).threads == old(st).threads,
        final(st).unread_mentions == old(st).unread_mentions,
{
    let n = st.panes.len();
    let closing = st.focused_pane_idx;
    if n <= 1 || closing >= n {
        return false;
    }
    let found = position_of(order, closing);
    let pos: usize = match found {
        Some(p) => p,
        None => 0,
    };
    assert(order@.len() == order.len());
    let target: usize = if order.len() > 0 && pos < order.len() - 1 {
        order[pos + 1]
    } else if pos > 0 {
        order[pos - 1]
    } else {
        0
    };
    st.panes.remove(closing);
    let shifted: usize = if target > closing {
        target - 1
    } else {
        target
    };
    let remaining = st.panes.len();
    st.focused_pane_idx = if shifted >= remaining {
        remaining - 1
    } else {
        shifted
    };
    true
}


/// A rectangle of the screen.
#[derive(Clone, Copy, Debug)]
pub struct Area {
    pub x: u16,
    pub y: u16,
    pub width: u16,
    pub height: u16,
}

/// The rectangle's right and bottom edges are on the screen.
pub open spec fn area_ok(a: Area) -> bool {
    a.x + a.width <= u16::MAX && a.y + a.height <= u16::MAX
}

/// The cell `(x, y)` lies in the rectangle.
pub open spec fn inside(a: Area, x: u16, y: u16) -> bool {
    a.x <= x < a.x + a.width && a.y <= y < a.y + a.height
}

/// The cell lies in the rectangle; see `inside`.
pub fn area_contains(a: Area, x: u16, y: u16) -> (r: bool)
    requires
        area_ok(a),
    ensures
        r == inside(a, x, y),
{
    x >= a.x && x < a.x + a.width && y >= a.y && y < a.y + a.height
}

/// What a mouse click lands on.
#[derive(Debug)]
pub enum Click {
    /// A group header of the sidebar.
    ListHeader(String),
    /// A chat row of the sidebar.
    ListChat(usize),
    /// A thread row of the sidebar.
    ListThread(usize),
    /// The sidebar below its rows.
    ListBlank,
    /// A pane.
    Pane(usize),
    /// Nothing that reacts.
    Nothing,
}

/// The first pane whose rectangle holds the cell.
pub open spec fn pane_at(areas: Seq<(usize, Area)>, x: u16, y: u16) -> Option<usize>
    decreases areas.len(),
{
    if areas.len() == 0 {
        None
    } else if inside(areas[0].1, x, y) {
        Some(areas[0].0)
    } else {
        pane_at(areas.drop_first(), x, y)
    }
}

/// The sidebar row under a click at row `y` of a sidebar at `a`, scrolled
/// by `scroll` and drawn with a border line on top when `show_borders`.
pub open spec fn clicked_row(a: Area, y: u16, show_borders: bool, scroll: usize) -> int {
    let top = a.y + if show_borders {
        1int
    } else {
        0int
    };
    (if y > top {
        y - top
    } else {
        0
    }) + scroll
}

/// What a click at `(x, y)` lands on: a sidebar row (or the sidebar below
/// them) when the sidebar is shown and holds the cell, else the first
/// pane that holds it.
pub fn mouse_target(
    x: u16,
    y: u16,
    list_area: Option<Area>,
    show_borders: bool,
    scroll: usize,
    rows: &Vec<crate::ui::chat_list::ChatListRow>,
    pane_areas: &Vec<(usize, Area)>,
) -> (r: Click)
    requires
        list_area matches Some(a) ==> area_ok(a),
        forall|i: int| 0 <= i < pane_areas@.len() ==> area_ok(#[trigger] pane_areas@[i].1),
        scroll + u16::MAX <= usize::MAX,
    ensures
        (list_area matches Some(a) && inside(a, x, y)) ==> {
            let row = clicked_row(list_area->0, y, show_borders, scroll);
            let rv = crate::ui::chat_list::rows_view(rows@);
            match r {
                Click::ListHeader(l) => row < rv.len() && rv[row] == crate::ui::chat_list::RowV::Header(l@),
                Click::ListChat(i) => row < rv.len() && rv[row] == crate::ui::chat_list::RowV::Chat(i),
                Click::ListThread(i) => row < rv.len() && rv[row] == crate::ui::chat_list::RowV::Thread(i),
                Click::ListBlank => row >= rv.len(),
                _ => false,
            }
        },
        !(list_area matches Some(a) && inside(a, x, y)) ==> match pane_at(pane_areas@, x, y) {
            Some(p) => r matches Click::Pane(q) && q == p,
            None => r is Nothing,
        },
{
    match list_area {
        Some(a) => {
            if area_contains(a, x, y) {
                let border: u16 = if show_borders {
                    1
                } else {
                    0
                };
                let top: u16 = a.y + border;
                let rel: u16 = if y > top {
                    y - top
                } else {
                    0
                };
                let row = rel as usize + scroll;
                if row >= rows.len() {
                    return Click::ListBlank;
                }
                assert(rows@[row as int]@ == crate::ui::chat_list::rows_view(rows@)[row as int]);
                return match &rows[row] {
                    crate::ui::chat_list::ChatListRow::Header(l) => Click::ListHeader(l.clone()),
                    crate::ui::chat_list::ChatListRow::Chat(i) => Click::ListChat(*i),
                    crate::ui::chat_list::ChatListRow::Thread(i) => Click::ListThread(*i),
                };
            }
        },
        None => {},
    }
    let mut k: usize = 0;
    assert(pane_areas@.skip(0) =~= pane_areas@);
    while k < pane_areas.len()
        invariant
            k <= pane_areas.len(),
            forall|i: int| 0 <= i < pane_areas@.len() ==> area_ok(#[trigger] pane_areas@[i].1),
            pane_at(pane_areas@.skip(k as int), x, y) == pane_at(pane_areas@, x, y),
            !(list_area matches Some(a) && inside(a, x, y)),
        decreases pane_areas.len() - k,
    {
        assert(pane_areas@.skip(k as int).drop_first() =~= pane_areas@.skip(k + 1));
        assert(pane_areas@.skip(k as int)[0] == pane_areas@[k as int]);
        if area_contains(pane_areas[k].1, x, y) {
            return Click::Pane(pane_areas[k].0);
        }
        k += 1;
    }
    Click::Nothing
}

/// Chats and threads a click asked to open.
#[derive(Debug)]
pub struct PendingOpen {
    pub chat: bool,
    pub thread: Option<usize>,
}

/// Acts on a click: a header collapses or expands its group (the keys
/// going to the sidebar); a chat or thread row is selected and queued to
/// open, the keys going to the pane; a click in the sidebar below its rows
/// gives it the keys; a pane gets the focus and what it shows is marked
/// read.
pub fn apply_click(
    st: &mut ClientState,
    sel: &mut crate::ui::chat_list::ChatSelection,
    pending: &mut PendingOpen,
    collapsed: &mut Vec<String>,
    click: Click,
)
    ensures
        match click {
            Click::ListHeader(l) => {
                &&& final(st).focus_on_chat_list
                &&& views(final(collapsed)@) == crate::ui::chat_list::toggled(views(old(collapsed)@), l@)
                &&& *final(sel) == *old(sel) && *final(pending) == *old(pending)
                &&& *final(st) == (ClientState { focus_on_chat_list: true, ..*old(st) })
            },
            Click::ListChat(i) => {
                &&& final(sel).selected_chat_idx == i && final(sel).selected_thread_idx is None
                &&& final(pending).chat && final(pending).thread == old(pending).thread
                &&& *final(st) == (ClientState { focus_on_chat_list: false, ..*old(st) })
                &&& final(collapsed)@ == old(collapsed)@
            },
            Click::ListThread(i) => {
                &&& final(sel).selected_chat_idx == old(sel).selected_chat_idx
                &&& final(sel).selected_thread_idx == Some(i)
                &&& final(pending).thread == Some(i) && final(pending).chat == old(pending).chat
                &&& *final(st) == (ClientState { focus_on_chat_list: false, ..*old(st) })
                &&& final(collapsed)@ == old(collapsed)@
            },
            Click::ListBlank => {
                &&& *final(st) == (ClientState { focus_on_chat_list: true, ..*old(st) })
                &&& *final(sel) == *old(sel) && *final(pending) == *old(pending)
                &&& final(collapsed)@ == old(collapsed)@
            },
            Click::Pane(p) => {
                let moved = ClientState { focused_pane_idx: p, focus_on_chat_list: false, ..*old(st) };
                &&& final(st).focused_pane_idx == p && !final(st).focus_on_chat_list
                &&& (threads_view(final(st).threads@), chats_view(final(st).chats@)) == focus_read(moved)
                &&& counts_view(final(st).unread_mentions@) == set_mentions(
                    counts_view(old(st).unread_mentions@),
                    old(st).workspace_name@,
                    0,
                )
                &&& same_but_counters(*final(st), moved)
                &&& *final(sel) == *old(sel) && *final(pending) == *old(pending)
                &&& final(collapsed)@ == old(collapsed)@
            },
            Click::Nothing => {
                &&& *final(st) == *old(st)
                &&& *final(sel) == *old(sel) && *final(pending) == *old(pending)
                &&& final(collapsed)@ == old(collapsed)@
            },
        },
{
    match click {
        Click::ListHeader(l) => {
            st.focus_on_chat_list = true;
            crate::ui::chat_list::toggle_section(collapsed, l.as_str());
        },
        Click::ListChat(i) => {
            sel.selected_chat_idx = i;
            sel.selected_thread_idx = None;
            pending.chat = true;
            st.focus_on_chat_list = false;
        },
        Click::ListThread(i) => {
            sel.selected_thread_idx = Some(i);
            pending.thread = Some(i);
            st.focus_on_chat_list = false;
        },
        Click::ListBlank => {
            st.focus_on_chat_list = true;
        },
        Click::Pane(p) => {
            st.focused_pane_idx = p;
            st.focus_on_chat_list = false;
            clear_unread_for_focused_pane(st);
        },
        Click::Nothing => {},
    }
}

} // verus!
