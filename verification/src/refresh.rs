//! Refreshing the chat list: keeping locally tracked unread counts and
//! putting the chats in sidebar order.
use vstd::prelude::*;
use crate::models::{ChatInfo, ChatSection, ChatV, chats_view};
use crate::events::{counts_view, mention_count};
use crate::text::{lex_lt, lex_less, lemma_lex_irreflexive, lemma_lex_transitive, lemma_lex_total};
use crate::unicode::{lowercase, to_lowercase};

verus! {

/// The unread count of the last chat listed with id `id`, if any.
pub open spec fn last_unread(cs: Seq<ChatV>, id: Seq<char>) -> Option<u32>
    decreases cs.len(),
{
    if cs.len() == 0 {
        None
    } else if cs.last().id == id {
        Some(cs.last().unread)
    } else {
        last_unread(cs.drop_last(), id)
    }
}

/// A refreshed chat's unread count: the server's when not zero, else the
/// count the chat had before the refresh, else the count saved for the
/// workspace (zero when none is).
pub open spec fn restored_unread(c: ChatV, prev: Seq<ChatV>, saved: Seq<(Seq<char>, u32)>) -> u32 {
    if c.unread != 0 {
        c.unread
    } else {
        match last_unread(prev, c.id) {
            Some(u) => u,
            None => mention_count(saved, c.id),
        }
    }
}

/// The unread count of the last chat with id `id`; see `last_unread`.
fn last_unread_exec(cs: &Vec<ChatInfo>, id: &str) -> (r: Option<u32>)
    ensures
        r == last_unread(chats_view(cs@), id@),
{
    let ghost cv = chats_view(cs@);
    let mut i: usize = cs.len();
    assert(cv.take(i as int) =~= cv);
    while i > 0
        invariant
            i <= cs.len(),
            cv == chats_view(cs@),
            last_unread(cv.take(i as int), id@) == last_unread(cv, id@),
        decreases i,
    {
        assert(cv.take(i as int).drop_last() =~= cv.take(i - 1));
        if crate::events::str_eq(cs[i - 1].id.as_str(), id) {
            return Some(cs[i - 1].unread);
        }
        i -= 1;
    }
    assert(cv.take(0) =~= Seq::<ChatV>::empty());
    None
}

/// The count saved for `id` (0 when none is).
fn saved_count(saved: &Vec<(String, u32)>, id: &str) -> (r: u32)
    ensures
        r == mention_count(counts_view(saved@), id@),
{
    let ghost cv = counts_view(saved@);
    proof {
        crate::events::lemma_count_from(cv, id@, 0);
    }
    let mut i: usize = 0;
    while i < saved.len()
        invariant
            i <= saved.len(),
            cv == counts_view(saved@),
            crate::events::count_from(cv, id@, i as int) == crate::events::count_from(cv, id@, 0),
        decreases saved.len() - i,
    {
        if crate::events::str_eq(saved[i].0.as_str(), id) {
            return saved[i].1;
        }
        i += 1;
    }
    0
}

/// Gives each refreshed chat its restored unread count; see `restored_unread`.
pub fn restore_unread(chats: &mut Vec<ChatInfo>, prev: &Vec<ChatInfo>, saved: &Vec<(String, u32)>)
    ensures
        chats_view(final(chats)@) == Seq::new(
            old(chats)@.len(),
            |i: int|
                ChatV {
                    unread: restored_unread(chats_view(old(chats)@)[i], chats_view(prev@), counts_view(saved@)),
                    ..chats_view(old(chats)@)[i]
                },
        ),
{
    let ghost ov = chats_view(chats@);
    let ghost target = Seq::new(
        ov.len(),
        |i: int| ChatV { unread: restored_unread(ov[i], chats_view(prev@), counts_view(saved@)), ..ov[i] },
    );
    let mut i: usize = 0;
    while i < chats.len()
        invariant
            i <= chats.len() == ov.len(),
            target == Seq::new(
                ov.len(),
                |i: int| ChatV { unread: restored_unread(ov[i], chats_view(prev@), counts_view(saved@)), ..ov[i] },
            ),
            forall|j: int| 0 <= j < i ==> #[trigger] chats_view(chats@)[j] == target[j],
            forall|j: int| i <= j < ov.len() ==> #[trigger] chats_view(chats@)[j] == ov[j],
        decreases chats.len() - i,
    {
        if chats[i].unread == 0 {
            let restored = match last_unread_exec(prev, chats[i].id.as_str()) {
                Some(u) => u,
                None => saved_count(saved, chats[i].id.as_str()),
            };
            let ghost before = chats@;
            assert(chats_view(chats@)[i as int] == ov[i as int]);
            assert(chats_view(chats@)[i as int] == chats@[i as int]@);
            let mut c = chats.remove(i);
            assert(c@ == ov[i as int]);
            c.unread = restored;
            let ghost cg = c;
            chats.insert(i, c);
            assert(chats@ =~= before.update(i as int, cg));
            assert(chats_view(chats@) =~= chats_view(before).update(i as int, cg@));
            assert(cg@ == target[i as int]);
        } else {
            assert(chats_view(chats@)[i as int] == ov[i as int]);
            assert(ov[i as int].unread != 0);
        }
        assert(chats_view(chats@)[i as int] == target[i as int]);
        i += 1;
    }
    assert(chats_view(chats@) =~= target);
}

/// The rank of a section in sidebar order.
pub open spec fn section_rank(s: ChatSection) -> int {
    match s {
        ChatSection::Public => 0,
        ChatSection::Private => 1,
        ChatSection::Shared => 2,
        ChatSection::Group => 3,
        ChatSection::DirectMessage => 4,
        ChatSection::Bot => 5,
    }
}

/// The key chats are ordered by: section, then name without regard to case.
pub open spec fn chat_key(c: ChatV) -> (int, Seq<char>) {
    (section_rank(c.section), lowercase(c.name))
}

/// Key `a` orders before key `b`.
pub open spec fn key_lt(a: (int, Seq<char>), b: (int, Seq<char>)) -> bool {
    a.0 < b.0 || (a.0 == b.0 && lex_lt(a.1, b.1))
}

/// Chat `x` comes before chat `y`: its key is smaller, or the keys are
/// equal and `x` was listed first.
pub open spec fn chat_before(cs: Seq<ChatV>, x: usize, y: usize) -> bool {
    key_lt(chat_key(cs[x as int]), chat_key(cs[y as int])) || (chat_key(cs[x as int]) == chat_key(cs[y as int])
        && x < y)
}

/// `order` lists every chat position once, in key order; chats with
/// equal keys keep their order.
pub open spec fn sidebar_order(cs: Seq<ChatV>, order: Seq<usize>) -> bool {
    &&& order.len() == cs.len()
    &&& forall|q: int| 0 <= q < order.len() ==> order[q] < cs.len()
    &&& forall|p: int, q: int| 0 <= p < q < order.len() ==> order[p] != order[q]
    &&& forall|p: int, q: int| 0 <= p < q < order.len() ==> chat_before(cs, order[p], order[q])
}

proof fn lemma_key_facts(a: (int, Seq<char>), b: (int, Seq<char>), c: (int, Seq<char>))
    ensures
        !key_lt(a, a),
        key_lt(a, b) || key_lt(b, a) || a == b,
        key_lt(a, b) && key_lt(b, c) ==> key_lt(a, c),
        key_lt(a, b) ==> !key_lt(b, a),
{
    lemma_lex_irreflexive(a.1);
    lemma_lex_total(a.1, b.1);
    if key_lt(a, b) && key_lt(b, c) && a.0 == b.0 && b.0 == c.0 {
        lemma_lex_transitive(a.1, b.1, c.1);
    }
    if key_lt(a, b) && a.0 == b.0 && lex_lt(b.1, a.1) {
        lemma_lex_transitive(a.1, b.1, a.1);
    }
}

/// Key `a` orders before key `b`; see `key_lt`.
fn key_less(a: &(u8, String), b: &(u8, String)) -> (r: bool)
    ensures
        r == key_lt((a.0 as int, a.1@), (b.0 as int, b.1@)),
{
    a.0 < b.0 || (a.0 == b.0 && lex_less(a.1.as_str(), b.1.as_str()))
}

/// A chat's sort key; see `chat_key`.
fn chat_key_exec(c: &ChatInfo) -> (r: (u8, String))
    ensures
        (r.0 as int, r.1@) == chat_key(c@),
{
    let rank: u8 = match c.section {
        ChatSection::Public => 0,
        ChatSection::Private => 1,
        ChatSection::Shared => 2,
        ChatSection::Group => 3,
        ChatSection::DirectMessage => 4,
        ChatSection::Bot => 5,
    };
    (rank, to_lowercase(c.name.as_str()))
}

/// Chat positions in sidebar order; see `sidebar_order`.
pub fn chat_order(chats: &Vec<ChatInfo>) -> (order: Vec<usize>)
    ensures
        sidebar_order(chats_view(chats@), order@),
{
    let ghost cv = chats_view(chats@);
    let mut keys: Vec<(u8, String)> = Vec::new();
    let mut k: usize = 0;
    while k < chats.len()
        invariant
            k <= chats.len(),
            cv == chats_view(chats@),
            keys@.len() == k,
            forall|j: int| 0 <= j < k ==> (#[trigger] keys@[j].0 as int, keys@[j].1@) == chat_key(cv[j]),
        decreases chats.len() - k,
    {
        keys.push(chat_key_exec(&chats[k]));
        k += 1;
    }
    let mut order: Vec<usize> = Vec::new();
    let mut n: usize = 0;
    while n < chats.len()
        invariant
            n <= chats.len(),
            cv == chats_view(chats@),
            keys@.len() == chats@.len(),
            forall|j: int| 0 <= j < chats@.len() ==> (#[trigger] keys@[j].0 as int, keys@[j].1@) == chat_key(cv[j]),
            order@.len() == n,
            forall|q: int| 0 <= q < order@.len() ==> order@[q] < n,
            forall|p: int, q: int| 0 <= p < q < order@.len() ==> order@[p] != order@[q],
            forall|p: int, q: int| 0 <= p < q < order@.len() ==> chat_before(cv, order@[p], order@[q]),
        decreases chats.len() - n,
    {
        let mut p: usize = 0;
        while p < order.len() && !key_less(&keys[n], &keys[order[p]])
            invariant
                p <= order@.len(),
                n < chats.len(),
                keys@.len() == chats@.len(),
                forall|j: int| 0 <= j < chats@.len() ==> (#[trigger] keys@[j].0 as int, keys@[j].1@) == chat_key(cv[j]),
                forall|q: int| 0 <= q < order@.len() ==> order@[q] < n,
                forall|q: int| 0 <= q < p ==> !key_lt(chat_key(cv[n as int]), chat_key(cv[order@[q] as int])),
            decreases order@.len() - p,
        {
            assert((keys@[n as int].0 as int, keys@[n as int].1@) == chat_key(cv[n as int]));
            assert((keys@[order@[p as int] as int].0 as int, keys@[order@[p as int] as int].1@) == chat_key(
                cv[order@[p as int] as int],
            ));
            p += 1;
        }
        proof {
            if p < order@.len() {
                assert((keys@[n as int].0 as int, keys@[n as int].1@) == chat_key(cv[n as int]));
                assert((keys@[order@[p as int] as int].0 as int, keys@[order@[p as int] as int].1@) == chat_key(
                    cv[order@[p as int] as int],
                ));
            }
        }
        let ghost before = order@;
        proof {
            assert forall|q: int| 0 <= q < p implies chat_before(cv, before[q], n) by {
                lemma_key_facts(chat_key(cv[n as int]), chat_key(cv[before[q] as int]), chat_key(cv[n as int]));
            }
            assert forall|q: int| p <= q < before.len() implies chat_before(cv, n, before[q]) by {
                let kn = chat_key(cv[n as int]);
                let kq = chat_key(cv[before[q] as int]);
                let kp = chat_key(cv[before[p as int] as int]);
                if q > p {
                    assert(chat_before(cv, before[p as int], before[q]));
                    lemma_key_facts(kn, kp, kq);
                }
            }
        }
        order.insert(p, n);
        proof {
            assert forall|a: int, b: int| 0 <= a < b < order@.len() implies chat_before(cv, order@[a], order@[b]) by {
                if a < p && b > p {
                    let ka = chat_key(cv[before[a] as int]);
                    let kn = chat_key(cv[n as int]);
                    let kb = chat_key(cv[before[b - 1] as int]);
                    assert(chat_before(cv, before[a], n));
                    assert(chat_before(cv, n, before[b - 1]));
                    lemma_key_facts(ka, kn, kb);
                }
            }
        }
        n += 1;
    }
    order
}

/// A copy of a chat entry.
fn copy_chat(c: &ChatInfo) -> (r: ChatInfo)
    ensures
        r@ == c@,
{
    ChatInfo {
        id: c.id.clone(),
        name: c.name.clone(),
        username: crate::text::copy_opt_string(&c.username),
        unread: c.unread,
        section: c.section,
        is_member: c.is_member,
    }
}

/// The chats in sidebar order: by section, then by name without regard to
/// case, chats with equal keys keeping their order.
pub fn sort_chats(chats: &Vec<ChatInfo>) -> (r: Vec<ChatInfo>)
    ensures
        exists|order: Seq<usize>|
            #[trigger] sidebar_order(chats_view(chats@), order) && chats_view(r@) == Seq::new(
                order.len(),
                |i: int| chats_view(chats@)[order[i] as int],
            ),
{
    let order = chat_order(chats);
    let ghost cv = chats_view(chats@);
    let mut out: Vec<ChatInfo> = Vec::new();
    let mut i: usize = 0;
    while i < order.len()
        invariant
            i <= order@.len(),
            cv == chats_view(chats@),
            sidebar_order(cv, order@),
            chats_view(out@) == Seq::new(i as nat, |j: int| cv[order@[j] as int]),
        decreases order.len() - i,
    {
        let ghost before = chats_view(out@);
        let c = copy_chat(&chats[order[i]]);
        let ghost cg = c@;
        out.push(c);
        assert(chats_view(out@) =~= before.push(cg));
        i += 1;
        assert(chats_view(out@) =~= Seq::new(i as nat, |j: int| cv[order@[j] as int]));
    }
    out
}

/// The refreshed chats with their restored unread counts.
pub open spec fn restored_chats(new: Seq<ChatV>, prev: Seq<ChatV>, saved: Seq<(Seq<char>, u32)>) -> Seq<ChatV> {
    Seq::new(new.len(), |i: int| ChatV { unread: restored_unread(new[i], prev, saved), ..new[i] })
}

/// The chat list after a refresh: the server's chats with their restored
/// unread counts, in sidebar order.
pub fn refreshed_chats(new_chats: Vec<ChatInfo>, prev: &Vec<ChatInfo>, saved: &Vec<(String, u32)>) -> (r: Vec<ChatInfo>)
    ensures
        exists|order: Seq<usize>|
            #[trigger] sidebar_order(restored_chats(chats_view(new_chats@), chats_view(prev@), counts_view(saved@)), order)
                && chats_view(r@) == Seq::new(
                order.len(),
                |i: int| restored_chats(chats_view(new_chats@), chats_view(prev@), counts_view(saved@))[order[i] as int],
            ),
{
    let mut chats = new_chats;
    restore_unread(&mut chats, prev, saved);
    assert(chats_view(chats@) =~= restored_chats(chats_view(new_chats@), chats_view(prev@), counts_view(saved@)));
    sort_chats(&chats)
}

/// The unread counts of the chats, by id, as saved for the workspace.
pub fn unread_snapshot(chats: &Vec<ChatInfo>) -> (r: Vec<(String, u32)>)
    ensures
        counts_view(r@) == Seq::new(chats@.len(), |i: int| (chats@[i].id@, chats@[i].unread)),
{
    let mut out: Vec<(String, u32)> = Vec::new();
    let mut i: usize = 0;
    while i < chats.len()
        invariant
            i <= chats.len(),
            counts_view(out@) == Seq::new(i as nat, |j: int| (chats@[j].id@, chats@[j].unread)),
        decreases chats.len() - i,
    {
        let ghost before = counts_view(out@);
        out.push((chats[i].id.clone(), chats[i].unread));
        assert(counts_view(out@) =~= before.push((chats@[i as int].id@, chats@[i as int].unread)));
        i += 1;
        assert(counts_view(out@) =~= Seq::new(i as nat, |j: int| (chats@[j].id@, chats@[j].unread)));
    }
    out
}

/// The selection after the chat list changed: kept when still in the
/// list, else the last chat (0 for an empty list).
pub fn clamp_selection(selected: usize, n_chats: usize) -> (r: usize)
    ensures
        r == (if selected < n_chats {
            selected as int
        } else if n_chats > 0 {
            n_chats - 1
        } else {
            0
        }),
{
    if selected >= n_chats {
        if n_chats > 0 {
            n_chats - 1
        } else {
            0
        }
    } else {
        selected
    }
}


proof fn lemma_chat_before_asymmetric(cs: Seq<ChatV>, x: usize, y: usize)
    requires
        chat_before(cs, x, y),
    ensures
        !chat_before(cs, y, x),
{
    let kx = chat_key(cs[x as int]);
    let ky = chat_key(cs[y as int]);
    lemma_key_facts(kx, ky, kx);
    lemma_key_facts(ky, kx, ky);
}

proof fn lemma_chat_orders_equal(cs: Seq<ChatV>, a: Seq<usize>, b: Seq<usize>)
    requires
        forall|p: int, q: int| #![trigger a[p], a[q]] 0 <= p < q < a.len() ==> a[p] != a[q] && chat_before(cs, a[p], a[q]),
        forall|p: int, q: int| #![trigger b[p], b[q]] 0 <= p < q < b.len() ==> b[p] != b[q] && chat_before(cs, b[p], b[q]),
        forall|x: usize| a.contains(x) <==> b.contains(x),
    ensures
        a == b,
    decreases a.len(),
{
    if a.len() == 0 {
        if b.len() > 0 {
            assert(b.contains(b[0]));
        }
        assert(a =~= b);
    } else {
        assert(a.contains(a[0]));
        let j = choose|j: int| 0 <= j < b.len() && b[j] == a[0];
        assert(b.contains(b[0]));
        let i = choose|i: int| 0 <= i < a.len() && a[i] == b[0];
        if j > 0 {
            if i == 0 {
                assert(b[0] != b[j]);
                assert(false);
            } else {
                lemma_chat_before_asymmetric(cs, a[0], b[0]);
                assert(false);
            }
        }
        let a2 = a.drop_first();
        let b2 = b.drop_first();
        assert forall|x: usize| a2.contains(x) <==> b2.contains(x) by {
            if a2.contains(x) {
                let k = choose|k: int| 0 <= k < a2.len() && a2[k] == x;
                assert(a[k + 1] == x && a[0] != x);
                assert(a.contains(x));
                let m = choose|m: int| 0 <= m < b.len() && b[m] == x;
                assert(m != 0);
                assert(b2[m - 1] == x);
            }
            if b2.contains(x) {
                let k = choose|k: int| 0 <= k < b2.len() && b2[k] == x;
                assert(b[k + 1] == x && b[0] != x);
                assert(b.contains(x));
                let m = choose|m: int| 0 <= m < a.len() && a[m] == x;
                assert(m != 0);
                assert(a2[m - 1] == x);
            }
        }
        lemma_chat_orders_equal(cs, a2, b2);
        assert(a =~= seq![a[0]] + a2);
        assert(b =~= seq![b[0]] + b2);
    }
}

/// The sidebar order of chats is determined: two orders that both list
/// every chat once by section and name, keeping equal chats in their
/// order, are the same.
pub proof fn law_chat_order_unique(cs: Seq<ChatV>, a: Seq<usize>, b: Seq<usize>)
    requires
        cs.len() <= usize::MAX,
        sidebar_order(cs, a),
        sidebar_order(cs, b),
    ensures
        a == b,
{
    assert forall|x: usize| a.contains(x) <==> b.contains(x) by {
        if a.contains(x) || b.contains(x) {
            if a.contains(x) {
                let k = choose|k: int| 0 <= k < a.len() && a[k] == x;
            }
            if b.contains(x) {
                let k = choose|k: int| 0 <= k < b.len() && b[k] == x;
            }
            crate::ui::chat_list::lemma_all_listed(a, cs.len() as int, x);
            crate::ui::chat_list::lemma_all_listed(b, cs.len() as int, x);
        }
    }
    lemma_chat_orders_equal(cs, a, b);
}

} // verus!
