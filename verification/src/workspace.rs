//! Switching between workspaces: when a switch may start, and the panes
//! restored from the workspace's saved layout.
use vstd::prelude::*;
use crate::widgets::{ChatPane, PaneV, empty_pane};
use crate::text::option_view;

verus! {

/// Why a workspace switch does not start.
#[derive(Debug, PartialEq, Eq)]
pub enum SwitchRefusal {
    /// No workspace has that index.
    InvalidIndex,
    /// The workspace is the active one.
    AlreadyActive,
    /// Another switch is still connecting.
    InProgress,
}

impl SwitchRefusal {
    /// The status line for the refusal.
    pub fn message(&self) -> (r: String)
        ensures
            r@ == match self {
                SwitchRefusal::InvalidIndex => "Invalid workspace index"@,
                SwitchRefusal::AlreadyActive => "Already on this workspace"@,
                SwitchRefusal::InProgress => "Workspace switch already in progress"@,
            },
    {
        match self {
            SwitchRefusal::InvalidIndex => "Invalid workspace index".to_string(),
            SwitchRefusal::AlreadyActive => "Already on this workspace".to_string(),
            SwitchRefusal::InProgress => "Workspace switch already in progress".to_string(),
        }
    }
}

/// Whether switching to workspace `target` may start: it must exist, not
/// be the active one, and no other switch may be connecting.
pub fn check_switch(target: usize, n_workspaces: usize, active: usize, switching: bool) -> (r: Result<(), SwitchRefusal>)
    ensures
        target >= n_workspaces ==> r == Err::<(), SwitchRefusal>(SwitchRefusal::InvalidIndex),
        target < n_workspaces && target == active ==> r == Err::<(), SwitchRefusal>(SwitchRefusal::AlreadyActive),
        target < n_workspaces && target != active && switching ==> r == Err::<(), SwitchRefusal>(
            SwitchRefusal::InProgress,
        ),
        r is Ok <==> (target < n_workspaces && target != active && !switching),
{
    if target >= n_workspaces {
        return Err(SwitchRefusal::InvalidIndex);
    }
    if target == active {
        return Err(SwitchRefusal::AlreadyActive);
    }
    if switching {
        return Err(SwitchRefusal::InProgress);
    }
    Ok(())
}

/// A pane as saved in a workspace's layout.
#[derive(Debug)]
pub struct SavedPane {
    pub channel_id: Option<String>,
    pub chat_name: String,
    pub scroll_offset: usize,
    pub thread_ts: Option<String>,
}

/// The pane restored from a saved one: its channel, thread, name and
/// scroll position, everything else as in a new pane.
pub open spec fn restored_pane(s: SavedPane) -> PaneV {
    PaneV {
        channel_id_str: option_view(s.channel_id),
        thread_ts: option_view(s.thread_ts),
        chat_name: s.chat_name@,
        scroll_offset: s.scroll_offset,
        ..empty_pane()
    }
}

/// The largest index in the layout tree's list (0 when it is empty).
pub open spec fn max_index(v: Seq<usize>) -> int
    decreases v.len(),
{
    if v.len() == 0 {
        0
    } else {
        let r = max_index(v.drop_last());
        if v.last() > r {
            v.last() as int
        } else {
            r
        }
    }
}

/// How many panes a restored layout has: enough for every index the
/// layout tree names and every saved pane, and at least one.
pub open spec fn panes_needed(tree_indices: Seq<usize>, n_saved: int) -> int {
    let a = max_index(tree_indices) + 1;
    let b = if a > n_saved {
        a
    } else {
        n_saved
    };
    if b > 1 {
        b
    } else {
        1
    }
}

/// The panes of a workspace's saved layout; see `restored_pane` and
/// `panes_needed`. Panes beyond the saved ones are new. The focus goes to
/// the saved focused pane when it exists, else to the first.
pub fn restore_panes(saved: &Vec<SavedPane>, tree_indices: &Vec<usize>, focused: usize) -> (r: (Vec<ChatPane>, usize))
    requires
        max_index(tree_indices@) < usize::MAX,
    ensures
        r.0@.len() == panes_needed(tree_indices@, saved@.len() as int),
        forall|i: int| 0 <= i < r.0@.len() ==> (#[trigger] r.0@[i])@ == if i < saved@.len() {
            restored_pane(saved@[i])
        } else {
            empty_pane()
        },
        r.1 == (if focused < r.0@.len() {
            focused
        } else {
            0
        }),
{
    let mut m: usize = 0;
    let mut k: usize = 0;
    while k < tree_indices.len()
        invariant
            k <= tree_indices.len(),
            m == max_index(tree_indices@.take(k as int)),
        decreases tree_indices.len() - k,
    {
        assert(tree_indices@.take(k + 1).drop_last() =~= tree_indices@.take(k as int));
        if tree_indices[k] > m {
            m = tree_indices[k];
        }
        k += 1;
    }
    assert(tree_indices@.take(k as int) =~= tree_indices@);
    let a = m + 1;
    let b = if a > saved.len() {
        a
    } else {
        saved.len()
    };
    let total = if b > 1 {
        b
    } else {
        1
    };
    let mut panes: Vec<ChatPane> = Vec::new();
    let mut i: usize = 0;
    while i < total
        invariant
            i <= total,
            panes@.len() == i,
            forall|j: int| 0 <= j < i ==> (#[trigger] panes@[j])@ == if j < saved@.len() {
                restored_pane(saved@[j])
            } else {
                empty_pane()
            },
        decreases total - i,
    {
        let mut pane = ChatPane::new();
        if i < saved.len() {
            let s = &saved[i];
            pane.channel_id_str = crate::text::copy_opt_string(&s.channel_id);
            pane.chat_name = s.chat_name.clone();
            pane.scroll_offset = s.scroll_offset;
            pane.thread_ts = crate::text::copy_opt_string(&s.thread_ts);
        }
        panes.push(pane);
        i += 1;
    }
    let f = if focused < panes.len() {
        focused
    } else {
        0
    };
    (panes, f)
}

} // verus!
