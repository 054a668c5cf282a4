//! Session bookkeeping for continue-where-you-left-off: the pristine/dirty
//! gate that restores hold closed, the windows the user closed logically,
//! and the decisions about which snapshots are worth writing or reading.
//! Reading and writing the snapshot files is left to the caller.

use vstd::prelude::*;
use std::collections::HashSet;
use vstd::string::StringExecFns;
use crate::soul::{join_path, path_join};

verus! {

/// The version of the snapshot format this build writes and accepts.
pub const SNAPSHOT_VERSION: u32 = 3;

/// The abstract session state.
pub struct SessionView {
    /// The mux changed since the last save.
    pub dirty: bool,
    /// How many restores are running.
    pub restoring_depth: nat,
    /// Windows the user closed that the mux still holds.
    pub logically_closed: Set<usize>,
}

/// Dirty flag, restore depth and logically-closed windows of one GUI
/// process.
pub struct SessionState {
    dirty: bool,
    restoring_depth: usize,
    logically_closed: HashSet<usize>,
}

impl View for SessionState {
    type V = SessionView;

    closed spec fn view(&self) -> SessionView {
        SessionView {
            dirty: self.dirty,
            restoring_depth: self.restoring_depth as nat,
            logically_closed: self.logically_closed@,
        }
    }
}

/// The state after a change to the mux.
pub open spec fn after_mark_dirty(s: SessionView) -> SessionView {
    if s.restoring_depth > 0 {
        s
    } else {
        SessionView { dirty: true, ..s }
    }
}

/// The state after a restore starts.
pub open spec fn after_begin_restore(s: SessionView) -> SessionView {
    SessionView { restoring_depth: s.restoring_depth + 1, ..s }
}

/// The state after a restore ends.
pub open spec fn after_end_restore(s: SessionView) -> SessionView {
    SessionView {
        restoring_depth: (s.restoring_depth - 1) as nat,
        dirty: s.dirty && s.restoring_depth != 1,
        ..s
    }
}

/// The state of a process that has changed nothing and restores nothing.
pub open spec fn pristine() -> SessionView {
    SessionView { dirty: false, restoring_depth: 0, logically_closed: Set::empty() }
}

impl SessionState {
    /// A pristine state.
    pub fn new() -> (s: SessionState)
        ensures
            s@ == pristine(),
    {
        SessionState { dirty: false, restoring_depth: 0, logically_closed: HashSet::new() }
    }

    /// Records that the mux changed, unless a restore is running (a restore's
    /// own changes must not count as the user's).
    pub fn mark_dirty(&mut self)
        ensures
            final(self)@ == after_mark_dirty(old(self)@),
    {
        if self.restoring_depth > 0 {
            return ;
        }
        self.dirty = true;
    }

    /// Whether the mux changed since the last save.
    pub fn is_dirty(&self) -> (dirty: bool)
        ensures
            dirty == self@.dirty,
    {
        self.dirty
    }

    /// How many restores are running.
    pub fn restoring_depth(&self) -> (depth: usize)
        ensures
            depth as nat == self@.restoring_depth,
    {
        self.restoring_depth
    }

    /// A restore starts (a `RestoringGuard` is created).
    pub fn begin_restore(&mut self)
        requires
            old(self)@.restoring_depth < usize::MAX,
        ensures
            final(self)@ == after_begin_restore(old(self)@),
    {
        self.restoring_depth = self.restoring_depth + 1;
    }

    /// A restore ends (its `RestoringGuard` is dropped). Only the outermost
    /// restore clears the dirty flag, so one restore cannot steal the
    /// pristine state from another that is still running.
    pub fn end_restore(&mut self)
        requires
            old(self)@.restoring_depth > 0,
        ensures
            final(self)@ == after_end_restore(old(self)@),
    {
        let prev = self.restoring_depth;
        self.restoring_depth = prev - 1;
        if prev == 1 {
            self.dirty = false;
        }
    }

    /// The user closed `window_id`; it is no longer part of the session.
    pub fn mark_window_logically_closed(&mut self, window_id: usize)
        ensures
            final(self)@ == (SessionView {
                logically_closed: old(self)@.logically_closed.insert(window_id),
                ..old(self)@
            }),
    {
        self.logically_closed.insert(window_id);
    }

    /// `window_id` is live again.
    pub fn forget_logically_closed(&mut self, window_id: usize)
        ensures
            final(self)@ == (SessionView {
                logically_closed: old(self)@.logically_closed.remove(window_id),
                ..old(self)@
            }),
    {
        self.logically_closed.remove(&window_id);
    }

    /// Whether the user closed `window_id`.
    pub fn is_window_logically_closed(&self, window_id: usize) -> (closed: bool)
        ensures
            closed == self@.logically_closed.contains(window_id),
    {
        self.logically_closed.contains(&window_id)
    }
}


// ---------------------------------------------------------------------------
// Laws of the pristine gate and of the logically-closed set.
// ---------------------------------------------------------------------------

/// Outside a restore, a change marks the session dirty.
pub proof fn law_change_outside_restore_marks_dirty(s: SessionView)
    requires
        s.restoring_depth == 0,
    ensures
        after_mark_dirty(s).dirty,
{
}

/// Changes made while a restore runs are not the user's: they leave the
/// state as it was.
pub proof fn law_change_during_restore_is_ignored(s: SessionView)
    requires
        s.restoring_depth > 0,
    ensures
        after_mark_dirty(s) == s,
{
}

/// When the outermost restore ends, the session is pristine again, whatever
/// happened during the restore.
pub proof fn law_outermost_restore_leaves_clean(s: SessionView, changed: bool)
    requires
        s.restoring_depth == 0,
    ensures
        ({
            let during = after_begin_restore(s);
            let touched = if changed {
                after_mark_dirty(during)
            } else {
                during
            };
            let after = after_end_restore(touched);
            &&& !after.dirty
            &&& after.restoring_depth == 0
            &&& after.logically_closed == s.logically_closed
        }),
{
}

/// Nested restores compose: the inner one ending leaves the outer one
/// running and the dirty flag as it was; the outer one ending clears it.
pub proof fn law_nested_restores_compose(s: SessionView)
    requires
        s.restoring_depth == 0,
    ensures
        ({
            let outer = after_begin_restore(s);
            let inner = after_begin_restore(outer);
            let inner_done = after_end_restore(inner);
            &&& inner.restoring_depth == 2
            &&& inner_done.restoring_depth == 1
            &&& inner_done.dirty == s.dirty
            &&& after_mark_dirty(inner_done) == inner_done
            &&& !after_end_restore(after_mark_dirty(inner_done)).dirty
            &&& after_end_restore(after_mark_dirty(inner_done)).restoring_depth == 0
        }),
{
}

/// Marking a window closed and forgetting it again round-trips: it is closed
/// in between, and afterwards exactly as before for every other window.
pub proof fn law_logically_closed_round_trip(s: SessionView, id: usize, other: usize)
    requires
        other != id,
    ensures
        s.logically_closed.insert(id).contains(id),
        !s.logically_closed.insert(id).remove(id).contains(id),
        s.logically_closed.insert(id).remove(id).contains(other) == s.logically_closed.contains(
            other,
        ),
{
}

// ---------------------------------------------------------------------------
// Pane trees of saved windows.
// ---------------------------------------------------------------------------

/// The pane layout of a saved tab: split nodes carry the split `N`, leaves
/// the saved pane `L`.
pub enum SavedPaneNode<N, L> {
    Empty,
    Split { left: Box<SavedPaneNode<N, L>>, right: Box<SavedPaneNode<N, L>>, node: N },
    Leaf(L),
}

/// The leaves of a pane tree, left to right.
pub open spec fn leaves<N, L>(node: SavedPaneNode<N, L>) -> Seq<L>
    decreases node,
{
    match node {
        SavedPaneNode::Empty => Seq::empty(),
        SavedPaneNode::Split { left, right, .. } => leaves(*left) + leaves(*right),
        SavedPaneNode::Leaf(entry) => seq![entry],
    }
}

/// Appends (clones of) the leaves of `node` to `out`, left to right.
pub fn collect_leaf_entries<N, L: Clone>(node: &SavedPaneNode<N, L>, out: &mut Vec<L>)
    ensures
        final(out)@.len() == old(out)@.len() + leaves(*node).len(),
        forall|i: int| 0 <= i < old(out)@.len() ==> final(out)@[i] == old(out)@[i],
        forall|i: int|
            0 <= i < leaves(*node).len() ==> cloned(#[trigger] leaves(*node)[i], final(out)@[old(out)@.len() + i]),
    decreases node,
{
    match node {
        SavedPaneNode::Empty => {},
        SavedPaneNode::Split { left, right, .. } => {
            let ghost start = out@;
            collect_leaf_entries(left, out);
            let ghost mid = out@;
            collect_leaf_entries(right, out);
            assert forall|i: int| 0 <= i < leaves(*node).len() implies cloned(
                #[trigger] leaves(*node)[i],
                out@[start.len() + i],
            ) by {
                let l = leaves(**left);
                if i < l.len() {
                    assert(leaves(*node)[i] == l[i]);
                    assert(out@[start.len() + i] == mid[start.len() + i]);
                } else {
                    assert(leaves(*node)[i] == leaves(**right)[i - l.len()]);
                }
            }
        },
        SavedPaneNode::Leaf(entry) => {
            out.push(entry.clone());
        },
    }
}

/// What the session save needs to know of one window's snapshot: how many
/// tabs it has and, when it has a first tab, whether that tab's pane tree
/// is a single leaf (`Some(true)`), and how many leaves it has.
pub struct WindowShape {
    pub tab_count: usize,
    pub first_tab_is_leaf: Option<bool>,
    pub first_tab_leaves: usize,
}

/// A window of one tab (or none) whose first tab is a single pane (or
/// absent).
pub open spec fn spec_is_trivial_shape(w: WindowShape) -> bool {
    w.tab_count <= 1 && (w.first_tab_is_leaf is None || w.first_tab_is_leaf == Some(true))
}

/// Whether a session save is worth writing: the session changed, some
/// window is left, and it is not just one window with a single pane (most
/// likely the empty window a fresh start opens), which would overwrite a
/// useful saved session.
pub open spec fn spec_should_save_session(dirty: bool, windows: Seq<WindowShape>) -> bool {
    &&& dirty
    &&& windows.len() > 0
    &&& !(windows.len() == 1 && spec_is_trivial_shape(windows[0]) && windows[0].first_tab_leaves
        <= 1)
}

/// Whether the session save writes the snapshot built from `windows` (the
/// windows whose snapshots were built, in order), given the session state.
/// Building and writing the snapshot is the caller's.
pub fn save_session_snapshot(state: &SessionState, windows: &[WindowShape]) -> (save: bool)
    ensures
        save == spec_should_save_session(state@.dirty, windows@),
{
    if !state.is_dirty() {
        return false;
    }
    if windows.len() == 0 {
        return false;
    }
    let mut all_trivial = true;
    let mut i: usize = 0;
    while i < windows.len()
        invariant
            i <= windows@.len(),
            all_trivial == forall|j: int| 0 <= j < i ==> spec_is_trivial_shape(#[trigger] windows@[j]),
        decreases windows@.len() - i,
    {
        let w = &windows[i];
        let trivial = w.tab_count <= 1 && match w.first_tab_is_leaf {
            None => true,
            Some(leaf) => leaf,
        };
        all_trivial = all_trivial && trivial;
        i = i + 1;
    }
    if windows.len() == 1 && all_trivial {
        if windows[0].first_tab_leaves <= 1 {
            return false;
        }
    }
    true
}

/// Ids in ascending order.
pub open spec fn is_ascending(ids: Seq<usize>) -> bool {
    forall|i: int, j: int| 0 <= i <= j < ids.len() ==> ids[i] <= ids[j]
}

/// The windows that are still part of the session.
pub open spec fn is_open_window(closed: Set<usize>) -> spec_fn(usize) -> bool {
    |id: usize| !closed.contains(id)
}

/// Sorts window ids in ascending order, inserting each into place.
fn sort_ids(ids: &mut Vec<usize>)
    ensures
        final(ids)@.to_multiset() == old(ids)@.to_multiset(),
        is_ascending(final(ids)@),
{
    let mut sorted: Vec<usize> = Vec::new();
    let mut i: usize = 0;
    assert(sorted@ =~= ids@.take(0));
    while i < ids.len()
        invariant
            i <= ids@.len(),
            sorted@.to_multiset() == ids@.take(i as int).to_multiset(),
            is_ascending(sorted@),
        decreases ids@.len() - i,
    {
        let x = ids[i];
        let mut k: usize = 0;
        while k < sorted.len() && sorted[k] <= x
            invariant
                k <= sorted@.len(),
                forall|j: int| 0 <= j < k ==> sorted@[j] <= x,
            decreases sorted@.len() - k,
        {
            k = k + 1;
        }
        let ghost before = sorted@;
        sorted.insert(k, x);
        assert(sorted@ == before.insert(k as int, x));
        assert(ids@.take(i + 1) == ids@.take(i as int).push(x));
        proof {
            vstd::seq_lib::to_multiset_insert(before, k as int, x);
            vstd::seq_lib::to_multiset_build(ids@.take(i as int), x);
        }
        assert(is_ascending(sorted@)) by {
            assert forall|p: int, q: int| 0 <= p <= q < sorted@.len() implies sorted@[p] <= sorted@[q] by {
                if p < k && q > k {
                    assert(sorted@[p] == before[p]);
                    assert(sorted@[q] == before[q - 1]);
                } else if p < k && q == k {
                    assert(sorted@[p] == before[p]);
                } else if p == k && q > k {
                    assert(k < before.len());
                    assert(!(before[k as int] <= x));
                    assert(sorted@[q] == before[q - 1]);
                    assert(before[k as int] <= before[q - 1]);
                } else if p > k {
                    assert(sorted@[p] == before[p - 1]);
                    assert(sorted@[q] == before[q - 1]);
                } else if q < k {
                    assert(sorted@[p] == before[p]);
                    assert(sorted@[q] == before[q]);
                }
            }
        }
        i = i + 1;
    }
    assert(ids@.take(ids@.len() as int) == ids@);
    *ids = sorted;
}

/// The windows whose snapshots a session save builds, out of the mux's
/// `window_ids`: none when nothing changed since the last save, else the
/// windows not closed logically, in ascending id order.
pub fn windows_for_session_snapshot(state: &SessionState, window_ids: &[usize]) -> (ids: Option<
    Vec<usize>,
>)
    ensures
        ids is None <==> !state@.dirty,
        ids matches Some(v) ==> is_ascending(v@) && v@.to_multiset() == window_ids@.filter(
            is_open_window(state@.logically_closed),
        ).to_multiset(),
{
    if !state.is_dirty() {
        return None;
    }
    let ghost pred = is_open_window(state@.logically_closed);
    let mut open: Vec<usize> = Vec::new();
    let mut i: usize = 0;
    while i < window_ids.len()
        invariant
            i <= window_ids@.len(),
            pred == is_open_window(state@.logically_closed),
            open@ == window_ids@.take(i as int).filter(pred),
        decreases window_ids@.len() - i,
    {
        proof {
            reveal(Seq::filter);
            assert(window_ids@.take(i + 1).drop_last() =~= window_ids@.take(i as int));
        }
        let id = window_ids[i];
        if !state.is_window_logically_closed(id) {
            open.push(id);
        }
        i = i + 1;
    }
    assert(window_ids@.take(window_ids@.len() as int) =~= window_ids@);
    sort_ids(&mut open);
    Some(open)
}

/// Whether closing a window saves its snapshot for undo-close-window: not
/// when the window is trivial. Building and writing it is the caller's.
pub fn save_closed_window_snapshot(window: &Option<LiveWindow>) -> (save: bool)
    ensures
        save == !spec_is_window_trivial(*window),
{
    !is_window_trivial(window)
}

/// The shape of a saved window whose tabs have the pane trees `tabs`.
pub fn window_shape<N, L: Clone>(tabs: &[SavedPaneNode<N, L>]) -> (shape: WindowShape)
    ensures
        shape.tab_count == tabs@.len(),
        tabs@.len() == 0 ==> shape.first_tab_is_leaf is None && shape.first_tab_leaves == 0,
        tabs@.len() > 0 ==> shape.first_tab_is_leaf == Some(tabs@[0] is Leaf) && shape.first_tab_leaves
            == leaves(tabs@[0]).len(),
{
    if tabs.len() == 0 {
        return WindowShape { tab_count: 0, first_tab_is_leaf: None, first_tab_leaves: 0 };
    }
    let first = &tabs[0];
    let is_leaf = match first {
        SavedPaneNode::Leaf(_) => true,
        _ => false,
    };
    let mut leaves_out: Vec<L> = Vec::new();
    collect_leaf_entries(first, &mut leaves_out);
    WindowShape { tab_count: tabs.len(), first_tab_is_leaf: Some(is_leaf), first_tab_leaves: leaves_out.len() }
}

/// What is known of a live window: its tab count and, when its first tab
/// exists, that tab's pane count and its first pane's scrollback and
/// viewport rows.
pub struct LiveWindow {
    pub tab_count: usize,
    pub first_tab: Option<LiveTab>,
}

pub struct LiveTab {
    pub pane_count: usize,
    pub scrollback_rows: usize,
    pub viewport_rows: usize,
}

/// A window is trivial when it is gone, or has one tab with one pane that
/// has not scrolled (the shell printed only its prompt).
pub open spec fn spec_is_window_trivial(window: Option<LiveWindow>) -> bool {
    match window {
        None => true,
        Some(w) => w.tab_count == 1 && match w.first_tab {
            None => true,
            Some(t) => t.pane_count == 1 && t.scrollback_rows <= t.viewport_rows,
        },
    }
}

/// Decides whether a window is trivial, so that closing it saves nothing.
pub fn is_window_trivial(window: &Option<LiveWindow>) -> (trivial: bool)
    ensures
        trivial == spec_is_window_trivial(*window),
{
    match window {
        None => true,
        Some(w) => {
            if w.tab_count != 1 {
                return false;
            }
            match &w.first_tab {
                None => true,
                Some(t) => {
                    if t.pane_count != 1 {
                        return false;
                    }
                    t.scrollback_rows <= t.viewport_rows
                },
            }
        },
    }
}

/// Same as triviality: the window the menu restore may replace.
pub fn is_window_empty(window: &Option<LiveWindow>) -> (empty: bool)
    ensures
        empty == spec_is_window_trivial(*window),
{
    is_window_trivial(window)
}

/// A session snapshot read from disk is used only in this version and
/// when it holds a window.
pub fn session_snapshot_usable(version: u32, window_count: usize) -> (usable: bool)
    ensures
        usable == (version == SNAPSHOT_VERSION && window_count > 0),
{
    version == SNAPSHOT_VERSION && window_count > 0
}

/// A closed-window snapshot read from disk is used only in this version.
pub fn closed_window_snapshot_usable(version: u32) -> (usable: bool)
    ensures
        usable == (version == SNAPSHOT_VERSION),
{
    version == SNAPSHOT_VERSION
}

/// The tab to activate in a restored window of `tab_count` tabs: the saved
/// index, clamped to the last tab; none when the window has no tab.
pub fn restored_active_tab(saved_idx: usize, tab_count: usize) -> (idx: Option<usize>)
    ensures
        tab_count == 0 ==> idx is None,
        tab_count > 0 ==> idx == Some(if saved_idx < tab_count { saved_idx } else { (tab_count - 1) as usize }),
{
    if tab_count > 0 {
        let max_idx = tab_count - 1;
        Some(if saved_idx < max_idx {
            saved_idx
        } else {
            max_idx
        })
    } else {
        None
    }
}

/// The window to focus after restoring a session: the first one saved as
/// focused, else the first.
pub fn focused_window_index(is_focused: &[bool]) -> (idx: usize)
    ensures
        is_focused@.contains(true) ==> idx < is_focused@.len() && is_focused@[idx as int] && forall|j: int|
            0 <= j < idx ==> !is_focused@[j],
        !is_focused@.contains(true) ==> idx == 0,
{
    let mut i: usize = 0;
    while i < is_focused.len()
        invariant
            i <= is_focused@.len(),
            forall|j: int| 0 <= j < i ==> !is_focused@[j],
        decreases is_focused@.len() - i,
    {
        if is_focused[i] {
            return i;
        }
        i = i + 1;
    }
    0
}

/// The window a snapshot counts as focused: the one the front end reports,
/// else the mux window with the highest id (none when there is no window).
pub fn focused_window_id(front_end_focused: Option<usize>, window_ids: &[usize]) -> (id: Option<usize>)
    ensures
        front_end_focused is Some ==> id == front_end_focused,
        front_end_focused is None && window_ids@.len() == 0 ==> id is None,
        front_end_focused is None && window_ids@.len() > 0 ==> (id matches Some(m) && window_ids@.contains(m)
            && forall|i: int| 0 <= i < window_ids@.len() ==> window_ids@[i] <= m),
{
    if front_end_focused.is_some() {
        return front_end_focused;
    }
    if window_ids.len() == 0 {
        return None;
    }
    let mut best = window_ids[0];
    let mut i: usize = 1;
    assert(window_ids@.take(1)[0] == best);
    while i < window_ids.len()
        invariant
            1 <= i <= window_ids@.len(),
            window_ids@.take(i as int).contains(best),
            forall|j: int| 0 <= j < i ==> window_ids@[j] <= best,
        decreases window_ids@.len() - i,
    {
        let ghost prev = window_ids@.take(i as int);
        assert(window_ids@.take(i + 1) == prev.push(window_ids@[i as int]));
        proof {
            let w = choose|k: int| 0 <= k < prev.len() && prev[k] == best;
            assert(window_ids@.take(i + 1)[w] == best);
        }
        if window_ids[i] > best {
            best = window_ids[i];
            assert(window_ids@.take(i + 1)[i as int] == best);
        }
        i = i + 1;
    }
    assert(window_ids@.take(window_ids@.len() as int) == window_ids@);
    Some(best)
}

/// The Kaku config directory of snapshots: the first configured directory,
/// else `.config/kaku` under the home directory.
pub open spec fn snapshot_dir(first_config_dir: Option<Seq<char>>, home: Seq<char>) -> Seq<char> {
    match first_config_dir {
        Some(d) => d,
        None => path_join(path_join(home, ".config"@), "kaku"@),
    }
}

/// The file `name` in the config directory of snapshots.
pub fn config_dir_file(first_config_dir: Option<&str>, home: &str, name: &str) -> (path: String)
    ensures
        path@ == path_join(
            snapshot_dir(
                match first_config_dir {
                    Some(d) => Some(d@),
                    None => None,
                },
                home@,
            ),
            name@,
        ),
{
    let dir = match first_config_dir {
        Some(d) => String::from_str(d),
        None => {
            let dot_config = join_path(home, ".config");
            join_path(dot_config.as_str(), "kaku")
        },
    };
    join_path(dir.as_str(), name)
}

/// The session snapshot written on quit.
pub fn session_file(first_config_dir: Option<&str>, home: &str) -> (path: String)
    ensures
        path@ == path_join(
            snapshot_dir(
                match first_config_dir {
                    Some(d) => Some(d@),
                    None => None,
                },
                home@,
            ),
            "last_session.json"@,
        ),
{
    config_dir_file(first_config_dir, home, "last_session.json")
}

/// The snapshot of the last window the user closed.
pub fn closed_window_file(first_config_dir: Option<&str>, home: &str) -> (path: String)
    ensures
        path@ == path_join(
            snapshot_dir(
                match first_config_dir {
                    Some(d) => Some(d@),
                    None => None,
                },
                home@,
            ),
            "last_closed_window.json"@,
        ),
{
    config_dir_file(first_config_dir, home, "last_closed_window.json")
}

} // verus!
