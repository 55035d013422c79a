//! Workspaces, tabs and the panes they own.
//!
//! Pane identities are local to their tab and restart at 1 in every tab, so a pane is named
//! globally by its owner-scoped [`PaneKey`]. Each pane is hosted by a native window, named by
//! a [`WindowId`].

use vstd::prelude::*;

use crate::layout::{Axis, Node};

verus! {

/// Stable identity of a workspace.
#[derive(Clone, Copy, Debug, PartialEq, Eq, Hash, Structural)]
pub struct WorkspaceId(pub u64);

/// Stable identity of a tab within its workspace.
#[derive(Clone, Copy, Debug, PartialEq, Eq, Hash, Structural)]
pub struct TabId(pub u64);

/// Identity of a pane within its tab.
#[derive(Clone, Copy, Debug, PartialEq, Eq, PartialOrd, Ord, Hash, Structural)]
pub struct PaneId(pub u64);

/// Identity of the native window that hosts a pane.
#[derive(Clone, Copy, Debug, PartialEq, Eq, Hash, Structural)]
pub struct WindowId(pub u64);

impl From<u64> for WindowId {
    fn from(raw: u64) -> (r: WindowId)
        ensures
            r == WindowId(raw),
    {
        WindowId(raw)
    }
}

impl vstd::std_specs::convert::FromSpecImpl<u64> for WindowId {
    open spec fn obeys_from_spec() -> bool {
        true
    }

    open spec fn from_spec(raw: u64) -> WindowId {
        WindowId(raw)
    }
}

/// A pane named by its owners.
#[derive(Clone, Copy, Debug, PartialEq, Eq, Hash, Structural)]
pub struct PaneKey {
    pub workspace_id: WorkspaceId,
    pub tab_id: TabId,
    pub pane_id: PaneId,
}

// ---------------------------------------------------------------------------------------------
// Pane tables: the panes of a tab and their windows, ordered by pane
// ---------------------------------------------------------------------------------------------

/// Entries ordered by strictly increasing pane.
pub open spec fn sorted_panes(t: Seq<(PaneId, WindowId)>) -> bool {
    forall|i: int, j: int| 0 <= i < j < t.len() ==> (#[trigger] t[i]).0.0 < (#[trigger] t[j]).0.0
}

/// The map that a table describes; a later entry for a pane replaces an earlier one.
pub open spec fn table_map(t: Seq<(PaneId, WindowId)>) -> Map<PaneId, WindowId>
    decreases t.len(),
{
    if t.len() == 0 {
        Map::empty()
    } else {
        table_map(t.drop_last()).insert(t.last().0, t.last().1)
    }
}

/// The window of `pane` in a table.
pub open spec fn table_get(t: Seq<(PaneId, WindowId)>, pane: PaneId) -> Option<WindowId> {
    if table_map(t).dom().contains(pane) {
        Some(table_map(t)[pane])
    } else {
        None
    }
}

/// The panes of a table.
pub open spec fn table_keys(t: Seq<(PaneId, WindowId)>) -> Set<PaneId> {
    table_map(t).dom()
}

/// Keys of a table are exactly the panes of its entries.
pub proof fn lemma_table_keys(t: Seq<(PaneId, WindowId)>)
    ensures
        forall|p: PaneId| #[trigger] table_map(t).dom().contains(p) <==> exists|i: int| 0 <= i < t.len() && (#[trigger] t[i]).0 == p,
        table_map(t).dom().finite(),
    decreases t.len(),
{
    if t.len() > 0 {
        lemma_table_keys(t.drop_last());
        assert forall|p: PaneId| #[trigger] table_map(t).dom().contains(p) <==> exists|i: int| 0 <= i < t.len() && (#[trigger] t[i]).0 == p by {
            if table_map(t.drop_last()).dom().contains(p) {
                let i = choose|i: int| 0 <= i < t.drop_last().len() && (#[trigger] t.drop_last()[i]).0 == p;
                assert(t[i] == t.drop_last()[i]);
            }
            if exists|i: int| 0 <= i < t.len() && (#[trigger] t[i]).0 == p {
                let i = choose|i: int| 0 <= i < t.len() && (#[trigger] t[i]).0 == p;
                if i < t.len() - 1 {
                    assert(t.drop_last()[i] == t[i]);
                }
            }
        }
    }
}

/// In an ordered table, each entry is what the map holds for its pane.
pub proof fn lemma_sorted_table_entry(t: Seq<(PaneId, WindowId)>, i: int)
    requires
        sorted_panes(t),
        0 <= i < t.len(),
    ensures
        table_map(t).dom().contains(t[i].0),
        table_map(t)[t[i].0] == t[i].1,
    decreases t.len(),
{
    if i < t.len() - 1 {
        assert(sorted_panes(t.drop_last())) by {
            assert forall|a: int, b: int| 0 <= a < b < t.drop_last().len() implies (#[trigger] t.drop_last()[a]).0.0 < (#[trigger] t.drop_last()[b]).0.0 by {
                assert(t.drop_last()[a] == t[a]);
                assert(t.drop_last()[b] == t[b]);
            }
        }
        assert(t.drop_last()[i] == t[i]);
        lemma_sorted_table_entry(t.drop_last(), i);
        assert(t[i].0.0 < t.last().0.0);
    }
}

/// Number of distinct panes of an ordered table.
pub proof fn lemma_sorted_table_len(t: Seq<(PaneId, WindowId)>)
    requires
        sorted_panes(t),
    ensures
        table_map(t).dom().len() == t.len(),
        table_map(t).dom().finite(),
    decreases t.len(),
{
    lemma_table_keys(t);
    if t.len() > 0 {
        assert(sorted_panes(t.drop_last())) by {
            assert forall|a: int, b: int| 0 <= a < b < t.drop_last().len() implies (#[trigger] t.drop_last()[a]).0.0 < (#[trigger] t.drop_last()[b]).0.0 by {
                assert(t.drop_last()[a] == t[a]);
                assert(t.drop_last()[b] == t[b]);
            }
        }
        lemma_sorted_table_len(t.drop_last());
        lemma_table_keys(t.drop_last());
        assert(!table_map(t.drop_last()).dom().contains(t.last().0)) by {
            if table_map(t.drop_last()).dom().contains(t.last().0) {
                let i = choose|i: int| 0 <= i < t.drop_last().len() && (#[trigger] t.drop_last()[i]).0 == t.last().0;
                assert(t[i] == t.drop_last()[i]);
                assert(t[i].0.0 < t[t.len() - 1].0.0);
            }
        }
    }
}

/// The window recorded for `pane` (the latest entry, should the pane occur twice).
pub fn pane_window(panes: &Vec<(PaneId, WindowId)>, pane: PaneId) -> (r: Option<WindowId>)
    ensures
        r == table_get(panes@, pane),
{
    let mut i = panes.len();
    proof {
        assert(panes@.subrange(0, i as int) =~= panes@);
    }
    while i > 0
        invariant
            i <= panes@.len(),
            table_get(panes@, pane) == table_get(panes@.subrange(0, i as int), pane),
        decreases i,
    {
        proof {
            assert(panes@.subrange(0, i as int).drop_last() =~= panes@.subrange(0, i - 1));
        }
        if panes[i - 1].0.0 == pane.0 {
            return Some(panes[i - 1].1);
        }
        i = i - 1;
    }
    proof {
        assert(panes@.subrange(0, 0) =~= Seq::<(PaneId, WindowId)>::empty());
    }
    None
}

/// Record `window` for `pane`, keeping the table ordered.
pub fn insert_pane(panes: &mut Vec<(PaneId, WindowId)>, pane: PaneId, window: WindowId)
    requires
        sorted_panes(old(panes)@),
    ensures
        sorted_panes(final(panes)@),
        table_map(final(panes)@) == table_map(old(panes)@).insert(pane, window),
{
    let ghost t = panes@;
    let mut i: usize = 0;
    while i < panes.len() && panes[i].0.0 < pane.0
        invariant
            i <= panes@.len(),
            panes@ == t,
            sorted_panes(t),
            forall|j: int| 0 <= j < i ==> (#[trigger] t[j]).0.0 < pane.0,
        decreases panes@.len() - i,
    {
        i = i + 1;
    }
    if i < panes.len() && panes[i].0.0 == pane.0 {
        panes.set(i, (pane, window));
        proof {
            lemma_sorted_replace(t, i as int, pane, window);
        }
    } else {
        panes.insert(i, (pane, window));
        proof {
            lemma_sorted_insert(t, i as int, pane, window);
        }
    }
}

/// Forget `pane`, keeping the table ordered; returns its window when it was present.
pub fn remove_pane_entry(panes: &mut Vec<(PaneId, WindowId)>, pane: PaneId) -> (r: Option<WindowId>)
    requires
        sorted_panes(old(panes)@),
    ensures
        r == table_get(old(panes)@, pane),
        r is None ==> *final(panes) == *old(panes),
        sorted_panes(final(panes)@),
        table_map(final(panes)@) == table_map(old(panes)@).remove(pane),
{
    let ghost t = panes@;
    let mut i: usize = 0;
    while i < panes.len()
        invariant
            i <= panes@.len(),
            panes@ == t,
            old(panes)@ == t,
            *panes == *old(panes),
            sorted_panes(t),
            forall|j: int| 0 <= j < i ==> (#[trigger] t[j]).0 != pane,
        decreases panes@.len() - i,
    {
        if panes[i].0.0 == pane.0 {
            let removed = panes.remove(i);
            proof {
                assert(old(panes)@ == t);
                assert(removed == t[i as int]);
                assert(t[i as int].0 == pane);
                lemma_sorted_table_entry(t, i as int);
                lemma_sorted_remove(t, i as int);
            }
            return Some(removed.1);
        }
        i = i + 1;
    }
    proof {
        lemma_table_keys(t);
        assert(!table_map(t).dom().contains(pane));
        assert(table_map(t).remove(pane) =~= table_map(t));
    }
    None
}

proof fn lemma_sorted_replace(t: Seq<(PaneId, WindowId)>, i: int, pane: PaneId, window: WindowId)
    requires
        sorted_panes(t),
        0 <= i < t.len(),
        t[i].0 == pane,
    ensures
        sorted_panes(t.update(i, (pane, window))),
        table_map(t.update(i, (pane, window))) == table_map(t).insert(pane, window),
{
    let u = t.update(i, (pane, window));
    assert(sorted_panes(u)) by {
        assert forall|a: int, b: int| 0 <= a < b < u.len() implies (#[trigger] u[a]).0.0 < (#[trigger] u[b]).0.0 by {
            assert(t[a].0.0 < t[b].0.0);
        }
    }
    lemma_sorted_table_entry(u, i);
    lemma_table_keys(t);
    lemma_table_keys(u);
    let m = table_map(t).insert(pane, window);
    assert forall|p: PaneId| #[trigger] table_map(u).dom().contains(p) == m.dom().contains(p) && (
    m.dom().contains(p) ==> table_map(u)[p] == m[p]) by {
        if table_map(u).dom().contains(p) {
            let k = choose|k: int| 0 <= k < u.len() && (#[trigger] u[k]).0 == p;
            if k != i {
                assert(t[k] == u[k]);
                lemma_sorted_table_entry(t, k);
                lemma_sorted_table_entry(u, k);
            }
        }
        if table_map(t).dom().contains(p) {
            let k = choose|k: int| 0 <= k < t.len() && (#[trigger] t[k]).0 == p;
            if k != i {
                assert(t[k] == u[k]);
            } else {
                assert(u[i].0 == p);
            }
        }
    }
    assert(table_map(u) =~= m);
}

proof fn lemma_sorted_insert(t: Seq<(PaneId, WindowId)>, i: int, pane: PaneId, window: WindowId)
    requires
        sorted_panes(t),
        0 <= i <= t.len(),
        forall|j: int| 0 <= j < i ==> (#[trigger] t[j]).0.0 < pane.0,
        i < t.len() ==> t[i].0.0 >= pane.0 && t[i].0.0 != pane.0,
    ensures
        sorted_panes(t.insert(i, (pane, window))),
        table_map(t.insert(i, (pane, window))) == table_map(t).insert(pane, window),
{
    let u = t.insert(i, (pane, window));
    assert(sorted_panes(u)) by {
        assert forall|a: int, b: int| 0 <= a < b < u.len() implies (#[trigger] u[a]).0.0 < (#[trigger] u[b]).0.0 by {
            if b < i {
                assert(u[a] == t[a] && u[b] == t[b]);
            } else if b == i {
                assert(u[a] == t[a]);
            } else if a == i {
                assert(u[b] == t[b - 1]);
                assert(t[i].0.0 <= t[b - 1].0.0);
            } else if a < i {
                assert(u[a] == t[a] && u[b] == t[b - 1]);
            } else {
                assert(u[a] == t[a - 1] && u[b] == t[b - 1]);
            }
        }
    }
    lemma_sorted_table_entry(u, i);
    lemma_table_keys(t);
    lemma_table_keys(u);
    let m = table_map(t).insert(pane, window);
    assert forall|p: PaneId| #[trigger] table_map(u).dom().contains(p) == m.dom().contains(p) && (
    m.dom().contains(p) ==> table_map(u)[p] == m[p]) by {
        if table_map(u).dom().contains(p) {
            let k = choose|k: int| 0 <= k < u.len() && (#[trigger] u[k]).0 == p;
            lemma_sorted_table_entry(u, k);
            if k < i {
                assert(t[k] == u[k]);
                lemma_sorted_table_entry(t, k);
            } else if k > i {
                assert(t[k - 1] == u[k]);
                lemma_sorted_table_entry(t, k - 1);
            }
        }
        if table_map(t).dom().contains(p) {
            let k = choose|k: int| 0 <= k < t.len() && (#[trigger] t[k]).0 == p;
            if k < i {
                assert(t[k] == u[k]);
            } else {
                assert(t[k] == u[k + 1]);
            }
        }
    }
    assert(table_map(u) =~= m);
}

proof fn lemma_sorted_remove(t: Seq<(PaneId, WindowId)>, i: int)
    requires
        sorted_panes(t),
        0 <= i < t.len(),
    ensures
        sorted_panes(t.remove(i)),
        table_map(t.remove(i)) == table_map(t).remove(t[i].0),
{
    let u = t.remove(i);
    let pane = t[i].0;
    assert(sorted_panes(u)) by {
        assert forall|a: int, b: int| 0 <= a < b < u.len() implies (#[trigger] u[a]).0.0 < (#[trigger] u[b]).0.0 by {
            if b < i {
                assert(u[a] == t[a] && u[b] == t[b]);
            } else if a < i {
                assert(u[a] == t[a] && u[b] == t[b + 1]);
            } else {
                assert(u[a] == t[a + 1] && u[b] == t[b + 1]);
            }
        }
    }
    lemma_table_keys(t);
    lemma_table_keys(u);
    let m = table_map(t).remove(pane);
    assert forall|p: PaneId| #[trigger] table_map(u).dom().contains(p) == m.dom().contains(p) && (
    m.dom().contains(p) ==> table_map(u)[p] == m[p]) by {
        if table_map(u).dom().contains(p) {
            let k = choose|k: int| 0 <= k < u.len() && (#[trigger] u[k]).0 == p;
            lemma_sorted_table_entry(u, k);
            if k < i {
                assert(t[k] == u[k]);
                assert(t[k].0.0 < t[i].0.0);
                lemma_sorted_table_entry(t, k);
            } else {
                assert(t[k + 1] == u[k]);
                assert(t[i].0.0 < t[k + 1].0.0);
                lemma_sorted_table_entry(t, k + 1);
            }
        }
        if table_map(t).dom().contains(p) && p != pane {
            let k = choose|k: int| 0 <= k < t.len() && (#[trigger] t[k]).0 == p;
            if k < i {
                assert(t[k] == u[k]);
            } else {
                assert(k != i);
                assert(t[k] == u[k - 1]);
            }
        }
    }
    assert(table_map(u) =~= m);
}


// ---------------------------------------------------------------------------------------------
// Sequence facts about pane identities
// ---------------------------------------------------------------------------------------------

/// Largest pane number of the entries (0 for none).
pub open spec fn max_pane_number(t: Seq<(PaneId, WindowId)>) -> u64
    decreases t.len(),
{
    if t.len() == 0 {
        0
    } else {
        let rest = max_pane_number(t.drop_last());
        if t.last().0.0 > rest {
            t.last().0.0
        } else {
            rest
        }
    }
}

pub proof fn lemma_max_pane_number(t: Seq<(PaneId, WindowId)>)
    ensures
        forall|i: int| 0 <= i < t.len() ==> (#[trigger] t[i]).0.0 <= max_pane_number(t),
        t.len() > 0 ==> exists|i: int| 0 <= i < t.len() && (#[trigger] t[i]).0.0 == max_pane_number(t),
    decreases t.len(),
{
    if t.len() > 0 {
        lemma_max_pane_number(t.drop_last());
        assert forall|i: int| 0 <= i < t.len() implies (#[trigger] t[i]).0.0 <= max_pane_number(t) by {
            if i < t.len() - 1 {
                assert(t[i] == t.drop_last()[i]);
            }
        }
        if t.last().0.0 > max_pane_number(t.drop_last()) {
            assert(t[t.len() - 1].0.0 == max_pane_number(t));
        } else if t.len() > 1 {
            let i = choose|i: int| 0 <= i < t.drop_last().len() && (#[trigger] t.drop_last()[i]).0.0 == max_pane_number(t.drop_last());
            assert(t[i] == t.drop_last()[i]);
        } else {
            assert(t.drop_last().len() == 0);
            assert(t[0].0.0 == max_pane_number(t));
        }
    }
}

/// Inserting an element that is absent keeps a sequence free of duplicates and adds it to the
/// set of elements.
pub proof fn lemma_insert_fresh<A>(s: Seq<A>, k: int, x: A)
    requires
        s.no_duplicates(),
        !s.contains(x),
        0 <= k <= s.len(),
    ensures
        s.insert(k, x).no_duplicates(),
        s.insert(k, x).to_set() == s.to_set().insert(x),
{
    let u = s.insert(k, x);
    assert forall|i: int, j: int| 0 <= i < u.len() && 0 <= j < u.len() && i != j implies u[i] != u[j] by {
        if i != k && j != k {
            let a = if i < k { i } else { i - 1 };
            let b = if j < k { j } else { j - 1 };
            assert(u[i] == s[a] && u[j] == s[b]);
        } else if i == k {
            let b = if j < k { j } else { j - 1 };
            assert(u[j] == s[b]);
        } else {
            let a = if i < k { i } else { i - 1 };
            assert(u[i] == s[a]);
        }
    }
    assert forall|y: A| #[trigger] u.to_set().contains(y) == s.to_set().insert(x).contains(y) by {
        if u.contains(y) {
            let i = choose|i: int| 0 <= i < u.len() && u[i] == y;
            if i < k {
                assert(s[i] == y);
            } else if i > k {
                assert(s[i - 1] == y);
            }
        }
        if s.contains(y) {
            let i = choose|i: int| 0 <= i < s.len() && s[i] == y;
            if i < k {
                assert(u[i] == y);
            } else {
                assert(u[i + 1] == y);
            }
        }
        if y == x {
            assert(u[k] == x);
        }
    }
    assert(u.to_set() =~= s.to_set().insert(x));
}

/// Removing one element of a duplicate-free sequence removes it from the set of elements.
pub proof fn lemma_remove_unique<A>(s: Seq<A>, i: int)
    requires
        s.no_duplicates(),
        0 <= i < s.len(),
    ensures
        s.remove(i).no_duplicates(),
        s.remove(i).to_set() == s.to_set().remove(s[i]),
{
    let u = s.remove(i);
    assert forall|a: int, b: int| 0 <= a < u.len() && 0 <= b < u.len() && a != b implies u[a] != u[b] by {
        let x = if a < i { a } else { a + 1 };
        let y = if b < i { b } else { b + 1 };
        assert(u[a] == s[x] && u[b] == s[y]);
    }
    assert forall|y: A| #[trigger] u.to_set().contains(y) == s.to_set().remove(s[i]).contains(y) by {
        if u.contains(y) {
            let a = choose|a: int| 0 <= a < u.len() && u[a] == y;
            let x = if a < i { a } else { a + 1 };
            assert(s[x] == y);
        }
        if s.contains(y) && y != s[i] {
            let a = choose|a: int| 0 <= a < s.len() && s[a] == y;
            if a < i {
                assert(u[a] == y);
            } else {
                assert(u[a - 1] == y);
            }
        }
    }
    assert(u.to_set() =~= s.to_set().remove(s[i]));
}

// ---------------------------------------------------------------------------------------------
// Tabs
// ---------------------------------------------------------------------------------------------

/// A tab: a split tree of panes, each hosted by a window.
#[derive(Debug)]
pub struct Tab<W> {
    pub id: TabId,
    pub root: Node<W>,
    pub title: String,
    /// Whether the title was set by hand, which pins it against the terminal's own titles.
    pub custom_title: bool,
    pub focused_pane: PaneId,
    /// The panes of the tab and their windows, ordered by pane.
    pub panes: Vec<(PaneId, WindowId)>,
    /// The number the next pane created by a split receives.
    pub next_pane_id: u64,
}

impl<W> Tab<W> {
    /// The number the next pane created by a split receives.
    pub open spec fn next_pane(self) -> u64 {
        self.next_pane_id
    }

    /// The panes of the tab and their windows.
    pub open spec fn pane_map(self) -> Map<PaneId, WindowId> {
        table_map(self.panes@)
    }

    /// The invariant that creating, splitting and closing panes keep: the tree holds each pane
    /// of the table exactly once, the focused pane is one of them, and every pane number is
    /// below the next one to be handed out.
    pub open spec fn wf(self) -> bool {
        &&& sorted_panes(self.panes@)
        &&& self.root.wf()
        &&& self.root.leaves().no_duplicates()
        &&& self.root.leaves().to_set() == self.pane_map().dom()
        &&& self.pane_map().dom().contains(self.focused_pane)
        &&& forall|p: PaneId| #[trigger] self.pane_map().dom().contains(p) ==> p.0 < self.next_pane()
    }

    /// A tab with a single pane, numbered 1, hosted by `pane_window_id`.
    pub fn new(id: TabId, pane_window_id: WindowId) -> (tab: Self)
        ensures
            tab.wf(),
            tab.id == id,
            tab.title@ == "shell"@,
            !tab.custom_title,
            tab.root.leaves() == seq![PaneId(1)],
            tab.root == Node::<W>::Leaf(PaneId(1)),
            tab.focused_pane == PaneId(1),
            tab.pane_map() == map![PaneId(1) => pane_window_id],
            tab.next_pane() == 2,
    {
        let pane_id = PaneId(1);
        let mut panes = Vec::new();
        panes.push((pane_id, pane_window_id));
        let tab = Tab {
            id,
            root: Node::Leaf(pane_id),
            title: "shell".to_owned(),
            custom_title: false,
            focused_pane: pane_id,
            panes,
            next_pane_id: 2,
        };
        proof {
            assert(panes@.drop_last() =~= Seq::<(PaneId, WindowId)>::empty());
            assert(table_map(panes@.drop_last()) == Map::<PaneId, WindowId>::empty());
            assert(tab.pane_map() =~= map![PaneId(1) => pane_window_id]);
            assert(tab.root.leaves() =~= seq![PaneId(1)]);
            assert(tab.root.leaves()[0] == PaneId(1));
            assert(tab.root.leaves().to_set() =~= set![PaneId(1)]);
            assert(tab.pane_map().dom() =~= set![PaneId(1)]);
        }
        tab
    }

    /// Rebuild a tab from saved parts. The entries of `panes` form a map (a later entry for a
    /// pane replaces an earlier one); new panes are numbered after the largest one given, and a
    /// focused pane without an entry gives way to the first pane of the tree.
    pub fn restore(
        id: TabId,
        root: Node<W>,
        title: String,
        custom_title: bool,
        focused_pane: PaneId,
        panes: Vec<(PaneId, WindowId)>,
    ) -> (tab: Self)
        requires
            max_pane_number(panes@) < u64::MAX,
            !table_map(panes@).dom().contains(focused_pane) ==> root.nonempty(),
        ensures
            tab.id == id,
            tab.root == root,
            tab.title == title,
            tab.custom_title == custom_title,
            sorted_panes(tab.panes@),
            tab.pane_map() == table_map(panes@),
            tab.next_pane() == max_pane_number(panes@) + 1,
            tab.focused_pane == if table_map(panes@).dom().contains(focused_pane) {
                focused_pane
            } else {
                root.leaves()[0]
            },
    {
        let mut table: Vec<(PaneId, WindowId)> = Vec::new();
        let mut largest: u64 = 0;
        let mut i: usize = 0;
        while i < panes.len()
            invariant
                i <= panes@.len(),
                sorted_panes(table@),
                table_map(table@) == table_map(panes@.subrange(0, i as int)),
                largest == max_pane_number(panes@.subrange(0, i as int)),
            decreases panes@.len() - i,
        {
            let (pane, window) = panes[i];
            insert_pane(&mut table, pane, window);
            if pane.0 > largest {
                largest = pane.0;
            }
            proof {
                assert(panes@.subrange(0, i + 1).drop_last() =~= panes@.subrange(0, i as int));
            }
            i = i + 1;
        }
        proof {
            assert(panes@.subrange(0, i as int) =~= panes@);
        }
        let next_pane_id = largest + 1;
        let known = pane_window(&table, focused_pane).is_some();
        let focused_pane = if known {
            focused_pane
        } else {
            root.first_pane()
        };
        Tab { id, root, title, custom_title, focused_pane, panes: table, next_pane_id }
    }

    /// The window hosting `pane_id`.
    pub fn window_id(&self, pane_id: PaneId) -> (r: Option<WindowId>)
        ensures
            r == table_get(self.panes@, pane_id),
    {
        pane_window(&self.panes, pane_id)
    }

    /// The window of the focused pane, or else that of the tree's first pane.
    /// Take the title that the terminal of the tab reports, unless the title is pinned by a
    /// rename. Returns whether the title changed.
    pub fn set_context_title(&mut self, title: &str) -> (r: bool)
        ensures
            r == (!old(self).custom_title && old(self).title@ != title@),
            final(self).title@ == if r {
                title@
            } else {
                old(self).title@
            },
            final(self).custom_title == old(self).custom_title,
            final(self).id == old(self).id,
            final(self).root == old(self).root,
            final(self).focused_pane == old(self).focused_pane,
            final(self).panes == old(self).panes,
            final(self).next_pane_id == old(self).next_pane_id,
    {
        if self.custom_title {
            return false;
        }
        let current = crate::name_editor::chars_of(self.title.as_str());
        let next = crate::name_editor::chars_of(title);
        if crate::names::same_chars(&current, &next) {
            return false;
        }
        self.title = crate::name_editor::string_of(&next);
        true
    }

    pub fn focused_window_id(&self) -> (r: Option<WindowId>)
        requires
            table_get(self.panes@, self.focused_pane) is Some || self.root.nonempty(),
        ensures
            r == match table_get(self.panes@, self.focused_pane) {
                Some(w) => Some(w),
                None => table_get(self.panes@, self.root.leaves()[0]),
            },
    {
        match self.window_id(self.focused_pane) {
            Some(window) => Some(window),
            None => self.window_id(self.root.first_pane()),
        }
    }
}

impl<W: Copy> Tab<W> {
    /// Split the focused pane along `axis`; the new pane, hosted by `pane_window_id`, takes the
    /// next pane number and the focus. Returns the new pane, or `None` (leaving the tab as it
    /// was) when the focused pane is not in the tree. `even` and `halve` are as for
    /// [`Node::split`].
    pub fn split<F: Fn(W) -> W>(
        &mut self,
        axis: Axis,
        pane_window_id: WindowId,
        even: W,
        halve: &F,
    ) -> (r: Option<PaneId>)
        requires
            old(self).root.weighted(),
            sorted_panes(old(self).panes@),
            forall|w: W| halve.requires((w,)),
            old(self).root.leaves().contains(old(self).focused_pane) ==> old(self).next_pane() < u64::MAX,
        ensures
            r == if old(self).root.leaves().contains(old(self).focused_pane) {
                Some(PaneId(old(self).next_pane()))
            } else {
                None::<PaneId>
            },
            r matches Some(p) ==> {
                &&& crate::layout::split_shape(
                    old(self).root,
                    final(self).root,
                    old(self).focused_pane,
                    p,
                    axis,
                    even,
                    *halve,
                )
                &&& final(self).root.leaves() == old(self).root.leaves().insert(
                    crate::layout::first_index(old(self).root.leaves(), old(self).focused_pane) + 1,
                    p,
                )
                &&& final(self).pane_map() == old(self).pane_map().insert(p, pane_window_id)
                &&& final(self).focused_pane == p
                &&& final(self).next_pane() == old(self).next_pane() + 1
            },
            r is None ==> {
                &&& final(self).root == old(self).root
                &&& final(self).panes@ == old(self).panes@
                &&& final(self).focused_pane == old(self).focused_pane
                &&& final(self).next_pane() == old(self).next_pane()
            },
            final(self).id == old(self).id,
            final(self).title == old(self).title,
            final(self).custom_title == old(self).custom_title,
            sorted_panes(final(self).panes@),
            final(self).root.weighted(),
            old(self).wf() ==> final(self).wf(),
    {
        let pane_id = PaneId(self.next_pane_id);
        let ghost before = *self;
        if !self.root.split(self.focused_pane, pane_id, axis, even, halve) {
            return None;
        }
        self.next_pane_id = self.next_pane_id + 1;
        insert_pane(&mut self.panes, pane_id, pane_window_id);
        self.focused_pane = pane_id;
        proof {
            if before.wf() {
                let leaves = before.root.leaves();
                assert(!leaves.contains(pane_id)) by {
                    if leaves.contains(pane_id) {
                        assert(leaves.to_set().contains(pane_id));
                    }
                }
                crate::layout::lemma_first_index_found(leaves, before.focused_pane);
                lemma_insert_fresh(leaves, crate::layout::first_index(leaves, before.focused_pane) + 1, pane_id);
                assert(self.root.leaves().to_set() =~= self.pane_map().dom());
            }
        }
        Some(pane_id)
    }
}


impl<W> Tab<W> {
    /// What closing `pane_id` did when it turned `self` into `after` and answered `r`: `r`
    /// tells whether the pane belonged to the tab; if it did not, nothing changed; if it did,
    /// its window is forgotten, and unless it was the last pane the tree lost it and a focus on
    /// it moved to the tree's first pane. Numbering, identity and title stay, and the invariant
    /// [`Tab::wf`] survives whenever panes remain.
    pub open spec fn pane_closed(self, after: Tab<W>, pane_id: PaneId, r: bool) -> bool {
        &&& r == self.pane_map().dom().contains(pane_id)
        &&& !r ==> after == self
        &&& r ==> after.pane_map() == self.pane_map().remove(pane_id)
        &&& r && after.panes@.len() == 0 ==> {
            &&& after.root == self.root
            &&& after.focused_pane == self.focused_pane
        }
        &&& r && after.panes@.len() > 0 ==> if self.root is Split && self.root.leaves().contains(
            pane_id,
        ) {
            exists|i: int|
                0 <= i < self.root.leaves().len() && self.root.leaves()[i] == pane_id
                    && after.root.leaves() == self.root.leaves().remove(i)
        } else {
            after.root.leaves() == self.root.leaves()
        }
        &&& r && after.panes@.len() > 0 && self.focused_pane == pane_id ==> after.focused_pane
            == after.root.leaves()[0]
        &&& self.focused_pane != pane_id ==> after.focused_pane == self.focused_pane
        &&& after.id == self.id
        &&& after.title == self.title
        &&& after.custom_title == self.custom_title
        &&& after.next_pane() == self.next_pane()
        &&& sorted_panes(after.panes@)
        &&& after.root.weighted()
        &&& self.root.wf() ==> after.root.wf()
        &&& self.wf() && after.panes@.len() > 0 ==> after.wf()
    }
}

impl<W> Tab<W> {
    /// Close `pane_id`: forget its window and take it out of the tree; when it had the focus,
    /// the focus moves to the tree's first pane. Closing the last pane leaves the tree (and the
    /// focus) as they were, for the caller to discard the empty tab. Returns whether the pane
    /// belonged to the tab. `normalize` is as for [`Node::remove`].
    pub fn remove_pane<G: Fn(&Vec<W>) -> Vec<W>>(&mut self, pane_id: PaneId, normalize: &G) -> (r: bool)
        requires
            old(self).root.weighted(),
            sorted_panes(old(self).panes@),
            forall|v: &Vec<W>| normalize.requires((v,)),
            forall|v: &Vec<W>, n: Vec<W>| normalize.ensures((v,), n) ==> n.len() == v.len(),
            old(self).focused_pane == pane_id ==> old(self).root.wf(),
        ensures
            old(self).pane_closed(*final(self), pane_id, r),
            r && final(self).panes@.len() > 0 ==> crate::layout::remove_shape(
                old(self).root,
                final(self).root,
                pane_id,
                *normalize,
            ),
    {
        let ghost before = *self;
        proof {
            lemma_table_keys(self.panes@);
        }
        if self.panes.len() > 0 {
            proof {
                lemma_table_keys(self.panes@);
            }
        }
        let removed = remove_pane_entry(&mut self.panes, pane_id);
        if removed.is_none() {
            proof {
                assert(table_map(before.panes@).remove(pane_id) =~= table_map(before.panes@));
            }
            return false;
        }
        if self.panes.len() == 0 {
            return true;
        }
        let ghost old_leaves = self.root.leaves();
        let in_tree = self.root.remove(pane_id, normalize);
        proof {
            if before.wf() {
                lemma_sorted_table_len(before.panes@);
                lemma_sorted_table_len(self.panes@);
                assert(old_leaves.to_set().contains(pane_id));
                assert(old_leaves.contains(pane_id));
                if let Node::Leaf(q) = before.root {
                    assert(old_leaves =~= seq![q]);
                    assert(old_leaves.to_set() =~= set![q]);
                    assert(before.pane_map().dom().len() == 1);
                    assert(self.pane_map().dom() =~= before.pane_map().dom().remove(pane_id));
                    assert(self.pane_map().dom().len() == 0);
                }
                assert(in_tree);
                let i = choose|i: int|
                    0 <= i < old_leaves.len() && old_leaves[i] == pane_id && self.root.leaves()
                        == old_leaves.remove(i);
                lemma_remove_unique(old_leaves, i);
            }
        }
        if self.focused_pane.0 == pane_id.0 {
            proof {
                crate::layout::lemma_shaped_weaken(self.root, 2, true, 1, false);
            }
            self.focused_pane = self.root.first_pane();
        }
        proof {
            if before.wf() {
                let leaves = self.root.leaves();
                crate::layout::lemma_shaped_weaken(self.root, 2, true, 1, false);
                crate::layout::lemma_nonempty_has_leaf(self.root);
                assert(leaves.to_set().contains(leaves[0]));
                assert(self.pane_map().dom().contains(self.focused_pane));
            }
        }
        true
    }
}


impl<W> Tab<W> {
    /// What closing `pane_id` needs of the tab: a weighted, ordered tab whose tree keeps at
    /// least two children per split when the focus has to move.
    pub open spec fn closable(self, pane_id: PaneId) -> bool {
        &&& self.root.weighted()
        &&& sorted_panes(self.panes@)
        &&& self.focused_pane == pane_id ==> self.root.wf()
    }
}

// ---------------------------------------------------------------------------------------------
// Workspaces
// ---------------------------------------------------------------------------------------------

/// A workspace: a named working directory with its tabs.
#[derive(Debug)]
pub struct Workspace<W> {
    pub id: WorkspaceId,
    pub label: String,
    pub identity_cwd: String,
    pub tabs: Vec<Tab<W>>,
    pub active_tab: TabId,
    /// The number the next tab receives.
    pub next_tab_id: u64,
}

/// Position of the first tab with the given identity (the length when there is none).
pub open spec fn tab_position<W>(tabs: Seq<Tab<W>>, id: TabId) -> int
    decreases tabs.len(),
{
    if tabs.len() == 0 {
        0
    } else if tabs[0].id == id {
        0
    } else {
        1 + tab_position(tabs.drop_first(), id)
    }
}

/// Position of the first workspace with the given identity (the length when there is none).
pub open spec fn workspace_position<W>(workspaces: Seq<Workspace<W>>, id: WorkspaceId) -> int
    decreases workspaces.len(),
{
    if workspaces.len() == 0 {
        0
    } else if workspaces[0].id == id {
        0
    } else {
        1 + workspace_position(workspaces.drop_first(), id)
    }
}

pub proof fn lemma_tab_position<W>(tabs: Seq<Tab<W>>, id: TabId)
    ensures
        0 <= tab_position(tabs, id) <= tabs.len(),
        tab_position(tabs, id) < tabs.len() ==> tabs[tab_position(tabs, id)].id == id,
        forall|j: int| 0 <= j < tab_position(tabs, id) ==> (#[trigger] tabs[j]).id != id,
    decreases tabs.len(),
{
    if tabs.len() > 0 && tabs[0].id != id {
        lemma_tab_position(tabs.drop_first(), id);
        assert forall|j: int| 0 <= j < tab_position(tabs, id) implies (#[trigger] tabs[j]).id != id by {
            if j > 0 {
                assert(tabs[j] == tabs.drop_first()[j - 1]);
            }
        }
    }
}

pub proof fn lemma_workspace_position<W>(workspaces: Seq<Workspace<W>>, id: WorkspaceId)
    ensures
        0 <= workspace_position(workspaces, id) <= workspaces.len(),
        workspace_position(workspaces, id) < workspaces.len() ==> workspaces[workspace_position(
            workspaces,
            id,
        )].id == id,
        forall|j: int| 0 <= j < workspace_position(workspaces, id) ==> (#[trigger] workspaces[j]).id != id,
    decreases workspaces.len(),
{
    if workspaces.len() > 0 && workspaces[0].id != id {
        lemma_workspace_position(workspaces.drop_first(), id);
        assert forall|j: int| 0 <= j < workspace_position(workspaces, id) implies (#[trigger] workspaces[j]).id != id by {
            if j > 0 {
                assert(workspaces[j] == workspaces.drop_first()[j - 1]);
            }
        }
    }
}

/// Index of the first tab with the given identity.
pub(crate) fn find_tab<W>(tabs: &Vec<Tab<W>>, id: TabId) -> (r: Option<usize>)
    ensures
        0 <= tab_position(tabs@, id) <= tabs@.len(),
        match r {
            Some(i) => i == tab_position(tabs@, id) && i < tabs@.len() && tabs@[i as int].id == id,
            None => tab_position(tabs@, id) == tabs@.len(),
        },
{
    proof {
        lemma_tab_position(tabs@, id);
    }
    let mut i: usize = 0;
    while i < tabs.len()
        invariant
            i <= tabs@.len(),
            forall|j: int| 0 <= j < i ==> (#[trigger] tabs@[j]).id != id,
            0 <= tab_position(tabs@, id) <= tabs@.len(),
            tab_position(tabs@, id) < tabs@.len() ==> tabs@[tab_position(tabs@, id)].id == id,
            forall|j: int| 0 <= j < tab_position(tabs@, id) ==> (#[trigger] tabs@[j]).id != id,
        decreases tabs@.len() - i,
    {
        if tabs[i].id.0 == id.0 {
            return Some(i);
        }
        i = i + 1;
    }
    None
}

/// Index of the first workspace with the given identity.
pub(crate) fn find_workspace<W>(workspaces: &Vec<Workspace<W>>, id: WorkspaceId) -> (r: Option<usize>)
    ensures
        0 <= workspace_position(workspaces@, id) <= workspaces@.len(),
        match r {
            Some(i) => i == workspace_position(workspaces@, id) && i < workspaces@.len()
                && workspaces@[i as int].id == id,
            None => workspace_position(workspaces@, id) == workspaces@.len(),
        },
{
    proof {
        lemma_workspace_position(workspaces@, id);
    }
    let mut i: usize = 0;
    while i < workspaces.len()
        invariant
            i <= workspaces@.len(),
            forall|j: int| 0 <= j < i ==> (#[trigger] workspaces@[j]).id != id,
            0 <= workspace_position(workspaces@, id) <= workspaces@.len(),
            workspace_position(workspaces@, id) < workspaces@.len() ==> workspaces@[workspace_position(workspaces@, id)].id == id,
            forall|j: int| 0 <= j < workspace_position(workspaces@, id) ==> (#[trigger] workspaces@[j]).id != id,
        decreases workspaces@.len() - i,
    {
        if workspaces[i].id.0 == id.0 {
            return Some(i);
        }
        i = i + 1;
    }
    None
}

/// Largest tab number (0 for none).
pub open spec fn max_tab_number<W>(tabs: Seq<Tab<W>>) -> u64
    decreases tabs.len(),
{
    if tabs.len() == 0 {
        0
    } else {
        let rest = max_tab_number(tabs.drop_last());
        if tabs.last().id.0 > rest {
            tabs.last().id.0
        } else {
            rest
        }
    }
}

/// Total number of panes of the tabs.
pub open spec fn pane_total<W>(tabs: Seq<Tab<W>>) -> int
    decreases tabs.len(),
{
    if tabs.len() == 0 {
        0
    } else {
        pane_total(tabs.drop_last()) + tabs.last().panes@.len()
    }
}

impl<W> Workspace<W> {
    /// A workspace holding one tab (number 1) with one pane hosted by `pane_id`.
    pub fn new(id: WorkspaceId, label: String, identity_cwd: String, pane_id: WindowId) -> (ws: Self)
        ensures
            ws.id == id,
            ws.label == label,
            ws.identity_cwd == identity_cwd,
            ws.tabs@.len() == 1,
            ws.tabs@[0].wf(),
            ws.tabs@[0].id == TabId(1),
            ws.tabs@[0].focused_pane == PaneId(1),
            ws.tabs@[0].pane_map() == map![PaneId(1) => pane_id],
            ws.tabs@[0].root == Node::<W>::Leaf(PaneId(1)),
            ws.tabs@[0].next_pane() == 2,
            ws.tabs@[0].title@ == "shell"@,
            !ws.tabs@[0].custom_title,
            ws.active_tab == TabId(1),
            ws.next_tab_id == 2,
    {
        let tab_id = TabId(1);
        let mut tabs = Vec::new();
        tabs.push(Tab::new(tab_id, pane_id));
        Workspace { id, label, identity_cwd, tabs, active_tab: tab_id, next_tab_id: 2 }
    }

    /// Rebuild a workspace from saved tabs. New tabs are numbered after the largest one given;
    /// an active tab that is not among them gives way to the first tab (or tab 1 when there is
    /// none).
    pub fn restore(
        id: WorkspaceId,
        label: String,
        identity_cwd: String,
        tabs: Vec<Tab<W>>,
        active_tab: TabId,
    ) -> (ws: Self)
        requires
            max_tab_number(tabs@) < u64::MAX,
        ensures
            ws.id == id,
            ws.label == label,
            ws.identity_cwd == identity_cwd,
            ws.tabs == tabs,
            ws.next_tab_id == max_tab_number(tabs@) + 1,
            ws.active_tab == if tab_position(tabs@, active_tab) < tabs@.len() {
                active_tab
            } else if tabs@.len() > 0 {
                tabs@[0].id
            } else {
                TabId(1)
            },
    {
        let mut largest: u64 = 0;
        let mut i: usize = 0;
        while i < tabs.len()
            invariant
                i <= tabs@.len(),
                largest == max_tab_number(tabs@.subrange(0, i as int)),
            decreases tabs@.len() - i,
        {
            if tabs[i].id.0 > largest {
                largest = tabs[i].id.0;
            }
            proof {
                assert(tabs@.subrange(0, i + 1).drop_last() =~= tabs@.subrange(0, i as int));
            }
            i = i + 1;
        }
        proof {
            assert(tabs@.subrange(0, i as int) =~= tabs@);
        }
        let active_tab = if find_tab(&tabs, active_tab).is_some() {
            active_tab
        } else if tabs.len() > 0 {
            tabs[0].id
        } else {
            TabId(1)
        };
        Workspace { id, label, identity_cwd, tabs, active_tab, next_tab_id: largest + 1 }
    }

    /// Open a tab with one pane hosted by `pane_window_id`; it takes the next tab number and
    /// becomes active.
    pub fn add_tab(&mut self, pane_window_id: WindowId) -> (id: TabId)
        requires
            old(self).next_tab_id < u64::MAX,
        ensures
            id == TabId(old(self).next_tab_id),
            final(self).next_tab_id == old(self).next_tab_id + 1,
            final(self).tabs@.len() == old(self).tabs@.len() + 1,
            final(self).tabs@.subrange(0, old(self).tabs@.len() as int) == old(self).tabs@,
            final(self).tabs@.last().wf(),
            final(self).tabs@.last().id == id,
            final(self).tabs@.last().pane_map() == map![PaneId(1) => pane_window_id],
            final(self).tabs@.last().root == Node::<W>::Leaf(PaneId(1)),
            final(self).tabs@.last().focused_pane == PaneId(1),
            final(self).tabs@.last().next_pane() == 2,
            final(self).tabs@.last().title@ == "shell"@,
            !final(self).tabs@.last().custom_title,
            final(self).active_tab == id,
            final(self).id == old(self).id,
            final(self).label == old(self).label,
            final(self).identity_cwd == old(self).identity_cwd,
    {
        let id = TabId(self.next_tab_id);
        self.next_tab_id = self.next_tab_id + 1;
        self.tabs.push(Tab::new(id, pane_window_id));
        self.active_tab = id;
        proof {
            assert(self.tabs@.subrange(0, old(self).tabs@.len() as int) =~= old(self).tabs@);
        }
        id
    }

    /// Make `tab_id` the active tab. Returns whether the active tab changed: it does not when
    /// the tab is already active or does not exist.
    pub fn switch_tab(&mut self, tab_id: TabId) -> (r: bool)
        ensures
            r == (old(self).active_tab != tab_id && tab_position(old(self).tabs@, tab_id) < old(
                self,
            ).tabs@.len()),
            final(self).active_tab == if r {
                tab_id
            } else {
                old(self).active_tab
            },
            final(self).tabs == old(self).tabs,
            final(self).id == old(self).id,
            final(self).label == old(self).label,
            final(self).identity_cwd == old(self).identity_cwd,
            final(self).next_tab_id == old(self).next_tab_id,
    {
        if self.active_tab.0 == tab_id.0 || find_tab(&self.tabs, tab_id).is_none() {
            return false;
        }
        self.active_tab = tab_id;
        true
    }

    /// The active tab.
    pub fn active_tab(&self) -> (r: Option<&Tab<W>>)
        ensures
            r == if tab_position(self.tabs@, self.active_tab) < self.tabs@.len() {
                Some(&self.tabs@[tab_position(self.tabs@, self.active_tab)])
            } else {
                None::<&Tab<W>>
            },
    {
        match find_tab(&self.tabs, self.active_tab) {
            Some(i) => Some(&self.tabs[i]),
            None => None,
        }
    }

    /// Number of panes over all tabs.
    pub fn pane_count(&self) -> (r: usize)
        requires
            pane_total(self.tabs@) <= usize::MAX,
        ensures
            r == pane_total(self.tabs@),
    {
        let mut total: usize = 0;
        let mut i: usize = 0;
        while i < self.tabs.len()
            invariant
                i <= self.tabs@.len(),
                total == pane_total(self.tabs@.subrange(0, i as int)),
                pane_total(self.tabs@) <= usize::MAX,
            decreases self.tabs@.len() - i,
        {
            proof {
                assert(self.tabs@.subrange(0, i + 1).drop_last() =~= self.tabs@.subrange(0, i as int));
                lemma_pane_total_prefix(self.tabs@, i + 1);
            }
            total = total + self.tabs[i].panes.len();
            i = i + 1;
        }
        proof {
            assert(self.tabs@.subrange(0, i as int) =~= self.tabs@);
        }
        total
    }
}

/// Pane totals grow with the prefix.
pub proof fn lemma_pane_total_prefix<W>(tabs: Seq<Tab<W>>, k: int)
    requires
        0 <= k <= tabs.len(),
    ensures
        pane_total(tabs.subrange(0, k)) <= pane_total(tabs),
    decreases tabs.len(),
{
    if k < tabs.len() {
        assert(tabs.drop_last().subrange(0, k) =~= tabs.subrange(0, k));
        lemma_pane_total_prefix(tabs.drop_last(), k);
    } else {
        assert(tabs.subrange(0, k) =~= tabs);
    }
}


impl<W> Workspace<W> {
    /// The active tab, for changing it.
    pub fn active_tab_mut(&mut self) -> (r: Option<&mut Tab<W>>)
        ensures
            match r {
                Some(t) => {
                    let i = tab_position(old(self).tabs@, old(self).active_tab);
                    &&& i < old(self).tabs@.len()
                    &&& *t == old(self).tabs@[i]
                    &&& final(self).tabs@ == old(self).tabs@.update(i, *final(t))
                },
                None => {
                    &&& tab_position(old(self).tabs@, old(self).active_tab) == old(self).tabs@.len()
                    &&& final(self).tabs == old(self).tabs
                },
            },
            final(self).id == old(self).id,
            final(self).label == old(self).label,
            final(self).identity_cwd == old(self).identity_cwd,
            final(self).active_tab == old(self).active_tab,
            final(self).next_tab_id == old(self).next_tab_id,
    {
        match find_tab(&self.tabs, self.active_tab) {
            Some(i) => Some(&mut self.tabs[i]),
            None => None,
        }
    }
}


/// Whether every tab of every workspace keeps its invariant.
pub open spec fn all_tabs_wf<W>(workspaces: Seq<Workspace<W>>) -> bool {
    forall|w: int, t: int|
        0 <= w < workspaces.len() && 0 <= t < workspaces[w].tabs@.len() ==> (
        #[trigger] workspaces[w].tabs@[t]).wf()
}

/// Whether a tab keeps its invariant, or has no pane left with the tree it had (as closing
/// its last pane leaves it, until empty tabs are dropped).
pub open spec fn tab_settled<W>(tab: Tab<W>) -> bool {
    tab.wf() || (tab.panes@.len() == 0 && tab.root.wf())
}

/// Whether every tab of every workspace is settled (see [`tab_settled`]).
pub open spec fn all_tabs_settled<W>(workspaces: Seq<Workspace<W>>) -> bool {
    forall|w: int, t: int|
        0 <= w < workspaces.len() && 0 <= t < workspaces[w].tabs@.len() ==> tab_settled(
            #[trigger] workspaces[w].tabs@[t],
        )
}

/// A settled tab can close any pane.
pub proof fn lemma_settled_tab_is_closable<W>(tab: Tab<W>, pane: PaneId)
    requires
        tab_settled(tab),
    ensures
        tab.closable(pane),
{
    crate::layout::lemma_shaped_weaken(tab.root, 2, true, 0, true);
    if tab.panes@.len() == 0 {
        assert(sorted_panes(tab.panes@));
    }
}

/// Whether a tab still holds a pane.
pub open spec fn has_panes<W>(tab: Tab<W>) -> bool {
    tab.panes@.len() > 0
}

/// The tabs that still hold a pane, in order.
pub open spec fn tabs_with_panes<W>(tabs: Seq<Tab<W>>) -> Seq<Tab<W>> {
    tabs.filter(|t: Tab<W>| has_panes(t))
}

impl<W> Workspace<W> {
    /// Drop the tabs whose panes are all closed; when the active tab is dropped, the first
    /// remaining tab (or tab 1 when none remains) becomes active.
    pub fn remove_empty_tabs(&mut self)
        ensures
            final(self).tabs@ == tabs_with_panes(old(self).tabs@),
            final(self).active_tab == if tab_position(final(self).tabs@, old(self).active_tab)
                < final(self).tabs@.len() {
                old(self).active_tab
            } else if final(self).tabs@.len() > 0 {
                final(self).tabs@[0].id
            } else {
                TabId(1)
            },
            final(self).id == old(self).id,
            final(self).label == old(self).label,
            final(self).identity_cwd == old(self).identity_cwd,
            final(self).next_tab_id == old(self).next_tab_id,
            (forall|t: int| 0 <= t < old(self).tabs@.len() ==> tab_settled(#[trigger] old(self).tabs@[t]))
                ==> forall|t: int| 0 <= t < final(self).tabs@.len() ==> (#[trigger] final(self).tabs@[t]).wf(),
    {
        let mut pending: Vec<Tab<W>> = Vec::new();
        std::mem::swap(&mut pending, &mut self.tabs);
        let ghost source = pending@;
        let total = pending.len();
        let mut consumed: usize = 0;
        proof {
            assert(source.len() == total);
            assert(source.subrange(0, 0) =~= Seq::<Tab<W>>::empty());
            reveal_with_fuel(Seq::filter, 1);
            assert(source.subrange(consumed as int, source.len() as int) =~= source);
        }
        while pending.len() > 0
            invariant
                consumed + pending@.len() == source.len(),
                source.len() == old(self).tabs@.len(),
                pending@ == source.subrange(consumed as int, source.len() as int),
                self.tabs@ == tabs_with_panes(source.subrange(0, consumed as int)),
                self.id == old(self).id,
                self.label == old(self).label,
                self.identity_cwd == old(self).identity_cwd,
                self.next_tab_id == old(self).next_tab_id,
                self.active_tab == old(self).active_tab,
                source == old(self).tabs@,
                source.len() <= usize::MAX,
            decreases pending@.len(),
        {
            let tab = pending.remove(0);
            let ghost prefix = source.subrange(0, consumed + 1);
            proof {
                assert(tab == source[consumed as int]);
                assert(prefix.drop_last() =~= source.subrange(0, consumed as int));
                assert(prefix.last() == tab);
            }
            if tab.panes.len() > 0 {
                self.tabs.push(tab);
            }
            proof {
                reveal_with_fuel(Seq::filter, 1);
                assert(self.tabs@ == tabs_with_panes(prefix));
            }
            consumed = consumed + 1;
            proof {
                assert(pending@ =~= source.subrange(consumed as int, source.len() as int));
            }
        }
        proof {
            assert(source.subrange(0, consumed as int) =~= source);
        }
        proof {
            let kept = self.tabs@;
            if forall|t: int| 0 <= t < source.len() ==> tab_settled(#[trigger] source[t]) {
                assert forall|t: int| 0 <= t < kept.len() implies (#[trigger] kept[t]).wf() by {
                    source.lemma_filter_pred(|x: Tab<W>| has_panes(x), t);
                    assert(kept.contains(kept[t]));
                    source.lemma_filter_contains_rev(|x: Tab<W>| has_panes(x), kept[t]);
                    let j = choose|j: int| 0 <= j < source.len() && source[j] == kept[t];
                    assert(tab_settled(source[j]));
                }
            }
        }
        if find_tab(&self.tabs, self.active_tab).is_none() {
            self.active_tab = if self.tabs.len() > 0 {
                self.tabs[0].id
            } else {
                TabId(1)
            };
        }
    }
}

/// The workspace and tab that own `key`, when both exist: the first workspace with the key's
/// workspace identity and its first tab with the key's tab identity.
pub open spec fn owner_position<W>(workspaces: Seq<Workspace<W>>, key: PaneKey) -> Option<(int, int)> {
    let wi = workspace_position(workspaces, key.workspace_id);
    if wi < workspaces.len() {
        let ti = tab_position(workspaces[wi].tabs@, key.tab_id);
        if ti < workspaces[wi].tabs@.len() {
            Some((wi, ti))
        } else {
            None
        }
    } else {
        None
    }
}

/// `after` is `before` with tab `ti` of workspace `wi` replaced and nothing else changed.
pub open spec fn only_tab_changed<W>(
    before: Seq<Workspace<W>>,
    after: Seq<Workspace<W>>,
    wi: int,
    ti: int,
) -> bool {
    &&& after.len() == before.len()
    &&& forall|i: int| 0 <= i < before.len() && i != wi ==> after[i] == before[i]
    &&& after[wi].id == before[wi].id
    &&& after[wi].label == before[wi].label
    &&& after[wi].identity_cwd == before[wi].identity_cwd
    &&& after[wi].active_tab == before[wi].active_tab
    &&& after[wi].next_tab_id == before[wi].next_tab_id
    &&& after[wi].tabs@ == before[wi].tabs@.update(ti, after[wi].tabs@[ti])
}

/// Close the pane named by `key` in the tab that owns it. Pane numbers repeat across tabs and
/// workspaces, so only the owning tab is touched. Returns whether the pane existed there.
pub fn remove_owned_pane<W, G: Fn(&Vec<W>) -> Vec<W>>(
    workspaces: &mut Vec<Workspace<W>>,
    key: PaneKey,
    normalize: &G,
) -> (r: bool)
    requires
        owner_position(old(workspaces)@, key) matches Some((wi, ti)) ==> old(workspaces)@[wi].tabs@[ti].closable(key.pane_id),
        forall|v: &Vec<W>| normalize.requires((v,)),
        forall|v: &Vec<W>, n: Vec<W>| normalize.ensures((v,), n) ==> n.len() == v.len(),
    ensures
        match owner_position(old(workspaces)@, key) {
            Some((wi, ti)) => {
                &&& only_tab_changed(old(workspaces)@, final(workspaces)@, wi, ti)
                &&& old(workspaces)@[wi].tabs@[ti].pane_closed(final(workspaces)@[wi].tabs@[ti], key.pane_id, r)
            },
            None => !r && *final(workspaces) == *old(workspaces),
        },
        all_tabs_settled(old(workspaces)@) ==> all_tabs_settled(final(workspaces)@),
{
    let wi = match find_workspace(workspaces, key.workspace_id) {
        Some(wi) => wi,
        None => return false,
    };
    let ti = match find_tab(&workspaces[wi].tabs, key.tab_id) {
        Some(ti) => ti,
        None => return false,
    };
    let ghost before = workspaces@;
    let removed = workspaces[wi].tabs[ti].remove_pane(key.pane_id, normalize);
    proof {
        assert(workspaces@[wi as int].tabs@ =~= before[wi as int].tabs@.update(ti as int, workspaces@[wi as int].tabs@[ti as int]));
        if all_tabs_settled(before) {
            let old_tab = before[wi as int].tabs@[ti as int];
            let new_tab = workspaces@[wi as int].tabs@[ti as int];
            assert(tab_settled(old_tab));
            if removed {
                assert(old_tab.pane_map().dom().contains(key.pane_id));
                assert(old_tab.panes@.len() > 0) by {
                    if old_tab.panes@.len() == 0 {
                        assert(old_tab.panes@ =~= Seq::<(PaneId, WindowId)>::empty());
                        assert(table_map(old_tab.panes@) =~= Map::<PaneId, WindowId>::empty());
                    }
                }
                assert(old_tab.wf());
            }
            assert(tab_settled(new_tab));
            assert forall|w: int, t: int|
                0 <= w < workspaces@.len() && 0 <= t < workspaces@[w].tabs@.len() implies tab_settled(
                #[trigger] workspaces@[w].tabs@[t],
            ) by {
                if w == wi && t == ti {
                } else if w == wi {
                    assert(workspaces@[w].tabs@[t] == before[w].tabs@[t]);
                } else {
                    assert(workspaces@[w] == before[w]);
                }
            }
        }
    }
    removed
}

/// The workspace and tab through which a click on pane `key` may focus it: the first
/// workspace with the key's workspace identity whose active tab is the key's tab, and that
/// workspace's first tab with that identity.
pub open spec fn focus_position<W>(workspaces: Seq<Workspace<W>>, key: PaneKey) -> Option<(int, int)> {
    let wi = active_owner_position(workspaces, key);
    if wi < workspaces.len() {
        let ti = tab_position(workspaces[wi].tabs@, key.tab_id);
        if ti < workspaces[wi].tabs@.len() {
            Some((wi, ti))
        } else {
            None
        }
    } else {
        None
    }
}

/// Position of the first workspace that is `key`'s workspace with `key`'s tab active.
pub open spec fn active_owner_position<W>(workspaces: Seq<Workspace<W>>, key: PaneKey) -> int
    decreases workspaces.len(),
{
    if workspaces.len() == 0 {
        0
    } else if workspaces[0].id == key.workspace_id && workspaces[0].active_tab == key.tab_id {
        0
    } else {
        1 + active_owner_position(workspaces.drop_first(), key)
    }
}

fn find_active_owner<W>(workspaces: &Vec<Workspace<W>>, key: PaneKey) -> (r: Option<usize>)
    ensures
        0 <= active_owner_position(workspaces@, key) <= workspaces@.len(),
        match r {
            Some(i) => i == active_owner_position(workspaces@, key) && i < workspaces@.len(),
            None => active_owner_position(workspaces@, key) == workspaces@.len(),
        },
{
    proof {
        lemma_active_owner_position(workspaces@, key);
    }
    let mut i: usize = 0;
    while i < workspaces.len()
        invariant
            i <= workspaces@.len(),
            forall|j: int| 0 <= j < i ==> !((#[trigger] workspaces@[j]).id == key.workspace_id && workspaces@[j].active_tab == key.tab_id),
            0 <= active_owner_position(workspaces@, key) <= workspaces@.len(),
            active_owner_position(workspaces@, key) < workspaces@.len() ==> {
                let w = workspaces@[active_owner_position(workspaces@, key)];
                w.id == key.workspace_id && w.active_tab == key.tab_id
            },
            forall|j: int| 0 <= j < active_owner_position(workspaces@, key) ==> !((#[trigger] workspaces@[j]).id == key.workspace_id && workspaces@[j].active_tab == key.tab_id),
        decreases workspaces@.len() - i,
    {
        if workspaces[i].id.0 == key.workspace_id.0 && workspaces[i].active_tab.0 == key.tab_id.0 {
            return Some(i);
        }
        i = i + 1;
    }
    None
}

pub proof fn lemma_active_owner_position<W>(workspaces: Seq<Workspace<W>>, key: PaneKey)
    ensures
        0 <= active_owner_position(workspaces, key) <= workspaces.len(),
        active_owner_position(workspaces, key) < workspaces.len() ==> {
            let w = workspaces[active_owner_position(workspaces, key)];
            w.id == key.workspace_id && w.active_tab == key.tab_id
        },
        forall|j: int| 0 <= j < active_owner_position(workspaces, key) ==> !((#[trigger] workspaces[j]).id == key.workspace_id && workspaces[j].active_tab == key.tab_id),
    decreases workspaces.len(),
{
    if workspaces.len() > 0 && !(workspaces[0].id == key.workspace_id && workspaces[0].active_tab == key.tab_id) {
        lemma_active_owner_position(workspaces.drop_first(), key);
        assert forall|j: int| 0 <= j < active_owner_position(workspaces, key) implies !((#[trigger] workspaces[j]).id == key.workspace_id && workspaces[j].active_tab == key.tab_id) by {
            if j > 0 {
                assert(workspaces[j] == workspaces.drop_first()[j - 1]);
            }
        }
    }
}

/// Whether a click in `window_id` may focus pane `key`.
pub open spec fn focus_allowed<W>(
    workspaces: Seq<Workspace<W>>,
    active_workspace: Option<WorkspaceId>,
    key: PaneKey,
    window_id: WindowId,
) -> bool {
    &&& active_workspace == Some(key.workspace_id)
    &&& match focus_position(workspaces, key) {
        Some((wi, ti)) => table_get(workspaces[wi].tabs@[ti].panes@, key.pane_id) == Some(window_id),
        None => false,
    }
}

/// Focus the pane named by `key` after a click in its window: only when its workspace is the
/// active one, its tab is that workspace's active tab, and `window_id` is the window hosting
/// it. Returns whether the focus was set.
pub fn focus_owned_pane<W>(
    workspaces: &mut Vec<Workspace<W>>,
    active_workspace: Option<WorkspaceId>,
    key: PaneKey,
    window_id: WindowId,
) -> (r: bool)
    ensures
        r == focus_allowed(old(workspaces)@, active_workspace, key, window_id),
        !r ==> *final(workspaces) == *old(workspaces),
        r ==> match focus_position(old(workspaces)@, key) {
            Some((wi, ti)) => {
                &&& only_tab_changed(old(workspaces)@, final(workspaces)@, wi, ti)
                &&& final(workspaces)@[wi].tabs@[ti] == (Tab {
                    focused_pane: key.pane_id,
                    ..old(workspaces)@[wi].tabs@[ti]
                })
            },
            None => false,
        },
{
    match active_workspace {
        Some(active) => {
            if active.0 != key.workspace_id.0 {
                return false;
            }
        },
        None => return false,
    }
    let wi = match find_active_owner(workspaces, key) {
        Some(wi) => wi,
        None => return false,
    };
    let ti = match find_tab(&workspaces[wi].tabs, key.tab_id) {
        Some(ti) => ti,
        None => return false,
    };
    let hosted = workspaces[wi].tabs[ti].window_id(key.pane_id);
    match hosted {
        Some(w) => {
            if w.0 != window_id.0 {
                return false;
            }
        },
        None => return false,
    }
    let ghost before = workspaces@;
    workspaces[wi].tabs[ti].focused_pane = key.pane_id;
    proof {
        assert(workspaces@[wi as int].tabs@ =~= before[wi as int].tabs@.update(ti as int, workspaces@[wi as int].tabs@[ti as int]));
    }
    true
}


// ---------------------------------------------------------------------------------------------
// Workspace labels
// ---------------------------------------------------------------------------------------------

/// The final component of a path, as `std::path::Path::file_name` finds it under the path
/// rules of the platform the library is built for.
pub uninterp spec fn path_file_name(path: Seq<char>) -> Option<Seq<char>>;

/// Final component of `path` (`std::path::Path::file_name`, kept only when it is valid
/// UTF-8): `None` when the path ends in `..` or is a root or prefix alone. Verus takes the
/// result to be `path_file_name` of the path's characters; what that component is, which
/// depends on the platform's separators and prefixes, is not stated here.
#[verifier::external_body]
fn file_name_of(path: &str) -> (r: Option<String>)
    ensures
        match r {
            Some(name) => path_file_name(path@) == Some(name@),
            None => path_file_name(path@) is None,
        },
{
    std::path::Path::new(path).file_name().and_then(|name| name.to_str()).map(|name| name.to_owned())
}

/// The label for a directory whose final path component is `name`: that component, or
/// `"workspace"` when there is none or it is empty.
pub open spec fn label_for(name: Option<Seq<char>>) -> Seq<char> {
    match name {
        Some(n) => if n.len() > 0 {
            n
        } else {
            "workspace"@
        },
        None => "workspace"@,
    }
}

/// The label for a directory whose final path component is `name` (see [`label_for`]).
pub fn label_from_file_name(name: Option<String>) -> (r: String)
    ensures
        r@ == label_for(match name {
            Some(n) => Some(n@),
            None => None,
        }),
{
    match name {
        Some(name) => {
            if name.as_str().is_empty() {
                "workspace".to_owned()
            } else {
                name
            }
        },
        None => "workspace".to_owned(),
    }
}

/// The label that a workspace opened in `cwd` receives: the directory's name, or
/// `"workspace"` when the path has no non-empty final component.
pub fn workspace_label(cwd: &str) -> (r: String)
    ensures
        r@ == label_for(path_file_name(cwd@)),
{
    label_from_file_name(file_name_of(cwd))
}

} // verus!
