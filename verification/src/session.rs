//! Snapshots of the shell's workspaces, saved between runs.

use vstd::prelude::*;

use crate::chrome::SidebarMode;
use crate::layout::{same_tree, Node};
use crate::model::{
    lemma_table_keys, max_pane_number, max_tab_number, pane_window, table_map, PaneId,
    Tab, TabId, WindowId, Workspace, WorkspaceId,
};
use crate::selectors::{restored_label, restored_workspace_label};

verus! {

/// A saved tab: its split tree and the working directory of each pane.
#[derive(Debug)]
pub struct TabSnapshot<W> {
    pub id: TabId,
    pub root: Node<W>,
    pub title: String,
    /// Whether the title was set by hand.
    pub custom_title: bool,
    pub focused_pane: PaneId,
    pub pane_cwds: Vec<(PaneId, String)>,
}

/// A saved workspace.
#[derive(Debug)]
pub struct WorkspaceSnapshot<W> {
    pub id: WorkspaceId,
    pub label: String,
    pub identity_cwd: String,
    pub active_tab: TabId,
    pub tabs: Vec<TabSnapshot<W>>,
}

/// A saved session.
#[derive(Debug)]
pub struct Session<W> {
    pub sidebar_mode: SidebarMode,
    pub active_workspace: Option<WorkspaceId>,
    pub workspaces: Vec<WorkspaceSnapshot<W>>,
}

/// The working directory that `cwds` reports for `window` (its first entry), or `fallback`
/// when it reports none.
pub open spec fn directory_of(cwds: Seq<(WindowId, String)>, window: WindowId, fallback: Seq<char>) -> Seq<
    char,
>
    decreases cwds.len(),
{
    if cwds.len() == 0 {
        fallback
    } else if cwds[0].0 == window {
        cwds[0].1@
    } else {
        directory_of(cwds.drop_first(), window, fallback)
    }
}

/// `snap` records `tab`, each pane with the directory that `cwds` reports for its window (the
/// workspace's directory `fallback` when none is reported).
pub open spec fn tab_recorded<W>(
    tab: Tab<W>,
    fallback: Seq<char>,
    cwds: Seq<(WindowId, String)>,
    snap: TabSnapshot<W>,
) -> bool {
    &&& snap.id == tab.id
    &&& same_tree(tab.root, snap.root)
    &&& snap.title@ == tab.title@
    &&& snap.custom_title == tab.custom_title
    &&& snap.focused_pane == tab.focused_pane
    &&& snap.pane_cwds@.len() == tab.panes@.len()
    &&& forall|k: int|
        0 <= k < tab.panes@.len() ==> {
            &&& (#[trigger] snap.pane_cwds@[k]).0 == tab.panes@[k].0
            &&& snap.pane_cwds@[k].1@ == directory_of(cwds, tab.panes@[k].1, fallback)
        }
}

/// `snap` records `ws` and its tabs.
pub open spec fn workspace_recorded<W>(
    ws: Workspace<W>,
    cwds: Seq<(WindowId, String)>,
    snap: WorkspaceSnapshot<W>,
) -> bool {
    &&& snap.id == ws.id
    &&& snap.label@ == ws.label@
    &&& snap.identity_cwd@ == ws.identity_cwd@
    &&& snap.active_tab == ws.active_tab
    &&& snap.tabs@.len() == ws.tabs@.len()
    &&& forall|j: int|
        0 <= j < ws.tabs@.len() ==> tab_recorded(
            ws.tabs@[j],
            ws.identity_cwd@,
            cwds,
            #[trigger] snap.tabs@[j],
        )
}

fn directory_for(cwds: &Vec<(WindowId, String)>, window: WindowId, fallback: &String) -> (r: String)
    ensures
        r@ == directory_of(cwds@, window, fallback@),
{
    let mut i: usize = 0;
    proof {
        assert(cwds@.subrange(0, cwds@.len() as int) =~= cwds@);
    }
    while i < cwds.len()
        invariant
            i <= cwds@.len(),
            directory_of(cwds@, window, fallback@) == directory_of(
                cwds@.subrange(i as int, cwds@.len() as int),
                window,
                fallback@,
            ),
        decreases cwds@.len() - i,
    {
        proof {
            assert(cwds@.subrange(i as int, cwds@.len() as int).drop_first() =~= cwds@.subrange(
                i + 1,
                cwds@.len() as int,
            ));
        }
        if cwds[i].0.0 == window.0 {
            return cwds[i].1.clone();
        }
        i = i + 1;
    }
    fallback.clone()
}

fn capture_tab<W: Copy>(tab: &Tab<W>, fallback: &String, cwds: &Vec<(WindowId, String)>) -> (r:
    TabSnapshot<W>)
    ensures
        tab_recorded(*tab, fallback@, cwds@, r),
{
    let mut pane_cwds: Vec<(PaneId, String)> = Vec::new();
    let mut k: usize = 0;
    while k < tab.panes.len()
        invariant
            k <= tab.panes@.len(),
            pane_cwds@.len() == k,
            forall|m: int|
                0 <= m < k ==> {
                    &&& (#[trigger] pane_cwds@[m]).0 == tab.panes@[m].0
                    &&& pane_cwds@[m].1@ == directory_of(cwds@, tab.panes@[m].1, fallback@)
                },
        decreases tab.panes@.len() - k,
    {
        let (pane, window) = tab.panes[k];
        let dir = directory_for(cwds, window, fallback);
        pane_cwds.push((pane, dir));
        k = k + 1;
    }
    TabSnapshot {
        id: tab.id,
        root: tab.root.duplicate(),
        title: tab.title.clone(),
        custom_title: tab.custom_title,
        focused_pane: tab.focused_pane,
        pane_cwds,
    }
}

fn capture_workspace<W: Copy>(ws: &Workspace<W>, cwds: &Vec<(WindowId, String)>) -> (r:
    WorkspaceSnapshot<W>)
    ensures
        workspace_recorded(*ws, cwds@, r),
{
    let mut tabs: Vec<TabSnapshot<W>> = Vec::new();
    let mut j: usize = 0;
    while j < ws.tabs.len()
        invariant
            j <= ws.tabs@.len(),
            tabs@.len() == j,
            forall|m: int|
                0 <= m < j ==> tab_recorded(ws.tabs@[m], ws.identity_cwd@, cwds@, #[trigger] tabs@[m]),
        decreases ws.tabs@.len() - j,
    {
        let snap = capture_tab(&ws.tabs[j], &ws.identity_cwd, cwds);
        tabs.push(snap);
        j = j + 1;
    }
    WorkspaceSnapshot {
        id: ws.id,
        label: ws.label.clone(),
        identity_cwd: ws.identity_cwd.clone(),
        active_tab: ws.active_tab,
        tabs,
    }
}

impl<W: Copy> Session<W> {
    /// Snapshot the workspaces. `cwds` holds the current working directory of pane windows;
    /// a pane whose window it does not list is recorded with its workspace's directory.
    pub fn capture(
        sidebar_mode: SidebarMode,
        active_workspace: Option<WorkspaceId>,
        workspaces: &Vec<Workspace<W>>,
        cwds: &Vec<(WindowId, String)>,
    ) -> (r: Session<W>)
        ensures
            r.sidebar_mode == sidebar_mode,
            r.active_workspace == active_workspace,
            r.workspaces@.len() == workspaces@.len(),
            forall|i: int|
                0 <= i < workspaces@.len() ==> workspace_recorded(
                    workspaces@[i],
                    cwds@,
                    #[trigger] r.workspaces@[i],
                ),
    {
        let mut snaps: Vec<WorkspaceSnapshot<W>> = Vec::new();
        let mut i: usize = 0;
        while i < workspaces.len()
            invariant
                i <= workspaces@.len(),
                snaps@.len() == i,
                forall|m: int|
                    0 <= m < i ==> workspace_recorded(workspaces@[m], cwds@, #[trigger] snaps@[m]),
            decreases workspaces@.len() - i,
        {
            let snap = capture_workspace(&workspaces[i], cwds);
            snaps.push(snap);
            i = i + 1;
        }
        Session { sidebar_mode, active_workspace, workspaces: snaps }
    }
}

/// A saved tab comes back as it was: when `snap` records `tab` and each recorded pane is
/// given a window again (`panes`, in the recorded order), the pane table to restore holds
/// exactly the tab's panes, its focused pane among them, and the saved tree is the tab's tree.
/// (`Tab::restore` keeps the panes of the table it is given, the tree, and a focus found in
/// the table.)
pub proof fn lemma_restored_tab_matches_capture<W>(
    tab: Tab<W>,
    fallback: Seq<char>,
    cwds: Seq<(WindowId, String)>,
    snap: TabSnapshot<W>,
    panes: Seq<(PaneId, WindowId)>,
)
    requires
        tab.wf(),
        tab_recorded(tab, fallback, cwds, snap),
        panes.len() == snap.pane_cwds@.len(),
        forall|k: int| 0 <= k < panes.len() ==> (#[trigger] panes[k]).0 == snap.pane_cwds@[k].0,
    ensures
        table_map(panes).dom() == tab.pane_map().dom(),
        table_map(panes).dom().contains(snap.focused_pane),
        snap.focused_pane == tab.focused_pane,
        same_tree(tab.root, snap.root),
{
    lemma_table_keys(panes);
    lemma_table_keys(tab.panes@);
    assert forall|p: PaneId| table_map(panes).dom().contains(p) <==> tab.pane_map().dom().contains(p) by {
        if table_map(panes).dom().contains(p) {
            let i = choose|i: int| 0 <= i < panes.len() && (#[trigger] panes[i]).0 == p;
            assert(snap.pane_cwds@[i].0 == tab.panes@[i].0);
        }
        if tab.pane_map().dom().contains(p) {
            let i = choose|i: int| 0 <= i < tab.panes@.len() && (#[trigger] tab.panes@[i]).0 == p;
            assert(snap.pane_cwds@[i].0 == tab.panes@[i].0);
            assert(panes[i].0 == p);
        }
    }
    assert(table_map(panes).dom() =~= tab.pane_map().dom());
}


/// Whether a saved tab can come back with the windows `panes` given to its panes: it has a pane,
/// its pane numbers leave room for a new one, and its focus is one of them or its tree has a
/// pane to fall back on.
pub open spec fn tab_restorable<W>(root: Node<W>, focused_pane: PaneId, panes: Seq<(PaneId, WindowId)>) -> bool {
    &&& panes.len() > 0
    &&& max_pane_number(panes) < u64::MAX
    &&& (table_map(panes).dom().contains(focused_pane) || root.nonempty())
}

fn largest_pane(panes: &Vec<(PaneId, WindowId)>) -> (r: u64)
    ensures
        r == max_pane_number(panes@),
{
    let mut largest: u64 = 0;
    let mut i: usize = 0;
    proof {
        assert(panes@.subrange(0, 0) =~= Seq::<(PaneId, WindowId)>::empty());
    }
    while i < panes.len()
        invariant
            i <= panes@.len(),
            largest == max_pane_number(panes@.subrange(0, i as int)),
        decreases panes@.len() - i,
    {
        proof {
            assert(panes@.subrange(0, i + 1).drop_last() =~= panes@.subrange(0, i as int));
        }
        if panes[i].0.0 > largest {
            largest = panes[i].0.0;
        }
        i = i + 1;
    }
    proof {
        assert(panes@.subrange(0, i as int) =~= panes@);
    }
    largest
}

/// Bring a saved tab back with the windows `panes` given to its panes (see [`Tab::restore`]),
/// when it can come back (see [`tab_restorable`]).
pub fn restore_tab<W>(
    id: TabId,
    root: Node<W>,
    title: String,
    custom_title: bool,
    focused_pane: PaneId,
    panes: Vec<(PaneId, WindowId)>,
) -> (r: Option<Tab<W>>)
    ensures
        r is Some <==> tab_restorable(root, focused_pane, panes@),
        r matches Some(tab) ==> {
            &&& tab.id == id
            &&& tab.root == root
            &&& tab.title == title
            &&& tab.custom_title == custom_title
            &&& tab.pane_map() == table_map(panes@)
            &&& tab.next_pane() == max_pane_number(panes@) + 1
            &&& tab.focused_pane == if table_map(panes@).dom().contains(focused_pane) {
                focused_pane
            } else {
                root.leaves()[0]
            }
        },
{
    if panes.len() == 0 {
        return None;
    }
    if largest_pane(&panes) == u64::MAX {
        return None;
    }
    let known = pane_window(&panes, focused_pane).is_some();
    if !known && !root.is_nonempty() {
        return None;
    }
    Some(Tab::restore(id, root, title, custom_title, focused_pane, panes))
}

fn largest_tab<W>(tabs: &Vec<Tab<W>>) -> (r: u64)
    ensures
        r == max_tab_number(tabs@),
{
    let mut largest: u64 = 0;
    let mut i: usize = 0;
    proof {
        assert(tabs@.subrange(0, 0) =~= Seq::<Tab<W>>::empty());
    }
    while i < tabs.len()
        invariant
            i <= tabs@.len(),
            largest == max_tab_number(tabs@.subrange(0, i as int)),
        decreases tabs@.len() - i,
    {
        proof {
            assert(tabs@.subrange(0, i + 1).drop_last() =~= tabs@.subrange(0, i as int));
        }
        if tabs[i].id.0 > largest {
            largest = tabs[i].id.0;
        }
        i = i + 1;
    }
    proof {
        assert(tabs@.subrange(0, i as int) =~= tabs@);
    }
    largest
}

/// Bring a saved workspace back with the tabs that came back: none when no tab did (or when
/// the tab or workspace numbers leave no room); otherwise under the saved label made unique
/// among `workspaces` (see [`restored_label`]), with the saved active tab where it came back.
pub fn restore_workspace<W>(
    workspaces: &Vec<Workspace<W>>,
    id: WorkspaceId,
    saved_label: &str,
    identity_cwd: String,
    active_tab: TabId,
    tabs: Vec<Tab<W>>,
) -> (r: Option<Workspace<W>>)
    ensures
        r is Some <==> (tabs@.len() > 0 && max_tab_number(tabs@) < u64::MAX && workspaces@.len() + 3
            <= u64::MAX),
        r matches Some(ws) ==> {
            &&& ws.id == id
            &&& ws.label@ == restored_label(workspaces@, saved_label@)
            &&& ws.identity_cwd == identity_cwd
            &&& ws.tabs == tabs
            &&& ws.next_tab_id == max_tab_number(tabs@) + 1
            &&& ws.active_tab == if crate::model::tab_position(tabs@, active_tab) < tabs@.len() {
                active_tab
            } else {
                tabs@[0].id
            }
        },
{
    if tabs.len() == 0 || largest_tab(&tabs) == u64::MAX || workspaces.len() as u64 > u64::MAX - 3 {
        return None;
    }
    let label = restored_workspace_label(workspaces, saved_label);
    Some(Workspace::restore(id, label, identity_cwd, tabs, active_tab))
}

} // verus!
