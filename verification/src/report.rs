//! What the layout request reports of a tab: for each pane its split path, rectangle and
//! neighbours in the four directions.

use vstd::prelude::*;

use crate::layout::{path_to, path_view, PaneRects};
use crate::model::{
    find_tab, find_workspace, tab_position, workspace_position, PaneId, PaneKey, Tab, WindowId,
    Workspace, WorkspaceId,
};
use crate::navigation::{directional_neighbor, PaneDirection};
use crate::rect::PhysicalRect;
use crate::route::neighbor_is;

verus! {

/// The nearest pane in each direction.
#[derive(Clone, Copy, Debug, PartialEq, Eq, Structural)]
pub struct Neighbors {
    pub left: Option<PaneId>,
    pub right: Option<PaneId>,
    pub up: Option<PaneId>,
    pub down: Option<PaneId>,
}

/// Whether `n` holds the navigation steps from `pane` in the four directions.
pub open spec fn neighbors_of(
    panes: Seq<(PaneId, WindowId)>,
    rects: PaneRects,
    pane: PaneId,
    n: Neighbors,
) -> bool {
    &&& neighbor_is(panes, rects, pane, PaneDirection::Left, n.left)
    &&& neighbor_is(panes, rects, pane, PaneDirection::Right, n.right)
    &&& neighbor_is(panes, rects, pane, PaneDirection::Up, n.up)
    &&& neighbor_is(panes, rects, pane, PaneDirection::Down, n.down)
}

/// The neighbours of `pane` in the four directions (see [`directional_neighbor`]).
pub fn pane_neighbors<W>(tab: &Tab<W>, rects: &PaneRects, pane: PaneId) -> (r: Neighbors)
    ensures
        neighbors_of(tab.panes@, *rects, pane, r),
{
    Neighbors {
        left: directional_neighbor(tab, rects, pane, PaneDirection::Left),
        right: directional_neighbor(tab, rects, pane, PaneDirection::Right),
        up: directional_neighbor(tab, rects, pane, PaneDirection::Up),
        down: directional_neighbor(tab, rects, pane, PaneDirection::Down),
    }
}

/// What the layout request reports of one pane.
#[derive(Clone, Debug)]
pub struct PaneReport {
    pub pane_id: PaneId,
    pub window: WindowId,
    /// One-based child positions from the tab's root to the pane.
    pub split_path: Option<Vec<usize>>,
    /// The pane's rectangle, when it is laid out.
    pub rect: Option<PhysicalRect>,
    pub neighbors: Neighbors,
    /// Whether the pane is the focused pane of a tab on screen.
    pub selected_in_host: bool,
}

/// Whether `report` describes entry `k` of `tab`'s pane table.
pub open spec fn reports_pane<W>(
    tab: Tab<W>,
    rects: PaneRects,
    shown: bool,
    k: int,
    report: PaneReport,
) -> bool {
    let (pane, window) = tab.panes@[k];
    &&& report.pane_id == pane
    &&& report.window == window
    &&& path_view(report.split_path) == path_to(tab.root, pane)
    &&& report.rect == rects.lookup(pane)
    &&& neighbors_of(tab.panes@, rects, pane, report.neighbors)
    &&& report.selected_in_host == (shown && tab.focused_pane == pane)
}

/// The report of every pane of `tab`, in pane order. `shown` tells whether the tab is on
/// screen: the active tab of the active workspace, which is not closing.
pub fn tab_report<W>(tab: &Tab<W>, rects: &PaneRects, shown: bool) -> (r: Vec<PaneReport>)
    ensures
        r@.len() == tab.panes@.len(),
        forall|k: int| 0 <= k < r@.len() ==> reports_pane(*tab, *rects, shown, k, #[trigger] r@[k]),
{
    let mut reports: Vec<PaneReport> = Vec::new();
    let mut k: usize = 0;
    while k < tab.panes.len()
        invariant
            k <= tab.panes@.len(),
            reports@.len() == k,
            forall|j: int| 0 <= j < k ==> reports_pane(*tab, *rects, shown, j, #[trigger] reports@[j]),
        decreases tab.panes@.len() - k,
    {
        let (pane, window) = tab.panes[k];
        let report = PaneReport {
            pane_id: pane,
            window,
            split_path: tab.root.pane_path(pane),
            rect: rects.get(pane),
            neighbors: pane_neighbors(tab, rects, pane),
            selected_in_host: shown && tab.focused_pane.0 == pane.0,
        };
        reports.push(report);
        k = k + 1;
    }
    reports
}

/// Where the windows of laid-out panes go: for each entry of the pane table, in order, its
/// window and rectangle, skipping panes without one.
pub open spec fn placements_of(panes: Seq<(PaneId, WindowId)>, rects: PaneRects) -> Seq<(WindowId, PhysicalRect)>
    decreases panes.len(),
{
    if panes.len() == 0 {
        Seq::empty()
    } else {
        let rest = placements_of(panes.drop_last(), rects);
        match rects.lookup(panes.last().0) {
            Some(rect) => rest.push((panes.last().1, rect)),
            None => rest,
        }
    }
}

/// Where the windows of `tab`'s panes go (see [`placements_of`]).
pub fn pane_placements<W>(tab: &Tab<W>, rects: &PaneRects) -> (r: Vec<(WindowId, PhysicalRect)>)
    ensures
        r@ == placements_of(tab.panes@, *rects),
{
    let mut out: Vec<(WindowId, PhysicalRect)> = Vec::new();
    let mut k: usize = 0;
    while k < tab.panes.len()
        invariant
            k <= tab.panes@.len(),
            out@ == placements_of(tab.panes@.subrange(0, k as int), *rects),
        decreases tab.panes@.len() - k,
    {
        let (pane, window) = tab.panes[k];
        if let Some(rect) = rects.get(pane) {
            out.push((window, rect));
        }
        proof {
            let prefix = tab.panes@.subrange(0, k + 1);
            assert(prefix.drop_last() =~= tab.panes@.subrange(0, k as int));
            assert(prefix.last() == (pane, window));
        }
        k = k + 1;
    }
    proof {
        assert(tab.panes@.subrange(0, k as int) =~= tab.panes@);
    }
    out
}


/// Where the calling pane stands.
#[derive(Clone, Copy, Debug, PartialEq, Eq, Structural)]
pub struct CallerPlace {
    /// Positions counting from zero.
    pub workspace_index: usize,
    pub tab_index: usize,
    /// The caller's tab is the active tab of the active workspace and the caller its focus.
    pub selected_in_host: bool,
    /// The caller's tab is the active tab of the active workspace.
    pub visible: bool,
}

/// Where the pane `key` stands among `workspaces` with `active` the active workspace: `None`
/// when its workspace or tab is gone.
pub open spec fn caller_place<W>(workspaces: Seq<Workspace<W>>, active: Option<WorkspaceId>, key: PaneKey) -> Option<
    CallerPlace,
> {
    let w = workspace_position(workspaces, key.workspace_id);
    if w >= workspaces.len() {
        None
    } else {
        let t = tab_position(workspaces[w].tabs@, key.tab_id);
        if t >= workspaces[w].tabs@.len() {
            None
        } else {
            let shown = active == Some(key.workspace_id) && workspaces[w].active_tab == key.tab_id;
            Some(
                CallerPlace {
                    workspace_index: w as usize,
                    tab_index: t as usize,
                    selected_in_host: shown && workspaces[w].tabs@[t].focused_pane == key.pane_id,
                    visible: shown,
                },
            )
        }
    }
}

/// A located caller stands at positions that hold its workspace and tab, and it is on screen
/// exactly when its workspace is the active one and its tab is that workspace's active tab;
/// it is selected in the host exactly when, besides, it is its tab's focused pane. A caller in a
/// background tab is never on screen.
pub proof fn lemma_caller_on_screen_only_in_active_tab<W>(
    workspaces: Vec<Workspace<W>>,
    active: Option<WorkspaceId>,
    key: PaneKey,
)
    ensures
        caller_place(workspaces@, active, key) matches Some(place) ==> {
            let ws = workspaces@[place.workspace_index as int];
            let tab = ws.tabs@[place.tab_index as int];
            &&& place.workspace_index < workspaces@.len()
            &&& place.tab_index < ws.tabs@.len()
            &&& ws.id == key.workspace_id
            &&& tab.id == key.tab_id
            &&& place.visible == (active == Some(ws.id) && ws.active_tab == tab.id)
            &&& place.selected_in_host == (place.visible && tab.focused_pane == key.pane_id)
        },
{
    crate::model::lemma_workspace_position(workspaces@, key.workspace_id);
    assert(workspaces.len() == workspaces@.len());
    let w = workspace_position(workspaces@, key.workspace_id);
    if w < workspaces@.len() {
        crate::model::lemma_tab_position(workspaces@[w].tabs@, key.tab_id);
        assert(workspaces@[w].tabs.len() == workspaces@[w].tabs@.len());
    }
}

/// Find where the calling pane stands (see [`caller_place`]).
pub fn locate_caller<W>(workspaces: &Vec<Workspace<W>>, active: Option<WorkspaceId>, key: PaneKey) -> (r:
    Option<CallerPlace>)
    ensures
        r == caller_place(workspaces@, active, key),
{
    let w = match find_workspace(workspaces, key.workspace_id) {
        Some(w) => w,
        None => return None,
    };
    let t = match find_tab(&workspaces[w].tabs, key.tab_id) {
        Some(t) => t,
        None => return None,
    };
    let is_active = match active {
        Some(a) => a.0 == key.workspace_id.0,
        None => false,
    };
    let shown = is_active && workspaces[w].active_tab.0 == key.tab_id.0;
    Some(
        CallerPlace {
            workspace_index: w,
            tab_index: t,
            selected_in_host: shown && workspaces[w].tabs[t].focused_pane.0 == key.pane_id.0,
            visible: shown,
        },
    )
}

} // verus!
