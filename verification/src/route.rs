//! Resolving a pane from a host request: choose the workspace and the tab, pick the pane the
//! route starts from, then take one navigation step per direction of the route.

use vstd::prelude::*;

use crate::layout::{compute_rects, node_rects, share_is_function, PaneRects};
use crate::model::{
    all_tabs_wf, tab_position, table_get, workspace_position, PaneId, PaneKey, Tab, WindowId,
    Workspace, WorkspaceId,
};
use crate::navigation::{
    candidate_rank, directional_neighbor, is_nearest, rank_lt, PaneDirection,
};
use crate::rect::PhysicalRect;
use crate::selectors::{
    name_view, resolve_tab_id, resolve_workspace_id, tab_choice, workspace_choice, HostError,
};

verus! {

/// Whether `r` is what a navigation step from `source` in `direction` gives: nothing when the
/// source is not laid out or no pane lies on that side, else a pane that no other candidate
/// outranks.
pub open spec fn neighbor_is(
    panes: Seq<(PaneId, WindowId)>,
    rects: PaneRects,
    source: PaneId,
    direction: PaneDirection,
    r: Option<PaneId>,
) -> bool {
    match rects.lookup(source) {
        None => r is None,
        Some(source_rect) => match r {
            None => forall|i: int|
                0 <= i < panes.len() ==> (#[trigger] candidate_rank(
                    panes,
                    rects,
                    source_rect,
                    source,
                    direction,
                    i,
                )) is None,
            Some(p) => exists|i: int|
                0 <= i < panes.len() && panes[i].0 == p && #[trigger] is_nearest(
                    panes,
                    rects,
                    source_rect,
                    source,
                    direction,
                    i,
                ),
        },
    }
}

/// Two ranks neither of which is below the other are equal.
proof fn lemma_rank_total(a: (int, int, int, int, int), b: (int, int, int, int, int))
    requires
        !rank_lt(a, b),
        !rank_lt(b, a),
    ensures
        a == b,
{
}

/// A navigation step is determined: at most one pane is the nearest neighbour in a direction,
/// since ranks end with the pane number.
pub proof fn lemma_neighbor_unique(
    panes: Seq<(PaneId, WindowId)>,
    rects: PaneRects,
    source: PaneId,
    direction: PaneDirection,
    a: Option<PaneId>,
    b: Option<PaneId>,
)
    requires
        neighbor_is(panes, rects, source, direction, a),
        neighbor_is(panes, rects, source, direction, b),
    ensures
        a == b,
{
    if let Some(source_rect) = rects.lookup(source) {
        match (a, b) {
            (Some(p), Some(q)) => {
                let i = choose|i: int|
                    0 <= i < panes.len() && panes[i].0 == p && #[trigger] is_nearest(
                        panes,
                        rects,
                        source_rect,
                        source,
                        direction,
                        i,
                    );
                let j = choose|j: int|
                    0 <= j < panes.len() && panes[j].0 == q && #[trigger] is_nearest(
                        panes,
                        rects,
                        source_rect,
                        source,
                        direction,
                        j,
                    );
                let ri = candidate_rank(panes, rects, source_rect, source, direction, i)->0;
                let rj = candidate_rank(panes, rects, source_rect, source, direction, j)->0;
                assert(!rank_lt(rj, ri));
                assert(!rank_lt(ri, rj));
                lemma_rank_total(ri, rj);
                assert(panes[i].0.0 == panes[j].0.0);
            },
            (None, Some(q)) => {
                let j = choose|j: int|
                    0 <= j < panes.len() && panes[j].0 == q && #[trigger] is_nearest(
                        panes,
                        rects,
                        source_rect,
                        source,
                        direction,
                        j,
                    );
                assert(candidate_rank(panes, rects, source_rect, source, direction, j) is None);
            },
            (Some(p), None) => {
                let i = choose|i: int|
                    0 <= i < panes.len() && panes[i].0 == p && #[trigger] is_nearest(
                        panes,
                        rects,
                        source_rect,
                        source,
                        direction,
                        i,
                    );
                assert(candidate_rank(panes, rects, source_rect, source, direction, i) is None);
            },
            (None, None) => {},
        }
    }
}

/// One step of a route.
#[derive(Clone, Copy, Debug, PartialEq, Eq, Structural)]
pub struct RouteStep {
    pub direction: PaneDirection,
    pub from: PaneId,
    pub to: PaneId,
}

/// Where a route that starts at `start` and took `steps` ends.
pub open spec fn route_end(start: PaneId, steps: Seq<RouteStep>) -> PaneId {
    if steps.len() == 0 {
        start
    } else {
        steps.last().to
    }
}

/// Whether `steps` follow `path` from `start`: one step per direction, each from where the
/// previous one ended to the neighbour in its direction.
pub open spec fn walks(
    panes: Seq<(PaneId, WindowId)>,
    rects: PaneRects,
    start: PaneId,
    path: Seq<PaneDirection>,
    steps: Seq<RouteStep>,
) -> bool {
    &&& steps.len() == path.len()
    &&& forall|k: int|
        0 <= k < steps.len() ==> {
            &&& (#[trigger] steps[k]).direction == path[k]
            &&& steps[k].from == route_end(start, steps.take(k))
            &&& neighbor_is(panes, rects, steps[k].from, path[k], Some(steps[k].to))
        }
}

/// Whether the route `path` from `start` gets stuck at its direction `k`: its first `k` steps
/// are `steps`, and no pane lies in direction `path[k]` of where they end.
pub open spec fn blocked_at(
    panes: Seq<(PaneId, WindowId)>,
    rects: PaneRects,
    start: PaneId,
    path: Seq<PaneDirection>,
    k: int,
    steps: Seq<RouteStep>,
) -> bool {
    &&& 0 <= k < path.len()
    &&& walks(panes, rects, start, path.take(k), steps)
    &&& neighbor_is(panes, rects, route_end(start, steps), path[k], None)
}

/// Two walks of the same directions from the same start agree step by step.
proof fn lemma_walks_agree(
    panes: Seq<(PaneId, WindowId)>,
    rects: PaneRects,
    start: PaneId,
    path: Seq<PaneDirection>,
    a: Seq<RouteStep>,
    b: Seq<RouteStep>,
    k: int,
)
    requires
        walks(panes, rects, start, path, a),
        walks(panes, rects, start, path, b),
        0 <= k <= path.len(),
    ensures
        a.take(k) == b.take(k),
    decreases k,
{
    if k > 0 {
        lemma_walks_agree(panes, rects, start, path, a, b, k - 1);
        assert(a.take(k - 1) =~= b.take(k - 1));
        let x = a[k - 1];
        let y = b[k - 1];
        assert(x.from == route_end(start, a.take(k - 1)));
        assert(y.from == route_end(start, b.take(k - 1)));
        lemma_neighbor_unique(panes, rects, x.from, path[k - 1], Some(x.to), Some(y.to));
        assert(a.take(k) =~= a.take(k - 1).push(x));
        assert(b.take(k) =~= b.take(k - 1).push(y));
    }
}

/// The first `k` steps of a walk walk the first `k` directions.
proof fn lemma_walks_prefix(
    panes: Seq<(PaneId, WindowId)>,
    rects: PaneRects,
    start: PaneId,
    path: Seq<PaneDirection>,
    steps: Seq<RouteStep>,
    k: int,
)
    requires
        walks(panes, rects, start, path, steps),
        0 <= k <= path.len(),
    ensures
        walks(panes, rects, start, path.take(k), steps.take(k)),
{
    assert forall|j: int| 0 <= j < k implies #[trigger] steps.take(k).take(j) == steps.take(j) by {
        assert(steps.take(k).take(j) =~= steps.take(j));
    }
}

/// A route that gets stuck has no walk: navigation steps are determined, so any walk would
/// take the same first steps and then need a neighbour that does not exist.
pub proof fn lemma_blocked_route_has_no_walk(
    panes: Seq<(PaneId, WindowId)>,
    rects: PaneRects,
    start: PaneId,
    path: Seq<PaneDirection>,
    k: int,
    steps: Seq<RouteStep>,
    other: Seq<RouteStep>,
)
    requires
        blocked_at(panes, rects, start, path, k, steps),
    ensures
        !walks(panes, rects, start, path, other),
{
    if walks(panes, rects, start, path, other) {
        lemma_walks_prefix(panes, rects, start, path, other, k);
        lemma_walks_agree(panes, rects, start, path.take(k), steps, other.take(k), k);
        assert(steps.take(k) =~= steps);
        assert(other.take(k).take(k) =~= other.take(k));
        let x = other[k];
        assert(x.from == route_end(start, other.take(k)));
        lemma_neighbor_unique(panes, rects, x.from, path[k], None, Some(x.to));
    }
}

/// Take one navigation step per direction of `path`, starting at `start`. Fails at the first
/// direction in which no pane lies, naming that direction and the pane reached.
pub fn walk_route<W>(tab: &Tab<W>, rects: &PaneRects, start: PaneId, path: &Vec<PaneDirection>) -> (r:
    Result<Vec<RouteStep>, HostError>)
    ensures
        match r {
            Ok(steps) => walks(tab.panes@, *rects, start, path@, steps@),
            Err(e) => exists|k: int, steps: Seq<RouteStep>|
                #[trigger] blocked_at(tab.panes@, *rects, start, path@, k, steps) && e
                    == HostError::NoNeighbor { direction: path@[k], pane: route_end(start, steps) },
        },
{
    let mut steps: Vec<RouteStep> = Vec::new();
    let mut at = start;
    let mut i: usize = 0;
    while i < path.len()
        invariant
            i <= path@.len(),
            at == route_end(start, steps@),
            walks(tab.panes@, *rects, start, path@.take(i as int), steps@),
        decreases path@.len() - i,
    {
        let direction = path[i];
        let next = directional_neighbor(tab, rects, at, direction);
        proof {
            assert(neighbor_is(tab.panes@, *rects, at, direction, next));
        }
        match next {
            None => {
                proof {
                    assert(blocked_at(tab.panes@, *rects, start, path@, i as int, steps@));
                }
                return Err(HostError::NoNeighbor { direction, pane: at });
            },
            Some(to) => {
                let ghost before = steps@;
                steps.push(RouteStep { direction, from: at, to });
                proof {
                    let taken = path@.take(i + 1);
                    assert forall|k: int| 0 <= k < steps@.len() implies {
                        &&& (#[trigger] steps@[k]).direction == taken[k]
                        &&& steps@[k].from == route_end(start, steps@.take(k))
                        &&& neighbor_is(tab.panes@, *rects, steps@[k].from, taken[k], Some(steps@[k].to))
                    } by {
                        if k < i {
                            assert(steps@.take(k) =~= before.take(k));
                            assert(steps@[k] == before[k]);
                            assert(taken[k] == path@.take(i as int)[k]);
                        } else {
                            assert(steps@.take(k) =~= before);
                        }
                    }
                }
                at = to;
            },
        }
        i = i + 1;
    }
    proof {
        assert(path@.take(i as int) =~= path@);
    }
    Ok(steps)
}

/// The selectors of a pane resolution request.
#[derive(Clone, Debug)]
pub struct PaneQuery {
    /// One-based position of the workspace.
    pub workspace: Option<u64>,
    pub workspace_id: Option<u64>,
    pub workspace_name: Option<String>,
    /// One-based position of the tab.
    pub tab: Option<u64>,
    pub tab_id: Option<u64>,
    pub tab_name: Option<String>,
    /// The pane itself, within the chosen tab.
    pub pane_id: Option<u64>,
    /// Where the route starts, within the chosen tab.
    pub from_pane_id: Option<u64>,
    /// The directions of the route.
    pub path: Vec<PaneDirection>,
}

/// The view of an optional owned string.
pub open spec fn owned_name_view(name: Option<String>) -> Option<Seq<char>> {
    match name {
        Some(s) => Some(s@),
        None => None,
    }
}

/// What a pane resolution found.
#[derive(Debug)]
pub struct PaneResolution {
    /// Position of the chosen workspace.
    pub workspace_index: usize,
    /// Position of the chosen tab within its workspace.
    pub tab_index: usize,
    /// The pane the route started from.
    pub source: PaneId,
    pub steps: Vec<RouteStep>,
    /// Where the route ended.
    pub target: PaneId,
    /// The window hosting the target.
    pub window: WindowId,
    /// The rectangles of the tab's panes.
    pub rects: PaneRects,
}

/// The pane a route starts from: the named pane, else the named starting pane (either only
/// when the tab holds it), else the caller when it is in the chosen tab, else the tab's
/// focused pane.
pub open spec fn source_choice<W>(
    tab: Tab<W>,
    workspace_id: WorkspaceId,
    caller: Option<PaneKey>,
    pane_id: Option<u64>,
    from_pane_id: Option<u64>,
) -> Option<PaneId> {
    if pane_id is Some {
        if table_get(tab.panes@, PaneId(pane_id->0)) is Some {
            Some(PaneId(pane_id->0))
        } else {
            None
        }
    } else if from_pane_id is Some {
        if table_get(tab.panes@, PaneId(from_pane_id->0)) is Some {
            Some(PaneId(from_pane_id->0))
        } else {
            None
        }
    } else if caller is Some && caller->0.workspace_id == workspace_id && caller->0.tab_id
        == tab.id {
        Some(caller->0.pane_id)
    } else {
        Some(tab.focused_pane)
    }
}

/// Without a named pane or starting pane, a route starts at the caller only when the caller
/// is in the chosen tab of the chosen workspace; a caller anywhere else (another tab, or a tab
/// of the same number in another workspace), like no caller at all, leaves the start at the
/// tab's focused pane.
pub proof fn lemma_route_starts_at_caller_only_in_its_tab<W>(
    tab: Tab<W>,
    workspace_id: WorkspaceId,
    caller: PaneKey,
)
    ensures
        source_choice(tab, workspace_id, None, None, None) == Some(tab.focused_pane),
        caller.workspace_id != workspace_id || caller.tab_id != tab.id ==> source_choice(
            tab,
            workspace_id,
            Some(caller),
            None,
            None,
        ) == Some(tab.focused_pane),
        caller.workspace_id == workspace_id && caller.tab_id == tab.id ==> source_choice(
            tab,
            workspace_id,
            Some(caller),
            None,
            None,
        ) == Some(caller.pane_id),
{
}

/// A pane named directly, or named as the start, is where the route starts exactly when the
/// tab has that pane; otherwise there is no start.
pub proof fn lemma_named_start_must_be_in_the_tab<W>(
    tab: Tab<W>,
    workspace_id: WorkspaceId,
    caller: Option<PaneKey>,
    named: u64,
    from: Option<u64>,
)
    ensures
        source_choice(tab, workspace_id, caller, Some(named), from) == if tab.pane_map().dom().contains(
            PaneId(named),
        ) {
            Some(PaneId(named))
        } else {
            None::<PaneId>
        },
        source_choice(tab, workspace_id, caller, None, Some(named)) == if tab.pane_map().dom().contains(
            PaneId(named),
        ) {
            Some(PaneId(named))
        } else {
            None::<PaneId>
        },
{
}

/// The pane a route starts from (see [`source_choice`]).
pub fn route_source<W>(
    tab: &Tab<W>,
    workspace_id: WorkspaceId,
    caller: Option<PaneKey>,
    pane_id: Option<u64>,
    from_pane_id: Option<u64>,
) -> (r: Option<PaneId>)
    ensures
        r == source_choice(*tab, workspace_id, caller, pane_id, from_pane_id),
{
    if let Some(p) = pane_id {
        return if tab.window_id(PaneId(p)).is_some() {
            Some(PaneId(p))
        } else {
            None
        };
    }
    if let Some(p) = from_pane_id {
        return if tab.window_id(PaneId(p)).is_some() {
            Some(PaneId(p))
        } else {
            None
        };
    }
    if let Some(key) = caller {
        if key.workspace_id.0 == workspace_id.0 && key.tab_id.0 == tab.id.0 {
            return Some(key.pane_id);
        }
    }
    Some(tab.focused_pane)
}


/// Resolve the pane a request names: choose the workspace (as [`resolve_workspace_id`] does)
/// and the tab (as [`resolve_tab_id`] does, the active tab being the last default), lay the tab
/// out in `content` (`handle` and `share` as for [`compute_rects`]), pick where the route starts
/// (see [`source_choice`]) and walk it (see [`walk_route`]). A pane named directly cannot be
/// combined with a starting pane or a route.
pub fn resolve_pane<W, S: Fn(u32, &Vec<W>, usize) -> u32>(
    workspaces: &Vec<Workspace<W>>,
    query: &PaneQuery,
    caller: Option<PaneKey>,
    content: PhysicalRect,
    handle: u32,
    share: &S,
) -> (r: Result<PaneResolution, HostError>)
    requires
        all_tabs_wf(workspaces@),
        share_is_function(*share),
    ensures
        ({
            let ws = workspaces@;
            let workspace_sel = workspace_choice(
                ws,
                query.workspace_id,
                owned_name_view(query.workspace_name),
                query.workspace,
                caller,
            );
            if query.pane_id is Some && (query.from_pane_id is Some || query.path@.len() > 0) {
                r == Err::<PaneResolution, HostError>(HostError::PaneSelectorsConflict)
            } else if workspace_sel is Err {
                r == Err::<PaneResolution, HostError>(workspace_sel->Err_0)
            } else {
                let workspace_id = workspace_sel->Ok_0;
                let tab_sel = tab_choice(
                    ws,
                    workspace_id,
                    query.tab_id,
                    owned_name_view(query.tab_name),
                    query.tab,
                    caller,
                    true,
                );
                if tab_sel is Err {
                    r == Err::<PaneResolution, HostError>(tab_sel->Err_0)
                } else {
                    let w = workspace_position(ws, workspace_id);
                    let t = tab_position(ws[w].tabs@, tab_sel->Ok_0);
                    let tab = ws[w].tabs@[t];
                    let laid_out = node_rects(tab.root, content, handle, *share);
                    let source = source_choice(tab, workspace_id, caller, query.pane_id, query.from_pane_id);
                    match source {
                        None => r == Err::<PaneResolution, HostError>(HostError::StartNotInTab),
                        Some(start) => match r {
                            Ok(res) => {
                                &&& res.workspace_index == w
                                &&& res.tab_index == t
                                &&& res.rects.entries@ == laid_out
                                &&& res.source == start
                                &&& walks(tab.panes@, res.rects, start, query.path@, res.steps@)
                                &&& res.target == route_end(start, res.steps@)
                                &&& table_get(tab.panes@, res.target) == Some(res.window)
                            },
                            Err(HostError::PaneDisappeared) => exists|rects: PaneRects, steps: Seq<RouteStep>|
                                rects.entries@ == laid_out && #[trigger] walks(tab.panes@, rects, start, query.path@, steps)
                                    && table_get(tab.panes@, route_end(start, steps)) is None,
                            Err(e) => exists|rects: PaneRects, k: int, steps: Seq<RouteStep>|
                                rects.entries@ == laid_out && #[trigger] blocked_at(tab.panes@, rects, start, query.path@, k, steps)
                                    && e == HostError::NoNeighbor {
                                    direction: query.path@[k],
                                    pane: route_end(start, steps),
                                },
                        },
                    }
                }
            }
        }),
{
    if query.pane_id.is_some() && (query.from_pane_id.is_some() || query.path.len() > 0) {
        return Err(HostError::PaneSelectorsConflict);
    }
    let workspace_name = match &query.workspace_name {
        Some(s) => Some(s.as_str()),
        None => None,
    };
    let tab_name = match &query.tab_name {
        Some(s) => Some(s.as_str()),
        None => None,
    };
    assert(name_view(workspace_name) == owned_name_view(query.workspace_name));
    assert(name_view(tab_name) == owned_name_view(query.tab_name));
    let workspace_id = resolve_workspace_id(
        workspaces,
        query.workspace_id,
        workspace_name,
        query.workspace,
        caller,
    )?;
    let tab_id = resolve_tab_id(
        workspaces,
        workspace_id,
        query.tab_id,
        tab_name,
        query.tab,
        caller,
        true,
    )?;
    let w = match crate::model::find_workspace(workspaces, workspace_id) {
        Some(w) => w,
        None => return Err(HostError::WorkspaceNotFound),
    };
    let workspace = &workspaces[w];
    let t = match crate::model::find_tab(&workspace.tabs, tab_id) {
        Some(t) => t,
        None => return Err(HostError::TabNotFound),
    };
    let tab = &workspace.tabs[t];
    proof {
        assert(tab.wf());
        crate::layout::lemma_shaped_weaken(tab.root, 2, true, 0, true);
    }
    let rects = compute_rects(&tab.root, content, handle, share);
    let start = match route_source(tab, workspace_id, caller, query.pane_id, query.from_pane_id) {
        Some(p) => p,
        None => return Err(HostError::StartNotInTab),
    };
    let steps = walk_route(tab, &rects, start, &query.path)?;
    let target = if steps.len() == 0 {
        start
    } else {
        steps[steps.len() - 1].to
    };
    match tab.window_id(target) {
        Some(window) => Ok(
            PaneResolution { workspace_index: w, tab_index: t, source: start, steps, target, window, rects },
        ),
        None => {
            proof {
                assert(walks(tab.panes@, rects, start, query.path@, steps@));
            }
            Err(HostError::PaneDisappeared)
        },
    }
}

} // verus!
