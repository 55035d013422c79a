use vivida::report::{pane_placements, tab_report};
use vivida::layout::{compute_rects, Axis, PaneRects};
use vivida::model::{PaneId, PaneKey, Tab, TabId, WindowId, Workspace, WorkspaceId};
use vivida::navigation::{directional_neighbor, directional_score, PaneDirection};
use vivida::rect::PhysicalRect;
use vivida::route::{resolve_pane, route_source, walk_route, PaneQuery, RouteStep};
use vivida::selectors::HostError;

fn halve(weight: f32) -> f32 {
    weight / 2.0
}

fn share(available: u32, sizes: &Vec<f32>, index: usize) -> u32 {
    let total = sizes.iter().copied().sum::<f32>().max(f32::EPSILON);
    ((available as f32) * sizes[index] / total).round() as u32
}

const AREA: PhysicalRect = PhysicalRect { x: 0, y: 0, width: 404, height: 404 };

/// Pane 1 top left, 2 top right, 3 below 2, 4 below 1.
fn nested_tab() -> Tab<f32> {
    let mut tab: Tab<f32> = Tab::new(TabId(1), WindowId::from(10));
    tab.split(Axis::Horizontal, WindowId::from(20), 0.5, &halve).unwrap();
    tab.split(Axis::Vertical, WindowId::from(30), 0.5, &halve).unwrap();
    tab.focused_pane = PaneId(1);
    tab.split(Axis::Vertical, WindowId::from(40), 0.5, &halve).unwrap();
    tab
}

fn rects_of(tab: &Tab<f32>) -> PaneRects {
    compute_rects(&tab.root, AREA, 4, &share)
}

#[test]
fn directional_paths_navigate_deeply_nested_split_trees() {
    let tab = nested_tab();
    let rects = rects_of(&tab);

    assert_eq!(directional_neighbor(&tab, &rects, PaneId(1), PaneDirection::Right), Some(PaneId(2)));
    assert_eq!(directional_neighbor(&tab, &rects, PaneId(1), PaneDirection::Down), Some(PaneId(4)));
    let right = directional_neighbor(&tab, &rects, PaneId(1), PaneDirection::Right).unwrap();
    assert_eq!(directional_neighbor(&tab, &rects, right, PaneDirection::Down), Some(PaneId(3)));
    assert_eq!(directional_neighbor(&tab, &rects, PaneId(3), PaneDirection::Left), Some(PaneId(4)));
}

#[test]
fn panes_without_a_neighbour_in_a_direction_have_none() {
    let tab = nested_tab();
    let rects = rects_of(&tab);
    assert_eq!(directional_neighbor(&tab, &rects, PaneId(1), PaneDirection::Left), None);
    assert_eq!(directional_neighbor(&tab, &rects, PaneId(1), PaneDirection::Up), None);
    assert_eq!(directional_neighbor(&tab, &rects, PaneId(9), PaneDirection::Right), None);
}

#[test]
fn scores_rank_overlap_then_gap_then_centre_distance() {
    let source = PhysicalRect { x: 0, y: 0, width: 100, height: 100 };
    let beside = PhysicalRect { x: 104, y: 0, width: 100, height: 100 };
    let lower = PhysicalRect { x: 104, y: 150, width: 100, height: 100 };
    assert_eq!(directional_score(&source, &beside, PaneDirection::Right), Some((false, 4, 0, -100)));
    assert_eq!(directional_score(&source, &lower, PaneDirection::Right), Some((true, 4, 300, 0)));
    assert_eq!(directional_score(&source, &beside, PaneDirection::Left), None);
}

#[test]
fn a_route_records_every_step() {
    let tab = nested_tab();
    let rects = rects_of(&tab);
    let steps =
        walk_route(&tab, &rects, PaneId(1), &vec![PaneDirection::Right, PaneDirection::Down]).unwrap();
    assert_eq!(
        steps,
        vec![
            RouteStep { direction: PaneDirection::Right, from: PaneId(1), to: PaneId(2) },
            RouteStep { direction: PaneDirection::Down, from: PaneId(2), to: PaneId(3) },
        ]
    );
}

#[test]
fn a_route_stops_where_no_pane_lies() {
    let tab = nested_tab();
    let rects = rects_of(&tab);
    let stuck = walk_route(&tab, &rects, PaneId(1), &vec![PaneDirection::Right, PaneDirection::Right]);
    assert_eq!(
        stuck,
        Err(HostError::NoNeighbor { direction: PaneDirection::Right, pane: PaneId(2) })
    );
}

#[test]
fn routes_start_at_the_named_pane_the_caller_or_the_focused_pane() {
    let tab = nested_tab();
    let here = PaneKey { workspace_id: WorkspaceId(1), tab_id: TabId(1), pane_id: PaneId(3) };
    let elsewhere = PaneKey { workspace_id: WorkspaceId(2), tab_id: TabId(1), pane_id: PaneId(2) };
    assert_eq!(route_source(&tab, WorkspaceId(1), Some(here), Some(2), None), Some(PaneId(2)));
    assert_eq!(route_source(&tab, WorkspaceId(1), Some(here), Some(9), None), None);
    assert_eq!(route_source(&tab, WorkspaceId(1), None, None, Some(4)), Some(PaneId(4)));
    assert_eq!(route_source(&tab, WorkspaceId(1), Some(here), None, None), Some(PaneId(3)));
    assert_eq!(route_source(&tab, WorkspaceId(1), Some(elsewhere), None, None), Some(PaneId(4)));
}

fn two_workspaces() -> Vec<Workspace<f32>> {
    let mut first: Workspace<f32> =
        Workspace::new(WorkspaceId(1), "Project A".into(), "/a".into(), WindowId::from(10));
    first.tabs[0] = nested_tab();
    first.tabs[0].title = "Logs".into();
    let second = Workspace::new(WorkspaceId(2), "Other".into(), "/b".into(), WindowId::from(50));
    vec![first, second]
}

fn query() -> PaneQuery {
    PaneQuery {
        workspace: None,
        workspace_id: None,
        workspace_name: None,
        tab: None,
        tab_id: None,
        tab_name: None,
        pane_id: None,
        from_pane_id: None,
        path: Vec::new(),
    }
}

#[test]
fn resolve_pane_follows_a_named_scope_and_route() {
    let workspaces = two_workspaces();
    let request = PaneQuery {
        workspace_name: Some("project a".into()),
        tab_name: Some(" LOGS ".into()),
        from_pane_id: Some(1),
        path: vec![PaneDirection::Right, PaneDirection::Down],
        ..query()
    };
    let found = resolve_pane(&workspaces, &request, None, AREA, 4, &share).unwrap();
    assert_eq!(found.workspace_index, 0);
    assert_eq!(found.tab_index, 0);
    assert_eq!(found.source, PaneId(1));
    assert_eq!(found.steps.len(), 2);
    assert_eq!(found.target, PaneId(3));
    assert_eq!(found.window, WindowId::from(30));
}

#[test]
fn resolve_pane_refuses_a_pane_with_a_route() {
    let workspaces = two_workspaces();
    let request = PaneQuery {
        workspace: Some(1),
        pane_id: Some(1),
        path: vec![PaneDirection::Down],
        ..query()
    };
    assert_eq!(
        resolve_pane(&workspaces, &request, None, AREA, 4, &share).unwrap_err(),
        HostError::PaneSelectorsConflict
    );
}

#[test]
fn resolve_pane_needs_a_workspace_when_several_exist() {
    let workspaces = two_workspaces();
    assert_eq!(
        resolve_pane(&workspaces, &query(), None, AREA, 4, &share).unwrap_err(),
        HostError::WorkspaceAmbiguous
    );
    let caller = PaneKey { workspace_id: WorkspaceId(2), tab_id: TabId(1), pane_id: PaneId(1) };
    let found = resolve_pane(&workspaces, &query(), Some(caller), AREA, 4, &share).unwrap();
    assert_eq!(found.workspace_index, 1);
    assert_eq!(found.target, PaneId(1));
    assert_eq!(found.window, WindowId::from(50));
}

#[test]
fn resolve_pane_reports_a_missing_start() {
    let workspaces = two_workspaces();
    let request = PaneQuery { workspace_id: Some(1), pane_id: Some(7), ..query() };
    assert_eq!(
        resolve_pane(&workspaces, &request, None, AREA, 4, &share).unwrap_err(),
        HostError::StartNotInTab
    );
}

#[test]
fn the_layout_report_describes_every_pane() {
    let tab = nested_tab();
    let rects = rects_of(&tab);
    let reports = tab_report(&tab, &rects, true);
    assert_eq!(reports.len(), 4);
    let first = &reports[0];
    assert_eq!(first.pane_id, PaneId(1));
    assert_eq!(first.window, WindowId::from(10));
    assert_eq!(first.split_path, Some(vec![1, 1]));
    assert_eq!(first.rect, Some(PhysicalRect { x: 0, y: 0, width: 200, height: 200 }));
    assert_eq!(first.neighbors.right, Some(PaneId(2)));
    assert_eq!(first.neighbors.down, Some(PaneId(4)));
    assert_eq!(first.neighbors.left, None);
    assert!(!first.selected_in_host);
    assert_eq!(tab.focused_pane, PaneId(4));
    assert!(reports[3].selected_in_host);
    assert!(!tab_report(&tab, &rects, false)[3].selected_in_host);

    let placements = pane_placements(&tab, &rects);
    assert_eq!(placements.len(), 4);
    assert_eq!(placements[3], (WindowId::from(40), PhysicalRect { x: 0, y: 204, width: 200, height: 200 }));
}
