use vivida::layout::Axis;
use vivida::model::{
    focus_owned_pane, remove_owned_pane, workspace_label, PaneId, PaneKey, TabId, WindowId,
    Workspace, WorkspaceId,
};

fn halve(weight: f32) -> f32 {
    weight / 2.0
}

fn normalize(sizes: &Vec<f32>) -> Vec<f32> {
    let total: f32 = sizes.iter().copied().sum();
    if total <= f32::EPSILON {
        let equal = 1.0 / sizes.len().max(1) as f32;
        return vec![equal; sizes.len()];
    }
    sizes.iter().map(|size| size / total).collect()
}

fn workspace(id: u64, label: &str, cwd: &str, window: u64) -> Workspace<f32> {
    Workspace::new(WorkspaceId(id), label.into(), cwd.into(), WindowId::from(window))
}

#[test]
fn logical_pane_ids_restart_per_workspace() {
    let first = workspace(1, "one", "/one", 10);
    let second = workspace(2, "two", "/two", 20);
    assert_eq!(first.active_tab().unwrap().focused_pane, PaneId(1));
    assert_eq!(second.active_tab().unwrap().focused_pane, PaneId(1));
}

#[test]
fn owner_scoped_removal_preserves_reused_pane_id() {
    let first = workspace(1, "one", "/one", 10);
    let second = workspace(2, "two", "/two", 20);
    let mut workspaces = vec![first, second];

    assert!(remove_owned_pane(
        &mut workspaces,
        PaneKey { workspace_id: WorkspaceId(1), tab_id: TabId(1), pane_id: PaneId(1) },
        &normalize,
    ));
    assert_eq!(workspaces[0].pane_count(), 0);
    assert_eq!(workspaces[1].pane_count(), 1);
    assert_eq!(
        workspaces[1].active_tab().unwrap().window_id(PaneId(1)),
        Some(WindowId::from(20))
    );
}

#[test]
fn owner_scoped_focus_changes_only_the_clicked_active_pane() {
    let mut first = workspace(1, "one", "/one", 10);
    first
        .active_tab_mut()
        .unwrap()
        .split(Axis::Horizontal, WindowId::from(11), 0.5, &halve)
        .unwrap();
    let mut second = workspace(2, "two", "/two", 20);
    second
        .active_tab_mut()
        .unwrap()
        .split(Axis::Horizontal, WindowId::from(21), 0.5, &halve)
        .unwrap();
    let mut workspaces = vec![first, second];

    assert!(focus_owned_pane(
        &mut workspaces,
        Some(WorkspaceId(1)),
        PaneKey { workspace_id: WorkspaceId(1), tab_id: TabId(1), pane_id: PaneId(1) },
        WindowId::from(10),
    ));
    assert_eq!(workspaces[0].active_tab().unwrap().focused_pane, PaneId(1));
    assert_eq!(workspaces[1].active_tab().unwrap().focused_pane, PaneId(2));

    assert!(!focus_owned_pane(
        &mut workspaces,
        Some(WorkspaceId(1)),
        PaneKey { workspace_id: WorkspaceId(2), tab_id: TabId(1), pane_id: PaneId(1) },
        WindowId::from(20),
    ));
    assert!(!focus_owned_pane(
        &mut workspaces,
        Some(WorkspaceId(1)),
        PaneKey { workspace_id: WorkspaceId(1), tab_id: TabId(1), pane_id: PaneId(1) },
        WindowId::from(99),
    ));
    assert_eq!(workspaces[0].active_tab().unwrap().focused_pane, PaneId(1));
    assert_eq!(workspaces[1].active_tab().unwrap().focused_pane, PaneId(2));
}

#[test]
fn removing_the_focused_split_selects_the_surviving_pane() {
    let mut only = workspace(1, "one", "/one", 10);
    only.active_tab_mut()
        .unwrap()
        .split(Axis::Horizontal, WindowId::from(11), 0.5, &halve)
        .unwrap();
    let mut workspaces = vec![only];

    assert!(remove_owned_pane(
        &mut workspaces,
        PaneKey { workspace_id: WorkspaceId(1), tab_id: TabId(1), pane_id: PaneId(2) },
        &normalize,
    ));
    let tab = workspaces[0].active_tab().unwrap();
    assert_eq!(tab.focused_pane, PaneId(1));
    assert_eq!(tab.focused_window_id(), Some(WindowId::from(10)));
}

#[test]
fn label_uses_directory_basename_and_has_a_fallback() {
    assert_eq!(workspace_label("/tmp/project"), "project");
    assert_eq!(workspace_label("/"), "workspace");
}

#[test]
fn new_tabs_take_the_next_number_and_become_active() {
    let mut ws = workspace(1, "one", "/one", 10);
    let id = ws.add_tab(WindowId::from(11));
    assert_eq!(id, TabId(2));
    assert_eq!(ws.active_tab, TabId(2));
    assert!(ws.switch_tab(TabId(1)));
    assert!(!ws.switch_tab(TabId(1)));
    assert!(!ws.switch_tab(TabId(9)));
    assert_eq!(ws.pane_count(), 2);
}

#[test]
fn empty_tabs_are_dropped_and_the_first_survivor_becomes_active() {
    let mut ws = workspace(1, "one", "/one", 10);
    ws.add_tab(WindowId::from(11));
    let mut workspaces = vec![ws];
    assert!(remove_owned_pane(
        &mut workspaces,
        PaneKey { workspace_id: WorkspaceId(1), tab_id: TabId(2), pane_id: PaneId(1) },
        &normalize,
    ));
    workspaces[0].remove_empty_tabs();
    assert_eq!(workspaces[0].tabs.len(), 1);
    assert_eq!(workspaces[0].active_tab, TabId(1));
}
