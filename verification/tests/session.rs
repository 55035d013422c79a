use vivida::chrome::SidebarMode;
use vivida::layout::Axis;
use vivida::model::{PaneId, Tab, WindowId, Workspace, WorkspaceId};
use vivida::session::{restore_tab, restore_workspace, Session};
use vivida::layout::Node;
use vivida::model::TabId;
use vivida::report::locate_caller;
use vivida::model::PaneKey;

fn halve(weight: f32) -> f32 {
    weight / 2.0
}

#[test]
fn a_captured_tab_restores_with_the_same_panes_tree_and_focus() {
    let mut ws: Workspace<f32> = Workspace::new(WorkspaceId(2), "repo".into(), "/repo".into(), WindowId::from(10));
    ws.active_tab_mut().unwrap().split(Axis::Vertical, WindowId::from(11), 0.5, &halve).unwrap();
    let workspaces = vec![ws];
    let cwds = vec![(WindowId::from(11), "/repo/src".to_string())];
    let session = Session::capture(SidebarMode::Compact, Some(WorkspaceId(2)), &workspaces, &cwds);

    assert_eq!(session.sidebar_mode, SidebarMode::Compact);
    assert_eq!(session.active_workspace, Some(WorkspaceId(2)));
    let saved = &session.workspaces[0];
    assert_eq!(saved.label, "repo");
    let snap = &saved.tabs[0];
    assert_eq!(
        snap.pane_cwds,
        vec![(PaneId(1), "/repo".to_string()), (PaneId(2), "/repo/src".to_string())]
    );

    let panes = snap
        .pane_cwds
        .iter()
        .enumerate()
        .map(|(index, (pane, _))| (*pane, WindowId::from(100 + index as u64)))
        .collect();
    let restored: Tab<f32> =
        Tab::restore(snap.id, snap.root.clone(), snap.title.clone(), snap.custom_title, snap.focused_pane, panes);
    let original = &workspaces[0].tabs[0];
    assert_eq!(restored.root, original.root);
    assert_eq!(restored.focused_pane, original.focused_pane);
    assert_eq!(restored.window_id(PaneId(2)), Some(WindowId::from(101)));
    assert_eq!(restored.next_pane_id, 3);
}

#[test]
fn saved_tabs_without_panes_or_room_are_dropped() {
    let leaf: Node<f32> = Node::Leaf(PaneId(1));
    assert!(restore_tab(TabId(1), leaf.clone(), "t".into(), false, PaneId(1), Vec::new()).is_none());
    assert!(restore_tab(TabId(1), leaf.clone(), "t".into(), false, PaneId(1), vec![(PaneId(u64::MAX), WindowId::from(5))]).is_none());
    let hollow: Node<f32> = Node::Split { axis: Axis::Horizontal, children: Vec::new(), sizes: Vec::new() };
    assert!(restore_tab(TabId(1), hollow, "t".into(), false, PaneId(9), vec![(PaneId(1), WindowId::from(5))]).is_none());
    let tab = restore_tab(TabId(3), leaf, "t".into(), true, PaneId(9), vec![(PaneId(1), WindowId::from(5))]).unwrap();
    assert_eq!(tab.focused_pane, PaneId(1));
    assert!(tab.custom_title);
    assert_eq!(tab.next_pane_id, 2);
}

#[test]
fn saved_workspaces_come_back_with_unique_labels() {
    let existing: Vec<Workspace<f32>> =
        vec![Workspace::new(WorkspaceId(1), "repo".into(), "/repo".into(), WindowId::from(10))];
    assert!(restore_workspace(&existing, WorkspaceId(2), "repo", "/r".into(), TabId(1), Vec::new()).is_none());
    let tab = Tab::new(TabId(4), WindowId::from(20));
    let ws = restore_workspace(&existing, WorkspaceId(2), "repo", "/r".into(), TabId(9), vec![tab]).unwrap();
    assert_eq!(ws.label, "repo (2)");
    assert_eq!(ws.active_tab, TabId(4));
    assert_eq!(ws.next_tab_id, 5);
}

#[test]
fn the_caller_is_located_with_its_selection() {
    let mut a: Workspace<f32> = Workspace::new(WorkspaceId(1), "one".into(), "/one".into(), WindowId::from(10));
    a.active_tab_mut().unwrap().split(Axis::Horizontal, WindowId::from(11), 0.5, &halve).unwrap();
    let b: Workspace<f32> = Workspace::new(WorkspaceId(2), "two".into(), "/two".into(), WindowId::from(20));
    let ws = vec![a, b];
    let key = |w: u64, p: u64| PaneKey { workspace_id: WorkspaceId(w), tab_id: TabId(1), pane_id: PaneId(p) };
    let place = locate_caller(&ws, Some(WorkspaceId(1)), key(1, 2)).unwrap();
    assert_eq!((place.workspace_index, place.tab_index), (0, 0));
    assert!(place.selected_in_host && place.visible);
    let other = locate_caller(&ws, Some(WorkspaceId(1)), key(1, 1)).unwrap();
    assert!(!other.selected_in_host && other.visible);
    let hidden = locate_caller(&ws, Some(WorkspaceId(1)), key(2, 1)).unwrap();
    assert_eq!(hidden.workspace_index, 1);
    assert!(!hidden.visible && !hidden.selected_in_host);
    assert!(locate_caller(&ws, None, key(3, 1)).is_none());
}
