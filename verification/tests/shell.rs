use vivida::shell::reap_closed_panes;
use vivida::shell::pane_visibility;
use vivida::shell::{shell_modifier_pressed, tab_for_selection, TabSelection};
use winit::keyboard::ModifiersState;
use vivida::chrome::ChromeHitMap;
use vivida::layout::Axis;
use vivida::model::{PaneId, PaneKey, TabId, WindowId, Workspace, WorkspaceId};
use vivida::name_editor::NameTarget;
use vivida::rect::{PhysicalRect, PhysicalSize};
use vivida::shell::{
    alternative_tab_pane, chrome_event_response, cycle_tab_target, hovered_workspace,
    name_target_at, next_active_workspace, remove_empty_workspaces, requested_window_size,
    room_to_split, select_pane, settle_active, shell_shortcut, workspace_shortcut_index,
    ChromeInput, ChromeResponse, ChromeState, Modifiers, ShellKey, ShellShortcut,
};

fn halve(weight: f32) -> f32 {
    weight / 2.0
}

const SHELL: Modifiers = Modifiers { shell: true, shift: false, control: true };
const SHELL_SHIFT: Modifiers = Modifiers { shell: true, shift: true, control: true };
const NONE: Modifiers = Modifiers { shell: false, shift: false, control: false };

#[test]
fn shell_shortcuts_map_keys_to_actions() {
    assert_eq!(shell_shortcut(ShellKey::KeyT, SHELL, 1), Some(ShellShortcut::NewTab));
    assert_eq!(shell_shortcut(ShellKey::KeyD, SHELL, 1), Some(ShellShortcut::Split(Axis::Horizontal)));
    assert_eq!(shell_shortcut(ShellKey::KeyD, SHELL_SHIFT, 1), Some(ShellShortcut::Split(Axis::Vertical)));
    assert_eq!(shell_shortcut(ShellKey::KeyN, SHELL, 1), None);
    assert_eq!(shell_shortcut(ShellKey::KeyN, SHELL_SHIFT, 1), Some(ShellShortcut::NewWorkspace));
    assert_eq!(shell_shortcut(ShellKey::KeyB, SHELL_SHIFT, 1), Some(ShellShortcut::CycleSidebar));
    assert_eq!(shell_shortcut(ShellKey::KeyW, SHELL, 1), Some(ShellShortcut::ClosePane));
    assert_eq!(shell_shortcut(ShellKey::KeyW, SHELL_SHIFT, 1), Some(ShellShortcut::CloseWorkspace));
    assert_eq!(shell_shortcut(ShellKey::BracketRight, SHELL_SHIFT, 1), Some(ShellShortcut::NextTab));
    assert_eq!(shell_shortcut(ShellKey::BracketLeft, SHELL_SHIFT, 1), Some(ShellShortcut::PreviousTab));
    assert_eq!(shell_shortcut(ShellKey::BracketLeft, SHELL, 1), None);
    assert_eq!(shell_shortcut(ShellKey::Digit(2), SHELL, 3), Some(ShellShortcut::SwitchWorkspace(1)));
    assert_eq!(shell_shortcut(ShellKey::Digit(4), SHELL, 3), None);
    assert_eq!(shell_shortcut(ShellKey::Digit(0), SHELL, 3), None);
    assert_eq!(shell_shortcut(ShellKey::KeyT, NONE, 1), None);
    let recovery = Modifiers { shell: false, shift: true, control: true };
    assert_eq!(shell_shortcut(ShellKey::F12, recovery, 1), Some(ShellShortcut::OpenRecoveryMenu));
}

#[test]
fn digit_keys_select_the_first_nine_workspaces() {
    assert_eq!(workspace_shortcut_index(1), Some(0));
    assert_eq!(workspace_shortcut_index(9), Some(8));
    assert_eq!(workspace_shortcut_index(0), None);
}

fn state() -> ChromeState {
    ChromeState {
        name_editor_open: false,
        rename_editor_window: false,
        settings_menu_open: false,
        recovery_menu_open: false,
        name_menu_open: false,
        name_under_pointer: None,
        pointer_on_pane: false,
    }
}

#[test]
fn chrome_events_are_routed_by_the_open_overlays() {
    let shortcut = ChromeInput::Keyboard { pressed: true, escape: false, shortcut: Some(ShellShortcut::NewTab) };
    assert_eq!(chrome_event_response(shortcut, state()), ChromeResponse::Shortcut(ShellShortcut::NewTab));
    let editing = ChromeState { name_editor_open: true, ..state() };
    assert_eq!(chrome_event_response(shortcut, editing), ChromeResponse::EditName);
    let escape = ChromeInput::Keyboard { pressed: true, escape: true, shortcut: None };
    let menu = ChromeState { settings_menu_open: true, ..state() };
    assert_eq!(chrome_event_response(escape, menu), ChromeResponse::CloseSettingsMenu);
    assert_eq!(chrome_event_response(escape, state()), ChromeResponse::ToPane);
    let right = ChromeInput::MouseInput { left: false, right: true, pressed: true };
    let target = NameTarget::Workspace(WorkspaceId(3));
    let over_name = ChromeState { name_under_pointer: Some(target), ..state() };
    assert_eq!(chrome_event_response(right, over_name), ChromeResponse::OpenNameMenu(target));
    let recovering = ChromeState { recovery_menu_open: true, ..state() };
    assert_eq!(chrome_event_response(right, recovering), ChromeResponse::CloseMenus { recovery: true });
    let left = ChromeInput::MouseInput { left: true, right: false, pressed: true };
    assert_eq!(chrome_event_response(left, state()), ChromeResponse::Click);
    assert_eq!(chrome_event_response(ChromeInput::CloseRequested, state()), ChromeResponse::Exit);
    assert_eq!(
        chrome_event_response(ChromeInput::Focused(false), editing),
        ChromeResponse::DismissOverlays { drop_editor: true }
    );
    assert_eq!(chrome_event_response(ChromeInput::Focused(true), state()), ChromeResponse::FocusActivePane);
    assert_eq!(chrome_event_response(ChromeInput::Resized, state()), ChromeResponse::Relayout);
    assert_eq!(chrome_event_response(ChromeInput::Focused(true), editing), ChromeResponse::Ignore);
    assert_eq!(chrome_event_response(ChromeInput::Ime, editing), ChromeResponse::ComposeName);
    assert_eq!(chrome_event_response(ChromeInput::Ime, state()), ChromeResponse::ToPane);
    let on_pane = ChromeState { pointer_on_pane: true, ..state() };
    assert_eq!(chrome_event_response(left, on_pane), ChromeResponse::ToPane);
    let on_pane_with_menu = ChromeState { settings_menu_open: true, ..on_pane };
    assert_eq!(chrome_event_response(left, on_pane_with_menu), ChromeResponse::Click);
}

#[test]
fn names_under_the_pointer_prefer_the_tab_strip() {
    let hits = ChromeHitMap {
        tab_rows: vec![(TabId(2), PhysicalRect { x: 220, y: 0, width: 100, height: 35 })],
        workspace_rows: vec![(WorkspaceId(4), PhysicalRect { x: 0, y: 40, width: 220, height: 30 })],
        ..ChromeHitMap::default()
    };
    assert_eq!(
        name_target_at(&hits, Some(WorkspaceId(1)), 250, 10),
        Some(NameTarget::Tab { workspace_id: WorkspaceId(1), tab_id: TabId(2) })
    );
    assert_eq!(name_target_at(&hits, None, 250, 10), None);
    assert_eq!(name_target_at(&hits, Some(WorkspaceId(1)), 10, 50), Some(NameTarget::Workspace(WorkspaceId(4))));
    assert_eq!(hovered_workspace(&hits, 10, 50), Some(WorkspaceId(4)));
    assert_eq!(hovered_workspace(&hits, 10, 80), None);
}

fn workspace(id: u64, window: u64) -> Workspace<f32> {
    Workspace::new(WorkspaceId(id), format!("w{id}"), "/".into(), WindowId::from(window))
}

#[test]
fn tab_cycling_wraps_around() {
    let mut ws = workspace(1, 10);
    assert_eq!(cycle_tab_target(&ws, 1), None);
    ws.add_tab(WindowId::from(11));
    ws.add_tab(WindowId::from(12));
    assert_eq!(cycle_tab_target(&ws, 1), Some(TabId(1)));
    assert_eq!(cycle_tab_target(&ws, -1), Some(TabId(2)));
    assert!(ws.switch_tab(TabId(1)));
    assert_eq!(cycle_tab_target(&ws, -1), Some(TabId(3)));
    assert_eq!(cycle_tab_target(&ws, 7), Some(TabId(2)));
}

#[test]
fn selecting_a_pane_activates_its_tab() {
    let mut first = workspace(1, 10);
    first.add_tab(WindowId::from(11));
    first.tabs[1].split(Axis::Horizontal, WindowId::from(12), 0.5, &halve).unwrap();
    let mut workspaces = vec![first, workspace(2, 20)];
    let key = PaneKey { workspace_id: WorkspaceId(1), tab_id: TabId(1), pane_id: PaneId(1) };
    assert!(!select_pane(&mut workspaces, key, WindowId::from(99)));
    assert_eq!(workspaces[0].active_tab, TabId(2));
    assert!(select_pane(&mut workspaces, key, WindowId::from(10)));
    assert_eq!(workspaces[0].active_tab, TabId(1));
    let second = PaneKey { workspace_id: WorkspaceId(1), tab_id: TabId(2), pane_id: PaneId(1) };
    assert!(select_pane(&mut workspaces, second, WindowId::from(11)));
    assert_eq!(workspaces[0].tabs[1].focused_pane, PaneId(1));
}

#[test]
fn a_hidden_pane_gives_way_to_the_first_other_tab() {
    let mut first = workspace(1, 10);
    first.add_tab(WindowId::from(11));
    let workspaces = vec![first, workspace(2, 20)];
    let source = PaneKey { workspace_id: WorkspaceId(1), tab_id: TabId(1), pane_id: PaneId(1) };
    assert_eq!(alternative_tab_pane(&workspaces, source), Some(WindowId::from(11)));
    let last = PaneKey { workspace_id: WorkspaceId(2), tab_id: TabId(1), pane_id: PaneId(1) };
    assert_eq!(alternative_tab_pane(&workspaces, last), Some(WindowId::from(10)));
    let alone = vec![workspace(3, 30)];
    let only = PaneKey { workspace_id: WorkspaceId(3), tab_id: TabId(1), pane_id: PaneId(1) };
    assert_eq!(alternative_tab_pane(&alone, only), None);
}

#[test]
fn closing_the_active_workspace_moves_to_a_neighbour() {
    let workspaces = vec![workspace(1, 10), workspace(2, 20), workspace(3, 30)];
    assert_eq!(next_active_workspace(&workspaces, Some(WorkspaceId(2)), WorkspaceId(2)), Some(WorkspaceId(3)));
    assert_eq!(next_active_workspace(&workspaces, Some(WorkspaceId(3)), WorkspaceId(3)), Some(WorkspaceId(2)));
    assert_eq!(next_active_workspace(&workspaces, Some(WorkspaceId(1)), WorkspaceId(3)), Some(WorkspaceId(1)));
    let alone = vec![workspace(1, 10)];
    assert_eq!(next_active_workspace(&alone, Some(WorkspaceId(1)), WorkspaceId(1)), Some(WorkspaceId(1)));
}

#[test]
fn empty_workspaces_are_dropped_and_the_active_one_settles() {
    let mut empty = workspace(1, 10);
    empty.tabs[0].panes.clear();
    let mut workspaces = vec![empty, workspace(2, 20), workspace(3, 30)];
    assert_eq!(remove_empty_workspaces(&mut workspaces, Some(WorkspaceId(1))), Some(WorkspaceId(2)));
    assert_eq!(workspaces.len(), 2);
    assert_eq!(settle_active(&workspaces, Some(WorkspaceId(3))), Some(WorkspaceId(3)));
    assert_eq!(settle_active(&workspaces, None), Some(WorkspaceId(2)));
    let mut none: Vec<Workspace<f32>> = Vec::new();
    assert_eq!(remove_empty_workspaces(&mut none, Some(WorkspaceId(1))), None);
}

#[test]
fn resize_requests_and_split_room_use_saturating_pixels() {
    let size = requested_window_size(
        PhysicalSize::new(1000, 600),
        500,
        300,
        PhysicalRect { x: 220, y: 35, width: 780, height: 565 },
    );
    assert_eq!(size, PhysicalSize::new(720, 335));
    let big = requested_window_size(PhysicalSize::new(u32::MAX, 10), 5, 0, PhysicalRect { x: 0, y: 0, width: 0, height: 20 });
    assert_eq!(big, PhysicalSize::new(u32::MAX, 0));
    let rect = PhysicalRect { x: 0, y: 0, width: 320, height: 100 };
    assert!(room_to_split(rect, Axis::Horizontal, 320, 160));
    assert!(!room_to_split(rect, Axis::Vertical, 320, 160));
}

#[test]
fn only_the_active_tab_of_the_active_workspace_is_on_screen() {
    let mut first = workspace(1, 10);
    first.add_tab(WindowId::from(11));
    let workspaces = vec![first, workspace(2, 20)];
    assert_eq!(
        pane_visibility(&workspaces, Some(WorkspaceId(1)), &vec![]),
        vec![(WindowId::from(10), false), (WindowId::from(11), true), (WindowId::from(20), false)]
    );
    assert_eq!(
        pane_visibility(&workspaces, Some(WorkspaceId(1)), &vec![WorkspaceId(1)]),
        vec![(WindowId::from(10), false), (WindowId::from(11), false), (WindowId::from(20), false)]
    );
    assert_eq!(
        pane_visibility(&workspaces, None, &vec![]),
        vec![(WindowId::from(10), false), (WindowId::from(11), false), (WindowId::from(20), false)]
    );
}

fn normalize(sizes: &Vec<f32>) -> Vec<f32> {
    let total: f32 = sizes.iter().copied().sum();
    if total <= f32::EPSILON {
        let equal = 1.0 / sizes.len().max(1) as f32;
        return vec![equal; sizes.len()];
    }
    sizes.iter().map(|size| size / total).collect()
}

#[test]
fn reaping_closed_panes_drops_emptied_tabs_and_workspaces() {
    let mut first = workspace(1, 10);
    first.add_tab(WindowId::from(11));
    first.tabs[1].split(Axis::Horizontal, WindowId::from(12), 0.5, &halve).unwrap();
    let mut workspaces = vec![first, workspace(2, 20)];
    let closed = vec![
        PaneKey { workspace_id: WorkspaceId(1), tab_id: TabId(1), pane_id: PaneId(1) },
        PaneKey { workspace_id: WorkspaceId(1), tab_id: TabId(2), pane_id: PaneId(2) },
        PaneKey { workspace_id: WorkspaceId(2), tab_id: TabId(1), pane_id: PaneId(1) },
    ];
    let active = reap_closed_panes(&mut workspaces, &closed, Some(WorkspaceId(2)), &normalize);
    assert_eq!(active, Some(WorkspaceId(1)));
    assert_eq!(workspaces.len(), 1);
    assert_eq!(workspaces[0].tabs.len(), 1);
    assert_eq!(workspaces[0].tabs[0].id, TabId(2));
    assert_eq!(workspaces[0].active_tab, TabId(2));
    assert_eq!(workspaces[0].tabs[0].focused_pane, PaneId(1));
    let last = vec![PaneKey { workspace_id: WorkspaceId(1), tab_id: TabId(2), pane_id: PaneId(1) }];
    assert_eq!(reap_closed_panes(&mut workspaces, &last, active, &normalize), None);
    assert!(workspaces.is_empty());
}

#[test]
fn pane_requests_select_tabs_by_position() {
    let mut ws = workspace(1, 10);
    assert_eq!(tab_for_selection(&ws, TabSelection::Next), None);
    assert_eq!(tab_for_selection(&ws, TabSelection::Last), Some(TabId(1)));
    ws.add_tab(WindowId::from(11));
    ws.add_tab(WindowId::from(12));
    assert_eq!(tab_for_selection(&ws, TabSelection::Index(1)), Some(TabId(2)));
    assert_eq!(tab_for_selection(&ws, TabSelection::Index(3)), None);
    assert_eq!(tab_for_selection(&ws, TabSelection::Last), Some(TabId(3)));
    assert_eq!(tab_for_selection(&ws, TabSelection::Next), Some(TabId(1)));
    assert_eq!(tab_for_selection(&ws, TabSelection::Previous), Some(TabId(2)));
}

fn platform_modifier(state: ModifiersState, macos: bool) -> bool {
    shell_modifier_pressed(state.control_key(), state.super_key(), macos)
}

#[test]
fn windows_shell_shortcuts_use_control() {
    assert!(platform_modifier(ModifiersState::CONTROL, false));
    assert!(!platform_modifier(ModifiersState::SUPER, false));
}

#[test]
fn macos_shell_shortcuts_use_command() {
    assert!(platform_modifier(ModifiersState::SUPER, true));
    assert!(!platform_modifier(ModifiersState::CONTROL, true));
}
