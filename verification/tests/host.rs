use vivida::host::{close_tab, host_method, rename_tab, rename_workspace, split_owned_pane, HostMethod};
use vivida::layout::Axis;
use vivida::model::{PaneId, PaneKey, TabId, WindowId, Workspace, WorkspaceId};
use vivida::name_editor::{name_editor_action, EditorAction, EditorKey, NameEditor, NameTarget};
use vivida::selectors::{resolve_tab_id, resolve_workspace_id, HostError};

fn halve(weight: f32) -> f32 {
    weight / 2.0
}

fn workspaces() -> Vec<Workspace<f32>> {
    let mut first: Workspace<f32> =
        Workspace::new(WorkspaceId(1), "Project A".into(), "/a".into(), WindowId::from(10));
    first.add_tab(WindowId::from(11));
    first.tabs[1].title = "Logs".into();
    let second = Workspace::new(WorkspaceId(2), "Other".into(), "/b".into(), WindowId::from(20));
    vec![first, second]
}

#[test]
fn method_names_select_requests() {
    assert_eq!(host_method("create_window"), HostMethod::CreateWindow);
    assert_eq!(host_method("vivida_layout"), HostMethod::Layout);
    assert_eq!(host_method("vivida_resolve_pane"), HostMethod::ResolvePane);
    assert_eq!(host_method("vivida_split_pane"), HostMethod::SplitPane);
    assert_eq!(host_method("vivida_reset_tab_title"), HostMethod::ResetTabTitle);
    assert_eq!(host_method("vivida_layout "), HostMethod::Unsupported);
    assert_eq!(host_method(""), HostMethod::Unsupported);
}

#[test]
fn a_renamed_workspace_is_found_by_its_new_name() {
    let mut ws = workspaces();
    assert_eq!(rename_workspace(&mut ws, WorkspaceId(1), "  Project Alpha ").unwrap(), "Project Alpha");
    assert_eq!(ws[0].label, "Project Alpha");
    assert_eq!(resolve_workspace_id(&ws, None, Some("project alpha"), None, None), Ok(WorkspaceId(1)));
    assert_eq!(rename_workspace(&mut ws, WorkspaceId(1), "other"), Err(HostError::WorkspaceNameConflict));
    assert_eq!(rename_workspace(&mut ws, WorkspaceId(9), "Fresh"), Err(HostError::WorkspaceNotFound));
    assert_eq!(ws[0].label, "Project Alpha");
}

#[test]
fn a_renamed_tab_is_found_by_its_new_name() {
    let mut ws = workspaces();
    assert_eq!(rename_tab(&mut ws, WorkspaceId(1), TabId(2), "Server").unwrap(), "Server");
    assert_eq!(resolve_tab_id(&ws, WorkspaceId(1), None, Some("SERVER"), None, None, false), Ok(TabId(2)));
    assert_eq!(rename_tab(&mut ws, WorkspaceId(1), TabId(1), "server"), Err(HostError::TabNameConflict));
    assert_eq!(rename_tab(&mut ws, WorkspaceId(1), TabId(7), "New"), Err(HostError::TabNotFound));
}

#[test]
fn closing_the_active_tab_activates_another() {
    let mut ws = workspaces();
    assert_eq!(ws[0].active_tab, TabId(2));
    assert_eq!(close_tab(&mut ws, WorkspaceId(1), TabId(2)).unwrap(), vec![WindowId::from(11)]);
    assert_eq!(ws[0].active_tab, TabId(1));
    assert_eq!(close_tab(&mut ws, WorkspaceId(2), TabId(1)).unwrap(), vec![WindowId::from(20)]);
    assert_eq!(ws[1].active_tab, TabId(1));
    assert_eq!(close_tab(&mut ws, WorkspaceId(2), TabId(4)), Err(HostError::TabNotFound));
    assert_eq!(close_tab(&mut ws, WorkspaceId(5), TabId(1)), Err(HostError::WorkspaceNotFound));
}

#[test]
fn splitting_an_owned_pane_selects_its_tab_first() {
    let mut ws = workspaces();
    let key = PaneKey { workspace_id: WorkspaceId(1), tab_id: TabId(1), pane_id: PaneId(1) };
    assert_eq!(split_owned_pane(&mut ws, key, Axis::Vertical, WindowId::from(12), 0.5, &halve), Ok(PaneId(2)));
    assert_eq!(ws[0].active_tab, TabId(1));
    assert_eq!(ws[0].tabs[0].focused_pane, PaneId(2));
    assert_eq!(ws[0].tabs[0].window_id(PaneId(2)), Some(WindowId::from(12)));
    let missing = PaneKey { pane_id: PaneId(9), ..key };
    assert_eq!(split_owned_pane(&mut ws, missing, Axis::Vertical, WindowId::from(13), 0.5, &halve), Err(HostError::CannotSplit));
    let no_tab = PaneKey { tab_id: TabId(8), ..key };
    assert_eq!(split_owned_pane(&mut ws, no_tab, Axis::Vertical, WindowId::from(13), 0.5, &halve), Err(HostError::TabDisappeared));
}

#[test]
fn editor_keys_map_to_edits() {
    assert_eq!(name_editor_action(EditorKey::Enter, "", true, false), EditorAction::Commit);
    assert_eq!(name_editor_action(EditorKey::Enter, "", false, false), EditorAction::NotTaken);
    assert_eq!(name_editor_action(EditorKey::Character, "A", true, true), EditorAction::SelectAll);
    assert_eq!(name_editor_action(EditorKey::Character, "b", true, true), EditorAction::Swallow);
    assert_eq!(name_editor_action(EditorKey::Character, "a", true, false), EditorAction::InsertText);
    assert_eq!(name_editor_action(EditorKey::Other, "", true, false), EditorAction::Swallow);

    let mut editor = NameEditor::new(NameTarget::Workspace(WorkspaceId(1)), "Name");
    editor.move_home();
    editor.insert(">");
    assert_eq!(editor.text(), ">Name");
    editor.move_end();
    editor.set_composition("か");
    assert_eq!(editor.display_value(), ">Nameか|");
    editor.clear_composition();
    editor.select_all();
    assert_eq!(editor.display_value(), "[>Name]|");
    editor.set_error("taken".into());
    assert_eq!(editor.error().map(String::as_str), Some("taken"));
    editor.insert("x");
    assert!(editor.error().is_none());
}
