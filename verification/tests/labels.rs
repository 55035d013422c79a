use vivida::host::{rename_tab, reset_tab_title};
use vivida::model::{label_from_file_name, TabId, WindowId, Workspace, WorkspaceId};
use vivida::navigation::PaneDirection;
use vivida::model::PaneId;
use vivida::selectors::{
    create_workspace_label, restored_workspace_label, unique_workspace_label, HostError,
};

fn workspace(id: u64, label: &str) -> Workspace<f32> {
    Workspace::new(WorkspaceId(id), label.into(), "/".into(), WindowId::from(id * 10))
}

#[test]
fn a_free_label_is_kept() {
    let ws = vec![workspace(1, "repo")];
    assert_eq!(unique_workspace_label(&ws, "pwsh"), "pwsh");
    assert_eq!(unique_workspace_label(&Vec::<Workspace<f32>>::new(), "pwsh"), "pwsh");
}

#[test]
fn colliding_labels_get_the_least_free_suffix() {
    let mut ws = vec![workspace(1, "pwsh")];
    assert_eq!(unique_workspace_label(&ws, "pwsh"), "pwsh (2)");
    assert_eq!(unique_workspace_label(&ws, "PWSH"), "PWSH (2)");
    ws.push(workspace(2, "pwsh (2)"));
    ws.push(workspace(3, "Pwsh (4)"));
    assert_eq!(unique_workspace_label(&ws, "pwsh"), "pwsh (3)");
    ws.push(workspace(4, "pwsh (3)"));
    assert_eq!(unique_workspace_label(&ws, "pwsh"), "pwsh (5)");
}

#[test]
fn suffixes_past_nine_use_every_digit() {
    let mut ws = vec![workspace(1, "a")];
    for k in 2..=11u64 {
        ws.push(workspace(k, &format!("a ({k})")));
    }
    assert_eq!(unique_workspace_label(&ws, "a"), "a (12)");
}

#[test]
fn creation_uses_the_requested_name_or_a_unique_directory_name() {
    let ws = vec![workspace(1, "project")];
    assert_eq!(create_workspace_label(&ws, "/home/me/project", None), Ok("project (2)".to_string()));
    assert_eq!(create_workspace_label(&ws, "/home/me/other", None), Ok("other".to_string()));
    assert_eq!(create_workspace_label(&ws, "/", None), Ok("workspace".to_string()));
    assert_eq!(create_workspace_label(&ws, "/x", Some("  Named ")), Ok("Named".to_string()));
    assert_eq!(create_workspace_label(&ws, "/x", Some("PROJECT")), Err(HostError::WorkspaceNameConflict));
}

#[test]
fn restored_labels_are_made_unique() {
    let ws = vec![workspace(1, "repo")];
    assert_eq!(restored_workspace_label(&ws, "repo"), "repo (2)");
    assert_eq!(restored_workspace_label(&ws, "  notes "), "notes");
    assert_eq!(restored_workspace_label(&ws, "   "), "workspace");
}

#[test]
fn labels_come_from_the_final_path_component() {
    assert_eq!(label_from_file_name(Some("src".into())), "src");
    assert_eq!(label_from_file_name(Some(String::new())), "workspace");
    assert_eq!(label_from_file_name(None), "workspace");
}

#[test]
fn renaming_pins_a_tab_title_and_reset_unpins_it() {
    let mut ws = vec![workspace(1, "repo")];
    assert!(!ws[0].tabs[0].custom_title);
    assert!(ws[0].tabs[0].set_context_title("vim"));
    assert_eq!(ws[0].tabs[0].title, "vim");
    assert!(!ws[0].tabs[0].set_context_title("vim"));
    rename_tab(&mut ws, WorkspaceId(1), TabId(1), "Server").unwrap();
    assert!(ws[0].tabs[0].custom_title);
    assert!(!ws[0].tabs[0].set_context_title("bash"));
    assert_eq!(ws[0].tabs[0].title, "Server");
    assert_eq!(reset_tab_title(&mut ws, WorkspaceId(1), TabId(1)), Ok("Server".to_string()));
    assert!(!ws[0].tabs[0].custom_title);
    assert!(ws[0].tabs[0].set_context_title("bash"));
    assert_eq!(ws[0].tabs[0].title, "bash");
    assert_eq!(reset_tab_title(&mut ws, WorkspaceId(1), TabId(9)), Err(HostError::TabNotFound));
    assert_eq!(reset_tab_title(&mut ws, WorkspaceId(7), TabId(1)), Err(HostError::WorkspaceNotFound));
}

#[test]
fn a_missing_neighbour_names_the_direction_and_pane() {
    let error = HostError::NoNeighbor { direction: PaneDirection::Left, pane: PaneId(12) };
    assert_eq!(error.full_message(), "no pane exists Left of pane 12");
    assert_eq!(HostError::TabNotFound.full_message(), "tab not found");
}
