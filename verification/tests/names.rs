use vivida::model::{TabId, WindowId, Workspace, WorkspaceId};
use vivida::names::{names_equal, normalize_name, NameError};
use vivida::selectors::{
    resolve_tab_id, resolve_workspace_id, validate_unique_tab_name,
    validate_unique_workspace_name, HostError,
};
use vivida::model::PaneKey;
use vivida::model::PaneId;

#[test]
fn names_are_trimmed_bounded_and_free_of_control_characters() {
    assert_eq!(normalize_name("  Project A \t").unwrap(), "Project A");
    assert_eq!(normalize_name("\u{3000}名前\u{a0}").unwrap(), "名前");
    assert_eq!(normalize_name("   "), Err(NameError::Empty));
    assert_eq!(normalize_name(""), Err(NameError::Empty));
    assert_eq!(normalize_name(&"x".repeat(129)), Err(NameError::TooLong));
    assert_eq!(normalize_name(&"界".repeat(128)).unwrap().chars().count(), 128);
    assert_eq!(normalize_name("bad\u{7}name"), Err(NameError::ControlCharacter));
    assert_eq!(normalize_name("a\nb"), Err(NameError::ControlCharacter));
}

#[test]
fn names_match_without_regard_to_case() {
    assert!(names_equal("Project A", "project a"));
    assert!(names_equal("ÉCOLE", "école"));
    assert!(!names_equal("Project A", "Project B"));
    assert!(!names_equal("Project", "Project A"));
}

fn workspaces() -> Vec<Workspace<f32>> {
    let mut first: Workspace<f32> =
        Workspace::new(WorkspaceId(1), "Project A".into(), "/a".into(), WindowId::from(10));
    first.add_tab(WindowId::from(11));
    first.tabs[1].title = "Logs".into();
    let second = Workspace::new(WorkspaceId(2), "Other".into(), "/b".into(), WindowId::from(20));
    vec![first, second]
}

#[test]
fn workspace_selectors_choose_by_identity_name_position_or_caller() {
    let ws = workspaces();
    assert_eq!(resolve_workspace_id(&ws, Some(2), None, None, None), Ok(WorkspaceId(2)));
    assert_eq!(resolve_workspace_id(&ws, Some(7), None, None, None), Err(HostError::WorkspaceNotMatched));
    assert_eq!(resolve_workspace_id(&ws, None, Some(" project a "), None, None), Ok(WorkspaceId(1)));
    assert_eq!(resolve_workspace_id(&ws, None, Some("nope"), None, None), Err(HostError::WorkspaceNotMatched));
    assert_eq!(
        resolve_workspace_id(&ws, None, Some(" "), None, None),
        Err(HostError::InvalidName(NameError::Empty))
    );
    assert_eq!(resolve_workspace_id(&ws, None, None, Some(2), None), Ok(WorkspaceId(2)));
    assert_eq!(resolve_workspace_id(&ws, None, None, Some(0), None), Err(HostError::WorkspaceNotMatched));
    assert_eq!(resolve_workspace_id(&ws, None, None, Some(3), None), Err(HostError::WorkspaceNotMatched));
    let caller = PaneKey { workspace_id: WorkspaceId(2), tab_id: TabId(1), pane_id: PaneId(1) };
    assert_eq!(resolve_workspace_id(&ws, None, None, None, Some(caller)), Ok(WorkspaceId(2)));
    assert_eq!(resolve_workspace_id(&ws, None, None, None, None), Err(HostError::WorkspaceAmbiguous));
    assert_eq!(
        resolve_workspace_id(&ws, Some(1), Some("Other"), None, None),
        Err(HostError::WorkspaceSelectorsExclusive)
    );
    assert_eq!(resolve_workspace_id(&ws[..1].iter().map(|w| Workspace::new(w.id, w.label.clone(), w.identity_cwd.clone(), WindowId::from(10))).collect::<Vec<Workspace<f32>>>(), None, None, None, None), Ok(WorkspaceId(1)));
}

#[test]
fn tab_selectors_choose_within_the_workspace() {
    let ws = workspaces();
    let caller = PaneKey { workspace_id: WorkspaceId(1), tab_id: TabId(1), pane_id: PaneId(1) };
    assert_eq!(resolve_tab_id(&ws, WorkspaceId(1), Some(2), None, None, None, false), Ok(TabId(2)));
    assert_eq!(resolve_tab_id(&ws, WorkspaceId(1), None, Some("logs"), None, None, false), Ok(TabId(2)));
    assert_eq!(resolve_tab_id(&ws, WorkspaceId(1), None, None, Some(1), None, false), Ok(TabId(1)));
    assert_eq!(resolve_tab_id(&ws, WorkspaceId(1), None, None, None, Some(caller), false), Ok(TabId(1)));
    assert_eq!(resolve_tab_id(&ws, WorkspaceId(1), None, None, None, None, false), Err(HostError::TabAmbiguous));
    assert_eq!(resolve_tab_id(&ws, WorkspaceId(1), None, None, None, None, true), Ok(TabId(2)));
    assert_eq!(resolve_tab_id(&ws, WorkspaceId(2), None, None, None, Some(caller), false), Ok(TabId(1)));
    assert_eq!(resolve_tab_id(&ws, WorkspaceId(9), None, None, None, None, false), Err(HostError::WorkspaceNotFound));
    assert_eq!(
        resolve_tab_id(&ws, WorkspaceId(1), Some(1), None, Some(1), None, false),
        Err(HostError::TabSelectorsExclusive)
    );
    assert_eq!(resolve_tab_id(&ws, WorkspaceId(1), Some(5), None, None, None, false), Err(HostError::TabNotMatched));
}

#[test]
fn new_names_must_be_free() {
    let ws = workspaces();
    assert_eq!(validate_unique_workspace_name(&ws, " other ", None), Err(HostError::WorkspaceNameConflict));
    assert_eq!(validate_unique_workspace_name(&ws, "OTHER", Some(WorkspaceId(2))).unwrap(), "OTHER");
    assert_eq!(validate_unique_workspace_name(&ws, " Fresh ", None).unwrap(), "Fresh");
    assert_eq!(
        validate_unique_workspace_name(&ws, "a\u{1b}", None),
        Err(HostError::InvalidName(NameError::ControlCharacter))
    );
    assert_eq!(validate_unique_tab_name(&ws, WorkspaceId(1), "LOGS", None), Err(HostError::TabNameConflict));
    assert_eq!(validate_unique_tab_name(&ws, WorkspaceId(1), "logs", Some(TabId(2))).unwrap(), "logs");
    assert_eq!(validate_unique_tab_name(&ws, WorkspaceId(2), "Logs", None).unwrap(), "Logs");
    assert_eq!(validate_unique_tab_name(&ws, WorkspaceId(5), "Logs", None), Err(HostError::WorkspaceNotFound));
}

#[test]
fn errors_carry_protocol_codes() {
    assert_eq!(HostError::WorkspaceAmbiguous.code(), "ambiguous_selector");
    assert_eq!(HostError::InvalidName(NameError::TooLong).code(), "invalid_params");
    assert_eq!(HostError::TabNameConflict.code(), "name_conflict");
    assert_eq!(HostError::StartNotInTab.code(), "window_not_found");
    assert_eq!(HostError::CannotSplit.code(), "invalid_state");
    assert_eq!(HostError::TabSelectorsExclusive.message(), "tab selectors are mutually exclusive");
}

#[test]
fn a_normalized_name_normalizes_to_itself() {
    for raw in ["  Project A ", "\tLogs\n", "名前", " a b "] {
        let once = normalize_name(raw).unwrap();
        assert_eq!(normalize_name(&once).unwrap(), once);
    }
}
