use vivida::name_editor::{NameEditor, NameTarget};
use vivida::model::WorkspaceId;
use vivida::navigation::ordinal_index;

#[test]
fn name_editor_replaces_selection_and_edits_unicode_by_character() {
    let mut editor = NameEditor::new(NameTarget::Workspace(WorkspaceId(1)), "Old Name");
    editor.insert("界a");
    assert_eq!(editor.text(), "界a");
    editor.backspace();
    assert_eq!(editor.text(), "界");
    editor.move_left();
    editor.delete();
    assert!(editor.text().is_empty());
}

#[test]
fn one_based_ordinals_are_checked_before_indexing() {
    assert_eq!(ordinal_index(1), Some(0));
    assert_eq!(ordinal_index(2), Some(1));
    assert_eq!(ordinal_index(0), None);
    assert_eq!(ordinal_index(u64::MAX), usize::try_from(u64::MAX - 1).ok());
}
