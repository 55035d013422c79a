//! What a left click on the chrome does, given the open menus and the painted hit targets.
//!
//! Open editors and menus take a click first: the rename editor, then the recovery menu, then
//! the naming context menu, then the gear menu. Only then do the sidebar toggle, the split and
//! gear buttons, the window controls, the tab strip and the workspace list get their turn.

use vstd::prelude::*;

use crate::chrome::{first_hit, hit_index, window_frame_action, ChromeHitMap, WindowFrameAction};
use crate::layout::Axis;
use crate::model::{TabId, WorkspaceId};
use crate::name_editor::NameTarget;
use crate::rect::PhysicalRect;

verus! {

/// The naming context menu, as far as a click on it matters.
#[derive(Clone, Copy, Debug, PartialEq, Eq, Structural)]
pub struct NameMenuState {
    pub target: NameTarget,
    /// Whether the menu offers to resume the tab's automatic title (it does for a tab whose
    /// title was set by hand).
    pub automatic_title_action: bool,
    /// Whether the targeted tab has a focused pane to recover.
    pub has_focused_pane: bool,
}

/// The chrome's open menus and editors.
#[derive(Clone, Copy, Debug, PartialEq, Eq, Structural)]
pub struct ChromeMenus {
    pub name_editor_open: bool,
    pub recovery_menu_open: bool,
    pub name_menu: Option<NameMenuState>,
    pub settings_menu_open: bool,
}

/// What a click on the chrome asks of the shell.
#[derive(Clone, Copy, Debug, PartialEq, Eq, Structural)]
pub enum ChromeClick {
    /// The click landed in the open rename editor.
    InsideNameEditor,
    /// The click landed outside the open rename editor, which closes.
    CloseNameEditor,
    /// Recover the recovery menu's pane, restarting its process or not.
    RecoverPane { restart: bool },
    CloseRecoveryMenu,
    StartNameEditor(NameTarget),
    ResetTabTitle { workspace_id: WorkspaceId, tab_id: TabId },
    /// A later row of a tab's naming menu: the menu closes, and with `recover` set the tab's
    /// focused pane is recovered (restarted when the flag inside is set).
    NameMenuRow { recover: Option<bool> },
    /// A click elsewhere closes the naming menu.
    CloseNameMenu,
    /// A row of, or a click outside, the gear menu closes it.
    CloseSettingsMenu,
    /// A click on the gear menu's own background.
    SettingsMenuBackground,
    CycleSidebar,
    Split(Axis),
    ToggleSettingsMenu,
    Frame(WindowFrameAction),
    NewTab,
    SwitchTab(TabId),
    CloseWorkspace(WorkspaceId),
    NewWorkspace,
    SwitchWorkspace(WorkspaceId),
    /// The click concerns no chrome control.
    Unhandled,
}

/// Index of the first entry whose rectangle holds the point (the length when none does).
pub open spec fn first_keyed_hit<K>(rows: Seq<(K, PhysicalRect)>, px: int, py: int) -> int
    decreases rows.len(),
{
    if rows.len() == 0 {
        0
    } else if rows[0].1.holds(px, py) {
        0
    } else {
        1 + first_keyed_hit(rows.drop_first(), px, py)
    }
}

pub proof fn lemma_first_keyed_hit<K>(rows: Seq<(K, PhysicalRect)>, px: int, py: int)
    ensures
        0 <= first_keyed_hit(rows, px, py) <= rows.len(),
        first_keyed_hit(rows, px, py) < rows.len() ==> rows[first_keyed_hit(rows, px, py)].1.holds(px, py),
        forall|j: int| 0 <= j < first_keyed_hit(rows, px, py) ==> !(#[trigger] rows[j]).1.holds(px, py),
    decreases rows.len(),
{
    if rows.len() > 0 && !rows[0].1.holds(px, py) {
        lemma_first_keyed_hit(rows.drop_first(), px, py);
        assert forall|j: int| 0 <= j < first_keyed_hit(rows, px, py) implies !(#[trigger] rows[j]).1.holds(px, py) by {
            if j > 0 {
                assert(rows[j] == rows.drop_first()[j - 1]);
            }
        }
    }
}

/// The key of the first entry whose rectangle holds the point.
pub open spec fn keyed_hit<K>(rows: Seq<(K, PhysicalRect)>, px: int, py: int) -> Option<K> {
    let i = first_keyed_hit(rows, px, py);
    if i < rows.len() {
        Some(rows[i].0)
    } else {
        None
    }
}

pub(crate) fn find_keyed_hit<K: Copy>(rows: &Vec<(K, PhysicalRect)>, px: i64, py: i64) -> (r: Option<K>)
    ensures
        r == keyed_hit(rows@, px as int, py as int),
{
    proof {
        lemma_first_keyed_hit(rows@, px as int, py as int);
    }
    let mut i: usize = 0;
    while i < rows.len()
        invariant
            i <= rows@.len(),
            forall|j: int| 0 <= j < i ==> !(#[trigger] rows@[j]).1.holds(px as int, py as int),
            0 <= first_keyed_hit(rows@, px as int, py as int) <= rows@.len(),
            first_keyed_hit(rows@, px as int, py as int) < rows@.len() ==> rows@[first_keyed_hit(rows@, px as int, py as int)].1.holds(px as int, py as int),
            forall|j: int| 0 <= j < first_keyed_hit(rows@, px as int, py as int) ==> !(#[trigger] rows@[j]).1.holds(px as int, py as int),
        decreases rows@.len() - i,
    {
        if rows[i].1.contains(px, py) {
            return Some(rows[i].0);
        }
        i = i + 1;
    }
    None
}

/// The row of the naming menu that was clicked, if any.
pub open spec fn context_row(hits: ChromeHitMap, px: int, py: int) -> Option<int> {
    let i = first_hit(hits.context_items@, px, py);
    if i < hits.context_items@.len() {
        Some(i)
    } else {
        None
    }
}

/// A click on the naming menu: row 0 renames; for a tab, row 1 resumes its automatic title
/// when that is offered, and the next two rows recover its focused pane (without, then with,
/// a restart); anywhere else the menu closes.
pub open spec fn name_menu_click(menu: NameMenuState, row: Option<int>) -> ChromeClick {
    match row {
        Some(index) => if index == 0 {
            ChromeClick::StartNameEditor(menu.target)
        } else {
            match menu.target {
            NameTarget::Tab { workspace_id, tab_id } => if index == 1
                && menu.automatic_title_action {
                ChromeClick::ResetTabTitle { workspace_id, tab_id }
            } else {
                let reset_index = if menu.automatic_title_action {
                    2int
                } else {
                    1int
                };
                ChromeClick::NameMenuRow {
                    recover: if !menu.has_focused_pane {
                        None
                    } else if index == reset_index {
                        Some(false)
                    } else if index == reset_index + 1 {
                        Some(true)
                    } else {
                        None
                    },
                }
            },
            NameTarget::Workspace(_) => ChromeClick::CloseNameMenu,
        }
        },
        None => ChromeClick::CloseNameMenu,
    }
}

/// A click on the chrome's fixed controls, once no menu has claimed it.
pub open spec fn control_click(hits: ChromeHitMap, px: int, py: int) -> ChromeClick {
    if hits.toggle.holds(px, py) {
        ChromeClick::CycleSidebar
    } else if hits.split_horizontal.holds(px, py) {
        ChromeClick::Split(Axis::Horizontal)
    } else if hits.split_vertical.holds(px, py) {
        ChromeClick::Split(Axis::Vertical)
    } else if hits.gear.holds(px, py) {
        ChromeClick::ToggleSettingsMenu
    } else if hits.minimize.holds(px, py) {
        ChromeClick::Frame(WindowFrameAction::Minimize)
    } else if hits.maximize.holds(px, py) {
        ChromeClick::Frame(WindowFrameAction::ToggleMaximize)
    } else if hits.close.holds(px, py) {
        ChromeClick::Frame(WindowFrameAction::Close)
    } else if hits.new_tab.holds(px, py) {
        ChromeClick::NewTab
    } else if keyed_hit(hits.tab_rows@, px, py) is Some {
        ChromeClick::SwitchTab(keyed_hit(hits.tab_rows@, px, py).unwrap())
    } else if keyed_hit(hits.close_buttons@, px, py) is Some {
        ChromeClick::CloseWorkspace(keyed_hit(hits.close_buttons@, px, py).unwrap())
    } else if hits.new_workspace.holds(px, py) {
        ChromeClick::NewWorkspace
    } else if keyed_hit(hits.workspace_rows@, px, py) is Some {
        ChromeClick::SwitchWorkspace(keyed_hit(hits.workspace_rows@, px, py).unwrap())
    } else {
        ChromeClick::Unhandled
    }
}

/// What a click at `(px, py)` does.
pub open spec fn chrome_click(menus: ChromeMenus, hits: ChromeHitMap, px: int, py: int) -> ChromeClick {
    if menus.name_editor_open {
        if hits.rename_editor.holds(px, py) {
            ChromeClick::InsideNameEditor
        } else {
            ChromeClick::CloseNameEditor
        }
    } else if menus.recovery_menu_open {
        match context_row(hits, px, py) {
            Some(index) => if index == 0 {
                ChromeClick::RecoverPane { restart: false }
            } else if index == 1 {
                ChromeClick::RecoverPane { restart: true }
            } else {
                ChromeClick::CloseRecoveryMenu
            },
            None => ChromeClick::CloseRecoveryMenu,
        }
    } else if menus.name_menu is Some {
        name_menu_click(menus.name_menu.unwrap(), context_row(hits, px, py))
    } else if menus.settings_menu_open && !hits.gear.holds(px, py) && (first_hit(
        hits.settings_items@,
        px,
        py,
    ) < hits.settings_items@.len() || !hits.settings_menu.holds(px, py)) {
        ChromeClick::CloseSettingsMenu
    } else if menus.settings_menu_open && !hits.gear.holds(px, py) {
        ChromeClick::SettingsMenuBackground
    } else {
        control_click(hits, px, py)
    }
}

/// With no menu or editor open, a click that lands on no button of the tab bar, no tab and not
/// the new-tab button, but inside the close button of a workspace (and no other close button),
/// closes that workspace, though the button also lies inside the workspace's row.
pub proof fn lemma_close_button_closes_its_workspace(
    menus: ChromeMenus,
    hits: ChromeHitMap,
    px: int,
    py: int,
    i: int,
)
    requires
        !menus.name_editor_open,
        !menus.recovery_menu_open,
        menus.name_menu is None,
        !menus.settings_menu_open,
        !hits.toggle.holds(px, py),
        !hits.split_horizontal.holds(px, py),
        !hits.split_vertical.holds(px, py),
        !hits.gear.holds(px, py),
        !hits.minimize.holds(px, py),
        !hits.maximize.holds(px, py),
        !hits.close.holds(px, py),
        !hits.new_tab.holds(px, py),
        forall|k: int| 0 <= k < hits.tab_rows@.len() ==> !(#[trigger] hits.tab_rows@[k]).1.holds(px, py),
        0 <= i < hits.close_buttons@.len(),
        hits.close_buttons@[i].1.holds(px, py),
        forall|k: int|
            0 <= k < hits.close_buttons@.len() && k != i ==> !(#[trigger] hits.close_buttons@[k]).1.holds(
                px,
                py,
            ),
    ensures
        chrome_click(menus, hits, px, py) == ChromeClick::CloseWorkspace(hits.close_buttons@[i].0),
{
    lemma_first_keyed_hit(hits.tab_rows@, px, py);
    lemma_first_keyed_hit(hits.close_buttons@, px, py);
    let f = first_keyed_hit(hits.close_buttons@, px, py);
    if f < i {
        assert(hits.close_buttons@[f].1.holds(px, py));
    }
    assert(f == i);
    if first_keyed_hit(hits.tab_rows@, px, py) < hits.tab_rows@.len() {
        let t = first_keyed_hit(hits.tab_rows@, px, py);
        assert(hits.tab_rows@[t].1.holds(px, py));
    }
}

/// Decide what a click at pixel `(px, py)` (rounded down) does (see [`chrome_click`]).
pub fn resolve_chrome_click(menus: &ChromeMenus, hits: &ChromeHitMap, px: i64, py: i64) -> (r:
    ChromeClick)
    ensures
        r == chrome_click(*menus, *hits, px as int, py as int),
{
    if menus.name_editor_open {
        return if hits.rename_editor.contains(px, py) {
            ChromeClick::InsideNameEditor
        } else {
            ChromeClick::CloseNameEditor
        };
    }
    if menus.recovery_menu_open {
        return match hit_index(&hits.context_items, px, py) {
            Some(0) => ChromeClick::RecoverPane { restart: false },
            Some(1) => ChromeClick::RecoverPane { restart: true },
            _ => ChromeClick::CloseRecoveryMenu,
        };
    }
    if let Some(menu) = menus.name_menu {
        let row = hit_index(&hits.context_items, px, py);
        return match row {
            Some(0) => ChromeClick::StartNameEditor(menu.target),
            Some(index) => match menu.target {
                NameTarget::Tab { workspace_id, tab_id } => {
                    if index == 1 && menu.automatic_title_action {
                        ChromeClick::ResetTabTitle { workspace_id, tab_id }
                    } else {
                        let reset_index: usize = if menu.automatic_title_action {
                            2
                        } else {
                            1
                        };
                        let recover = if !menu.has_focused_pane {
                            None
                        } else if index == reset_index {
                            Some(false)
                        } else if index == reset_index + 1 {
                            Some(true)
                        } else {
                            None
                        };
                        ChromeClick::NameMenuRow { recover }
                    }
                },
                NameTarget::Workspace(_) => ChromeClick::CloseNameMenu,
            },
            None => ChromeClick::CloseNameMenu,
        };
    }
    if menus.settings_menu_open && !hits.gear.contains(px, py) {
        let item = hit_index(&hits.settings_items, px, py);
        if item.is_some() || !hits.settings_menu.contains(px, py) {
            return ChromeClick::CloseSettingsMenu;
        }
        return ChromeClick::SettingsMenuBackground;
    }
    if hits.toggle.contains(px, py) {
        return ChromeClick::CycleSidebar;
    }
    if hits.split_horizontal.contains(px, py) {
        return ChromeClick::Split(Axis::Horizontal);
    }
    if hits.split_vertical.contains(px, py) {
        return ChromeClick::Split(Axis::Vertical);
    }
    if hits.gear.contains(px, py) {
        return ChromeClick::ToggleSettingsMenu;
    }
    if let Some(action) = window_frame_action(hits, px, py) {
        return ChromeClick::Frame(action);
    }
    if hits.new_tab.contains(px, py) {
        return ChromeClick::NewTab;
    }
    if let Some(tab_id) = find_keyed_hit(&hits.tab_rows, px, py) {
        return ChromeClick::SwitchTab(tab_id);
    }
    if let Some(workspace_id) = find_keyed_hit(&hits.close_buttons, px, py) {
        return ChromeClick::CloseWorkspace(workspace_id);
    }
    if hits.new_workspace.contains(px, py) {
        return ChromeClick::NewWorkspace;
    }
    if let Some(workspace_id) = find_keyed_hit(&hits.workspace_rows, px, py) {
        return ChromeClick::SwitchWorkspace(workspace_id);
    }
    ChromeClick::Unhandled
}

} // verus!
