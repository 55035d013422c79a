//! Decisions of the shell around the model: what a key press or a chrome window event asks
//! for, which tab a cycle lands on, which pane stands in for a hidden one, and how closing a
//! workspace or losing its last pane moves the active workspace.

use vstd::prelude::*;

use crate::chrome::ChromeHitMap;
use crate::click::{find_keyed_hit, keyed_hit};
use crate::layout::Axis;
use crate::model::{
    all_tabs_settled, all_tabs_wf, find_tab, find_workspace, remove_owned_pane, tab_settled, lemma_tab_position, lemma_workspace_position, owner_position,
    tab_position, table_get, workspace_position, PaneKey, Tab, TabId, WindowId, Workspace,
    WorkspaceId,
};
use crate::rect::{PhysicalRect, PhysicalSize};
use crate::name_editor::NameTarget;

verus! {

/// The physical keys that shell shortcuts use.
#[derive(Clone, Copy, Debug, PartialEq, Eq, Structural)]
pub enum ShellKey {
    F12,
    KeyT,
    KeyD,
    KeyN,
    KeyB,
    KeyW,
    BracketLeft,
    BracketRight,
    Escape,
    /// A digit key of the main row, `0` to `9`.
    Digit(u8),
    Other,
}

/// The modifier keys held. `shell` is the platform's shortcut modifier: Command on macOS,
/// Control elsewhere.
#[derive(Clone, Copy, Debug, PartialEq, Eq, Structural)]
pub struct Modifiers {
    pub shell: bool,
    pub shift: bool,
    pub control: bool,
}

/// Whether the platform's shortcut modifier is held: Command on macOS (`macos`), Control
/// elsewhere.
pub fn shell_modifier_pressed(control: bool, command: bool, macos: bool) -> (r: bool)
    ensures
        r == if macos {
            command
        } else {
            control
        },
{
    if macos {
        command
    } else {
        control
    }
}

/// What a shell shortcut asks for.
#[derive(Clone, Copy, Debug, PartialEq, Eq, Structural)]
pub enum ShellShortcut {
    /// Open the recovery menu of the focused pane.
    OpenRecoveryMenu,
    NewTab,
    Split(Axis),
    NewWorkspace,
    CycleSidebar,
    CloseWorkspace,
    ClosePane,
    NextTab,
    PreviousTab,
    /// Switch to the workspace at this position.
    SwitchWorkspace(usize),
}

/// Position of the workspace that digit key `digit` selects: `1` to `9` select the first to
/// the ninth.
pub fn workspace_shortcut_index(digit: u8) -> (r: Option<usize>)
    ensures
        r == if 1 <= digit <= 9 {
            Some((digit - 1) as usize)
        } else {
            None::<usize>
        },
{
    if 1 <= digit && digit <= 9 {
        Some((digit - 1) as usize)
    } else {
        None
    }
}

/// The shortcut that pressing `key` with `modifiers` triggers, with `workspace_count`
/// workspaces open.
pub open spec fn shortcut_for(key: ShellKey, modifiers: Modifiers, workspace_count: nat) -> Option<
    ShellShortcut,
> {
    if key == ShellKey::F12 && modifiers.control && modifiers.shift {
        Some(ShellShortcut::OpenRecoveryMenu)
    } else if !modifiers.shell {
        None
    } else {
        match key {
            ShellKey::KeyT => Some(ShellShortcut::NewTab),
            ShellKey::KeyD => Some(
                ShellShortcut::Split(
                    if modifiers.shift {
                        Axis::Vertical
                    } else {
                        Axis::Horizontal
                    },
                ),
            ),
            ShellKey::KeyN => if modifiers.shift {
                Some(ShellShortcut::NewWorkspace)
            } else {
                None
            },
            ShellKey::KeyB => if modifiers.shift {
                Some(ShellShortcut::CycleSidebar)
            } else {
                None
            },
            ShellKey::KeyW => if modifiers.shift {
                Some(ShellShortcut::CloseWorkspace)
            } else {
                Some(ShellShortcut::ClosePane)
            },
            ShellKey::BracketRight => if modifiers.shift {
                Some(ShellShortcut::NextTab)
            } else {
                None
            },
            ShellKey::BracketLeft => if modifiers.shift {
                Some(ShellShortcut::PreviousTab)
            } else {
                None
            },
            ShellKey::Digit(d) => if 1 <= d <= 9 && d - 1 < workspace_count {
                Some(ShellShortcut::SwitchWorkspace((d - 1) as usize))
            } else {
                None
            },
            _ => None,
        }
    }
}

/// The shortcut that pressing `key` with `modifiers` triggers, if any: with Control and
/// Shift, F12 opens the recovery menu; with the shell modifier, T opens a tab, D splits the
/// focused pane (stacked with Shift, side by side without), Shift+N opens a workspace,
/// Shift+B cycles the sidebar, W closes the pane (the workspace with Shift), Shift+] and
/// Shift+[ cycle the tabs, and digits 1 to 9 switch to that workspace when it exists.
pub fn shell_shortcut(key: ShellKey, modifiers: Modifiers, workspace_count: usize) -> (r: Option<
    ShellShortcut,
>)
    ensures
        r == shortcut_for(key, modifiers, workspace_count as nat),
{
    if key == ShellKey::F12 && modifiers.control && modifiers.shift {
        return Some(ShellShortcut::OpenRecoveryMenu);
    }
    if !modifiers.shell {
        return None;
    }
    match key {
        ShellKey::KeyT => Some(ShellShortcut::NewTab),
        ShellKey::KeyD => Some(
            ShellShortcut::Split(
                if modifiers.shift {
                    Axis::Vertical
                } else {
                    Axis::Horizontal
                },
            ),
        ),
        ShellKey::KeyN => if modifiers.shift {
            Some(ShellShortcut::NewWorkspace)
        } else {
            None
        },
        ShellKey::KeyB => if modifiers.shift {
            Some(ShellShortcut::CycleSidebar)
        } else {
            None
        },
        ShellKey::KeyW => if modifiers.shift {
            Some(ShellShortcut::CloseWorkspace)
        } else {
            Some(ShellShortcut::ClosePane)
        },
        ShellKey::BracketRight => if modifiers.shift {
            Some(ShellShortcut::NextTab)
        } else {
            None
        },
        ShellKey::BracketLeft => if modifiers.shift {
            Some(ShellShortcut::PreviousTab)
        } else {
            None
        },
        ShellKey::Digit(d) => match workspace_shortcut_index(d) {
            Some(index) => if index < workspace_count {
                Some(ShellShortcut::SwitchWorkspace(index))
            } else {
                None
            },
            None => None,
        },
        _ => None,
    }
}

/// The name of the workspace or tab under the pointer: a tab of the active workspace in the
/// tab strip, else a workspace in the sidebar.
pub open spec fn name_target_under(
    hits: ChromeHitMap,
    active_workspace: Option<WorkspaceId>,
    px: int,
    py: int,
) -> Option<NameTarget> {
    match (keyed_hit(hits.tab_rows@, px, py), active_workspace) {
        (Some(tab_id), Some(workspace_id)) => Some(
            NameTarget::Tab { workspace_id: workspace_id, tab_id: tab_id },
        ),
        _ => match keyed_hit(hits.workspace_rows@, px, py) {
            Some(id) => Some(NameTarget::Workspace(id)),
            None => None,
        },
    }
}

/// The name under the pointer (see [`name_target_under`]).
pub fn name_target_at(hits: &ChromeHitMap, active_workspace: Option<WorkspaceId>, px: i64, py: i64) -> (r:
    Option<NameTarget>)
    ensures
        r == name_target_under(*hits, active_workspace, px as int, py as int),
{
    if let Some(tab_id) = find_keyed_hit(&hits.tab_rows, px, py) {
        if let Some(workspace_id) = active_workspace {
            return Some(NameTarget::Tab { workspace_id, tab_id });
        }
    }
    match find_keyed_hit(&hits.workspace_rows, px, py) {
        Some(id) => Some(NameTarget::Workspace(id)),
        None => None,
    }
}

/// The workspace under the pointer in the sidebar.
pub fn hovered_workspace(hits: &ChromeHitMap, px: i64, py: i64) -> (r: Option<WorkspaceId>)
    ensures
        r == keyed_hit(hits.workspace_rows@, px as int, py as int),
{
    find_keyed_hit(&hits.workspace_rows, px, py)
}

// ---------------------------------------------------------------------------------------------
// Chrome window events
// ---------------------------------------------------------------------------------------------

/// A window event of the chrome, as far as the shell's decision depends on it.
#[derive(Clone, Copy, Debug, PartialEq, Eq, Structural)]
pub enum ChromeInput {
    CloseRequested,
    Resized,
    ScaleFactorChanged,
    Focused(bool),
    RedrawRequested,
    CursorMoved,
    CursorLeft,
    /// A mouse button changed state.
    MouseInput { left: bool, right: bool, pressed: bool },
    /// A key changed state; `shortcut` is what it triggers as a shell shortcut (see
    /// [`shell_shortcut`]).
    Keyboard { pressed: bool, escape: bool, shortcut: Option<ShellShortcut> },
    /// An input-method event.
    Ime,
    /// Wheel, touch and modifier events, which only panes take.
    Other,
}

/// The chrome's open menus and editors, and the name under the pointer.
#[derive(Clone, Copy, Debug, PartialEq, Eq, Structural)]
pub struct ChromeState {
    pub name_editor_open: bool,
    /// Whether the rename editor lives in a window of its own.
    pub rename_editor_window: bool,
    pub settings_menu_open: bool,
    pub recovery_menu_open: bool,
    pub name_menu_open: bool,
    pub name_under_pointer: Option<NameTarget>,
    /// Whether the pointer is over, or captured by, a pane that takes its events from the
    /// chrome (panes embedded in the chrome do; native child windows take their own).
    pub pointer_on_pane: bool,
}

/// What the shell does with a chrome window event.
#[derive(Clone, Copy, Debug, PartialEq, Eq, Structural)]
pub enum ChromeResponse {
    Exit,
    Shortcut(ShellShortcut),
    /// Resize the chrome's surface and lay the panes out again.
    Relayout,
    FocusActivePane,
    /// The window lost focus: the menus close, and the name editor too when `drop_editor`.
    DismissOverlays { drop_editor: bool },
    Render,
    /// Record the pointer, update the hovered workspace and the cursor.
    TrackPointer,
    ForgetPointer,
    OpenNameMenu(NameTarget),
    /// Close the open menus and the name editor; the recovery menu when `recovery`.
    CloseMenus { recovery: bool },
    /// A left click for the chrome's controls (see the click module).
    Click,
    /// The key goes to the name editor.
    EditName,
    /// The input-method event goes to the name editor.
    ComposeName,
    /// Nothing is done.
    Ignore,
    CloseSettingsMenu,
    /// The event goes to the pane under the pointer or the focused pane, where panes take
    /// events from the chrome.
    ToPane,
}

/// The response to a chrome window event.
pub open spec fn chrome_response(input: ChromeInput, state: ChromeState) -> ChromeResponse {
    match input {
        ChromeInput::Keyboard { pressed, escape, shortcut } => if !state.name_editor_open && pressed
            && shortcut is Some {
            ChromeResponse::Shortcut(shortcut->0)
        } else if state.name_editor_open && pressed {
            ChromeResponse::EditName
        } else if pressed && escape && state.settings_menu_open {
            ChromeResponse::CloseSettingsMenu
        } else {
            ChromeResponse::ToPane
        },
        ChromeInput::CloseRequested => ChromeResponse::Exit,
        ChromeInput::Resized => ChromeResponse::Relayout,
        ChromeInput::ScaleFactorChanged => ChromeResponse::Relayout,
        ChromeInput::Focused(true) => if state.name_editor_open {
            ChromeResponse::Ignore
        } else {
            ChromeResponse::FocusActivePane
        },
        ChromeInput::Focused(false) => ChromeResponse::DismissOverlays {
            drop_editor: !state.rename_editor_window && state.name_editor_open,
        },
        ChromeInput::RedrawRequested => ChromeResponse::Render,
        ChromeInput::CursorMoved => ChromeResponse::TrackPointer,
        ChromeInput::CursorLeft => ChromeResponse::ForgetPointer,
        ChromeInput::MouseInput { left, right, pressed } => if pressed && right {
            match state.name_under_pointer {
                Some(target) => ChromeResponse::OpenNameMenu(target),
                None => if state.recovery_menu_open || state.name_menu_open
                    || state.name_editor_open {
                    ChromeResponse::CloseMenus { recovery: state.recovery_menu_open }
                } else {
                    ChromeResponse::ToPane
                },
            }
        } else if pressed && left && (!state.pointer_on_pane || state.settings_menu_open) {
            ChromeResponse::Click
        } else {
            ChromeResponse::ToPane
        },
        ChromeInput::Ime => if state.name_editor_open {
            ChromeResponse::ComposeName
        } else {
            ChromeResponse::ToPane
        },
        ChromeInput::Other => ChromeResponse::ToPane,
    }
}

/// What the shell does with a chrome window event: shortcuts come first unless a name is
/// being edited, then the name editor takes keys, Escape closes the gear menu, a right click
/// opens the naming menu of the name under the pointer or closes open menus, a left click goes
/// to the chrome's controls (to a pane that takes the chrome's events instead, when it is
/// under the pointer and the gear menu is closed), input-method events go to the name editor
/// while it is open, and the rest goes to the panes.
pub fn chrome_event_response(input: ChromeInput, state: ChromeState) -> (r: ChromeResponse)
    ensures
        r == chrome_response(input, state),
{
    match input {
        ChromeInput::Keyboard { pressed, escape, shortcut } => {
            if !state.name_editor_open && pressed {
                if let Some(s) = shortcut {
                    return ChromeResponse::Shortcut(s);
                }
            }
            if state.name_editor_open && pressed {
                ChromeResponse::EditName
            } else if pressed && escape && state.settings_menu_open {
                ChromeResponse::CloseSettingsMenu
            } else {
                ChromeResponse::ToPane
            }
        },
        ChromeInput::CloseRequested => ChromeResponse::Exit,
        ChromeInput::Resized => ChromeResponse::Relayout,
        ChromeInput::ScaleFactorChanged => ChromeResponse::Relayout,
        ChromeInput::Focused(focused) => {
            if focused {
                if state.name_editor_open {
                    ChromeResponse::Ignore
                } else {
                    ChromeResponse::FocusActivePane
                }
            } else {
                ChromeResponse::DismissOverlays {
                    drop_editor: !state.rename_editor_window && state.name_editor_open,
                }
            }
        },
        ChromeInput::RedrawRequested => ChromeResponse::Render,
        ChromeInput::CursorMoved => ChromeResponse::TrackPointer,
        ChromeInput::CursorLeft => ChromeResponse::ForgetPointer,
        ChromeInput::MouseInput { left, right, pressed } => {
            if pressed && right {
                match state.name_under_pointer {
                    Some(target) => ChromeResponse::OpenNameMenu(target),
                    None => {
                        if state.recovery_menu_open || state.name_menu_open
                            || state.name_editor_open {
                            ChromeResponse::CloseMenus { recovery: state.recovery_menu_open }
                        } else {
                            ChromeResponse::ToPane
                        }
                    },
                }
            } else if pressed && left && (!state.pointer_on_pane || state.settings_menu_open) {
                ChromeResponse::Click
            } else {
                ChromeResponse::ToPane
            }
        },
        ChromeInput::Ime => {
            if state.name_editor_open {
                ChromeResponse::ComposeName
            } else {
                ChromeResponse::ToPane
            }
        },
        ChromeInput::Other => ChromeResponse::ToPane,
    }
}

// ---------------------------------------------------------------------------------------------
// Tabs, panes and workspaces
// ---------------------------------------------------------------------------------------------

/// The tab that cycling `direction` steps from the active tab lands on, wrapping around; none
/// when the active tab is missing or the workspace has fewer than two tabs.
pub open spec fn cycled_tab<W>(tabs: Seq<Tab<W>>, active: TabId, direction: int) -> Option<TabId> {
    let i = tab_position(tabs, active);
    let n = tabs.len() as int;
    if i >= n || n < 2 {
        None
    } else {
        Some(tabs[(i + direction) % n].id)
    }
}

/// The tab that cycling `direction` steps from the active tab lands on (see [`cycled_tab`]).
pub fn cycle_tab_target<W>(workspace: &Workspace<W>, direction: isize) -> (r: Option<TabId>)
    ensures
        r == cycled_tab(workspace.tabs@, workspace.active_tab, direction as int),
{
    let index = match find_tab(&workspace.tabs, workspace.active_tab) {
        Some(i) => i,
        None => return None,
    };
    let len = workspace.tabs.len();
    if len < 2 {
        return None;
    }
    let sum = index as i128 + direction as i128;
    let next = match sum.checked_rem_euclid(len as i128) {
        Some(m) => m,
        None => return None,
    };
    assert(0 <= next < len);
    Some(workspace.tabs[next as usize].id)
}

/// Which tab a pane asks its workspace to show.
#[derive(Clone, Copy, Debug, PartialEq, Eq, Structural)]
pub enum TabSelection {
    Next,
    Previous,
    /// The tab at this position, counting from zero.
    Index(usize),
    Last,
}

/// The tab that `selection` picks among `tabs` whose active tab is `active`: the next or
/// previous tab, wrapping around (see [`cycled_tab`]), the tab at a position, or the last tab;
/// none where there is no such tab.
pub open spec fn selected_tab<W>(tabs: Seq<Tab<W>>, active: TabId, selection: TabSelection) -> Option<TabId> {
    match selection {
        TabSelection::Next => cycled_tab(tabs, active, 1),
        TabSelection::Previous => cycled_tab(tabs, active, -1),
        TabSelection::Index(i) => if i < tabs.len() {
            Some(tabs[i as int].id)
        } else {
            None
        },
        TabSelection::Last => if tabs.len() > 0 {
            Some(tabs.last().id)
        } else {
            None
        },
    }
}

/// The tab that `selection` picks in `workspace` (see [`selected_tab`]).
pub fn tab_for_selection<W>(workspace: &Workspace<W>, selection: TabSelection) -> (r: Option<TabId>)
    ensures
        r == selected_tab(workspace.tabs@, workspace.active_tab, selection),
{
    match selection {
        TabSelection::Next => cycle_tab_target(workspace, 1),
        TabSelection::Previous => cycle_tab_target(workspace, -1),
        TabSelection::Index(i) => if i < workspace.tabs.len() {
            Some(workspace.tabs[i].id)
        } else {
            None
        },
        TabSelection::Last => if workspace.tabs.len() > 0 {
            Some(workspace.tabs[workspace.tabs.len() - 1].id)
        } else {
            None
        },
    }
}

/// The window of a tab's focused pane, or else of its first pane.
pub open spec fn focused_window<W>(tab: Tab<W>) -> Option<WindowId> {
    match table_get(tab.panes@, tab.focused_pane) {
        Some(w) => Some(w),
        None => table_get(tab.panes@, tab.root.leaves()[0]),
    }
}

/// The focused window of the first tab, in order, that is not `source`'s tab and has one.
pub open spec fn alternative_in_tabs<W>(
    workspace_id: WorkspaceId,
    tabs: Seq<Tab<W>>,
    source: PaneKey,
) -> Option<WindowId>
    decreases tabs.len(),
{
    if tabs.len() == 0 {
        None
    } else if (workspace_id != source.workspace_id || tabs[0].id != source.tab_id) && focused_window(
        tabs[0],
    ) is Some {
        focused_window(tabs[0])
    } else {
        alternative_in_tabs(workspace_id, tabs.drop_first(), source)
    }
}

/// The focused window of the first tab, over all workspaces in order, that is not
/// `source`'s tab and has one.
pub open spec fn alternative_in<W>(workspaces: Seq<Workspace<W>>, source: PaneKey) -> Option<WindowId>
    decreases workspaces.len(),
{
    if workspaces.len() == 0 {
        None
    } else {
        match alternative_in_tabs(workspaces[0].id, workspaces[0].tabs@, source) {
            Some(w) => Some(w),
            None => alternative_in(workspaces.drop_first(), source),
        }
    }
}

fn alternative_tab_window<W>(workspace_id: WorkspaceId, tabs: &Vec<Tab<W>>, source: PaneKey) -> (r:
    Option<WindowId>)
    requires
        forall|t: int| 0 <= t < tabs@.len() ==> (#[trigger] tabs@[t]).wf(),
    ensures
        r == alternative_in_tabs(workspace_id, tabs@, source),
{
    let mut i: usize = 0;
    proof {
        assert(tabs@.subrange(0, tabs@.len() as int) =~= tabs@);
    }
    while i < tabs.len()
        invariant
            i <= tabs@.len(),
            forall|t: int| 0 <= t < tabs@.len() ==> (#[trigger] tabs@[t]).wf(),
            alternative_in_tabs(workspace_id, tabs@, source) == alternative_in_tabs(
                workspace_id,
                tabs@.subrange(i as int, tabs@.len() as int),
                source,
            ),
        decreases tabs@.len() - i,
    {
        let tab = &tabs[i];
        proof {
            let rest = tabs@.subrange(i as int, tabs@.len() as int);
            assert(rest[0] == *tab);
            assert(rest.drop_first() =~= tabs@.subrange(i + 1, tabs@.len() as int));
            assert(tab.wf());
            crate::layout::lemma_shaped_weaken(tab.root, 2, true, 1, false);
        }
        if workspace_id.0 != source.workspace_id.0 || tab.id.0 != source.tab_id.0 {
            if let Some(window) = tab.focused_window_id() {
                return Some(window);
            }
        }
        i = i + 1;
    }
    None
}

/// The window that stands in for a pane of tab `source` when that pane is hidden: the
/// focused window of the first other tab, over all workspaces in order.
pub fn alternative_tab_pane<W>(workspaces: &Vec<Workspace<W>>, source: PaneKey) -> (r: Option<
    WindowId,
>)
    requires
        all_tabs_wf(workspaces@),
    ensures
        r == alternative_in(workspaces@, source),
{
    let mut i: usize = 0;
    proof {
        assert(workspaces@.subrange(0, workspaces@.len() as int) =~= workspaces@);
    }
    while i < workspaces.len()
        invariant
            i <= workspaces@.len(),
            all_tabs_wf(workspaces@),
            alternative_in(workspaces@, source) == alternative_in(
                workspaces@.subrange(i as int, workspaces@.len() as int),
                source,
            ),
        decreases workspaces@.len() - i,
    {
        let workspace = &workspaces[i];
        proof {
            let rest = workspaces@.subrange(i as int, workspaces@.len() as int);
            assert(rest[0] == *workspace);
            assert(rest.drop_first() =~= workspaces@.subrange(i + 1, workspaces@.len() as int));
            assert forall|t: int| 0 <= t < workspace.tabs@.len() implies (#[trigger] workspace.tabs@[t]).wf() by {
                assert(workspaces@[i as int].tabs@[t].wf());
            }
        }
        if let Some(window) = alternative_tab_window(workspace.id, &workspace.tabs, source) {
            return Some(window);
        }
        i = i + 1;
    }
    None
}

/// `after` is `before` with pane `pane` of tab `ti` of workspace `wi` selected: that tab made
/// active and the pane focused, nothing else changed.
pub open spec fn pane_selected<W>(
    before: Seq<Workspace<W>>,
    after: Seq<Workspace<W>>,
    wi: int,
    ti: int,
    pane: crate::model::PaneId,
) -> bool {
    let old_tab = before[wi].tabs@[ti];
    let new_tab = after[wi].tabs@[ti];
    &&& after.len() == before.len()
    &&& forall|i: int| 0 <= i < before.len() && i != wi ==> after[i] == before[i]
    &&& after[wi].id == before[wi].id
    &&& after[wi].label == before[wi].label
    &&& after[wi].identity_cwd == before[wi].identity_cwd
    &&& after[wi].active_tab == old_tab.id
    &&& after[wi].next_tab_id == before[wi].next_tab_id
    &&& after[wi].tabs@ == before[wi].tabs@.update(ti, new_tab)
    &&& new_tab.id == old_tab.id
    &&& new_tab.root == old_tab.root
    &&& new_tab.title == old_tab.title
    &&& new_tab.custom_title == old_tab.custom_title
    &&& new_tab.panes == old_tab.panes
    &&& new_tab.next_pane_id == old_tab.next_pane_id
    &&& new_tab.focused_pane == pane
}

/// Select the pane named by `key`, when it is hosted by `window`: its tab becomes the
/// workspace's active tab and the pane that tab's focused pane. Returns whether it was
/// selected; nothing changes otherwise.
pub fn select_pane<W>(workspaces: &mut Vec<Workspace<W>>, key: PaneKey, window: WindowId) -> (r: bool)
    ensures
        match owner_position(old(workspaces)@, key) {
            Some((wi, ti)) => if table_get(old(workspaces)@[wi].tabs@[ti].panes@, key.pane_id) == Some(
                window,
            ) {
                r && pane_selected(old(workspaces)@, final(workspaces)@, wi, ti, key.pane_id)
            } else {
                !r && *final(workspaces) == *old(workspaces)
            },
            None => !r && *final(workspaces) == *old(workspaces),
        },
        all_tabs_wf(old(workspaces)@) ==> all_tabs_wf(final(workspaces)@),
{
    let wi = match find_workspace(workspaces, key.workspace_id) {
        Some(wi) => wi,
        None => return false,
    };
    let ti = match find_tab(&workspaces[wi].tabs, key.tab_id) {
        Some(ti) => ti,
        None => return false,
    };
    match workspaces[wi].tabs[ti].window_id(key.pane_id) {
        Some(hosted) => {
            if hosted.0 != window.0 {
                return false;
            }
        },
        None => return false,
    }
    let ghost before = workspaces@;
    workspaces[wi].active_tab = key.tab_id;
    workspaces[wi].tabs[ti].focused_pane = key.pane_id;
    proof {
        assert(workspaces@[wi as int].tabs@ =~= before[wi as int].tabs@.update(
            ti as int,
            workspaces@[wi as int].tabs@[ti as int],
        ));
        if all_tabs_wf(before) {
            assert(before[wi as int].tabs@[ti as int].wf());
            assert forall|w: int, t: int|
                0 <= w < workspaces@.len() && 0 <= t < workspaces@[w].tabs@.len() implies (
                #[trigger] workspaces@[w].tabs@[t]).wf() by {
                if w == wi && t == ti {
                } else if w == wi {
                    assert(workspaces@[w].tabs@[t] == before[w].tabs@[t]);
                } else {
                    assert(workspaces@[w] == before[w]);
                }
            }
        }
    }
    true
}

/// The active workspace after workspace `closing` starts to close: when it is the active one
/// and others exist, the one after it (or, for the last, the one before it) becomes active.
pub open spec fn active_after_close<W>(
    workspaces: Seq<Workspace<W>>,
    active: Option<WorkspaceId>,
    closing: WorkspaceId,
) -> Option<WorkspaceId> {
    let i = workspace_position(workspaces, closing);
    let n = workspaces.len() as int;
    if i < n && n > 1 && active == Some(closing) {
        Some(workspaces[if i + 1 < n { i + 1 } else { i - 1 }].id)
    } else {
        active
    }
}

/// The active workspace once workspace `closing` starts to close (see
/// [`active_after_close`]).
pub fn next_active_workspace<W>(
    workspaces: &Vec<Workspace<W>>,
    active: Option<WorkspaceId>,
    closing: WorkspaceId,
) -> (r: Option<WorkspaceId>)
    ensures
        r == active_after_close(workspaces@, active, closing),
{
    let index = match find_workspace(workspaces, closing) {
        Some(i) => i,
        None => return active,
    };
    let len = workspaces.len();
    let is_active = match active {
        Some(a) => a.0 == closing.0,
        None => false,
    };
    if len > 1 && is_active {
        let next = if index + 1 < len {
            index + 1
        } else {
            index - 1
        };
        Some(workspaces[next].id)
    } else {
        active
    }
}

/// Whether some tab of the workspace still holds a pane.
pub open spec fn workspace_has_panes<W>(workspace: Workspace<W>) -> bool {
    exists|t: int| 0 <= t < workspace.tabs@.len() && (#[trigger] workspace.tabs@[t]).panes@.len() > 0
}

/// The workspaces that still hold a pane, in order.
pub open spec fn workspaces_with_panes<W>(workspaces: Seq<Workspace<W>>) -> Seq<Workspace<W>> {
    workspaces.filter(|w: Workspace<W>| workspace_has_panes(w))
}

/// The active workspace once empty workspaces are gone: the same one while it remains, else
/// the first that remains.
pub open spec fn settled_active<W>(workspaces: Seq<Workspace<W>>, active: Option<WorkspaceId>) -> Option<
    WorkspaceId,
> {
    if active is Some && workspace_position(workspaces, active->0) < workspaces.len() {
        active
    } else if workspaces.len() > 0 {
        Some(workspaces[0].id)
    } else {
        None
    }
}

fn holds_panes<W>(workspace: &Workspace<W>) -> (r: bool)
    ensures
        r == workspace_has_panes(*workspace),
{
    let mut t: usize = 0;
    while t < workspace.tabs.len()
        invariant
            t <= workspace.tabs@.len(),
            forall|j: int| 0 <= j < t ==> (#[trigger] workspace.tabs@[j]).panes@.len() == 0,
        decreases workspace.tabs@.len() - t,
    {
        if workspace.tabs[t].panes.len() > 0 {
            return true;
        }
        t = t + 1;
    }
    false
}

/// Drop the workspaces whose panes are all closed, and return the active workspace
/// afterwards (see [`settled_active`]); `None` when no workspace remains.
pub fn remove_empty_workspaces<W>(workspaces: &mut Vec<Workspace<W>>, active: Option<WorkspaceId>) -> (r:
    Option<WorkspaceId>)
    ensures
        final(workspaces)@ == workspaces_with_panes(old(workspaces)@),
        r == settled_active(final(workspaces)@, active),
        forall|w: int| 0 <= w < final(workspaces)@.len() ==> workspace_has_panes(#[trigger] final(workspaces)@[w]),
        all_tabs_wf(old(workspaces)@) ==> all_tabs_wf(final(workspaces)@),
{
    let mut pending: Vec<Workspace<W>> = Vec::new();
    std::mem::swap(&mut pending, workspaces);
    let ghost source = pending@;
    let total = pending.len();
    let mut consumed: usize = 0;
    proof {
        assert(source.subrange(0, 0) =~= Seq::<Workspace<W>>::empty());
        reveal_with_fuel(Seq::filter, 1);
        assert(source.subrange(0, source.len() as int) =~= source);
    }
    while pending.len() > 0
        invariant
            consumed + pending@.len() == source.len(),
            total == source.len(),
            source == old(workspaces)@,
            pending@ == source.subrange(consumed as int, source.len() as int),
            workspaces@ == workspaces_with_panes(source.subrange(0, consumed as int)),
        decreases pending@.len(),
    {
        let workspace = pending.remove(0);
        let ghost prefix = source.subrange(0, consumed + 1);
        proof {
            assert(workspace == source[consumed as int]);
            assert(prefix.drop_last() =~= source.subrange(0, consumed as int));
            assert(prefix.last() == workspace);
        }
        if holds_panes(&workspace) {
            workspaces.push(workspace);
        }
        proof {
            reveal_with_fuel(Seq::filter, 1);
            assert(workspaces@ == workspaces_with_panes(prefix));
        }
        consumed = consumed + 1;
        proof {
            assert(pending@ =~= source.subrange(consumed as int, source.len() as int));
        }
    }
    proof {
        assert(source.subrange(0, consumed as int) =~= source);
        let kept = workspaces@;
        let pred = |x: Workspace<W>| workspace_has_panes(x);
        assert forall|w: int| 0 <= w < kept.len() implies workspace_has_panes(#[trigger] kept[w]) by {
            source.lemma_filter_pred(pred, w);
        }
        if all_tabs_wf(source) {
            assert forall|w: int, t: int|
                0 <= w < kept.len() && 0 <= t < kept[w].tabs@.len() implies (#[trigger] kept[w].tabs@[t]).wf() by {
                assert(kept.contains(kept[w]));
                source.lemma_filter_contains_rev(pred, kept[w]);
                let j = choose|j: int| 0 <= j < source.len() && source[j] == kept[w];
                assert(source[j].tabs@[t].wf());
            }
        }
    }
    if let Some(a) = active {
        if find_workspace(workspaces, a).is_some() {
            return active;
        }
    }
    if workspaces.len() > 0 {
        Some(workspaces[0].id)
    } else {
        None
    }
}

/// The active workspace once `active` is checked against `workspaces` (see
/// [`settled_active`]): kept while it exists, else the first workspace.
pub fn settle_active<W>(workspaces: &Vec<Workspace<W>>, active: Option<WorkspaceId>) -> (r: Option<WorkspaceId>)
    ensures
        r == settled_active(workspaces@, active),
{
    if let Some(a) = active {
        if find_workspace(workspaces, a).is_some() {
            return active;
        }
    }
    if workspaces.len() > 0 {
        Some(workspaces[0].id)
    } else {
        None
    }
}

/// `a + b - c` in `u32`, each step saturating.
pub open spec fn grow_then_shrink(a: u32, b: u32, c: u32) -> u32 {
    let grown = if a + b > u32::MAX { u32::MAX as int } else { a + b };
    if grown < c { 0 } else { (grown - c) as u32 }
}

/// The window size that gives a pane of `pane` the inner size `width` by `height`: the
/// window's `current` size grown by the requested size and shrunk by the pane's present size,
/// each step saturating.
pub fn requested_window_size(current: PhysicalSize, width: u32, height: u32, pane: PhysicalRect) -> (r:
    PhysicalSize)
    ensures
        r.width == grow_then_shrink(current.width, width, pane.width),
        r.height == grow_then_shrink(current.height, height, pane.height),
{
    PhysicalSize {
        width: current.width.saturating_add(width).saturating_sub(pane.width),
        height: current.height.saturating_add(height).saturating_sub(pane.height),
    }
}

/// Whether a pane of `rect` leaves room for two panes along `axis`: its extent along the axis
/// reaches `min_width` (across a horizontal split) or `min_height` (along a vertical one), each
/// already twice the least pane size.
pub fn room_to_split(rect: PhysicalRect, axis: Axis, min_width: u32, min_height: u32) -> (r: bool)
    ensures
        r == match axis {
            Axis::Horizontal => rect.width >= min_width,
            Axis::Vertical => rect.height >= min_height,
        },
{
    match axis {
        Axis::Horizontal => rect.width >= min_width,
        Axis::Vertical => rect.height >= min_height,
    }
}

/// Whether the panes of a workspace's tab are on screen: the tab is the active tab of the
/// active workspace, and that workspace is not closing.
pub open spec fn tab_shown<W>(
    workspace: Workspace<W>,
    tab_id: TabId,
    active: Option<WorkspaceId>,
    closing: Seq<WorkspaceId>,
) -> bool {
    active == Some(workspace.id) && tab_id == workspace.active_tab && !closing.contains(workspace.id)
}

/// The windows of the tabs `tabs` of `workspace`, each with whether it is on screen.
pub open spec fn tabs_visibility<W>(
    workspace: Workspace<W>,
    tabs: Seq<Tab<W>>,
    active: Option<WorkspaceId>,
    closing: Seq<WorkspaceId>,
) -> Seq<(WindowId, bool)>
    decreases tabs.len(),
{
    if tabs.len() == 0 {
        Seq::empty()
    } else {
        let tab = tabs.last();
        let shown = tab_shown(workspace, tab.id, active, closing);
        tabs_visibility(workspace, tabs.drop_last(), active, closing) + tab.panes@.map_values(
            |e: (crate::model::PaneId, WindowId)| (e.1, shown),
        )
    }
}

/// The windows of all panes, workspace by workspace and tab by tab, each with whether it is on
/// screen.
pub open spec fn visibility_of<W>(
    workspaces: Seq<Workspace<W>>,
    active: Option<WorkspaceId>,
    closing: Seq<WorkspaceId>,
) -> Seq<(WindowId, bool)>
    decreases workspaces.len(),
{
    if workspaces.len() == 0 {
        Seq::empty()
    } else {
        let workspace = workspaces.last();
        visibility_of(workspaces.drop_last(), active, closing) + tabs_visibility(
            workspace,
            workspace.tabs@,
            active,
            closing,
        )
    }
}

fn contains_workspace(ids: &Vec<WorkspaceId>, id: WorkspaceId) -> (r: bool)
    ensures
        r == ids@.contains(id),
{
    let mut i: usize = 0;
    while i < ids.len()
        invariant
            i <= ids@.len(),
            forall|j: int| 0 <= j < i ==> ids@[j] != id,
        decreases ids@.len() - i,
    {
        if ids[i].0 == id.0 {
            proof {
                assert(ids@[i as int] == id);
            }
            return true;
        }
        i = i + 1;
    }
    false
}

/// Which pane windows are on screen: those of the active tab of the active workspace, unless
/// that workspace is closing (see [`visibility_of`]).
pub fn pane_visibility<W>(
    workspaces: &Vec<Workspace<W>>,
    active: Option<WorkspaceId>,
    closing: &Vec<WorkspaceId>,
) -> (r: Vec<(WindowId, bool)>)
    ensures
        r@ == visibility_of(workspaces@, active, closing@),
{
    let mut out: Vec<(WindowId, bool)> = Vec::new();
    let mut i: usize = 0;
    while i < workspaces.len()
        invariant
            i <= workspaces@.len(),
            out@ == visibility_of(workspaces@.subrange(0, i as int), active, closing@),
        decreases workspaces@.len() - i,
    {
        let workspace = &workspaces[i];
        let workspace_shown = match active {
            Some(a) => a.0 == workspace.id.0,
            None => false,
        } && !contains_workspace(closing, workspace.id);
        let ghost before = out@;
        let mut t: usize = 0;
        while t < workspace.tabs.len()
            invariant
                t <= workspace.tabs@.len(),
                out@ == before + tabs_visibility(*workspace, workspace.tabs@.subrange(0, t as int), active, closing@),
                workspace_shown == (active == Some(workspace.id) && !closing@.contains(workspace.id)),
            decreases workspace.tabs@.len() - t,
        {
            let tab = &workspace.tabs[t];
            let shown = workspace_shown && tab.id.0 == workspace.active_tab.0;
            let ghost mid = out@;
            let mut k: usize = 0;
            while k < tab.panes.len()
                invariant
                    k <= tab.panes@.len(),
                    out@ == mid + tab.panes@.subrange(0, k as int).map_values(
                        |e: (crate::model::PaneId, WindowId)| (e.1, shown),
                    ),
                decreases tab.panes@.len() - k,
            {
                out.push((tab.panes[k].1, shown));
                proof {
                    assert(tab.panes@.subrange(0, k + 1).map_values(
                        |e: (crate::model::PaneId, WindowId)| (e.1, shown),
                    ) =~= tab.panes@.subrange(0, k as int).map_values(
                        |e: (crate::model::PaneId, WindowId)| (e.1, shown),
                    ).push((tab.panes@[k as int].1, shown)));
                }
                k = k + 1;
            }
            proof {
                assert(tab.panes@.subrange(0, k as int) =~= tab.panes@);
                let prefix = workspace.tabs@.subrange(0, t + 1);
                assert(prefix.drop_last() =~= workspace.tabs@.subrange(0, t as int));
                assert(prefix.last() == *tab);
                assert(shown == tab_shown(*workspace, tab.id, active, closing@));
            }
            t = t + 1;
        }
        proof {
            assert(workspace.tabs@.subrange(0, t as int) =~= workspace.tabs@);
            let prefix = workspaces@.subrange(0, i + 1);
            assert(prefix.drop_last() =~= workspaces@.subrange(0, i as int));
            assert(prefix.last() == *workspace);
        }
        i = i + 1;
    }
    proof {
        assert(workspaces@.subrange(0, i as int) =~= workspaces@);
    }
    out
}

/// Forget the panes named by `closed`, whose processes have ended: each leaves the tab that
/// owns it (see [`remove_owned_pane`]), tabs left without panes are dropped (see
/// [`Workspace::remove_empty_tabs`]), then workspaces left without panes (see
/// [`remove_empty_workspaces`]). Returns the active workspace afterwards; `None` when no
/// workspace remains, which ends the shell.
pub fn reap_closed_panes<W, G: Fn(&Vec<W>) -> Vec<W>>(
    workspaces: &mut Vec<Workspace<W>>,
    closed: &Vec<PaneKey>,
    active: Option<WorkspaceId>,
    normalize: &G,
) -> (r: Option<WorkspaceId>)
    requires
        all_tabs_settled(old(workspaces)@),
        forall|v: &Vec<W>| normalize.requires((v,)),
        forall|v: &Vec<W>, n: Vec<W>| normalize.ensures((v,), n) ==> n.len() == v.len(),
    ensures
        all_tabs_wf(final(workspaces)@),
        forall|w: int| 0 <= w < final(workspaces)@.len() ==> workspace_has_panes(#[trigger] final(workspaces)@[w]),
        r == settled_active(final(workspaces)@, active),
{
    let mut i: usize = 0;
    while i < closed.len()
        invariant
            i <= closed@.len(),
            all_tabs_settled(workspaces@),
            forall|v: &Vec<W>| normalize.requires((v,)),
            forall|v: &Vec<W>, n: Vec<W>| normalize.ensures((v,), n) ==> n.len() == v.len(),
        decreases closed@.len() - i,
    {
        let key = closed[i];
        proof {
            lemma_workspace_position(workspaces@, key.workspace_id);
            if let Some((wi, ti)) = owner_position(workspaces@, key) {
                lemma_tab_position(workspaces@[wi].tabs@, key.tab_id);
                assert(tab_settled(workspaces@[wi].tabs@[ti]));
                crate::model::lemma_settled_tab_is_closable(workspaces@[wi].tabs@[ti], key.pane_id);
            }
        }
        remove_owned_pane(workspaces, key, normalize);
        i = i + 1;
    }
    let mut w: usize = 0;
    while w < workspaces.len()
        invariant
            w <= workspaces@.len(),
            forall|x: int, t: int|
                w <= x < workspaces@.len() && 0 <= t < workspaces@[x].tabs@.len() ==> tab_settled(
                    #[trigger] workspaces@[x].tabs@[t],
                ),
            forall|x: int, t: int|
                0 <= x < w && 0 <= t < workspaces@[x].tabs@.len() ==> (#[trigger] workspaces@[x].tabs@[t]).wf(),
        decreases workspaces@.len() - w,
    {
        let ghost before = workspaces@;
        proof {
            assert forall|t: int| 0 <= t < before[w as int].tabs@.len() implies tab_settled(
                #[trigger] before[w as int].tabs@[t],
            ) by {}
        }
        workspaces[w].remove_empty_tabs();
        proof {
            assert forall|x: int| 0 <= x < workspaces@.len() && x != w implies workspaces@[x] == before[x] by {}
        }
        w = w + 1;
    }
    remove_empty_workspaces(workspaces, active)
}

} // verus!
