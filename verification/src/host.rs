//! Host requests that change the model: which request a method name asks for, renaming
//! workspaces and tabs, closing a tab and splitting a pane named by its owners.

use vstd::prelude::*;

use crate::layout::Axis;
use crate::model::{
    all_tabs_wf, find_tab, find_workspace, lemma_tab_position, lemma_workspace_position, tab_position,
    table_map, workspace_position, PaneId, PaneKey, Tab, TabId, WindowId, Workspace, WorkspaceId,
};
use crate::name_editor::chars_of;
use crate::names::{lowercase, same_chars};
use crate::names::normalized;
use crate::selectors::{
    lemma_tab_named, lemma_workspace_named, tab_choice, tab_name_check, tab_named,
    validate_unique_tab_name, validate_unique_workspace_name, workspace_choice,
    workspace_name_check, workspace_named, HostError,
};

verus! {

/// The requests a host connection can make.
#[derive(Clone, Copy, Debug, PartialEq, Eq, Structural)]
pub enum HostMethod {
    CreateWindow,
    Layout,
    ResolvePane,
    ActivatePane,
    CreateWorkspace,
    CreateTab,
    SplitPane,
    ClosePane,
    CloseTab,
    CloseWorkspace,
    RenameWorkspace,
    RenameTab,
    ResetTabTitle,
    /// A method this shell does not answer.
    Unsupported,
}

/// The request that a method name asks for.
pub open spec fn method_named(name: Seq<char>) -> HostMethod {
    if name == "create_window"@ {
        HostMethod::CreateWindow
    } else if name == "vivida_layout"@ {
        HostMethod::Layout
    } else if name == "vivida_resolve_pane"@ {
        HostMethod::ResolvePane
    } else if name == "vivida_activate_pane"@ {
        HostMethod::ActivatePane
    } else if name == "vivida_create_workspace"@ {
        HostMethod::CreateWorkspace
    } else if name == "vivida_create_tab"@ {
        HostMethod::CreateTab
    } else if name == "vivida_split_pane"@ {
        HostMethod::SplitPane
    } else if name == "vivida_close_pane"@ {
        HostMethod::ClosePane
    } else if name == "vivida_close_tab"@ {
        HostMethod::CloseTab
    } else if name == "vivida_close_workspace"@ {
        HostMethod::CloseWorkspace
    } else if name == "vivida_rename_workspace"@ {
        HostMethod::RenameWorkspace
    } else if name == "vivida_rename_tab"@ {
        HostMethod::RenameTab
    } else if name == "vivida_reset_tab_title"@ {
        HostMethod::ResetTabTitle
    } else {
        HostMethod::Unsupported
    }
}

fn spelled(name: &Vec<char>, literal: &str) -> (r: bool)
    ensures
        r == (name@ == literal@),
{
    let expected = chars_of(literal);
    same_chars(name, &expected)
}

/// The request that a method name asks for (see [`method_named`]).
pub fn host_method(name: &str) -> (r: HostMethod)
    ensures
        r == method_named(name@),
{
    let n = chars_of(name);
    if spelled(&n, "create_window") {
        HostMethod::CreateWindow
    } else if spelled(&n, "vivida_layout") {
        HostMethod::Layout
    } else if spelled(&n, "vivida_resolve_pane") {
        HostMethod::ResolvePane
    } else if spelled(&n, "vivida_activate_pane") {
        HostMethod::ActivatePane
    } else if spelled(&n, "vivida_create_workspace") {
        HostMethod::CreateWorkspace
    } else if spelled(&n, "vivida_create_tab") {
        HostMethod::CreateTab
    } else if spelled(&n, "vivida_split_pane") {
        HostMethod::SplitPane
    } else if spelled(&n, "vivida_close_pane") {
        HostMethod::ClosePane
    } else if spelled(&n, "vivida_close_tab") {
        HostMethod::CloseTab
    } else if spelled(&n, "vivida_close_workspace") {
        HostMethod::CloseWorkspace
    } else if spelled(&n, "vivida_rename_workspace") {
        HostMethod::RenameWorkspace
    } else if spelled(&n, "vivida_rename_tab") {
        HostMethod::RenameTab
    } else if spelled(&n, "vivida_reset_tab_title") {
        HostMethod::ResetTabTitle
    } else {
        HostMethod::Unsupported
    }
}

/// Changing one tab of one workspace, or no tab, keeps every tab well formed when the changed
/// tab is.
proof fn lemma_tabs_wf_after_change<W>(before: Seq<Workspace<W>>, after: Seq<Workspace<W>>, wi: int, ti: int)
    requires
        all_tabs_wf(before),
        after.len() == before.len(),
        0 <= wi < before.len(),
        forall|i: int| 0 <= i < before.len() && i != wi ==> after[i] == before[i],
        after[wi].tabs@.len() == before[wi].tabs@.len(),
        forall|t: int| 0 <= t < before[wi].tabs@.len() && t != ti ==> after[wi].tabs@[t] == before[wi].tabs@[t],
        0 <= ti < before[wi].tabs@.len() ==> after[wi].tabs@[ti].wf(),
    ensures
        all_tabs_wf(after),
{
    assert forall|w: int, t: int|
        0 <= w < after.len() && 0 <= t < after[w].tabs@.len() implies (#[trigger] after[w].tabs@[t]).wf() by {
        if w == wi && t != ti {
            assert(after[w].tabs@[t] == before[w].tabs@[t]);
        } else if w != wi {
            assert(after[w] == before[w]);
        }
    }
}

/// `after` is `before` with the label of workspace `w` set to `label` and nothing else
/// changed.
pub open spec fn workspace_relabelled<W>(
    before: Seq<Workspace<W>>,
    after: Seq<Workspace<W>>,
    w: int,
    label: Seq<char>,
) -> bool {
    &&& after.len() == before.len()
    &&& forall|i: int| 0 <= i < before.len() && i != w ==> after[i] == before[i]
    &&& after[w].id == before[w].id
    &&& after[w].label@ == label
    &&& after[w].identity_cwd == before[w].identity_cwd
    &&& after[w].tabs == before[w].tabs
    &&& after[w].active_tab == before[w].active_tab
    &&& after[w].next_tab_id == before[w].next_tab_id
}

/// Rename workspace `workspace_id` to `name`, normalized, unless another workspace already has
/// that name (see [`validate_unique_workspace_name`]). Returns the name given.
pub fn rename_workspace<W>(workspaces: &mut Vec<Workspace<W>>, workspace_id: WorkspaceId, name: &str) -> (r:
    Result<String, HostError>)
    ensures
        match workspace_name_check(old(workspaces)@, name@, Some(workspace_id)) {
            Err(e) => r == Err::<String, HostError>(e) && *final(workspaces) == *old(workspaces),
            Ok(n) => {
                let w = workspace_position(old(workspaces)@, workspace_id);
                if w < old(workspaces)@.len() {
                    &&& r is Ok
                    &&& r->Ok_0@ == n
                    &&& workspace_relabelled(old(workspaces)@, final(workspaces)@, w, n)
                } else {
                    &&& r == Err::<String, HostError>(HostError::WorkspaceNotFound)
                    &&& *final(workspaces) == *old(workspaces)
                }
            },
        },
        all_tabs_wf(old(workspaces)@) ==> all_tabs_wf(final(workspaces)@),
{
    let clean = validate_unique_workspace_name(workspaces, name, Some(workspace_id))?;
    let w = match find_workspace(workspaces, workspace_id) {
        Some(w) => w,
        None => return Err(HostError::WorkspaceNotFound),
    };
    let ghost before = workspaces@;
    let label = clean.clone();
    workspaces[w].label = label;
    proof {
        if all_tabs_wf(before) {
            lemma_tabs_wf_after_change(before, workspaces@, w as int, -1);
        }
    }
    Ok(clean)
}

/// `after` is `before` with the title of tab `t` of workspace `w` set to `title` and nothing
/// else changed.
pub open spec fn tab_retitled<W>(
    before: Seq<Workspace<W>>,
    after: Seq<Workspace<W>>,
    w: int,
    t: int,
    title: Seq<char>,
) -> bool {
    let old_tab = before[w].tabs@[t];
    let new_tab = after[w].tabs@[t];
    &&& after.len() == before.len()
    &&& forall|i: int| 0 <= i < before.len() && i != w ==> after[i] == before[i]
    &&& after[w].id == before[w].id
    &&& after[w].label == before[w].label
    &&& after[w].identity_cwd == before[w].identity_cwd
    &&& after[w].active_tab == before[w].active_tab
    &&& after[w].next_tab_id == before[w].next_tab_id
    &&& after[w].tabs@ == before[w].tabs@.update(t, new_tab)
    &&& new_tab.id == old_tab.id
    &&& new_tab.root == old_tab.root
    &&& new_tab.title@ == title
    &&& new_tab.custom_title
    &&& new_tab.focused_pane == old_tab.focused_pane
    &&& new_tab.panes == old_tab.panes
    &&& new_tab.next_pane_id == old_tab.next_pane_id
}

/// Rename tab `tab_id` of workspace `workspace_id` to `name`, normalized, unless another tab
/// of that workspace already has that name (see [`validate_unique_tab_name`]). Returns the
/// name given.
pub fn rename_tab<W>(
    workspaces: &mut Vec<Workspace<W>>,
    workspace_id: WorkspaceId,
    tab_id: TabId,
    name: &str,
) -> (r: Result<String, HostError>)
    ensures
        match tab_name_check(old(workspaces)@, workspace_id, name@, Some(tab_id)) {
            Err(e) => r == Err::<String, HostError>(e) && *final(workspaces) == *old(workspaces),
            Ok(n) => {
                let w = workspace_position(old(workspaces)@, workspace_id);
                let t = tab_position(old(workspaces)@[w].tabs@, tab_id);
                if t < old(workspaces)@[w].tabs@.len() {
                    &&& r is Ok
                    &&& r->Ok_0@ == n
                    &&& tab_retitled(old(workspaces)@, final(workspaces)@, w, t, n)
                } else {
                    &&& r == Err::<String, HostError>(HostError::TabNotFound)
                    &&& *final(workspaces) == *old(workspaces)
                }
            },
        },
        all_tabs_wf(old(workspaces)@) ==> all_tabs_wf(final(workspaces)@),
{
    let clean = validate_unique_tab_name(workspaces, workspace_id, name, Some(tab_id))?;
    let w = match find_workspace(workspaces, workspace_id) {
        Some(w) => w,
        None => return Err(HostError::WorkspaceNotFound),
    };
    let t = match find_tab(&workspaces[w].tabs, tab_id) {
        Some(t) => t,
        None => return Err(HostError::TabNotFound),
    };
    let ghost before = workspaces@;
    let title = clean.clone();
    workspaces[w].tabs[t].title = title;
    workspaces[w].tabs[t].custom_title = true;
    proof {
        assert(workspaces@[w as int].tabs@ =~= before[w as int].tabs@.update(
            t as int,
            workspaces@[w as int].tabs@[t as int],
        ));
        if all_tabs_wf(before) {
            assert(before[w as int].tabs@[t as int].wf());
            lemma_tabs_wf_after_change(before, workspaces@, w as int, t as int);
        }
    }
    Ok(clean)
}

/// Tab `t` of workspace `w` is unpinned, and nothing else changes.
pub open spec fn tab_unpinned<W>(before: Seq<Workspace<W>>, after: Seq<Workspace<W>>, w: int, t: int) -> bool {
    let old_tab = before[w].tabs@[t];
    &&& after.len() == before.len()
    &&& forall|i: int| 0 <= i < before.len() && i != w ==> after[i] == before[i]
    &&& after[w] == (Workspace { tabs: after[w].tabs, ..before[w] })
    &&& after[w].tabs@ == before[w].tabs@.update(t, Tab { custom_title: false, ..old_tab })
}

/// Let tab `tab_id` of workspace `workspace_id` take the terminal's titles again: its title
/// stays until the terminal next reports one. Returns the current title.
pub fn reset_tab_title<W>(workspaces: &mut Vec<Workspace<W>>, workspace_id: WorkspaceId, tab_id: TabId) -> (r:
    Result<String, HostError>)
    ensures
        ({
            let w = workspace_position(old(workspaces)@, workspace_id);
            if w >= old(workspaces)@.len() {
                r == Err::<String, HostError>(HostError::WorkspaceNotFound) && *final(workspaces) == *old(workspaces)
            } else {
                let t = tab_position(old(workspaces)@[w].tabs@, tab_id);
                if t >= old(workspaces)@[w].tabs@.len() {
                    r == Err::<String, HostError>(HostError::TabNotFound) && *final(workspaces) == *old(workspaces)
                } else {
                    &&& r is Ok
                    &&& r->Ok_0@ == old(workspaces)@[w].tabs@[t].title@
                    &&& tab_unpinned(old(workspaces)@, final(workspaces)@, w, t)
                }
            }
        }),
        all_tabs_wf(old(workspaces)@) ==> all_tabs_wf(final(workspaces)@),
{
    let w = match find_workspace(workspaces, workspace_id) {
        Some(w) => w,
        None => return Err(HostError::WorkspaceNotFound),
    };
    let t = match find_tab(&workspaces[w].tabs, tab_id) {
        Some(t) => t,
        None => return Err(HostError::TabNotFound),
    };
    let ghost before = workspaces@;
    workspaces[w].tabs[t].custom_title = false;
    proof {
        assert(workspaces@[w as int].tabs@ =~= before[w as int].tabs@.update(
            t as int,
            workspaces@[w as int].tabs@[t as int],
        ));
        if all_tabs_wf(before) {
            assert(before[w as int].tabs@[t as int].wf());
            lemma_tabs_wf_after_change(before, workspaces@, w as int, t as int);
        }
    }
    Ok(workspaces[w].tabs[t].title.clone())
}

/// The windows of a tab's panes, in pane order.
pub open spec fn tab_windows<W>(tab: Tab<W>) -> Seq<WindowId> {
    tab.panes@.map_values(|e: (PaneId, WindowId)| e.1)
}

/// Index of the first tab other than `tab_id` (the length when there is none).
pub open spec fn first_other_tab<W>(tabs: Seq<Tab<W>>, tab_id: TabId) -> int
    decreases tabs.len(),
{
    if tabs.len() == 0 {
        0
    } else if tabs[0].id != tab_id {
        0
    } else {
        1 + first_other_tab(tabs.drop_first(), tab_id)
    }
}

proof fn lemma_first_other_tab<W>(tabs: Seq<Tab<W>>, tab_id: TabId)
    ensures
        0 <= first_other_tab(tabs, tab_id) <= tabs.len(),
        first_other_tab(tabs, tab_id) < tabs.len() ==> tabs[first_other_tab(tabs, tab_id)].id != tab_id,
        forall|j: int| 0 <= j < first_other_tab(tabs, tab_id) ==> (#[trigger] tabs[j]).id == tab_id,
    decreases tabs.len(),
{
    if tabs.len() > 0 && tabs[0].id == tab_id {
        lemma_first_other_tab(tabs.drop_first(), tab_id);
        assert forall|j: int| 0 <= j < first_other_tab(tabs, tab_id) implies (#[trigger] tabs[j]).id == tab_id by {
            if j > 0 {
                assert(tabs[j] == tabs.drop_first()[j - 1]);
            }
        }
    }
}

/// Begin closing tab `tab_id` of workspace `workspace_id`: when it is the active tab, the
/// first other tab becomes active. Returns the windows of its panes, whose processes are then
/// asked to end.
pub fn close_tab<W>(workspaces: &mut Vec<Workspace<W>>, workspace_id: WorkspaceId, tab_id: TabId) -> (r:
    Result<Vec<WindowId>, HostError>)
    ensures
        ({
            let before = old(workspaces)@;
            let w = workspace_position(before, workspace_id);
            if w >= before.len() {
                r == Err::<Vec<WindowId>, HostError>(HostError::WorkspaceNotFound) && *final(workspaces)
                    == *old(workspaces)
            } else if tab_position(before[w].tabs@, tab_id) >= before[w].tabs@.len() {
                r == Err::<Vec<WindowId>, HostError>(HostError::TabNotFound) && *final(workspaces)
                    == *old(workspaces)
            } else {
                let tabs = before[w].tabs@;
                let other = first_other_tab(tabs, tab_id);
                &&& r is Ok
                &&& r->Ok_0@ == tab_windows(tabs[tab_position(tabs, tab_id)])
                &&& final(workspaces)@.len() == before.len()
                &&& forall|i: int| 0 <= i < before.len() && i != w ==> final(workspaces)@[i] == before[i]
                &&& final(workspaces)@[w].id == before[w].id
                &&& final(workspaces)@[w].label == before[w].label
                &&& final(workspaces)@[w].identity_cwd == before[w].identity_cwd
                &&& final(workspaces)@[w].tabs == before[w].tabs
                &&& final(workspaces)@[w].next_tab_id == before[w].next_tab_id
                &&& final(workspaces)@[w].active_tab == if before[w].active_tab == tab_id && other
                    < tabs.len() {
                    tabs[other].id
                } else {
                    before[w].active_tab
                }
            }
        }),
        all_tabs_wf(old(workspaces)@) ==> all_tabs_wf(final(workspaces)@),
{
    let w = match find_workspace(workspaces, workspace_id) {
        Some(w) => w,
        None => return Err(HostError::WorkspaceNotFound),
    };
    let t = match find_tab(&workspaces[w].tabs, tab_id) {
        Some(t) => t,
        None => return Err(HostError::TabNotFound),
    };
    let mut windows: Vec<WindowId> = Vec::new();
    let panes = &workspaces[w].tabs[t].panes;
    let mut i: usize = 0;
    while i < panes.len()
        invariant
            i <= panes@.len(),
            windows@ == panes@.subrange(0, i as int).map_values(|e: (PaneId, WindowId)| e.1),
        decreases panes@.len() - i,
    {
        windows.push(panes[i].1);
        proof {
            assert(panes@.subrange(0, i + 1).map_values(|e: (PaneId, WindowId)| e.1) =~= panes@.subrange(
                0,
                i as int,
            ).map_values(|e: (PaneId, WindowId)| e.1).push(panes@[i as int].1));
        }
        i = i + 1;
    }
    proof {
        assert(panes@.subrange(0, i as int) =~= panes@);
    }
    if workspaces[w].active_tab.0 == tab_id.0 {
        let tabs = &workspaces[w].tabs;
        proof {
            lemma_first_other_tab(tabs@, tab_id);
        }
        let mut k: usize = 0;
        while k < tabs.len() && tabs[k].id.0 == tab_id.0
            invariant
                k <= tabs@.len(),
                forall|j: int| 0 <= j < k ==> (#[trigger] tabs@[j]).id == tab_id,
                0 <= first_other_tab(tabs@, tab_id) <= tabs@.len(),
                first_other_tab(tabs@, tab_id) < tabs@.len() ==> tabs@[first_other_tab(tabs@, tab_id)].id
                    != tab_id,
                forall|j: int| 0 <= j < first_other_tab(tabs@, tab_id) ==> (#[trigger] tabs@[j]).id == tab_id,
            decreases tabs@.len() - k,
        {
            k = k + 1;
        }
        if k < tabs.len() {
            proof {
                assert(k == first_other_tab(tabs@, tab_id));
            }
            let next = tabs[k].id;
            let ghost before = workspaces@;
            workspaces[w].active_tab = next;
            proof {
                if all_tabs_wf(before) {
                    lemma_tabs_wf_after_change(before, workspaces@, w as int, -1);
                }
            }
        } else {
            proof {
                assert(first_other_tab(tabs@, tab_id) == tabs@.len());
            }
        }
    }
    Ok(windows)
}

/// Split pane `key.pane_id` of the tab that owns it along `axis`, the new pane hosted by
/// `window`: the tab becomes its workspace's active tab and, when its tree holds the pane, the
/// pane its focused pane before the split (see [`Tab::split`]; `even` and `halve` as for it).
/// Returns the new pane; a pane the tree does not hold cannot be split.
pub fn split_owned_pane<W: Copy, F: Fn(W) -> W>(
    workspaces: &mut Vec<Workspace<W>>,
    key: PaneKey,
    axis: Axis,
    window: WindowId,
    even: W,
    halve: &F,
) -> (r: Result<PaneId, HostError>)
    requires
        crate::model::all_tabs_wf(old(workspaces)@),
        forall|w: int, t: int|
            0 <= w < old(workspaces)@.len() && 0 <= t < old(workspaces)@[w].tabs@.len()
                && old(workspaces)@[w].id == key.workspace_id && (#[trigger] old(
                workspaces,
            )@[w].tabs@[t]).id == key.tab_id ==> old(workspaces)@[w].tabs@[t].next_pane()
                < u64::MAX,
        forall|x: W| halve.requires((x,)),
    ensures
        ({
            let before = old(workspaces)@;
            let after = final(workspaces)@;
            let w = workspace_position(before, key.workspace_id);
            let t = tab_position(before[w].tabs@, key.tab_id);
            if w >= before.len() {
                r == Err::<PaneId, HostError>(HostError::WorkspaceDisappeared) && *final(workspaces)
                    == *old(workspaces)
            } else if t >= before[w].tabs@.len() {
                &&& r == Err::<PaneId, HostError>(HostError::TabDisappeared)
                &&& after.len() == before.len()
                &&& forall|i: int| 0 <= i < before.len() && i != w ==> after[i] == before[i]
                &&& after[w].tabs == before[w].tabs
                &&& after[w].active_tab == key.tab_id
            } else {
                let old_tab = before[w].tabs@[t];
                let new_tab = after[w].tabs@[t];
                &&& after.len() == before.len()
                &&& forall|i: int| 0 <= i < before.len() && i != w ==> after[i] == before[i]
                &&& after[w].id == before[w].id
                &&& after[w].label == before[w].label
                &&& after[w].active_tab == key.tab_id
                &&& after[w].next_tab_id == before[w].next_tab_id
                &&& after[w].tabs@ == before[w].tabs@.update(t, new_tab)
                &&& new_tab.wf()
                &&& new_tab.id == old_tab.id
                &&& new_tab.title == old_tab.title
                &&& new_tab.custom_title == old_tab.custom_title
                &&& if old_tab.root.leaves().contains(key.pane_id) {
                    &&& r == Ok::<PaneId, HostError>(PaneId(old_tab.next_pane()))
                    &&& crate::layout::split_shape(
                        old_tab.root,
                        new_tab.root,
                        key.pane_id,
                        PaneId(old_tab.next_pane()),
                        axis,
                        even,
                        *halve,
                    )
                    &&& new_tab.root.leaves() == old_tab.root.leaves().insert(
                        crate::layout::first_index(old_tab.root.leaves(), key.pane_id) + 1,
                        PaneId(old_tab.next_pane()),
                    )
                    &&& new_tab.pane_map() == old_tab.pane_map().insert(
                        PaneId(old_tab.next_pane()),
                        window,
                    )
                    &&& new_tab.focused_pane == PaneId(old_tab.next_pane())
                } else {
                    &&& r == Err::<PaneId, HostError>(HostError::CannotSplit)
                    &&& new_tab == old_tab
                }
            }
        }),
        all_tabs_wf(final(workspaces)@),
{
    let w = match find_workspace(workspaces, key.workspace_id) {
        Some(w) => w,
        None => return Err(HostError::WorkspaceDisappeared),
    };
    let ghost before = workspaces@;
    workspaces[w].active_tab = key.tab_id;
    proof {
        lemma_tabs_wf_after_change(before, workspaces@, w as int, -1);
    }
    let t = match find_tab(&workspaces[w].tabs, key.tab_id) {
        Some(t) => t,
        None => return Err(HostError::TabDisappeared),
    };
    let ghost old_tab = before[w as int].tabs@[t as int];
    proof {
        assert(old_tab.wf());
        crate::layout::lemma_shaped_weaken(old_tab.root, 2, true, 0, true);
        if old_tab.root.leaves().contains(key.pane_id) {
            assert(old_tab.root.leaves().to_set().contains(key.pane_id));
        }
    }
    if !workspaces[w].tabs[t].root.contains(key.pane_id) {
        proof {
            assert(workspaces@[w as int].tabs@ =~= before[w as int].tabs@.update(
                t as int,
                workspaces@[w as int].tabs@[t as int],
            ));
        }
        return Err(HostError::CannotSplit);
    }
    workspaces[w].tabs[t].focused_pane = key.pane_id;
    proof {
        assert(workspaces@[w as int].tabs@[t as int].wf());
    }
    let split = workspaces[w].tabs[t].split(axis, window, even, halve);
    proof {
        assert(workspaces@[w as int].tabs@ =~= before[w as int].tabs@.update(
            t as int,
            workspaces@[w as int].tabs@[t as int],
        ));
    }
    proof {
        lemma_tabs_wf_after_change(before, workspaces@, w as int, t as int);
    }
    match split {
        Some(p) => Ok(p),
        None => Err(HostError::CannotSplit),
    }
}

/// Workspace positions depend only on the identities of the workspaces.
proof fn lemma_same_workspace_positions<W>(a: Seq<Workspace<W>>, b: Seq<Workspace<W>>, id: WorkspaceId)
    requires
        a.len() == b.len(),
        forall|i: int| 0 <= i < a.len() ==> (#[trigger] a[i]).id == b[i].id,
    ensures
        workspace_position(a, id) == workspace_position(b, id),
{
    lemma_workspace_position(a, id);
    lemma_workspace_position(b, id);
    let p = workspace_position(a, id);
    let q = workspace_position(b, id);
    if p < q {
        assert(b[p].id == a[p].id);
    } else if q < p {
        assert(a[q].id == b[q].id);
    }
}

/// A renamed workspace is found by its new name: once `rename_workspace` has given workspace
/// `id` the name `n`, selecting a workspace by any name that normalizes to `n` (without regard
/// to case), the name given or `n` itself among them, chooses `id`.
pub proof fn lemma_renamed_workspace_is_found<W>(
    before: Seq<Workspace<W>>,
    after: Seq<Workspace<W>>,
    id: WorkspaceId,
    name: Seq<char>,
    query: Seq<char>,
)
    requires
        workspace_name_check(before, name, Some(id)) is Ok,
        workspace_position(before, id) < before.len(),
        workspace_relabelled(
            before,
            after,
            workspace_position(before, id),
            workspace_name_check(before, name, Some(id))->Ok_0,
        ),
        normalized(query) is Ok,
        lowercase(normalized(query)->Ok_0) == lowercase(workspace_name_check(before, name, Some(id))->Ok_0),
    ensures
        workspace_choice(after, None, Some(query), None, None) == Ok::<WorkspaceId, HostError>(id),
{
    let w = workspace_position(before, id);
    let n = workspace_name_check(before, name, Some(id))->Ok_0;
    let m = normalized(query)->Ok_0;
    lemma_workspace_position(before, id);
    lemma_workspace_named(after, m);
    let p = workspace_named(after, m);
    assert(lowercase(after[w].label@) == lowercase(m));
    if p > w {
        assert(lowercase(after[w].label@) != lowercase(m));
    }
    if p < w {
        assert(after[p] == before[p]);
        assert(before[p].id != id);
        assert(!(0 <= p < before.len() && Some(before[p].id) != Some(id) && lowercase(before[p].label@)
            == lowercase(n)));
    }
    assert(p == w);
}

/// A renamed tab is found by its new name: once `rename_tab` has given tab `tab_id` of
/// workspace `workspace_id` the name `n`, selecting a tab of that workspace by any name that
/// normalizes to `n` (without regard to case) chooses `tab_id`.
pub proof fn lemma_renamed_tab_is_found<W>(
    before: Seq<Workspace<W>>,
    after: Seq<Workspace<W>>,
    workspace_id: WorkspaceId,
    tab_id: TabId,
    name: Seq<char>,
    query: Seq<char>,
)
    requires
        tab_name_check(before, workspace_id, name, Some(tab_id)) is Ok,
        tab_position(before[workspace_position(before, workspace_id)].tabs@, tab_id)
            < before[workspace_position(before, workspace_id)].tabs@.len(),
        tab_retitled(
            before,
            after,
            workspace_position(before, workspace_id),
            tab_position(before[workspace_position(before, workspace_id)].tabs@, tab_id),
            tab_name_check(before, workspace_id, name, Some(tab_id))->Ok_0,
        ),
        normalized(query) is Ok,
        lowercase(normalized(query)->Ok_0) == lowercase(
            tab_name_check(before, workspace_id, name, Some(tab_id))->Ok_0,
        ),
    ensures
        tab_choice(after, workspace_id, None, Some(query), None, None, false) == Ok::<TabId, HostError>(
            tab_id,
        ),
{
    let w = workspace_position(before, workspace_id);
    let tabs = before[w].tabs@;
    let t = tab_position(tabs, tab_id);
    let n = tab_name_check(before, workspace_id, name, Some(tab_id))->Ok_0;
    let m = normalized(query)->Ok_0;
    assert forall|i: int| 0 <= i < before.len() implies (#[trigger] before[i]).id == after[i].id by {
        if i != w {
            assert(after[i] == before[i]);
        }
    }
    lemma_same_workspace_positions(before, after, workspace_id);
    assert(w < before.len());
    let new_tabs = after[w].tabs@;
    lemma_tab_position(tabs, tab_id);
    lemma_tab_named(new_tabs, m);
    let p = tab_named(new_tabs, m);
    assert(lowercase(new_tabs[t].title@) == lowercase(m));
    if p > t {
        assert(lowercase(new_tabs[t].title@) != lowercase(m));
    }
    if p < t {
        assert(new_tabs[p] == tabs[p]);
        assert(tabs[p].id != tab_id);
        assert(!(0 <= p < tabs.len() && Some(tabs[p].id) != Some(tab_id) && lowercase(tabs[p].title@)
            == lowercase(n)));
    }
    assert(p == t);
}

/// Whether no two workspaces share a name (without regard to case).
pub open spec fn workspace_names_distinct<W>(workspaces: Seq<Workspace<W>>) -> bool {
    forall|i: int, j: int|
        0 <= i < j < workspaces.len() ==> lowercase((#[trigger] workspaces[i]).label@) != lowercase(
            (#[trigger] workspaces[j]).label@,
        )
}

/// Whether no two workspaces share an identity.
pub open spec fn workspace_ids_distinct<W>(workspaces: Seq<Workspace<W>>) -> bool {
    forall|i: int, j: int|
        0 <= i < j < workspaces.len() ==> (#[trigger] workspaces[i]).id != (#[trigger] workspaces[j]).id
}

/// Workspace names stay unique: a rename that [`rename_workspace`] accepts gives no two
/// workspaces the same name, when none shared one before.
pub proof fn lemma_rename_keeps_workspace_names_distinct<W>(
    before: Seq<Workspace<W>>,
    after: Seq<Workspace<W>>,
    id: WorkspaceId,
    name: Seq<char>,
)
    requires
        workspace_names_distinct(before),
        workspace_ids_distinct(before),
        workspace_name_check(before, name, Some(id)) is Ok,
        workspace_position(before, id) < before.len(),
        workspace_relabelled(
            before,
            after,
            workspace_position(before, id),
            workspace_name_check(before, name, Some(id))->Ok_0,
        ),
    ensures
        workspace_names_distinct(after),
{
    let w = workspace_position(before, id);
    let n = workspace_name_check(before, name, Some(id))->Ok_0;
    lemma_workspace_position(before, id);
    assert forall|i: int, j: int| 0 <= i < j < after.len() implies lowercase(
        (#[trigger] after[i]).label@,
    ) != lowercase((#[trigger] after[j]).label@) by {
        if i == w {
            assert(before[j].id != id);
            assert(!(Some(before[j].id) != Some(id) && lowercase(before[j].label@) == lowercase(n)));
        } else if j == w {
            assert(before[i].id != id);
            assert(!(Some(before[i].id) != Some(id) && lowercase(before[i].label@) == lowercase(n)));
        } else {
            assert(after[i] == before[i] && after[j] == before[j]);
        }
    }
}

/// Whether no two tabs share a name (without regard to case).
pub open spec fn tab_names_distinct<W>(tabs: Seq<Tab<W>>) -> bool {
    forall|i: int, j: int|
        0 <= i < j < tabs.len() ==> lowercase((#[trigger] tabs[i]).title@) != lowercase(
            (#[trigger] tabs[j]).title@,
        )
}

/// Whether no two tabs share an identity.
pub open spec fn tab_ids_distinct<W>(tabs: Seq<Tab<W>>) -> bool {
    forall|i: int, j: int| 0 <= i < j < tabs.len() ==> (#[trigger] tabs[i]).id != (#[trigger] tabs[j]).id
}

/// Tab names stay unique within their workspace: a rename that [`rename_tab`] accepts gives
/// no two tabs of that workspace the same name, when none shared one before.
pub proof fn lemma_rename_keeps_tab_names_distinct<W>(
    before: Seq<Workspace<W>>,
    after: Seq<Workspace<W>>,
    workspace_id: WorkspaceId,
    tab_id: TabId,
    name: Seq<char>,
)
    requires
        workspace_position(before, workspace_id) < before.len(),
        tab_names_distinct(before[workspace_position(before, workspace_id)].tabs@),
        tab_ids_distinct(before[workspace_position(before, workspace_id)].tabs@),
        tab_name_check(before, workspace_id, name, Some(tab_id)) is Ok,
        tab_position(before[workspace_position(before, workspace_id)].tabs@, tab_id)
            < before[workspace_position(before, workspace_id)].tabs@.len(),
        tab_retitled(
            before,
            after,
            workspace_position(before, workspace_id),
            tab_position(before[workspace_position(before, workspace_id)].tabs@, tab_id),
            tab_name_check(before, workspace_id, name, Some(tab_id))->Ok_0,
        ),
    ensures
        tab_names_distinct(after[workspace_position(before, workspace_id)].tabs@),
{
    let w = workspace_position(before, workspace_id);
    let tabs = before[w].tabs@;
    let new_tabs = after[w].tabs@;
    let t = tab_position(tabs, tab_id);
    let n = tab_name_check(before, workspace_id, name, Some(tab_id))->Ok_0;
    lemma_tab_position(tabs, tab_id);
    assert forall|i: int, j: int| 0 <= i < j < new_tabs.len() implies lowercase(
        (#[trigger] new_tabs[i]).title@,
    ) != lowercase((#[trigger] new_tabs[j]).title@) by {
        if i == t {
            assert(tabs[j].id != tab_id);
            assert(new_tabs[j] == tabs[j]);
            assert(!(Some(tabs[j].id) != Some(tab_id) && lowercase(tabs[j].title@) == lowercase(n)));
        } else if j == t {
            assert(tabs[i].id != tab_id);
            assert(new_tabs[i] == tabs[i]);
            assert(!(Some(tabs[i].id) != Some(tab_id) && lowercase(tabs[i].title@) == lowercase(n)));
        } else {
            assert(new_tabs[i] == tabs[i] && new_tabs[j] == tabs[j]);
        }
    }
}

} // verus!
