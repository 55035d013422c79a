//! Choosing a workspace or a tab from the selectors of a host request, and checking that a new
//! name is free.
//!
//! A request names a workspace by identity, by name or by one-based position, at most one of
//! them; without one, the calling pane's own workspace is meant, and without a caller the only
//! workspace. Tabs are chosen the same way inside the chosen workspace.

use vstd::prelude::*;

use crate::model::{lemma_tab_position, lemma_workspace_position, tab_position, workspace_position, PaneKey, Tab, TabId, Workspace, WorkspaceId};
use crate::names::{lowercase, name_error_message, names_equal, normalize_name, normalized, NameError};
use crate::model::PaneId;
use crate::name_editor::{chars_of, string_of};
use crate::model::{label_for, path_file_name, workspace_label};
use crate::navigation::{ordinal_index, PaneDirection};

verus! {

/// Why a host request was refused.
#[derive(Clone, Copy, Debug, PartialEq, Eq, Structural)]
pub enum HostError {
    WorkspaceSelectorsExclusive,
    TabSelectorsExclusive,
    InvalidName(NameError),
    WorkspaceAmbiguous,
    TabAmbiguous,
    WorkspaceNotMatched,
    TabNotMatched,
    WorkspaceNotFound,
    TabNotFound,
    WorkspaceNameConflict,
    TabNameConflict,
    PaneSelectorsConflict,
    StartNotInTab,
    /// No pane lies in `direction` of `pane`.
    NoNeighbor { direction: PaneDirection, pane: PaneId },
    PaneDisappeared,
    WorkspaceDisappeared,
    TabDisappeared,
    CannotSplit,
}

/// The protocol's error code for an error.
pub open spec fn error_code(e: HostError) -> Seq<char> {
    match e {
        HostError::WorkspaceSelectorsExclusive
        | HostError::TabSelectorsExclusive
        | HostError::InvalidName(_)
        | HostError::PaneSelectorsConflict => "invalid_params"@,
        HostError::WorkspaceAmbiguous | HostError::TabAmbiguous => "ambiguous_selector"@,
        HostError::WorkspaceNameConflict | HostError::TabNameConflict => "name_conflict"@,
        HostError::CannotSplit => "invalid_state"@,
        _ => "window_not_found"@,
    }
}

/// The message sent with an error.
pub open spec fn error_message(e: HostError) -> Seq<char> {
    match e {
        HostError::WorkspaceSelectorsExclusive => "workspace selectors are mutually exclusive"@,
        HostError::TabSelectorsExclusive => "tab selectors are mutually exclusive"@,
        HostError::InvalidName(n) => name_error_message(n),
        HostError::WorkspaceAmbiguous => "workspace must be specified when more than one workspace exists"@,
        HostError::TabAmbiguous => "tab must be specified when more than one tab exists"@,
        HostError::WorkspaceNotMatched => "workspace selector did not match"@,
        HostError::TabNotMatched => "tab selector did not match"@,
        HostError::WorkspaceNotFound => "workspace not found"@,
        HostError::TabNotFound => "tab not found"@,
        HostError::WorkspaceNameConflict => "workspace name is already in use"@,
        HostError::TabNameConflict => "tab name is already in use in this workspace"@,
        HostError::PaneSelectorsConflict => "pane_id cannot be combined with from_pane_id or path"@,
        HostError::StartNotInTab => "starting pane is not in the tab"@,
        HostError::NoNeighbor { .. } => "no pane exists in that direction"@,
        HostError::PaneDisappeared => "resolved pane disappeared"@,
        HostError::WorkspaceDisappeared => "workspace disappeared"@,
        HostError::TabDisappeared => "tab disappeared"@,
        HostError::CannotSplit => "target pane cannot be split"@,
    }
}

impl HostError {
    /// The protocol's error code.
    pub fn code(self) -> (r: &'static str)
        ensures
            r@ == error_code(self),
    {
        match self {
            HostError::WorkspaceSelectorsExclusive
            | HostError::TabSelectorsExclusive
            | HostError::InvalidName(_)
            | HostError::PaneSelectorsConflict => "invalid_params",
            HostError::WorkspaceAmbiguous | HostError::TabAmbiguous => "ambiguous_selector",
            HostError::WorkspaceNameConflict | HostError::TabNameConflict => "name_conflict",
            HostError::WorkspaceNotMatched
            | HostError::TabNotMatched
            | HostError::WorkspaceNotFound
            | HostError::TabNotFound
            | HostError::StartNotInTab
            | HostError::NoNeighbor { .. }
            | HostError::PaneDisappeared
            | HostError::WorkspaceDisappeared
            | HostError::TabDisappeared => "window_not_found",
            HostError::CannotSplit => "invalid_state",
        }
    }

    /// The message sent with the error.
    pub fn message(self) -> (r: &'static str)
        ensures
            r@ == error_message(self),
    {
        match self {
            HostError::WorkspaceSelectorsExclusive => "workspace selectors are mutually exclusive",
            HostError::TabSelectorsExclusive => "tab selectors are mutually exclusive",
            HostError::InvalidName(e) => e.message(),
            HostError::WorkspaceAmbiguous => "workspace must be specified when more than one workspace exists",
            HostError::TabAmbiguous => "tab must be specified when more than one tab exists",
            HostError::WorkspaceNotMatched => "workspace selector did not match",
            HostError::TabNotMatched => "tab selector did not match",
            HostError::WorkspaceNotFound => "workspace not found",
            HostError::TabNotFound => "tab not found",
            HostError::WorkspaceNameConflict => "workspace name is already in use",
            HostError::TabNameConflict => "tab name is already in use in this workspace",
            HostError::PaneSelectorsConflict => "pane_id cannot be combined with from_pane_id or path",
            HostError::StartNotInTab => "starting pane is not in the tab",
            HostError::NoNeighbor { .. } => "no pane exists in that direction",
            HostError::PaneDisappeared => "resolved pane disappeared",
            HostError::WorkspaceDisappeared => "workspace disappeared",
            HostError::TabDisappeared => "tab disappeared",
            HostError::CannotSplit => "target pane cannot be split",
        }
    }
}

/// How many of three selectors are given.
pub open spec fn given(a: bool, b: bool, c: bool) -> int {
    (if a { 1int } else { 0int }) + (if b { 1int } else { 0int }) + (if c { 1int } else { 0int })
}

/// Position of the first workspace whose label equals `name` without regard to case (the
/// length when there is none).
pub open spec fn workspace_named<W>(workspaces: Seq<Workspace<W>>, name: Seq<char>) -> int
    decreases workspaces.len(),
{
    if workspaces.len() == 0 {
        0
    } else if lowercase(workspaces[0].label@) == lowercase(name) {
        0
    } else {
        1 + workspace_named(workspaces.drop_first(), name)
    }
}

/// Position of the first tab whose title equals `name` without regard to case (the length
/// when there is none).
pub open spec fn tab_named<W>(tabs: Seq<Tab<W>>, name: Seq<char>) -> int
    decreases tabs.len(),
{
    if tabs.len() == 0 {
        0
    } else if lowercase(tabs[0].title@) == lowercase(name) {
        0
    } else {
        1 + tab_named(tabs.drop_first(), name)
    }
}

/// The workspace that a request's selectors choose.
pub open spec fn workspace_choice<W>(
    workspaces: Seq<Workspace<W>>,
    id: Option<u64>,
    name: Option<Seq<char>>,
    ordinal: Option<u64>,
    caller: Option<PaneKey>,
) -> Result<WorkspaceId, HostError> {
    let len = workspaces.len() as int;
    if given(id is Some, name is Some, ordinal is Some) > 1 {
        Err(HostError::WorkspaceSelectorsExclusive)
    } else if id is Some {
        if workspace_position(workspaces, WorkspaceId(id->0)) < len {
            Ok(WorkspaceId(id->0))
        } else {
            Err(HostError::WorkspaceNotMatched)
        }
    } else if name is Some {
        match normalized(name->0) {
            Err(e) => Err(HostError::InvalidName(e)),
            Ok(n) => if workspace_named(workspaces, n) < len {
                Ok(workspaces[workspace_named(workspaces, n)].id)
            } else {
                Err(HostError::WorkspaceNotMatched)
            },
        }
    } else if ordinal is Some {
        if 1 <= ordinal->0 <= len {
            Ok(workspaces[ordinal->0 - 1].id)
        } else {
            Err(HostError::WorkspaceNotMatched)
        }
    } else if caller is Some {
        if workspace_position(workspaces, caller->0.workspace_id) < len {
            Ok(caller->0.workspace_id)
        } else {
            Err(HostError::WorkspaceNotMatched)
        }
    } else if len == 1 {
        Ok(workspaces[0].id)
    } else {
        Err(HostError::WorkspaceAmbiguous)
    }
}

/// The tab of workspace `workspace_id` that a request's selectors choose. Without a selector,
/// the caller's tab is meant when the caller is in that workspace, then the only tab, then,
/// where `active_default` allows it, the active tab.
pub open spec fn tab_choice<W>(
    workspaces: Seq<Workspace<W>>,
    workspace_id: WorkspaceId,
    id: Option<u64>,
    name: Option<Seq<char>>,
    ordinal: Option<u64>,
    caller: Option<PaneKey>,
    active_default: bool,
) -> Result<TabId, HostError> {
    let w = workspace_position(workspaces, workspace_id);
    let tabs = workspaces[w].tabs@;
    let len = tabs.len() as int;
    if given(id is Some, name is Some, ordinal is Some) > 1 {
        Err(HostError::TabSelectorsExclusive)
    } else if w >= workspaces.len() {
        Err(HostError::WorkspaceNotFound)
    } else if id is Some {
        if tab_position(tabs, TabId(id->0)) < len {
            Ok(TabId(id->0))
        } else {
            Err(HostError::TabNotMatched)
        }
    } else if name is Some {
        match normalized(name->0) {
            Err(e) => Err(HostError::InvalidName(e)),
            Ok(n) => if tab_named(tabs, n) < len {
                Ok(tabs[tab_named(tabs, n)].id)
            } else {
                Err(HostError::TabNotMatched)
            },
        }
    } else if ordinal is Some {
        if 1 <= ordinal->0 <= len {
            Ok(tabs[ordinal->0 - 1].id)
        } else {
            Err(HostError::TabNotMatched)
        }
    } else if caller is Some && caller->0.workspace_id == workspace_id {
        if tab_position(tabs, caller->0.tab_id) < len {
            Ok(caller->0.tab_id)
        } else {
            Err(HostError::TabNotMatched)
        }
    } else if len == 1 {
        Ok(tabs[0].id)
    } else if active_default {
        if tab_position(tabs, workspaces[w].active_tab) < len {
            Ok(workspaces[w].active_tab)
        } else {
            Err(HostError::TabNotMatched)
        }
    } else {
        Err(HostError::TabAmbiguous)
    }
}

/// The view of an optional string.
pub open spec fn name_view(name: Option<&str>) -> Option<Seq<char>> {
    match name {
        Some(s) => Some(s@),
        None => None,
    }
}

pub proof fn lemma_workspace_named<W>(workspaces: Seq<Workspace<W>>, name: Seq<char>)
    ensures
        0 <= workspace_named(workspaces, name) <= workspaces.len(),
        workspace_named(workspaces, name) < workspaces.len() ==> lowercase(
            workspaces[workspace_named(workspaces, name)].label@,
        ) == lowercase(name),
        forall|j: int|
            0 <= j < workspace_named(workspaces, name) ==> lowercase((#[trigger] workspaces[j]).label@)
                != lowercase(name),
    decreases workspaces.len(),
{
    if workspaces.len() > 0 && lowercase(workspaces[0].label@) != lowercase(name) {
        lemma_workspace_named(workspaces.drop_first(), name);
        assert forall|j: int| 0 <= j < workspace_named(workspaces, name) implies lowercase(
            (#[trigger] workspaces[j]).label@,
        ) != lowercase(name) by {
            if j > 0 {
                assert(workspaces[j] == workspaces.drop_first()[j - 1]);
            }
        }
    }
}

pub proof fn lemma_tab_named<W>(tabs: Seq<Tab<W>>, name: Seq<char>)
    ensures
        0 <= tab_named(tabs, name) <= tabs.len(),
        tab_named(tabs, name) < tabs.len() ==> lowercase(tabs[tab_named(tabs, name)].title@)
            == lowercase(name),
        forall|j: int|
            0 <= j < tab_named(tabs, name) ==> lowercase((#[trigger] tabs[j]).title@) != lowercase(
                name,
            ),
    decreases tabs.len(),
{
    if tabs.len() > 0 && lowercase(tabs[0].title@) != lowercase(name) {
        lemma_tab_named(tabs.drop_first(), name);
        assert forall|j: int| 0 <= j < tab_named(tabs, name) implies lowercase(
            (#[trigger] tabs[j]).title@,
        ) != lowercase(name) by {
            if j > 0 {
                assert(tabs[j] == tabs.drop_first()[j - 1]);
            }
        }
    }
}

/// Index of the first workspace whose label equals `name` without regard to case.
fn find_workspace_named<W>(workspaces: &Vec<Workspace<W>>, name: &str) -> (r: Option<usize>)
    ensures
        0 <= workspace_named(workspaces@, name@) <= workspaces@.len(),
        match r {
            Some(i) => i == workspace_named(workspaces@, name@) && i < workspaces@.len(),
            None => workspace_named(workspaces@, name@) == workspaces@.len(),
        },
{
    proof {
        lemma_workspace_named(workspaces@, name@);
    }
    let mut i: usize = 0;
    while i < workspaces.len()
        invariant
            i <= workspaces@.len(),
            forall|j: int| 0 <= j < i ==> lowercase((#[trigger] workspaces@[j]).label@) != lowercase(name@),
            0 <= workspace_named(workspaces@, name@) <= workspaces@.len(),
            workspace_named(workspaces@, name@) < workspaces@.len() ==> lowercase(
                workspaces@[workspace_named(workspaces@, name@)].label@,
            ) == lowercase(name@),
            forall|j: int|
                0 <= j < workspace_named(workspaces@, name@) ==> lowercase(
                    (#[trigger] workspaces@[j]).label@,
                ) != lowercase(name@),
        decreases workspaces@.len() - i,
    {
        if names_equal(workspaces[i].label.as_str(), name) {
            return Some(i);
        }
        i = i + 1;
    }
    None
}

/// Index of the first tab whose title equals `name` without regard to case.
fn find_tab_named<W>(tabs: &Vec<Tab<W>>, name: &str) -> (r: Option<usize>)
    ensures
        0 <= tab_named(tabs@, name@) <= tabs@.len(),
        match r {
            Some(i) => i == tab_named(tabs@, name@) && i < tabs@.len(),
            None => tab_named(tabs@, name@) == tabs@.len(),
        },
{
    proof {
        lemma_tab_named(tabs@, name@);
    }
    let mut i: usize = 0;
    while i < tabs.len()
        invariant
            i <= tabs@.len(),
            forall|j: int| 0 <= j < i ==> lowercase((#[trigger] tabs@[j]).title@) != lowercase(name@),
            0 <= tab_named(tabs@, name@) <= tabs@.len(),
            tab_named(tabs@, name@) < tabs@.len() ==> lowercase(tabs@[tab_named(tabs@, name@)].title@)
                == lowercase(name@),
            forall|j: int|
                0 <= j < tab_named(tabs@, name@) ==> lowercase((#[trigger] tabs@[j]).title@)
                    != lowercase(name@),
        decreases tabs@.len() - i,
    {
        if names_equal(tabs[i].title.as_str(), name) {
            return Some(i);
        }
        i = i + 1;
    }
    None
}

/// The workspace chosen by a request's selectors: its identity, its name (without regard to
/// case) or its one-based position, at most one of them; without one, the caller's workspace,
/// and without a caller the only workspace.
pub fn resolve_workspace_id<W>(
    workspaces: &Vec<Workspace<W>>,
    workspace_id: Option<u64>,
    workspace_name: Option<&str>,
    workspace_ordinal: Option<u64>,
    caller: Option<PaneKey>,
) -> (r: Result<WorkspaceId, HostError>)
    ensures
        r == workspace_choice(
            workspaces@,
            workspace_id,
            name_view(workspace_name),
            workspace_ordinal,
            caller,
        ),
        r is Ok ==> workspace_position(workspaces@, r->Ok_0) < workspaces@.len(),
{
    let count = (if workspace_id.is_some() { 1u8 } else { 0u8 }) + (if workspace_name.is_some() {
        1u8
    } else {
        0u8
    }) + (if workspace_ordinal.is_some() { 1u8 } else { 0u8 });
    if count > 1 {
        return Err(HostError::WorkspaceSelectorsExclusive);
    }
    if let Some(id) = workspace_id {
        return match crate::model::find_workspace(workspaces, WorkspaceId(id)) {
            Some(_) => Ok(WorkspaceId(id)),
            None => Err(HostError::WorkspaceNotMatched),
        };
    }
    if let Some(name) = workspace_name {
        let name = match normalize_name(name) {
            Ok(n) => n,
            Err(e) => return Err(HostError::InvalidName(e)),
        };
        return match find_workspace_named(workspaces, name.as_str()) {
            Some(i) => {
                proof {
                    lemma_workspace_position(workspaces@, workspaces@[i as int].id);
                }
                Ok(workspaces[i].id)
            },
            None => Err(HostError::WorkspaceNotMatched),
        };
    }
    if let Some(ordinal) = workspace_ordinal {
        let len = workspaces.len();
        return match ordinal_index(ordinal) {
            Some(i) => if i < workspaces.len() {
                assert(i == ordinal - 1);
                proof {
                    lemma_workspace_position(workspaces@, workspaces@[i as int].id);
                }
                Ok(workspaces[i].id)
            } else {
                Err(HostError::WorkspaceNotMatched)
            },
            None => Err(HostError::WorkspaceNotMatched),
        };
    }
    if let Some(key) = caller {
        return match crate::model::find_workspace(workspaces, key.workspace_id) {
            Some(_) => Ok(key.workspace_id),
            None => Err(HostError::WorkspaceNotMatched),
        };
    }
    if workspaces.len() == 1 {
        proof {
            lemma_workspace_position(workspaces@, workspaces@[0].id);
        }
        Ok(workspaces[0].id)
    } else {
        Err(HostError::WorkspaceAmbiguous)
    }
}

/// The tab of workspace `workspace_id` chosen by a request's selectors: its identity, its name
/// (without regard to case) or its one-based position, at most one of them; without one, the
/// caller's tab when the caller is in that workspace, then the only tab, then, where
/// `use_active_default` allows it, the active tab.
pub fn resolve_tab_id<W>(
    workspaces: &Vec<Workspace<W>>,
    workspace_id: WorkspaceId,
    tab_id: Option<u64>,
    tab_name: Option<&str>,
    tab_ordinal: Option<u64>,
    caller: Option<PaneKey>,
    use_active_default: bool,
) -> (r: Result<TabId, HostError>)
    ensures
        r == tab_choice(
            workspaces@,
            workspace_id,
            tab_id,
            name_view(tab_name),
            tab_ordinal,
            caller,
            use_active_default,
        ),
        r is Ok ==> workspace_position(workspaces@, workspace_id) < workspaces@.len() && tab_position(
            workspaces@[workspace_position(workspaces@, workspace_id)].tabs@,
            r->Ok_0,
        ) < workspaces@[workspace_position(workspaces@, workspace_id)].tabs@.len(),
{
    let count = (if tab_id.is_some() { 1u8 } else { 0u8 }) + (if tab_name.is_some() {
        1u8
    } else {
        0u8
    }) + (if tab_ordinal.is_some() { 1u8 } else { 0u8 });
    if count > 1 {
        return Err(HostError::TabSelectorsExclusive);
    }
    let w = match crate::model::find_workspace(workspaces, workspace_id) {
        Some(w) => w,
        None => return Err(HostError::WorkspaceNotFound),
    };
    let workspace = &workspaces[w];
    if let Some(id) = tab_id {
        return match crate::model::find_tab(&workspace.tabs, TabId(id)) {
            Some(_) => Ok(TabId(id)),
            None => Err(HostError::TabNotMatched),
        };
    }
    if let Some(name) = tab_name {
        let name = match normalize_name(name) {
            Ok(n) => n,
            Err(e) => return Err(HostError::InvalidName(e)),
        };
        return match find_tab_named(&workspace.tabs, name.as_str()) {
            Some(i) => {
                proof {
                    lemma_tab_position(workspace.tabs@, workspace.tabs@[i as int].id);
                }
                Ok(workspace.tabs[i].id)
            },
            None => Err(HostError::TabNotMatched),
        };
    }
    if let Some(ordinal) = tab_ordinal {
        return match ordinal_index(ordinal) {
            Some(i) => if i < workspace.tabs.len() {
                proof {
                    lemma_tab_position(workspace.tabs@, workspace.tabs@[i as int].id);
                }
                Ok(workspace.tabs[i].id)
            } else {
                Err(HostError::TabNotMatched)
            },
            None => Err(HostError::TabNotMatched),
        };
    }
    if let Some(key) = caller {
        if key.workspace_id.0 == workspace_id.0 {
            return match crate::model::find_tab(&workspace.tabs, key.tab_id) {
                Some(_) => Ok(key.tab_id),
                None => Err(HostError::TabNotMatched),
            };
        }
    }
    if workspace.tabs.len() == 1 {
        proof {
            lemma_tab_position(workspace.tabs@, workspace.tabs@[0].id);
        }
        Ok(workspace.tabs[0].id)
    } else if use_active_default {
        match crate::model::find_tab(&workspace.tabs, workspace.active_tab) {
            Some(_) => Ok(workspace.active_tab),
            None => Err(HostError::TabNotMatched),
        }
    } else {
        Err(HostError::TabAmbiguous)
    }
}

/// Whether a workspace other than `except` is already named `name` (without regard to case).
pub open spec fn workspace_name_taken<W>(
    workspaces: Seq<Workspace<W>>,
    name: Seq<char>,
    except: Option<WorkspaceId>,
) -> bool {
    exists|j: int|
        0 <= j < workspaces.len() && Some((#[trigger] workspaces[j]).id) != except && lowercase(
            workspaces[j].label@,
        ) == lowercase(name)
}

/// Whether a tab other than `except` is already named `name` (without regard to case).
pub open spec fn tab_name_taken<W>(tabs: Seq<Tab<W>>, name: Seq<char>, except: Option<TabId>) -> bool {
    exists|j: int|
        0 <= j < tabs.len() && Some((#[trigger] tabs[j]).id) != except && lowercase(tabs[j].title@)
            == lowercase(name)
}

/// What [`validate_unique_workspace_name`] makes of a name.
pub open spec fn workspace_name_check<W>(
    workspaces: Seq<Workspace<W>>,
    name: Seq<char>,
    except: Option<WorkspaceId>,
) -> Result<Seq<char>, HostError> {
    match normalized(name) {
        Err(e) => Err(HostError::InvalidName(e)),
        Ok(n) => if workspace_name_taken(workspaces, n, except) {
            Err(HostError::WorkspaceNameConflict)
        } else {
            Ok(n)
        },
    }
}

/// What [`validate_unique_tab_name`] makes of a name for a tab of workspace `workspace_id`.
pub open spec fn tab_name_check<W>(
    workspaces: Seq<Workspace<W>>,
    workspace_id: WorkspaceId,
    name: Seq<char>,
    except: Option<TabId>,
) -> Result<Seq<char>, HostError> {
    let w = workspace_position(workspaces, workspace_id);
    match normalized(name) {
        Err(e) => Err(HostError::InvalidName(e)),
        Ok(n) => if w >= workspaces.len() {
            Err(HostError::WorkspaceNotFound)
        } else if tab_name_taken(workspaces[w].tabs@, n, except) {
            Err(HostError::TabNameConflict)
        } else {
            Ok(n)
        },
    }
}

/// A name for a workspace, normalized, when no workspace other than `except` already has it.
pub fn validate_unique_workspace_name<W>(
    workspaces: &Vec<Workspace<W>>,
    name: &str,
    except: Option<WorkspaceId>,
) -> (r: Result<String, HostError>)
    ensures
        match (r, workspace_name_check(workspaces@, name@, except)) {
            (Ok(s), Ok(t)) => s@ == t,
            (Err(e), Err(f)) => e == f,
            _ => false,
        },
{
    let clean = match normalize_name(name) {
        Ok(n) => n,
        Err(e) => return Err(HostError::InvalidName(e)),
    };
    let mut i: usize = 0;
    while i < workspaces.len()
        invariant
            i <= workspaces@.len(),
            forall|j: int|
                0 <= j < i ==> !(Some((#[trigger] workspaces@[j]).id) != except && lowercase(
                    workspaces@[j].label@,
                ) == lowercase(clean@)),
            normalized(name@) == Ok::<Seq<char>, NameError>(clean@),
        decreases workspaces@.len() - i,
    {
        let other = match except {
            Some(e) => workspaces[i].id.0 != e.0,
            None => true,
        };
        if other && names_equal(workspaces[i].label.as_str(), clean.as_str()) {
            assert(Some(workspaces@[i as int].id) != except);
            return Err(HostError::WorkspaceNameConflict);
        }
        i = i + 1;
    }
    Ok(clean)
}

/// A name for a tab of workspace `workspace_id`, normalized, when no tab of that workspace other
/// than `except` already has it.
pub fn validate_unique_tab_name<W>(
    workspaces: &Vec<Workspace<W>>,
    workspace_id: WorkspaceId,
    name: &str,
    except: Option<TabId>,
) -> (r: Result<String, HostError>)
    ensures
        match (r, tab_name_check(workspaces@, workspace_id, name@, except)) {
            (Ok(s), Ok(t)) => s@ == t,
            (Err(e), Err(f)) => e == f,
            _ => false,
        },
{
    let clean = match normalize_name(name) {
        Ok(n) => n,
        Err(e) => return Err(HostError::InvalidName(e)),
    };
    let w = match crate::model::find_workspace(workspaces, workspace_id) {
        Some(w) => w,
        None => return Err(HostError::WorkspaceNotFound),
    };
    let tabs = &workspaces[w].tabs;
    let mut i: usize = 0;
    while i < tabs.len()
        invariant
            i <= tabs@.len(),
            forall|j: int|
                0 <= j < i ==> !(Some((#[trigger] tabs@[j]).id) != except && lowercase(tabs@[j].title@)
                    == lowercase(clean@)),
            normalized(name@) == Ok::<Seq<char>, NameError>(clean@),
            w == workspace_position(workspaces@, workspace_id),
            w < workspaces@.len(),
            tabs@ == workspaces@[w as int].tabs@,
        decreases tabs@.len() - i,
    {
        let other = match except {
            Some(e) => tabs[i].id.0 != e.0,
            None => true,
        };
        if other && names_equal(tabs[i].title.as_str(), clean.as_str()) {
            assert(Some(tabs@[i as int].id) != except);
            return Err(HostError::TabNameConflict);
        }
        i = i + 1;
    }
    Ok(clean)
}

/// The name of a direction as the protocol's messages spell it.
pub open spec fn direction_word(d: PaneDirection) -> Seq<char> {
    match d {
        PaneDirection::Left => "Left"@,
        PaneDirection::Right => "Right"@,
        PaneDirection::Up => "Up"@,
        PaneDirection::Down => "Down"@,
    }
}

/// The full message sent with an error: for a missing neighbour, which direction of which
/// pane; otherwise [`error_message`].
pub open spec fn full_error_message(e: HostError) -> Seq<char> {
    match e {
        HostError::NoNeighbor { direction, pane } => "no pane exists "@ + direction_word(direction)
            + " of pane "@ + decimal(pane.0 as nat),
        _ => error_message(e),
    }
}

fn append_chars(out: &mut Vec<char>, more: &Vec<char>)
    ensures
        final(out)@ == old(out)@ + more@,
{
    let ghost start = out@;
    let mut i: usize = 0;
    while i < more.len()
        invariant
            i <= more@.len(),
            out@ == start + more@.subrange(0, i as int),
        decreases more@.len() - i,
    {
        out.push(more[i]);
        proof {
            assert(more@.subrange(0, i + 1) =~= more@.subrange(0, i as int).push(more@[i as int]));
        }
        i = i + 1;
    }
    proof {
        assert(more@.subrange(0, i as int) =~= more@);
    }
}

impl HostError {
    /// The full message sent with the error (see [`full_error_message`]).
    pub fn full_message(self) -> (r: String)
        ensures
            r@ == full_error_message(self),
    {
        match self {
            HostError::NoNeighbor { direction, pane } => {
                let mut out = chars_of("no pane exists ");
                let word = match direction {
                    PaneDirection::Left => "Left",
                    PaneDirection::Right => "Right",
                    PaneDirection::Up => "Up",
                    PaneDirection::Down => "Down",
                };
                append_chars(&mut out, &chars_of(word));
                append_chars(&mut out, &chars_of(" of pane "));
                append_chars(&mut out, &decimal_chars(pane.0));
                proof {
                    assert(out@ =~= full_error_message(self));
                }
                string_of(&out)
            },
            _ => {
                let m = self.message();
                string_of(&chars_of(m))
            },
        }
    }
}

/// The decimal digit `d`.
pub open spec fn digit_char(d: int) -> char {
    if d == 0 {
        '0'
    } else if d == 1 {
        '1'
    } else if d == 2 {
        '2'
    } else if d == 3 {
        '3'
    } else if d == 4 {
        '4'
    } else if d == 5 {
        '5'
    } else if d == 6 {
        '6'
    } else if d == 7 {
        '7'
    } else if d == 8 {
        '8'
    } else {
        '9'
    }
}

/// The decimal numeral of `k`.
pub open spec fn decimal(k: nat) -> Seq<char>
    decreases k,
{
    if k < 10 {
        seq![digit_char(k as int)]
    } else {
        decimal(k / 10).push(digit_char((k % 10) as int))
    }
}

fn digit(d: u64) -> (r: char)
    requires
        d < 10,
    ensures
        r == digit_char(d as int),
{
    match d {
        0 => '0',
        1 => '1',
        2 => '2',
        3 => '3',
        4 => '4',
        5 => '5',
        6 => '6',
        7 => '7',
        8 => '8',
        _ => '9',
    }
}

fn decimal_chars(k: u64) -> (r: Vec<char>)
    ensures
        r@ == decimal(k as nat),
    decreases k,
{
    if k < 10 {
        let mut v: Vec<char> = Vec::new();
        v.push(digit(k));
        proof {
            assert(v@ =~= seq![digit_char(k as int)]);
        }
        v
    } else {
        let mut v = decimal_chars(k / 10);
        v.push(digit(k % 10));
        v
    }
}

/// `base` with the suffix ` (k)`, as a colliding name is told apart.
pub open spec fn suffixed(base: Seq<char>, k: nat) -> Seq<char> {
    base + seq![' ', '('] + decimal(k) + seq![')']
}

fn suffixed_string(base: &str, k: u64) -> (r: String)
    ensures
        r@ == suffixed(base@, k as nat),
{
    let mut chars = chars_of(base);
    chars.push(' ');
    chars.push('(');
    let digits = decimal_chars(k);
    let ghost start = chars@;
    let mut i: usize = 0;
    while i < digits.len()
        invariant
            i <= digits@.len(),
            chars@ == start + digits@.subrange(0, i as int),
        decreases digits@.len() - i,
    {
        chars.push(digits[i]);
        proof {
            assert(digits@.subrange(0, i + 1) =~= digits@.subrange(0, i as int).push(digits@[i as int]));
        }
        i = i + 1;
    }
    chars.push(')');
    proof {
        assert(digits@.subrange(0, i as int) =~= digits@);
        assert(chars@ =~= suffixed(base@, k as nat));
    }
    string_of(&chars)
}

/// The least suffix number `k` in `[from, stop)` whose suffixed name no workspace has (`stop`
/// when every one is taken).
pub open spec fn first_free_suffix<W>(workspaces: Seq<Workspace<W>>, base: Seq<char>, from: int, stop: int) -> int
    decreases stop - from,
{
    if from >= stop {
        stop
    } else if !workspace_name_taken(workspaces, suffixed(base, from as nat), None) {
        from
    } else {
        first_free_suffix(workspaces, base, from + 1, stop)
    }
}

/// The label that [`unique_workspace_label`] gives a workspace named after `base`: `base`
/// itself when no workspace has it, and otherwise `base (k)` for the least `k` from 2 that no
/// workspace has, trying one more candidate than there are workspaces.
pub open spec fn unique_label<W>(workspaces: Seq<Workspace<W>>, base: Seq<char>) -> Seq<char> {
    if !workspace_name_taken(workspaces, base, None) {
        base
    } else {
        suffixed(base, first_free_suffix(workspaces, base, 2, workspaces.len() + 3int) as nat)
    }
}

/// Lowercasing keeps the candidates `base (2)` to `base (n + 2)` apart.
pub open spec fn suffixes_stay_distinct(base: Seq<char>, n: int) -> bool {
    forall|a: int, b: int|
        2 <= a < b <= n + 2 ==> lowercase(#[trigger] suffixed(base, a as nat)) != lowercase(
            #[trigger] suffixed(base, b as nat),
        )
}

proof fn lemma_first_free_suffix<W>(workspaces: Seq<Workspace<W>>, base: Seq<char>, from: int, stop: int)
    requires
        from <= stop,
    ensures
        from <= first_free_suffix(workspaces, base, from, stop) <= stop,
        first_free_suffix(workspaces, base, from, stop) < stop ==> !workspace_name_taken(
            workspaces,
            suffixed(base, first_free_suffix(workspaces, base, from, stop) as nat),
            None,
        ),
        forall|k: int|
            from <= k < first_free_suffix(workspaces, base, from, stop) ==> workspace_name_taken(
                workspaces,
                #[trigger] suffixed(base, k as nat),
                None,
            ),
    decreases stop - from,
{
    if from < stop && workspace_name_taken(workspaces, suffixed(base, from as nat), None) {
        lemma_first_free_suffix(workspaces, base, from + 1, stop);
    }
}

/// A new workspace's label is no other workspace's name, as long as lowercasing keeps the
/// suffixed candidates apart: there are more candidates than workspaces.
pub proof fn lemma_unique_label_is_free<W>(workspaces: Seq<Workspace<W>>, base: Seq<char>)
    requires
        suffixes_stay_distinct(base, workspaces.len() as int),
    ensures
        !workspace_name_taken(workspaces, unique_label(workspaces, base), None),
{
    let n = workspaces.len() as int;
    lemma_first_free_suffix(workspaces, base, 2, n + 3);
    if workspace_name_taken(workspaces, base, None) && first_free_suffix(workspaces, base, 2, n + 3)
        == n + 3 {
        let labels = Seq::new(n as nat, |j: int| lowercase(workspaces[j].label@));
        let candidates = Seq::new((n + 1) as nat, |i: int| lowercase(suffixed(base, (i + 2) as nat)));
        assert(candidates.no_duplicates()) by {
            assert forall|i: int, j: int|
                0 <= i < candidates.len() && 0 <= j < candidates.len() && i != j implies candidates[i]
                != candidates[j] by {
                if i < j {
                    assert(lowercase(suffixed(base, (i + 2) as nat)) != lowercase(
                        suffixed(base, (j + 2) as nat),
                    ));
                } else {
                    assert(lowercase(suffixed(base, (j + 2) as nat)) != lowercase(
                        suffixed(base, (i + 2) as nat),
                    ));
                }
            }
        }
        candidates.unique_seq_to_set();
        labels.lemma_cardinality_of_set();
        assert(candidates.to_set().subset_of(labels.to_set())) by {
            assert forall|c: Seq<char>| candidates.to_set().contains(c) implies labels.to_set().contains(c) by {
                let i = choose|i: int| 0 <= i < candidates.len() && candidates[i] == c;
                assert(workspace_name_taken(workspaces, suffixed(base, (i + 2) as nat), None));
                let j = choose|j: int|
                    0 <= j < workspaces.len() && Some((#[trigger] workspaces[j]).id) != None::<WorkspaceId> && lowercase(
                        workspaces[j].label@,
                    ) == lowercase(suffixed(base, (i + 2) as nat));
                assert(labels[j] == c);
            }
        }
        vstd::seq_lib::seq_to_set_is_finite(labels);
        vstd::set_lib::lemma_len_subset(candidates.to_set(), labels.to_set());
        assert(false);
    }
}

fn label_taken<W>(workspaces: &Vec<Workspace<W>>, name: &str) -> (r: bool)
    ensures
        r == workspace_name_taken(workspaces@, name@, None),
{
    let mut i: usize = 0;
    while i < workspaces.len()
        invariant
            i <= workspaces@.len(),
            forall|j: int|
                0 <= j < i ==> !(Some((#[trigger] workspaces@[j]).id) != None::<WorkspaceId> && lowercase(
                    workspaces@[j].label@,
                ) == lowercase(name@)),
        decreases workspaces@.len() - i,
    {
        if names_equal(workspaces[i].label.as_str(), name) {
            assert(Some(workspaces@[i as int].id) != None::<WorkspaceId>);
            return true;
        }
        i = i + 1;
    }
    false
}

/// A label for a new workspace named after `base` that sets it apart from the others (see
/// [`unique_label`]). It is free whenever lowercasing keeps the suffixed candidates apart
/// ([`lemma_unique_label_is_free`]).
pub fn unique_workspace_label<W>(workspaces: &Vec<Workspace<W>>, base: &str) -> (r: String)
    requires
        workspaces@.len() + 3 <= u64::MAX,
    ensures
        r@ == unique_label(workspaces@, base@),
        !workspace_name_taken(workspaces@, base@, None) ==> r@ == base@,
        suffixes_stay_distinct(base@, workspaces@.len() as int) ==> !workspace_name_taken(
            workspaces@,
            r@,
            None,
        ),
{
    proof {
        lemma_first_free_suffix(workspaces@, base@, 2, workspaces@.len() + 3int);
        if suffixes_stay_distinct(base@, workspaces@.len() as int) {
            lemma_unique_label_is_free(workspaces@, base@);
        }
    }
    if !label_taken(workspaces, base) {
        let chars = chars_of(base);
        return string_of(&chars);
    }
    let stop: u64 = workspaces.len() as u64 + 3;
    let mut k: u64 = 2;
    while k < stop
        invariant
            2 <= k <= stop,
            stop == workspaces@.len() + 3,
            workspace_name_taken(workspaces@, base@, None),
            first_free_suffix(workspaces@, base@, 2, stop as int) == first_free_suffix(
                workspaces@,
                base@,
                k as int,
                stop as int,
            ),
        decreases stop - k,
    {
        let candidate = suffixed_string(base, k);
        if !label_taken(workspaces, candidate.as_str()) {
            return candidate;
        }
        k = k + 1;
    }
    suffixed_string(base, stop)
}

/// The label of a workspace being created in `cwd`: the requested `name`, normalized and
/// refused when invalid or taken, or else the directory's name made unique.
pub open spec fn creation_label<W>(
    workspaces: Seq<Workspace<W>>,
    cwd: Seq<char>,
    name: Option<Seq<char>>,
) -> Result<Seq<char>, HostError> {
    match name {
        Some(n) => workspace_name_check(workspaces, n, None),
        None => Ok(unique_label(workspaces, label_for(path_file_name(cwd)))),
    }
}

/// Choose the label of a workspace being created in `cwd` (see [`creation_label`]).
pub fn create_workspace_label<W>(workspaces: &Vec<Workspace<W>>, cwd: &str, name: Option<&str>) -> (r:
    Result<String, HostError>)
    requires
        workspaces@.len() + 3 <= u64::MAX,
    ensures
        match (r, creation_label(workspaces@, cwd@, name_view(name))) {
            (Ok(s), Ok(t)) => s@ == t,
            (Err(e), Err(f)) => e == f,
            _ => false,
        },
{
    match name {
        Some(n) => validate_unique_workspace_name(workspaces, n, None),
        None => {
            let base = workspace_label(cwd);
            Ok(unique_workspace_label(workspaces, base.as_str()))
        },
    }
}

/// The label of a restored workspace saved as `saved`: the saved label when it is a valid name,
/// else `"workspace"`, made unique among the workspaces restored so far.
pub open spec fn restored_label<W>(workspaces: Seq<Workspace<W>>, saved: Seq<char>) -> Seq<char> {
    match normalized(saved) {
        Ok(n) => unique_label(workspaces, n),
        Err(_) => unique_label(workspaces, "workspace"@),
    }
}

/// Choose the label of a restored workspace (see [`restored_label`]).
pub fn restored_workspace_label<W>(workspaces: &Vec<Workspace<W>>, saved: &str) -> (r: String)
    requires
        workspaces@.len() + 3 <= u64::MAX,
    ensures
        r@ == restored_label(workspaces@, saved@),
{
    match normalize_name(saved) {
        Ok(n) => unique_workspace_label(workspaces, n.as_str()),
        Err(_) => unique_workspace_label(workspaces, "workspace"),
    }
}

/// A tab's number is its one-based displayed position in the chosen workspace: given alone,
/// number `k` chooses the tab at position `k - 1` when the workspace has that many tabs, and
/// no tab otherwise, whatever the tabs' identities are.
pub proof fn lemma_tab_number_is_displayed_position<W>(
    workspaces: Seq<Workspace<W>>,
    w: int,
    k: u64,
    caller: Option<PaneKey>,
    active_default: bool,
)
    requires
        0 <= w < workspaces.len(),
        forall|v: int| 0 <= v < w ==> (#[trigger] workspaces[v]).id != workspaces[w].id,
    ensures
        1 <= k <= workspaces[w].tabs@.len() ==> tab_choice(
            workspaces,
            workspaces[w].id,
            None,
            None,
            Some(k),
            caller,
            active_default,
        ) == Ok::<TabId, HostError>(workspaces[w].tabs@[k - 1].id),
        (k == 0 || k > workspaces[w].tabs@.len()) ==> tab_choice(
            workspaces,
            workspaces[w].id,
            None,
            None,
            Some(k),
            caller,
            active_default,
        ) == Err::<TabId, HostError>(HostError::TabNotMatched),
{
    lemma_workspace_position(workspaces, workspaces[w].id);
}

/// A tab named by identity alone is chosen exactly when the chosen workspace has a tab with
/// that identity.
pub proof fn lemma_tab_identity_must_exist<W>(
    workspaces: Seq<Workspace<W>>,
    w: int,
    id: u64,
    caller: Option<PaneKey>,
    active_default: bool,
)
    requires
        0 <= w < workspaces.len(),
        forall|v: int| 0 <= v < w ==> (#[trigger] workspaces[v]).id != workspaces[w].id,
    ensures
        tab_choice(workspaces, workspaces[w].id, Some(id), None, None, caller, active_default) == if exists|t: int|
            0 <= t < workspaces[w].tabs@.len() && (#[trigger] workspaces[w].tabs@[t]).id == TabId(id) {
            Ok::<TabId, HostError>(TabId(id))
        } else {
            Err::<TabId, HostError>(HostError::TabNotMatched)
        },
{
    lemma_workspace_position(workspaces, workspaces[w].id);
    lemma_tab_position(workspaces[w].tabs@, TabId(id));
}

/// A workspace's number is its one-based displayed position: given alone, number `k` chooses
/// the workspace at position `k - 1` when there are that many, and none otherwise.
pub proof fn lemma_workspace_number_is_displayed_position<W>(
    workspaces: Seq<Workspace<W>>,
    k: u64,
    caller: Option<PaneKey>,
)
    ensures
        1 <= k <= workspaces.len() ==> workspace_choice(workspaces, None, None, Some(k), caller)
            == Ok::<WorkspaceId, HostError>(workspaces[k - 1].id),
        (k == 0 || k > workspaces.len()) ==> workspace_choice(workspaces, None, None, Some(k), caller)
            == Err::<WorkspaceId, HostError>(HostError::WorkspaceNotMatched),
{
}

/// Without a selector and without a caller, a workspace is chosen only when exactly one
/// exists; the active workspace is never a fallback.
pub proof fn lemma_omitted_workspace_needs_a_single_one<W>(workspaces: Seq<Workspace<W>>)
    ensures
        workspace_choice(workspaces, None, None, None, None) is Ok <==> workspaces.len() == 1,
        workspaces.len() == 1 ==> workspace_choice(workspaces, None, None, None, None) == Ok::<
            WorkspaceId,
            HostError,
        >(workspaces[0].id),
{
}

/// Without selectors, a request is scoped to its caller's own workspace and tab, whether or
/// not they are the active ones.
pub proof fn lemma_caller_scopes_an_unselected_request<W>(workspaces: Seq<Workspace<W>>, caller: PaneKey, active_default: bool)
    requires
        workspace_position(workspaces, caller.workspace_id) < workspaces.len(),
        tab_position(
            workspaces[workspace_position(workspaces, caller.workspace_id)].tabs@,
            caller.tab_id,
        ) < workspaces[workspace_position(workspaces, caller.workspace_id)].tabs@.len(),
    ensures
        workspace_choice(workspaces, None, None, None, Some(caller)) == Ok::<WorkspaceId, HostError>(
            caller.workspace_id,
        ),
        tab_choice(workspaces, caller.workspace_id, None, None, None, Some(caller), active_default)
            == Ok::<TabId, HostError>(caller.tab_id),
{
}

} // verus!
