//! Click targets that the chrome lays out as it paints: the tab bar's controls, the tab strip,
//! the sidebar's rows, and the rows of the gear and naming menus.
//!
//! Lengths are physical pixels, already scaled and rounded by the caller.

use vstd::prelude::*;

use crate::chrome::{
    centred_panel, control_rect, corner_square, footer_metrics, max_u32, min_u32, sat_sub,
    settings_menu_at, settings_menu_rect, shortcuts_close_rect, shortcuts_rect,
    sidebar_footer_metrics, ChromeHitMap, ChromeLayout, SidebarMode,
};
use crate::click::{
    chrome_click, first_keyed_hit, keyed_hit, lemma_first_keyed_hit, ChromeClick, ChromeMenus,
};
use crate::model::{TabId, WorkspaceId};
use crate::rect::{clamp_i32, PhysicalRect, PhysicalSize};

verus! {

/// A control `width` pixels wide, `offset` pixels into `bar`, clipped to the bar.
pub open spec fn control_at(offset: u32, bar: PhysicalRect, width: u32) -> PhysicalRect {
    PhysicalRect {
        x: (bar.x + offset) as i32,
        y: bar.y,
        width: min_u32(width, sat_sub(bar.width, offset)),
        height: bar.height,
    }
}

/// The empty rectangle at the origin.
pub open spec fn no_rect() -> PhysicalRect {
    PhysicalRect { x: 0, y: 0, width: 0, height: 0 }
}

/// The tab bar's controls, and the part of the bar left for tabs.
#[derive(Clone, Copy, Debug, Default, PartialEq, Eq, Structural)]
pub struct TopControls {
    pub toggle: PhysicalRect,
    pub split_horizontal: PhysicalRect,
    pub split_vertical: PhysicalRect,
    pub gear: PhysicalRect,
    pub minimize: PhysicalRect,
    pub maximize: PhysicalRect,
    pub close: PhysicalRect,
    pub tabs_area: PhysicalRect,
    /// Where the sidebar's heading may start: just after the sidebar toggle.
    pub label_x: i32,
}

/// The tab bar's controls for buttons `button` pixels wide, a leading inset of `inset` pixels
/// kept free for the platform, and window controls `system` pixels wide in all (none when
/// zero). The sidebar toggle comes first; the split and gear buttons are right-aligned before
/// the window controls, which end the bar in three equal parts (the last taking the rest); the
/// tabs get what lies between the toggle (or the sidebar, if wider) and the split buttons.
pub open spec fn top_controls_of(
    layout: ChromeLayout,
    button: u32,
    inset: u32,
    system: u32,
) -> TopControls {
    let bar = layout.tab_bar;
    let system_start = sat_sub(bar.width, system);
    let app_start = sat_sub(system_start, (3 * button) as u32);
    let third = system / 3;
    let tabs_start = max_u32(layout.sidebar.width, (inset + button) as u32);
    TopControls {
        toggle: PhysicalRect { x: inset as i32, y: bar.y, width: button, height: bar.height },
        split_horizontal: control_at(app_start, bar, button),
        split_vertical: control_at((app_start + button) as u32, bar, button),
        gear: control_at((app_start + 2 * button) as u32, bar, button),
        minimize: if system > 0 {
            control_at(system_start, bar, third)
        } else {
            no_rect()
        },
        maximize: if system > 0 {
            control_at((system_start + third) as u32, bar, third)
        } else {
            no_rect()
        },
        close: if system > 0 {
            control_at((system_start + 2 * third) as u32, bar, (system - 2 * third) as u32)
        } else {
            no_rect()
        },
        tabs_area: PhysicalRect {
            x: tabs_start as i32,
            y: bar.y,
            width: sat_sub(app_start, tabs_start),
            height: bar.height,
        },
        label_x: (inset + button) as i32,
    }
}

/// Lay out the tab bar's controls (see [`top_controls_of`]).
pub fn top_controls(layout: ChromeLayout, button: u32, inset: u32, system: u32) -> (r: TopControls)
    requires
        inset + button <= i32::MAX,
        layout.sidebar.width <= i32::MAX,
        layout.tab_bar.width + 3 * button + system <= i32::MAX,
        layout.tab_bar.x + layout.tab_bar.width + 3 * button + system <= i32::MAX,
    ensures
        r == top_controls_of(layout, button, inset, system),
        // The split buttons and the gear sit side by side, the gear ending where the window
        // controls begin, whenever the bar has room for all of them.
        layout.tab_bar.width >= system + 3 * button ==> {
            &&& r.split_horizontal.width == button && r.split_vertical.width == button
            &&& r.gear.width == button
            &&& r.split_horizontal.right_edge() == r.split_vertical.x
            &&& r.split_vertical.right_edge() == r.gear.x
            &&& r.gear.right_edge() == layout.tab_bar.right_edge() - system
        },
        // The window controls tile the end of the bar.
        0 < system <= layout.tab_bar.width ==> {
            &&& r.minimize.right_edge() == r.maximize.x
            &&& r.maximize.right_edge() == r.close.x
            &&& r.close.right_edge() == layout.tab_bar.right_edge()
        },
        // Tabs start after the toggle and the sidebar, and end where the split buttons begin.
        r.tabs_area.x >= r.toggle.right_edge(),
        r.tabs_area.x >= layout.sidebar.width,
        layout.tab_bar.x == 0 && r.tabs_area.width > 0 ==> r.tabs_area.right_edge()
            == r.split_horizontal.x,
{
    let bar = layout.tab_bar;
    let system_start = bar.width.saturating_sub(system);
    let app_start = system_start.saturating_sub(3 * button);
    let toggle = PhysicalRect { x: inset as i32, y: bar.y, width: button, height: bar.height };
    let split_horizontal = control_rect(app_start, bar, button);
    let split_vertical = control_rect(app_start + button, bar, button);
    let gear = control_rect(app_start + 2 * button, bar, button);
    let mut minimize = PhysicalRect { x: 0, y: 0, width: 0, height: 0 };
    let mut maximize = PhysicalRect { x: 0, y: 0, width: 0, height: 0 };
    let mut close = PhysicalRect { x: 0, y: 0, width: 0, height: 0 };
    if system > 0 {
        let third = system / 3;
        minimize = control_rect(system_start, bar, third);
        maximize = control_rect(system_start + third, bar, third);
        close = control_rect(system_start + 2 * third, bar, system - 2 * third);
    }
    let leading = inset + button;
    let tabs_start = if layout.sidebar.width > leading {
        layout.sidebar.width
    } else {
        leading
    };
    let tabs_area = PhysicalRect {
        x: tabs_start as i32,
        y: bar.y,
        width: app_start.saturating_sub(tabs_start),
        height: bar.height,
    };
    TopControls {
        toggle,
        split_horizontal,
        split_vertical,
        gear,
        minimize,
        maximize,
        close,
        tabs_area,
        label_x: leading as i32,
    }
}

/// Width of the tab in slot `i`, for tabs `tab` pixels wide in a strip `strip` pixels wide: a
/// full tab, the remainder of the strip, or nothing once the strip is used up.
pub open spec fn slot_width(strip: int, tab: int, i: int) -> int {
    if i * tab >= strip {
        0
    } else if strip - i * tab < tab {
        strip - i * tab
    } else {
        tab
    }
}

/// Width of the strip that tabs may use: the tabs area less the new-tab button.
pub open spec fn strip_width(area: PhysicalRect, new_tab: u32) -> u32 {
    sat_sub(area.width, new_tab)
}

/// The tab in slot `i` of the tabs area.
pub open spec fn tab_slot(area: PhysicalRect, tab: u32, new_tab: u32, i: int) -> PhysicalRect {
    PhysicalRect {
        x: (area.x + i * tab) as i32,
        y: 0,
        width: slot_width(strip_width(area, new_tab) as int, tab as int, i) as u32,
        height: area.height,
    }
}

/// The new-tab button after `count` tabs: right after the last tab (or the end of the strip),
/// `new_tab` pixels wide or what is left of the tabs area.
pub open spec fn new_tab_slot(
    area: PhysicalRect,
    count: int,
    tab: u32,
    new_tab: u32,
) -> PhysicalRect {
    let used = if count * tab < strip_width(area, new_tab) {
        count * tab
    } else {
        strip_width(area, new_tab) as int
    };
    let x = area.x + used;
    PhysicalRect {
        x: x as i32,
        y: 0,
        width: if new_tab < area.right_edge() - x {
            new_tab
        } else {
            (area.right_edge() - x) as u32
        },
        height: area.height,
    }
}

/// `rows` give the tabs `tabs` their slots in `area`, in order, as long as the strip has
/// room: the list ends with the last tab or before the first slot that has no width.
pub open spec fn is_tab_strip(
    rows: Seq<(TabId, PhysicalRect)>,
    area: PhysicalRect,
    tabs: Seq<TabId>,
    tab: u32,
    new_tab: u32,
) -> bool {
    &&& rows.len() <= tabs.len()
    &&& forall|i: int|
        #![trigger rows[i]]
        #![trigger tab_slot(area, tab, new_tab, i)]
        0 <= i < rows.len() ==> rows[i] == (tabs[i], tab_slot(area, tab, new_tab, i)) && tab_slot(
            area,
            tab,
            new_tab,
            i,
        ).width > 0
    &&& rows.len() == tabs.len() || tab_slot(area, tab, new_tab, rows.len() as int).width == 0
}

/// The tab strip keeps its targets apart: every tab lies in the tabs area before the new-tab
/// button, which itself ends inside the tabs area.
#[verifier::spinoff_prover]
pub proof fn lemma_tab_strip_stays_before_new_tab(
    rows: Seq<(TabId, PhysicalRect)>,
    area: PhysicalRect,
    tabs: Seq<TabId>,
    tab: u32,
    new_tab: u32,
)
    requires
        is_tab_strip(rows, area, tabs, tab, new_tab),
        area.x + area.width + tab <= i32::MAX,
        tabs.len() * tab <= u32::MAX,
    ensures
        forall|i: int|
            #![trigger rows[i]]
            0 <= i < rows.len() ==> area.x <= rows[i].1.x && rows[i].1.right_edge()
                <= new_tab_slot(area, tabs.len() as int, tab, new_tab).x,
        area.x <= new_tab_slot(area, tabs.len() as int, tab, new_tab).x,
        new_tab_slot(area, tabs.len() as int, tab, new_tab).right_edge() <= area.right_edge(),
{
    let strip = strip_width(area, new_tab) as int;
    let count = tabs.len() as int;
    assert forall|i: int|
        #![trigger rows[i]]
        0 <= i < rows.len() implies area.x <= rows[i].1.x && rows[i].1.right_edge()
            <= new_tab_slot(area, count, tab, new_tab).x by {
        assert(0 <= i * tab) by (nonlinear_arith)
            requires
                0 <= i,
        ;
        assert((i + 1) * tab == i * tab + tab) by (nonlinear_arith);
        assert((i + 1) * tab <= count * tab) by (nonlinear_arith)
            requires
                i + 1 <= count,
        ;
        assert(tab_slot(area, tab, new_tab, i).width > 0);
        assert(i * tab < strip) by {
            if i * tab >= strip {
                assert(slot_width(strip, tab as int, i) == 0);
            }
        }
    }
    assert(0 <= count * tab) by (nonlinear_arith)
        requires
            0 <= count,
    ;
}

/// The tab strip's click targets.
#[derive(Clone, Debug)]
pub struct TabStrip {
    /// One target per tab that fits, in tab order.
    pub tabs: Vec<(TabId, PhysicalRect)>,
    pub new_tab: PhysicalRect,
}

/// Lay out the tabs `tabs`, each `tab` pixels wide, in `area`, followed by the new-tab
/// button: tabs get consecutive slots until the strip is used up (the last one possibly
/// narrower), and the rest are left out.
#[verifier::spinoff_prover]
pub fn tab_strip(area: PhysicalRect, tabs: &Vec<TabId>, tab: u32, new_tab: u32) -> (r: TabStrip)
    requires
        area.width + tab <= i32::MAX,
        area.x + area.width + tab <= i32::MAX,
        tabs@.len() * tab <= u32::MAX,
    ensures
        is_tab_strip(r.tabs@, area, tabs@, tab, new_tab),
        r.new_tab == new_tab_slot(area, tabs@.len() as int, tab, new_tab),
{
    let strip = area.width.saturating_sub(new_tab);
    let mut rows: Vec<(TabId, PhysicalRect)> = Vec::new();
    let mut index: usize = 0;
    let mut offset: u32 = 0;
    while tab > 0 && index < tabs.len() && offset < strip
        invariant
            index <= tabs@.len(),
            offset == index * tab,
            strip == strip_width(area, new_tab),
            area.width + tab <= i32::MAX,
            area.x + area.width + tab <= i32::MAX,
            tabs@.len() * tab <= u32::MAX,
            rows@.len() == index,
            forall|i: int|
                #![trigger rows@[i]]
                0 <= i < index ==> rows@[i] == (tabs@[i], tab_slot(area, tab, new_tab, i))
                    && tab_slot(area, tab, new_tab, i).width > 0,
        decreases tabs@.len() - index,
    {
        let room = strip - offset;
        let width = if tab < room {
            tab
        } else {
            room
        };
        let slot = PhysicalRect { x: area.x + offset as i32, y: 0, width, height: area.height };
        assert(slot == tab_slot(area, tab, new_tab, index as int));
        assert(slot.width > 0);
        let ghost before = rows@;
        rows.push((tabs[index], slot));
        proof {
            assert((index + 1) * tab == index * tab + tab) by (nonlinear_arith);
            assert((index + 1) * tab <= tabs@.len() * tab) by (nonlinear_arith)
                requires
                    index + 1 <= tabs@.len(),
            ;
        }
        offset = offset + tab;
        index = index + 1;
        proof {
            assert forall|i: int|
                #![trigger rows@[i]]
                0 <= i < index implies rows@[i] == (tabs@[i], tab_slot(area, tab, new_tab, i))
                    && tab_slot(area, tab, new_tab, i).width > 0 by {
                if i < index - 1 {
                    assert(rows@[i] == before[i]);
                }
            }
        }
    }
    assert(is_tab_strip(rows@, area, tabs@, tab, new_tab));
    let total: u32 = if tab == 0 {
        0
    } else {
        assert(tabs@.len() <= tabs@.len() * tab) by (nonlinear_arith)
            requires
                tab >= 1,
        ;
        tabs.len() as u32 * tab
    };
    let used = if total < strip {
        total
    } else {
        strip
    };
    let x = area.x + used as i32;
    let left: i64 = area.right() - x as i64;
    let new_tab_rect = PhysicalRect {
        x,
        y: 0,
        width: if (new_tab as i64) < left {
            new_tab
        } else {
            left as u32
        },
        height: area.height,
    };
    TabStrip { tabs: rows, new_tab: new_tab_rect }
}

/// Scaled lengths of the sidebar's workspace list.
#[derive(Clone, Copy, Debug, PartialEq, Eq, Structural)]
pub struct SidebarGeometry {
    /// Height of the heading above the first row.
    pub header: u32,
    /// Height of one row.
    pub row: u32,
    /// Where the list must end: the top of the footer.
    pub list_bottom: u32,
    /// Height of the footer.
    pub footer: u32,
    /// Width of a row's close button.
    pub close: u32,
}

/// `a + b`, saturating at `u32::MAX`.
pub open spec fn sat_add(a: int, b: int) -> int {
    if a + b > u32::MAX {
        u32::MAX as int
    } else {
        a + b
    }
}

/// Top of the sidebar row `i`.
pub open spec fn row_top(g: SidebarGeometry, i: int) -> int {
    sat_add(g.header as int, i * g.row)
}

/// Whether the sidebar row `i` ends above the footer.
pub open spec fn row_fits(g: SidebarGeometry, i: int) -> bool {
    sat_add(row_top(g, i), g.row as int) <= g.list_bottom
}

/// The sidebar row `i`, across the sidebar.
pub open spec fn workspace_row(area: PhysicalRect, g: SidebarGeometry, i: int) -> PhysicalRect {
    PhysicalRect { x: 0, y: row_top(g, i) as i32, width: area.width, height: g.row }
}

/// The close button at the end of the sidebar row `i`.
pub open spec fn close_button(area: PhysicalRect, g: SidebarGeometry, i: int) -> PhysicalRect {
    PhysicalRect {
        x: sat_sub(area.width, g.close) as i32,
        y: row_top(g, i) as i32,
        width: g.close,
        height: g.row,
    }
}

/// The footer's new-workspace button.
pub open spec fn new_workspace_button(area: PhysicalRect, g: SidebarGeometry) -> PhysicalRect {
    PhysicalRect { x: 0, y: g.list_bottom as i32, width: area.width, height: g.footer }
}

/// `rows` give the workspaces `workspaces` their rows in `area`, in order, as long as a row
/// ends above the footer: the list ends with the last workspace or before the first row that
/// does not fit.
pub open spec fn is_workspace_list(
    rows: Seq<(WorkspaceId, PhysicalRect)>,
    area: PhysicalRect,
    workspaces: Seq<WorkspaceId>,
    g: SidebarGeometry,
) -> bool {
    &&& rows.len() <= workspaces.len()
    &&& forall|i: int|
        #![trigger rows[i]]
        #![trigger workspace_row(area, g, i)]
        0 <= i < rows.len() ==> rows[i] == (workspaces[i], workspace_row(area, g, i)) && row_fits(g, i)
    &&& rows.len() == workspaces.len() || !row_fits(g, rows.len() as int)
}

/// `buttons` are the close buttons of the first `count` rows of the workspace list.
pub open spec fn is_close_buttons(
    buttons: Seq<(WorkspaceId, PhysicalRect)>,
    area: PhysicalRect,
    workspaces: Seq<WorkspaceId>,
    g: SidebarGeometry,
    count: int,
) -> bool {
    &&& buttons.len() == count
    &&& forall|i: int|
        #![trigger buttons[i]]
        #![trigger close_button(area, g, i)]
        0 <= i < count ==> buttons[i] == (workspaces[i], close_button(area, g, i))
}

/// The sidebar's click targets.
#[derive(Clone, Debug)]
pub struct SidebarTargets {
    /// One row per workspace that fits above the footer, in order.
    pub rows: Vec<(WorkspaceId, PhysicalRect)>,
    /// The rows' close buttons (expanded sidebar only).
    pub close_buttons: Vec<(WorkspaceId, PhysicalRect)>,
    /// The footer's button (expanded sidebar only; empty otherwise).
    pub new_workspace: PhysicalRect,
}

fn row_top_at(g: SidebarGeometry, offset: u64) -> (r: u32)
    requires
        offset <= u32::MAX,
    ensures
        r == sat_add(g.header as int, offset as int),
{
    let top: u64 = g.header as u64 + offset;
    if top > 0xffff_ffff {
        u32::MAX
    } else {
        top as u32
    }
}

fn fits_above(top: u32, row: u32, bottom: u32) -> (r: bool)
    ensures
        r == (sat_add(top as int, row as int) <= bottom),
{
    top.saturating_add(row) <= bottom
}

/// Lay out the sidebar's workspace list in `area`: a row per workspace under the heading,
/// until a row would reach into the footer; in the expanded sidebar, each row's close button
/// and the footer's new-workspace button too.
#[verifier::spinoff_prover]
pub fn sidebar_targets(
    area: PhysicalRect,
    workspaces: &Vec<WorkspaceId>,
    expanded: bool,
    g: SidebarGeometry,
) -> (r: SidebarTargets)
    requires
        g.list_bottom <= i32::MAX,
        area.width <= i32::MAX,
        workspaces@.len() <= u32::MAX,
    ensures
        is_workspace_list(r.rows@, area, workspaces@, g),
        is_close_buttons(
            r.close_buttons@,
            area,
            workspaces@,
            g,
            if expanded {
                r.rows@.len() as int
            } else {
                0
            },
        ),
        r.new_workspace == if expanded {
            new_workspace_button(area, g)
        } else {
            no_rect()
        },
{
    let mut rows: Vec<(WorkspaceId, PhysicalRect)> = Vec::new();
    let mut close_buttons: Vec<(WorkspaceId, PhysicalRect)> = Vec::new();
    let close_x = area.width.saturating_sub(g.close) as i32;
    let mut index: usize = 0;
    let mut offset: u64 = 0;
    while index < workspaces.len() && fits_above(row_top_at(g, offset), g.row, g.list_bottom)
        invariant
            index <= workspaces@.len(),
            workspaces@.len() <= u32::MAX,
            offset == index * g.row,
            offset <= g.list_bottom,
            g.list_bottom <= i32::MAX,
            area.width <= i32::MAX,
            close_x == sat_sub(area.width, g.close) as i32,
            rows@.len() == index,
            close_buttons@.len() == if expanded {
                index as int
            } else {
                0
            },
            forall|i: int|
                #![trigger rows@[i]]
                0 <= i < index ==> rows@[i] == (workspaces@[i], workspace_row(area, g, i))
                    && row_fits(g, i),
            forall|i: int|
                #![trigger close_buttons@[i]]
                0 <= i < close_buttons@.len() ==> close_buttons@[i] == (
                    workspaces@[i],
                    close_button(area, g, i),
                ),
        decreases workspaces@.len() - index,
    {
        let top = row_top_at(g, offset);
        assert(top + g.row <= g.list_bottom);
        let row = PhysicalRect { x: 0, y: top as i32, width: area.width, height: g.row };
        let ghost before_rows = rows@;
        let ghost before_close = close_buttons@;
        rows.push((workspaces[index], row));
        if expanded {
            close_buttons.push(
                (workspaces[index], PhysicalRect { x: close_x, y: top as i32, width: g.close, height: g.row }),
            );
        }
        proof {
            assert forall|i: int|
                #![trigger rows@[i]]
                0 <= i < index + 1 implies rows@[i] == (workspaces@[i], workspace_row(area, g, i))
                    && row_fits(g, i) by {
                if i < index {
                    assert(rows@[i] == before_rows[i]);
                }
            }
            assert forall|i: int|
                #![trigger close_buttons@[i]]
                0 <= i < close_buttons@.len() implies close_buttons@[i] == (
                    workspaces@[i],
                    close_button(area, g, i),
                ) by {
                if i < index {
                    assert(close_buttons@[i] == before_close[i]);
                }
            }
            assert((index + 1) * g.row == index * g.row + g.row) by (nonlinear_arith);
        }
        offset = offset + g.row as u64;
        index = index + 1;
    }
    let new_workspace = if expanded {
        PhysicalRect { x: 0, y: g.list_bottom as i32, width: area.width, height: g.footer }
    } else {
        PhysicalRect { x: 0, y: 0, width: 0, height: 0 }
    };
    SidebarTargets { rows, close_buttons, new_workspace }
}

/// Row `i` of a menu whose rows are `row` pixels tall, clipped to the menu.
pub open spec fn menu_row(menu: PhysicalRect, row: u32, i: int) -> PhysicalRect {
    PhysicalRect {
        x: menu.x,
        y: (menu.y + i * row) as i32,
        width: menu.width,
        height: slot_width(menu.height as int, row as int, i) as u32,
    }
}

/// `rows` are the first `count` rows of `menu`, or, unless `keep_empty` is set, those before
/// the first that has no height.
pub open spec fn is_menu_rows(
    rows: Seq<PhysicalRect>,
    menu: PhysicalRect,
    row: u32,
    count: int,
    keep_empty: bool,
) -> bool {
    &&& rows.len() <= count
    &&& forall|i: int|
        #![trigger rows[i]]
        #![trigger menu_row(menu, row, i)]
        0 <= i < rows.len() ==> rows[i] == menu_row(menu, row, i) && (keep_empty || rows[i].height > 0)
    &&& rows.len() == count || (!keep_empty && menu_row(menu, row, rows.len() as int).height == 0)
}

/// The first `count` rows of `menu`, each `row` pixels tall and clipped to the menu; unless
/// `keep_empty` is set, the list ends before the first row that the menu has no room for.
#[verifier::spinoff_prover]
pub fn menu_rows(
    menu: PhysicalRect,
    row: u32,
    count: usize,
    keep_empty: bool,
) -> (r: Vec<PhysicalRect>)
    requires
        count * row <= i32::MAX,
        menu.y + count * row <= i32::MAX,
    ensures
        is_menu_rows(r@, menu, row, count as int, keep_empty),
{
    let mut rows: Vec<PhysicalRect> = Vec::new();
    let mut index: usize = 0;
    let mut offset: u32 = 0;
    let mut more = count > 0;
    while more
        invariant
            index <= count,
            offset == index * row,
            count * row <= i32::MAX,
            menu.y + count * row <= i32::MAX,
            rows@.len() == index,
            more ==> index < count,
            !more ==> index == count || (!keep_empty && menu_row(menu, row, index as int).height == 0),
            forall|i: int|
                #![trigger rows@[i]]
                0 <= i < index ==> rows@[i] == menu_row(menu, row, i) && (keep_empty || rows@[i].height > 0),
        decreases count - index + if more {
            1int
        } else {
            0
        },
    {
        proof {
            assert(index * row <= count * row) by (nonlinear_arith)
                requires
                    index <= count,
            ;
        }
        let room = menu.height.saturating_sub(offset);
        let height = if row < room {
            row
        } else {
            room
        };
        let slot = PhysicalRect { x: menu.x, y: menu.y + offset as i32, width: menu.width, height };
        assert(slot == menu_row(menu, row, index as int));
        if height == 0 && !keep_empty {
            more = false;
        } else {
            let ghost before = rows@;
            rows.push(slot);
            proof {
                assert((index + 1) * row == index * row + row) by (nonlinear_arith);
                assert((index + 1) * row <= count * row) by (nonlinear_arith)
                    requires
                        index + 1 <= count,
                ;
            }
            offset = offset + row;
            index = index + 1;
            more = index < count;
            proof {
                assert forall|i: int|
                    #![trigger rows@[i]]
                    0 <= i < index implies rows@[i] == menu_row(menu, row, i) && (keep_empty
                        || rows@[i].height > 0) by {
                    if i < index - 1 {
                        assert(rows@[i] == before[i]);
                    }
                }
            }
        }
    }
    rows
}

/// The rows of the gear menu: one per item, as far as the menu has room for them.
pub fn settings_item_rows(menu: PhysicalRect, row: u32) -> (r: Vec<PhysicalRect>)
    requires
        3 * row <= i32::MAX,
        menu.y + 3 * row <= i32::MAX,
    ensures
        is_menu_rows(r@, menu, row, 3, false),
{
    menu_rows(menu, row, 3, false)
}

/// How many rows the naming menu has: one per launch entry when it lists them (as many as a
/// `u32` counts), three for the recovery actions, and otherwise "Rename", then "Use Automatic
/// Title" when offered, then the two terminal actions when offered.
pub fn context_menu_row_count(
    launch_entries: Option<usize>,
    recovery_actions: bool,
    automatic_title_action: bool,
    terminal_actions: bool,
) -> (r: u32)
    ensures
        r == match launch_entries {
            Some(n) => if n > u32::MAX {
                u32::MAX as int
            } else {
                n as int
            },
            None => if recovery_actions {
                3
            } else {
                1 + (if automatic_title_action {
                    1int
                } else {
                    0
                }) + (if terminal_actions {
                    2int
                } else {
                    0
                })
            },
        },
{
    match launch_entries {
        Some(n) => if n > 0xffff_ffff {
            u32::MAX
        } else {
            n as u32
        },
        None => if recovery_actions {
            3
        } else {
            let mut rows: u32 = 1;
            if automatic_title_action {
                rows = rows + 1;
            }
            if terminal_actions {
                rows = rows + 2;
            }
            rows
        },
    }
}

/// `v` clamped into `[0, high]`.
pub open spec fn clamp_to(v: int, high: int) -> int {
    if v < 0 {
        0
    } else if v > high {
        high
    } else {
        v
    }
}

/// `a * b`, saturating at `u32::MAX`.
pub open spec fn sat_mul(a: u32, b: u32) -> u32 {
    if a * b > u32::MAX {
        u32::MAX
    } else {
        (a * b) as u32
    }
}

/// The naming menu, `width` pixels wide and `rows` rows of `row` pixels tall, placed at the
/// pointer `(ax, ay)` (rounded to whole pixels) but moved back inside a window of `size`, and
/// clipped to the window.
pub open spec fn context_menu_at(
    size: PhysicalSize,
    ax: int,
    ay: int,
    width: u32,
    row: u32,
    rows: u32,
) -> PhysicalRect {
    let height = sat_mul(row, rows);
    PhysicalRect {
        x: clamp_i32(clamp_to(ax, sat_sub(size.width, width) as int)) as i32,
        y: clamp_i32(clamp_to(ay, sat_sub(size.height, height) as int)) as i32,
        width: min_u32(width, size.width),
        height: min_u32(height, size.height),
    }
}

fn clamp_coordinate(v: i64, high: u32) -> (r: i32)
    ensures
        r == clamp_i32(clamp_to(v as int, high as int)),
{
    let clamped: i64 = if v < 0 {
        0
    } else if v > high as i64 {
        high as i64
    } else {
        v
    };
    if clamped > 0x7fff_ffff {
        i32::MAX
    } else {
        clamped as i32
    }
}

/// Place the naming menu (see [`context_menu_at`]).
pub fn context_menu_rect(
    size: PhysicalSize,
    ax: i64,
    ay: i64,
    width: u32,
    row: u32,
    rows: u32,
) -> (r: PhysicalRect)
    ensures
        r == context_menu_at(size, ax as int, ay as int, width, row, rows),
{
    let height = match row.checked_mul(rows) {
        Some(h) => h,
        None => u32::MAX,
    };
    PhysicalRect {
        x: clamp_coordinate(ax, size.width.saturating_sub(width)),
        y: clamp_coordinate(ay, size.height.saturating_sub(height)),
        width: if width < size.width {
            width
        } else {
            size.width
        },
        height: if height < size.height {
            height
        } else {
            size.height
        },
    }
}

/// Scaled lengths of the chrome's click targets.
#[derive(Clone, Copy, Debug, PartialEq, Eq, Structural)]
pub struct TargetMetrics {
    /// Width of the toggle, split and gear buttons.
    pub button: u32,
    /// Room kept free before the toggle for the platform's own window buttons.
    pub leading_inset: u32,
    /// Width of the drawn window controls (none when zero).
    pub system_controls: u32,
    pub tab: u32,
    pub new_tab: u32,
    pub sidebar_header: u32,
    pub sidebar_row: u32,
    pub sidebar_footer: u32,
    pub sidebar_close: u32,
    /// Strip left free under the panes, which the sidebar's footer stays above.
    pub bottom_gutter: u32,
    pub settings_width: u32,
    pub settings_height: u32,
    pub settings_row: u32,
    pub shortcuts_width: u32,
    pub shortcuts_height: u32,
    pub shortcuts_header: u32,
    pub context_width: u32,
    pub context_row: u32,
    pub editor_width: u32,
    pub editor_height: u32,
}

/// Where the naming menu opens and how many rows it has.
#[derive(Clone, Copy, Debug, PartialEq, Eq, Structural)]
pub struct ContextMenuPlacement {
    /// The pointer position that opened it, rounded to whole pixels.
    pub anchor_x: i64,
    pub anchor_y: i64,
    pub rows: u32,
}

/// What the chrome shows, as far as its click targets depend on it.
#[derive(Clone, Debug)]
pub struct TargetRequest {
    pub sidebar_mode: SidebarMode,
    /// The workspaces, in sidebar order.
    pub workspaces: Vec<WorkspaceId>,
    /// The active workspace's tabs, in order, if there is an active workspace.
    pub active_tabs: Option<Vec<TabId>>,
    pub settings_menu_open: bool,
    pub shortcuts_open: bool,
    pub context_menu: Option<ContextMenuPlacement>,
    pub rename_editor_open: bool,
}

/// The sidebar's list geometry in a sidebar `area`.
pub open spec fn sidebar_geometry(area: PhysicalRect, m: TargetMetrics) -> SidebarGeometry {
    let footer = footer_metrics(area.height, m.bottom_gutter, m.sidebar_footer);
    SidebarGeometry {
        header: m.sidebar_header,
        row: m.sidebar_row,
        list_bottom: footer.0,
        footer: footer.1,
        close: m.sidebar_close,
    }
}

/// The lengths fit the pixel coordinates that the targets are computed in.
pub open spec fn fits_pixel_range(
    size: PhysicalSize,
    layout: ChromeLayout,
    m: TargetMetrics,
    req: TargetRequest,
) -> bool {
    let bar = layout.tab_bar;
    &&& m.leading_inset + m.button + m.tab <= i32::MAX
    &&& layout.sidebar.width + m.tab <= i32::MAX
    &&& layout.sidebar.height <= i32::MAX
    &&& bar.width + 3 * m.button + m.system_controls + m.tab <= i32::MAX
    &&& bar.x + bar.width + 3 * m.button + m.system_controls + m.tab <= i32::MAX
    &&& bar.bottom_edge() + 3 * m.settings_row <= i32::MAX
    &&& 3 * m.settings_row <= i32::MAX
    &&& size.width <= i32::MAX
    &&& size.height <= i32::MAX
    &&& req.workspaces@.len() <= u32::MAX
    &&& (req.active_tabs matches Some(tabs) ==> tabs@.len() * m.tab <= u32::MAX)
    &&& (req.context_menu matches Some(menu) ==> menu.rows * m.context_row <= i32::MAX)
}

/// Lay out every click target of the chrome of a window of `size` with `layout`: the tab
/// bar's controls and the active workspace's tabs (when the tab bar shows), the workspace list
/// (when the sidebar shows; close buttons and the footer button only when it is expanded),
/// and the open menus and editors. Targets of what is not shown are empty.
#[verifier::spinoff_prover]
pub fn chrome_targets(
    size: PhysicalSize,
    layout: ChromeLayout,
    m: TargetMetrics,
    req: &TargetRequest,
) -> (r: ChromeHitMap)
    requires
        fits_pixel_range(size, layout, m, *req),
    ensures
        ({
            let top = top_controls_of(layout, m.button, m.leading_inset, m.system_controls);
            let bar_shown = layout.tab_bar.height > 0;
            &&& r.toggle == if bar_shown { top.toggle } else { no_rect() }
            &&& r.split_horizontal == if bar_shown { top.split_horizontal } else { no_rect() }
            &&& r.split_vertical == if bar_shown { top.split_vertical } else { no_rect() }
            &&& r.gear == if bar_shown { top.gear } else { no_rect() }
            &&& r.minimize == if bar_shown { top.minimize } else { no_rect() }
            &&& r.maximize == if bar_shown { top.maximize } else { no_rect() }
            &&& r.close == if bar_shown { top.close } else { no_rect() }
            &&& if bar_shown && req.active_tabs is Some {
                &&& is_tab_strip(r.tab_rows@, top.tabs_area, req.active_tabs->0@, m.tab, m.new_tab)
                &&& r.new_tab == new_tab_slot(
                    top.tabs_area,
                    req.active_tabs->0@.len() as int,
                    m.tab,
                    m.new_tab,
                )
            } else {
                r.tab_rows@.len() == 0 && r.new_tab == no_rect()
            }
        }),
        ({
            let g = sidebar_geometry(layout.sidebar, m);
            let expanded = req.sidebar_mode == SidebarMode::Expanded;
            if req.sidebar_mode != SidebarMode::Hidden && layout.sidebar.width > 0 {
                &&& is_workspace_list(r.workspace_rows@, layout.sidebar, req.workspaces@, g)
                &&& is_close_buttons(
                    r.close_buttons@,
                    layout.sidebar,
                    req.workspaces@,
                    g,
                    if expanded { r.workspace_rows@.len() as int } else { 0 },
                )
                &&& r.new_workspace == if expanded {
                    new_workspace_button(layout.sidebar, g)
                } else {
                    no_rect()
                }
            } else {
                r.workspace_rows@.len() == 0 && r.close_buttons@.len() == 0 && r.new_workspace == no_rect()
            }
        }),
        if req.settings_menu_open {
            &&& r.settings_menu == settings_menu_at(r.gear, size, m.settings_width, m.settings_height)
            &&& is_menu_rows(r.settings_items@, r.settings_menu, m.settings_row, 3, false)
        } else {
            r.settings_menu == no_rect() && r.settings_items@.len() == 0
        },
        if req.shortcuts_open {
            &&& r.shortcuts == centred_panel(size, m.shortcuts_width, m.shortcuts_height)
            &&& r.shortcuts_close == corner_square(r.shortcuts, m.shortcuts_header)
        } else {
            r.shortcuts == no_rect() && r.shortcuts_close == no_rect()
        },
        match req.context_menu {
            Some(menu) => {
                &&& r.context_menu == context_menu_at(
                    size,
                    menu.anchor_x as int,
                    menu.anchor_y as int,
                    m.context_width,
                    m.context_row,
                    menu.rows,
                )
                &&& is_menu_rows(r.context_items@, r.context_menu, m.context_row, menu.rows as int, true)
            },
            None => r.context_menu == no_rect() && r.context_items@.len() == 0,
        },
        r.rename_editor == if req.rename_editor_open {
            centred_panel(size, m.editor_width, m.editor_height)
        } else {
            no_rect()
        },
{
    let empty = PhysicalRect { x: 0, y: 0, width: 0, height: 0 };
    let mut hits = ChromeHitMap {
        toggle: empty,
        new_workspace: empty,
        workspace_rows: Vec::new(),
        close_buttons: Vec::new(),
        tab_rows: Vec::new(),
        new_tab: empty,
        split_horizontal: empty,
        split_vertical: empty,
        gear: empty,
        minimize: empty,
        maximize: empty,
        close: empty,
        settings_menu: empty,
        settings_items: Vec::new(),
        shortcuts: empty,
        shortcuts_close: empty,
        context_menu: empty,
        context_items: Vec::new(),
        rename_editor: empty,
    };
    if layout.tab_bar.height > 0 {
        let top = top_controls(layout, m.button, m.leading_inset, m.system_controls);
        hits.toggle = top.toggle;
        hits.split_horizontal = top.split_horizontal;
        hits.split_vertical = top.split_vertical;
        hits.gear = top.gear;
        hits.minimize = top.minimize;
        hits.maximize = top.maximize;
        hits.close = top.close;
        if let Some(tabs) = &req.active_tabs {
            let strip = tab_strip(top.tabs_area, tabs, m.tab, m.new_tab);
            hits.tab_rows = strip.tabs;
            hits.new_tab = strip.new_tab;
        }
    }
    if req.sidebar_mode != SidebarMode::Hidden && layout.sidebar.width > 0 {
        let (list_bottom, footer) = sidebar_footer_metrics(
            layout.sidebar.height,
            m.bottom_gutter,
            m.sidebar_footer,
        );
        let g = SidebarGeometry {
            header: m.sidebar_header,
            row: m.sidebar_row,
            list_bottom,
            footer,
            close: m.sidebar_close,
        };
        let expanded = match req.sidebar_mode {
            SidebarMode::Expanded => true,
            _ => false,
        };
        let sidebar = sidebar_targets(layout.sidebar, &req.workspaces, expanded, g);
        hits.workspace_rows = sidebar.rows;
        hits.close_buttons = sidebar.close_buttons;
        hits.new_workspace = sidebar.new_workspace;
    }
    if req.settings_menu_open {
        hits.settings_menu = settings_menu_rect(hits.gear, size, m.settings_width, m.settings_height);
        hits.settings_items = settings_item_rows(hits.settings_menu, m.settings_row);
    }
    if req.shortcuts_open {
        hits.shortcuts = shortcuts_rect(size, m.shortcuts_width, m.shortcuts_height);
        hits.shortcuts_close = shortcuts_close_rect(hits.shortcuts, m.shortcuts_header);
    }
    if let Some(menu) = req.context_menu {
        hits.context_menu = context_menu_rect(
            size,
            menu.anchor_x,
            menu.anchor_y,
            m.context_width,
            m.context_row,
            menu.rows,
        );
        hits.context_items = menu_rows(hits.context_menu, m.context_row, menu.rows as usize, true);
    }
    if req.rename_editor_open {
        hits.rename_editor = shortcuts_rect(size, m.editor_width, m.editor_height);
    }
    hits
}

/// The lengths of the tab bar, with `tab_count` tabs, fit the pixel coordinates that its
/// targets are computed in.
pub open spec fn tab_bar_fits(layout: ChromeLayout, m: TargetMetrics, tab_count: int) -> bool {
    let bar = layout.tab_bar;
    &&& m.leading_inset + m.button + m.tab <= i32::MAX
    &&& layout.sidebar.width + m.tab <= i32::MAX
    &&& bar.width + 3 * m.button + m.system_controls + m.tab <= i32::MAX
    &&& bar.x + bar.width + 3 * m.button + m.system_controls + m.tab <= i32::MAX
    &&& tab_count * m.tab <= u32::MAX
}

/// `hits` holds the tab bar's targets as [`chrome_targets`] lays them out for a shown tab bar
/// and an active workspace with tabs `tabs`.
pub open spec fn has_tab_bar_targets(hits: ChromeHitMap, layout: ChromeLayout, m: TargetMetrics, tabs: Seq<TabId>) -> bool {
    let top = top_controls_of(layout, m.button, m.leading_inset, m.system_controls);
    &&& hits.toggle == top.toggle
    &&& hits.split_horizontal == top.split_horizontal
    &&& hits.split_vertical == top.split_vertical
    &&& hits.gear == top.gear
    &&& hits.minimize == top.minimize
    &&& hits.maximize == top.maximize
    &&& hits.close == top.close
    &&& is_tab_strip(hits.tab_rows@, top.tabs_area, tabs, m.tab, m.new_tab)
    &&& hits.new_tab == new_tab_slot(top.tabs_area, tabs.len() as int, m.tab, m.new_tab)
}

/// No menu or editor is open to take a click first.
pub open spec fn no_menu_open(menus: ChromeMenus) -> bool {
    &&& !menus.name_editor_open
    &&& !menus.recovery_menu_open
    &&& menus.name_menu is None
    &&& !menus.settings_menu_open
}

/// A point of the tabs area lies on none of the tab bar's buttons.
proof fn lemma_tabs_area_clear_of_controls(layout: ChromeLayout, m: TargetMetrics, tab_count: int, px: int, py: int)
    requires
        layout.tab_bar.x == 0,
        tab_bar_fits(layout, m, tab_count),
        ({
            let area = top_controls_of(layout, m.button, m.leading_inset, m.system_controls).tabs_area;
            area.x <= px < area.right_edge()
        }),
    ensures
        ({
            let top = top_controls_of(layout, m.button, m.leading_inset, m.system_controls);
            &&& !top.toggle.holds(px, py)
            &&& !top.split_horizontal.holds(px, py)
            &&& !top.split_vertical.holds(px, py)
            &&& !top.gear.holds(px, py)
            &&& !top.minimize.holds(px, py)
            &&& !top.maximize.holds(px, py)
            &&& !top.close.holds(px, py)
        }),
{
}

/// With no menu open, a click on the new-tab button opens a new tab.
pub proof fn lemma_new_tab_target_opens_a_tab(
    hits: ChromeHitMap,
    layout: ChromeLayout,
    m: TargetMetrics,
    tabs: Seq<TabId>,
    menus: ChromeMenus,
    px: int,
    py: int,
)
    requires
        layout.tab_bar.x == 0,
        tab_bar_fits(layout, m, tabs.len() as int),
        has_tab_bar_targets(hits, layout, m, tabs),
        no_menu_open(menus),
        hits.new_tab.holds(px, py),
    ensures
        chrome_click(menus, hits, px, py) == ChromeClick::NewTab,
{
    let top = top_controls_of(layout, m.button, m.leading_inset, m.system_controls);
    lemma_tab_strip_stays_before_new_tab(hits.tab_rows@, top.tabs_area, tabs, m.tab, m.new_tab);
    lemma_tabs_area_clear_of_controls(layout, m, tabs.len() as int, px, py);
}

/// With no menu open, a click on a tab's target switches to that tab.
pub proof fn lemma_tab_target_switches_to_its_tab(
    hits: ChromeHitMap,
    layout: ChromeLayout,
    m: TargetMetrics,
    tabs: Seq<TabId>,
    menus: ChromeMenus,
    i: int,
    px: int,
    py: int,
)
    requires
        layout.tab_bar.x == 0,
        tab_bar_fits(layout, m, tabs.len() as int),
        has_tab_bar_targets(hits, layout, m, tabs),
        no_menu_open(menus),
        0 <= i < hits.tab_rows@.len(),
        hits.tab_rows@[i].1.holds(px, py),
    ensures
        chrome_click(menus, hits, px, py) == ChromeClick::SwitchTab(tabs[i]),
{
    let top = top_controls_of(layout, m.button, m.leading_inset, m.system_controls);
    let area = top.tabs_area;
    let rows = hits.tab_rows@;
    lemma_tab_strip_stays_before_new_tab(rows, area, tabs, m.tab, m.new_tab);
    assert(tab_slot(area, m.tab, m.new_tab, i).width > 0);
    assert(area.x <= rows[i].1.x);
    assert(rows[i].1.right_edge() <= hits.new_tab.x);
    lemma_tabs_area_clear_of_controls(layout, m, tabs.len() as int, px, py);
    // Earlier tabs end before this one begins.
    assert forall|j: int| 0 <= j < i implies !(#[trigger] rows[j]).1.holds(px, py) by {
        assert(tab_slot(area, m.tab, m.new_tab, j).width > 0);
        assert(rows[j].1 == tab_slot(area, m.tab, m.new_tab, j));
        assert(rows[i].1 == tab_slot(area, m.tab, m.new_tab, i));
        let strip = strip_width(area, m.new_tab) as int;
        assert(0 <= j * m.tab) by (nonlinear_arith)
            requires
                0 <= j,
        ;
        assert((j + 1) * m.tab == j * m.tab + m.tab) by (nonlinear_arith);
        assert((j + 1) * m.tab <= i * m.tab) by (nonlinear_arith)
            requires
                j + 1 <= i,
        ;
        assert(i * m.tab < strip) by {
            if i * m.tab >= strip {
                assert(slot_width(strip, m.tab as int, i) == 0);
            }
        }
        assert(slot_width(strip, m.tab as int, j) == m.tab);
    }
    lemma_first_keyed_hit(rows, px, py);
    assert(first_keyed_hit(rows, px, py) == i);
    assert(keyed_hit(rows, px, py) == Some(tabs[i]));
}

} // verus!
