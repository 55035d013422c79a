//! Geometry of the shell's chrome: the sidebar, the tab bar, the content area that panes fill,
//! the menus, and the hit targets that clicks are resolved against.
//!
//! Sizes are in physical pixels. Where a size is a logical length scaled by the display's
//! scale factor, the caller passes the scaled, rounded value in a [`ChromeMetrics`].

use vstd::prelude::*;

use crate::model::{TabId, WorkspaceId};
use crate::rect::{PhysicalRect, PhysicalSize};

verus! {

pub const EXPANDED_SIDEBAR_LOGICAL: u32 = 220;

pub const COMPACT_SIDEBAR_LOGICAL: u32 = 44;

pub const TAB_BAR_LOGICAL: u32 = 35;

pub const MIN_PANE_WIDTH_LOGICAL: u32 = 160;

pub const MIN_PANE_HEIGHT_LOGICAL: u32 = 80;

pub const CHROME_CONTROL_LOGICAL: u32 = 34;

pub const SETTINGS_MENU_WIDTH_LOGICAL: u32 = 190;

pub const SETTINGS_MENU_ROW_LOGICAL: u32 = 34;

pub const SHORTCUTS_HEADER_LOGICAL: u32 = 38;

pub const SIDEBAR_FOOTER_LOGICAL: u32 = 44;

pub const TAB_TITLE_PADDING_LOGICAL: u32 = 12;

/// Rows of the gear menu, in display order.
#[derive(Clone, Copy, Debug, PartialEq, Eq, Structural)]
pub enum SettingsMenuItem {
    Settings,
    Shortcuts,
    Documentation,
}

/// Number of rows of the gear menu.
pub const SETTINGS_MENU_ITEMS: usize = 3;

impl SettingsMenuItem {
    /// The row's caption.
    pub fn label(self) -> (r: &'static str)
        ensures
            r@ == match self {
                SettingsMenuItem::Settings => "Settings"@,
                SettingsMenuItem::Shortcuts => "Shortcuts"@,
                SettingsMenuItem::Documentation => "Documentation"@,
            },
    {
        match self {
            SettingsMenuItem::Settings => "Settings",
            SettingsMenuItem::Shortcuts => "Shortcuts",
            SettingsMenuItem::Documentation => "Documentation",
        }
    }

    /// The item in row `index` of the menu, counting from 0.
    pub fn from_index(index: usize) -> (r: Option<Self>)
        ensures
            r == if index == 0 {
                Some(SettingsMenuItem::Settings)
            } else if index == 1 {
                Some(SettingsMenuItem::Shortcuts)
            } else if index == 2 {
                Some(SettingsMenuItem::Documentation)
            } else {
                None::<SettingsMenuItem>
            },
    {
        if index == 0 {
            Some(SettingsMenuItem::Settings)
        } else if index == 1 {
            Some(SettingsMenuItem::Shortcuts)
        } else if index == 2 {
            Some(SettingsMenuItem::Documentation)
        } else {
            None
        }
    }
}

/// How much of the window the sidebar takes.
#[derive(Clone, Copy, Debug, Default, PartialEq, Eq, Structural)]
pub enum SidebarMode {
    #[default]
    Expanded,
    Compact,
    Hidden,
}

/// The presentation after `mode`: expanded, compact, hidden, and round.
pub open spec fn next_mode(mode: SidebarMode) -> SidebarMode {
    match mode {
        SidebarMode::Expanded => SidebarMode::Compact,
        SidebarMode::Compact => SidebarMode::Hidden,
        SidebarMode::Hidden => SidebarMode::Expanded,
    }
}

/// Toggling the sidebar cycles through all three presentations: three toggles come back to
/// the start, and the two in between differ from it and from each other.
pub proof fn lemma_sidebar_mode_cycles(mode: SidebarMode)
    ensures
        next_mode(next_mode(next_mode(mode))) == mode,
        next_mode(mode) != mode,
        next_mode(next_mode(mode)) != mode,
        next_mode(next_mode(mode)) != next_mode(mode),
{
}

impl SidebarMode {
    /// The presentation that the sidebar toggle moves to: expanded, compact, hidden, and round.
    pub fn next(self) -> (r: Self)
        ensures
            r == next_mode(self),
    {
        match self {
            SidebarMode::Expanded => SidebarMode::Compact,
            SidebarMode::Compact => SidebarMode::Hidden,
            SidebarMode::Hidden => SidebarMode::Expanded,
        }
    }

    /// Width of the sidebar in logical pixels.
    pub fn logical_width(self) -> (r: u32)
        ensures
            r == match self {
                SidebarMode::Expanded => EXPANDED_SIDEBAR_LOGICAL,
                SidebarMode::Compact => COMPACT_SIDEBAR_LOGICAL,
                SidebarMode::Hidden => 0,
            },
    {
        match self {
            SidebarMode::Expanded => EXPANDED_SIDEBAR_LOGICAL,
            SidebarMode::Compact => COMPACT_SIDEBAR_LOGICAL,
            SidebarMode::Hidden => 0,
        }
    }
}

/// Every click target of the chrome, as painted last.
#[derive(Clone, Debug, Default)]
pub struct ChromeHitMap {
    pub toggle: PhysicalRect,
    pub new_workspace: PhysicalRect,
    pub workspace_rows: Vec<(WorkspaceId, PhysicalRect)>,
    pub close_buttons: Vec<(WorkspaceId, PhysicalRect)>,
    pub tab_rows: Vec<(TabId, PhysicalRect)>,
    pub new_tab: PhysicalRect,
    pub split_horizontal: PhysicalRect,
    pub split_vertical: PhysicalRect,
    pub gear: PhysicalRect,
    pub minimize: PhysicalRect,
    pub maximize: PhysicalRect,
    pub close: PhysicalRect,
    pub settings_menu: PhysicalRect,
    pub settings_items: Vec<PhysicalRect>,
    pub shortcuts: PhysicalRect,
    pub shortcuts_close: PhysicalRect,
    pub context_menu: PhysicalRect,
    pub context_items: Vec<PhysicalRect>,
    pub rename_editor: PhysicalRect,
}

/// The three regions of the chrome.
#[derive(Clone, Copy, Debug, Default, PartialEq, Eq, Structural)]
pub struct ChromeLayout {
    pub sidebar: PhysicalRect,
    pub tab_bar: PhysicalRect,
    pub content: PhysicalRect,
}

/// Logical chrome lengths scaled to physical pixels for one scale factor, and the strips the
/// platform keeps free for resizing the window.
#[derive(Clone, Copy, Debug, PartialEq, Eq, Structural)]
pub struct ChromeMetrics {
    /// The sidebar's width in the current [`SidebarMode`].
    pub sidebar: u32,
    pub tab_bar: u32,
    pub min_pane_width: u32,
    pub min_pane_height: u32,
    /// Strip left free under the panes.
    pub bottom_gutter: u32,
    /// Strip left free beside the panes.
    pub side_gutter: u32,
}

pub open spec fn min_u32(a: u32, b: u32) -> u32 {
    if a < b {
        a
    } else {
        b
    }
}

pub open spec fn max_u32(a: u32, b: u32) -> u32 {
    if a > b {
        a
    } else {
        b
    }
}

pub open spec fn sat_sub(a: u32, b: u32) -> u32 {
    if a >= b {
        (a - b) as u32
    } else {
        0
    }
}

/// The sidebar's width: as requested, but never so wide that the panes fall below their
/// minimum width.
pub open spec fn sidebar_width(size: PhysicalSize, m: ChromeMetrics) -> u32 {
    min_u32(m.sidebar, sat_sub(size.width, m.min_pane_width))
}

/// Height left once the bottom resize strip is taken.
pub open spec fn usable_height(size: PhysicalSize, m: ChromeMetrics) -> u32 {
    sat_sub(size.height, min_u32(m.bottom_gutter, size.height))
}

/// The tab bar's height: as requested, but never so tall that the panes fall below their
/// minimum height.
pub open spec fn tab_bar_height(size: PhysicalSize, m: ChromeMetrics) -> u32 {
    min_u32(m.tab_bar, sat_sub(usable_height(size, m), m.min_pane_height))
}

/// The chrome's layout: the sidebar spans the window's height on the left, the tab bar its
/// width on top, and the content area takes the rest, leaving the bottom resize strip free,
/// the trailing side strip free, and the leading one free where the sidebar does not cover it.
pub open spec fn chrome_layout(size: PhysicalSize, m: ChromeMetrics) -> ChromeLayout {
    let side = min_u32(m.side_gutter, size.width);
    let content_x = max_u32(sidebar_width(size, m), side);
    ChromeLayout {
        sidebar: PhysicalRect { x: 0, y: 0, width: sidebar_width(size, m), height: size.height },
        tab_bar: PhysicalRect { x: 0, y: 0, width: size.width, height: tab_bar_height(size, m) },
        content: PhysicalRect {
            x: content_x as i32,
            y: tab_bar_height(size, m) as i32,
            width: sat_sub(sat_sub(size.width, content_x), side),
            height: sat_sub(usable_height(size, m), tab_bar_height(size, m)),
        },
    }
}

/// Lay out the chrome of a window of `size`.
pub fn compute_chrome_layout(size: PhysicalSize, metrics: &ChromeMetrics) -> (r: ChromeLayout)
    ensures
        r == chrome_layout(size, *metrics),
{
    let sidebar_width = if metrics.sidebar < size.width.saturating_sub(metrics.min_pane_width) {
        metrics.sidebar
    } else {
        size.width.saturating_sub(metrics.min_pane_width)
    };
    let bottom_gutter = if metrics.bottom_gutter < size.height {
        metrics.bottom_gutter
    } else {
        size.height
    };
    let available_height = size.height.saturating_sub(bottom_gutter);
    let tab_room = available_height.saturating_sub(metrics.min_pane_height);
    let tab_height = if metrics.tab_bar < tab_room {
        metrics.tab_bar
    } else {
        tab_room
    };
    let side_gutter = if metrics.side_gutter < size.width {
        metrics.side_gutter
    } else {
        size.width
    };
    let content_x = if sidebar_width > side_gutter {
        sidebar_width
    } else {
        side_gutter
    };
    let main_width = size.width.saturating_sub(content_x).saturating_sub(side_gutter);
    let content_height = available_height.saturating_sub(tab_height);
    ChromeLayout {
        sidebar: PhysicalRect { x: 0, y: 0, width: sidebar_width, height: size.height },
        tab_bar: PhysicalRect { x: 0, y: 0, width: size.width, height: tab_height },
        content: PhysicalRect {
            x: content_x as i32,
            y: tab_height as i32,
            width: main_width,
            height: content_height,
        },
    }
}

/// A control `width` pixels wide, `offset` pixels into the tab bar, clipped to the bar.
pub fn control_rect(offset: u32, tab_bar: PhysicalRect, width: u32) -> (r: PhysicalRect)
    requires
        offset <= i32::MAX,
        i32::MIN <= tab_bar.x + offset <= i32::MAX,
    ensures
        r == (PhysicalRect {
            x: (tab_bar.x + offset) as i32,
            y: tab_bar.y,
            width: min_u32(width, sat_sub(tab_bar.width, offset)),
            height: tab_bar.height,
        }),
{
    let room = tab_bar.width.saturating_sub(offset);
    PhysicalRect {
        x: tab_bar.x + offset as i32,
        y: tab_bar.y,
        width: if width < room {
            width
        } else {
            room
        },
        height: tab_bar.height,
    }
}

/// The gear menu of `width` by `height` pixels, hanging below the gear with its right edge
/// under the gear's, moved left as needed to stay inside the window and clipped to it.
pub open spec fn settings_menu_at(gear: PhysicalRect, size: PhysicalSize, width: u32, height: u32) -> PhysicalRect {
    let right: u32 = if gear.right_edge() > 0 {
        gear.right_edge() as u32
    } else {
        0
    };
    let x = min_u32(sat_sub(right, width), sat_sub(size.width, width));
    let top: u32 = if gear.bottom_edge() > 0 {
        gear.bottom_edge() as u32
    } else {
        0
    };
    PhysicalRect {
        x: x as i32,
        y: gear.bottom_edge() as i32,
        width: min_u32(width, size.width),
        height: min_u32(height, sat_sub(size.height, top)),
    }
}

/// Place the gear menu (see [`settings_menu_at`]).
pub fn settings_menu_rect(gear: PhysicalRect, size: PhysicalSize, width: u32, height: u32) -> (r:
    PhysicalRect)
    requires
        gear.right_edge() <= i32::MAX,
        gear.bottom_edge() <= i32::MAX,
    ensures
        r == settings_menu_at(gear, size, width, height),
{
    let right_edge = gear.right();
    let right: u32 = if right_edge > 0 {
        right_edge as u32
    } else {
        0
    };
    let from_gear = right.saturating_sub(width);
    let from_window = size.width.saturating_sub(width);
    let x = if from_gear < from_window {
        from_gear
    } else {
        from_window
    };
    let bottom = gear.bottom();
    let top: u32 = if bottom > 0 {
        bottom as u32
    } else {
        0
    };
    let room = size.height.saturating_sub(top);
    PhysicalRect {
        x: x as i32,
        y: bottom as i32,
        width: if width < size.width {
            width
        } else {
            size.width
        },
        height: if height < room {
            height
        } else {
            room
        },
    }
}

/// A panel of `width` by `height` pixels, clipped to a window of `size`, centred horizontally
/// and a third of the way down.
pub open spec fn centred_panel(size: PhysicalSize, width: u32, height: u32) -> PhysicalRect {
    let w = min_u32(width, size.width);
    let h = min_u32(height, size.height);
    PhysicalRect { x: ((size.width - w) / 2) as i32, y: ((size.height - h) / 3) as i32, width: w, height: h }
}

/// Place the shortcuts panel of `width` by `height` pixels (see [`centred_panel`]).
pub fn shortcuts_rect(size: PhysicalSize, width: u32, height: u32) -> (r: PhysicalRect)
    ensures
        r == centred_panel(size, width, height),
        r.width == min_u32(width, size.width),
        r.height == min_u32(height, size.height),
        r.x == (size.width - r.width) / 2,
        r.y == (size.height - r.height) / 3,
{
    let width = if width < size.width {
        width
    } else {
        size.width
    };
    let height = if height < size.height {
        height
    } else {
        size.height
    };
    PhysicalRect {
        x: ((size.width - width) / 2) as i32,
        y: ((size.height - height) / 3) as i32,
        width,
        height,
    }
}

/// A square as tall as the `header`, in the panel's top right corner, clipped to the panel.
pub open spec fn corner_square(panel: PhysicalRect, header: u32) -> PhysicalRect {
    let h = min_u32(header, panel.height);
    let w = min_u32(h, panel.width);
    PhysicalRect { x: (panel.right_edge() - w) as i32, y: panel.y, width: w, height: h }
}

/// The close button of a shortcuts panel (see [`corner_square`]).
pub fn shortcuts_close_rect(panel: PhysicalRect, header: u32) -> (r: PhysicalRect)
    requires
        panel.right_edge() <= i32::MAX,
    ensures
        r == corner_square(panel, header),
        r.height == min_u32(header, panel.height),
        r.width == min_u32(r.height, panel.width),
        r.right_edge() == panel.right_edge(),
        r.y == panel.y,
{
    let size = if header < panel.height {
        header
    } else {
        panel.height
    };
    let width = if size < panel.width {
        size
    } else {
        panel.width
    };
    PhysicalRect { x: (panel.right() - width as i64) as i32, y: panel.y, width, height: size }
}

/// Top and height of the sidebar's footer of `footer` pixels, in a sidebar `area_height`
/// pixels tall, above the bottom resize strip.
pub open spec fn footer_metrics(area_height: u32, bottom_gutter: u32, footer: u32) -> (u32, u32) {
    let available = sat_sub(area_height, min_u32(bottom_gutter, area_height));
    let height = min_u32(footer, available);
    (sat_sub(available, height), height)
}

/// Place the sidebar's footer (see [`footer_metrics`]).
pub fn sidebar_footer_metrics(area_height: u32, bottom_gutter: u32, footer: u32) -> (r: (u32, u32))
    ensures
        r == footer_metrics(area_height, bottom_gutter, footer),
{
    let gutter = if bottom_gutter < area_height {
        bottom_gutter
    } else {
        area_height
    };
    let available = area_height.saturating_sub(gutter);
    let height = if footer < available {
        footer
    } else {
        available
    };
    (available.saturating_sub(height), height)
}

/// The strips of the window that the content area leaves uncovered, which keep the window's
/// resize border reachable: below the content, after it, and (only when the sidebar is
/// hidden) before it, in that order.
pub open spec fn gutter_rects(size: PhysicalSize, layout: ChromeLayout) -> Seq<PhysicalRect> {
    let content = layout.content;
    let bottom: int = if content.bottom_edge() > 0 {
        content.bottom_edge()
    } else {
        0
    };
    let right: int = if content.right_edge() > 0 {
        content.right_edge()
    } else {
        0
    };
    let left: int = if content.x > 0 {
        content.x as int
    } else {
        0
    };
    let top: int = if content.y > 0 {
        content.y as int
    } else {
        0
    };
    let below = if bottom < size.height {
        seq![PhysicalRect {
            x: content.x,
            y: bottom as i32,
            width: sat_sub(size.width, left as u32),
            height: (size.height - bottom) as u32,
        }]
    } else {
        Seq::empty()
    };
    let after = if right < size.width {
        seq![PhysicalRect {
            x: right as i32,
            y: content.y,
            width: (size.width - right) as u32,
            height: content.height,
        }]
    } else {
        Seq::empty()
    };
    let before = if layout.sidebar.width == 0 && content.x > 0 {
        seq![PhysicalRect {
            x: 0,
            y: content.y,
            width: content.x as u32,
            height: sat_sub(size.height, top as u32),
        }]
    } else {
        Seq::empty()
    };
    below + after + before
}

/// The uncovered strips of the window (see [`gutter_rects`]).
pub fn resize_gutter_rects(size: PhysicalSize, layout: ChromeLayout) -> (r: Vec<PhysicalRect>)
    requires
        layout.content.bottom_edge() <= i32::MAX,
        layout.content.right_edge() <= i32::MAX,
    ensures
        r@ == gutter_rects(size, layout),
{
    let content = layout.content;
    let mut gutters: Vec<PhysicalRect> = Vec::new();
    let bottom_edge = content.bottom();
    let bottom: i64 = if bottom_edge > 0 {
        bottom_edge
    } else {
        0
    };
    let left: u32 = if content.x > 0 {
        content.x as u32
    } else {
        0
    };
    let top: u32 = if content.y > 0 {
        content.y as u32
    } else {
        0
    };
    if bottom < size.height as i64 {
        gutters.push(
            PhysicalRect {
                x: content.x,
                y: bottom as i32,
                width: size.width.saturating_sub(left),
                height: (size.height as i64 - bottom) as u32,
            },
        );
    }
    let right_edge = content.right();
    let right: i64 = if right_edge > 0 {
        right_edge
    } else {
        0
    };
    if right < size.width as i64 {
        gutters.push(
            PhysicalRect {
                x: right as i32,
                y: content.y,
                width: (size.width as i64 - right) as u32,
                height: content.height,
            },
        );
    }
    if layout.sidebar.width == 0 && content.x > 0 {
        gutters.push(
            PhysicalRect {
                x: 0,
                y: content.y,
                width: content.x as u32,
                height: size.height.saturating_sub(top),
            },
        );
    }
    proof {
        assert(gutters@ =~= gutter_rects(size, layout));
    }
    gutters
}

/// Clip region of a tab's title: the tab inset by `padding` on both sides, as its left, top,
/// right and bottom edges; `None` when no width remains.
pub fn tab_title_clip(tab: PhysicalRect, padding: u32) -> (r: Option<(i64, i64, i64, i64)>)
    ensures
        r == if padding * 2 >= tab.width {
            None::<(i64, i64, i64, i64)>
        } else {
            Some(
                (
                    (tab.x + padding) as i64,
                    tab.y as i64,
                    (tab.x + tab.width - padding) as i64,
                    tab.bottom_edge() as i64,
                ),
            )
        },
{
    let inset: u64 = padding as u64 * 2;
    if inset >= tab.width as u64 {
        return None;
    }
    let width = tab.width as i64 - inset as i64;
    let left = tab.x as i64 + padding as i64;
    Some((left, tab.y as i64, left + width, tab.bottom()))
}

/// The gear-menu row under a pointer at `(px, py)` (pixels, rounded down) in a detached menu
/// window of `size`, whose rows are `row_height` pixels tall.
pub fn settings_menu_item_at(size: PhysicalSize, row_height: u32, px: i64, py: i64) -> (r: Option<
    SettingsMenuItem,
>)
    requires
        row_height >= 1,
    ensures
        r == if px < 0 || py < 0 || px >= size.width || py >= size.height {
            None::<SettingsMenuItem>
        } else if (py as int) / (row_height as int) == 0 {
            Some(SettingsMenuItem::Settings)
        } else if (py as int) / (row_height as int) == 1 {
            Some(SettingsMenuItem::Shortcuts)
        } else if (py as int) / (row_height as int) == 2 {
            Some(SettingsMenuItem::Documentation)
        } else {
            None::<SettingsMenuItem>
        },
{
    if px < 0 || py < 0 || px >= size.width as i64 || py >= size.height as i64 {
        return None;
    }
    let row = py / row_height as i64;
    SettingsMenuItem::from_index(row as usize)
}

/// Window controls of the tab bar.
#[derive(Clone, Copy, Debug, PartialEq, Eq, Structural)]
pub enum WindowFrameAction {
    Minimize,
    ToggleMaximize,
    Close,
}

/// The window control under the pointer at `(px, py)`.
pub fn window_frame_action(hit_map: &ChromeHitMap, px: i64, py: i64) -> (r: Option<WindowFrameAction>)
    ensures
        r == if hit_map.minimize.holds(px as int, py as int) {
            Some(WindowFrameAction::Minimize)
        } else if hit_map.maximize.holds(px as int, py as int) {
            Some(WindowFrameAction::ToggleMaximize)
        } else if hit_map.close.holds(px as int, py as int) {
            Some(WindowFrameAction::Close)
        } else {
            None::<WindowFrameAction>
        },
{
    if hit_map.minimize.contains(px, py) {
        Some(WindowFrameAction::Minimize)
    } else if hit_map.maximize.contains(px, py) {
        Some(WindowFrameAction::ToggleMaximize)
    } else if hit_map.close.contains(px, py) {
        Some(WindowFrameAction::Close)
    } else {
        None
    }
}

/// What a click means while the gear menu is open.
#[derive(Clone, Copy, Debug, PartialEq, Eq, Structural)]
pub enum SettingsMenuClick {
    Item(usize),
    Gear,
    MenuBackground,
    Outside,
}

/// Index of the first rectangle holding the point (`rects.len()` when none does).
pub open spec fn first_hit(rects: Seq<PhysicalRect>, px: int, py: int) -> int
    decreases rects.len(),
{
    if rects.len() == 0 {
        0
    } else if rects[0].holds(px, py) {
        0
    } else {
        1 + first_hit(rects.drop_first(), px, py)
    }
}

pub proof fn lemma_first_hit(rects: Seq<PhysicalRect>, px: int, py: int)
    ensures
        0 <= first_hit(rects, px, py) <= rects.len(),
        first_hit(rects, px, py) < rects.len() ==> rects[first_hit(rects, px, py)].holds(px, py),
        forall|j: int| 0 <= j < first_hit(rects, px, py) ==> !(#[trigger] rects[j]).holds(px, py),
    decreases rects.len(),
{
    if rects.len() > 0 && !rects[0].holds(px, py) {
        lemma_first_hit(rects.drop_first(), px, py);
        assert forall|j: int| 0 <= j < first_hit(rects, px, py) implies !(#[trigger] rects[j]).holds(px, py) by {
            if j > 0 {
                assert(rects[j] == rects.drop_first()[j - 1]);
            }
        }
    }
}

/// Index of the first rectangle holding the pointer.
pub fn hit_index(rects: &Vec<PhysicalRect>, px: i64, py: i64) -> (r: Option<usize>)
    ensures
        0 <= first_hit(rects@, px as int, py as int) <= rects@.len(),
        match r {
            Some(i) => i == first_hit(rects@, px as int, py as int) && i < rects@.len(),
            None => first_hit(rects@, px as int, py as int) == rects@.len(),
        },
{
    proof {
        lemma_first_hit(rects@, px as int, py as int);
    }
    let mut i: usize = 0;
    while i < rects.len()
        invariant
            i <= rects@.len(),
            forall|j: int| 0 <= j < i ==> !(#[trigger] rects@[j]).holds(px as int, py as int),
            0 <= first_hit(rects@, px as int, py as int) <= rects@.len(),
            first_hit(rects@, px as int, py as int) < rects@.len() ==> rects@[first_hit(rects@, px as int, py as int)].holds(px as int, py as int),
            forall|j: int| 0 <= j < first_hit(rects@, px as int, py as int) ==> !(#[trigger] rects@[j]).holds(px as int, py as int),
        decreases rects@.len() - i,
    {
        if rects[i].contains(px, py) {
            return Some(i);
        }
        i = i + 1;
    }
    None
}

/// What a click at `(px, py)` means while the gear menu is open: a menu row, the gear itself,
/// the rest of the menu, or anywhere else.
pub fn settings_menu_click(hit_map: &ChromeHitMap, px: i64, py: i64) -> (r: SettingsMenuClick)
    ensures
        r == if first_hit(hit_map.settings_items@, px as int, py as int) < hit_map.settings_items@.len() {
            SettingsMenuClick::Item(first_hit(hit_map.settings_items@, px as int, py as int) as usize)
        } else if hit_map.gear.holds(px as int, py as int) {
            SettingsMenuClick::Gear
        } else if hit_map.settings_menu.holds(px as int, py as int) {
            SettingsMenuClick::MenuBackground
        } else {
            SettingsMenuClick::Outside
        },
{
    if let Some(index) = hit_index(&hit_map.settings_items, px, py) {
        SettingsMenuClick::Item(index)
    } else if hit_map.gear.contains(px, py) {
        SettingsMenuClick::Gear
    } else if hit_map.settings_menu.contains(px, py) {
        SettingsMenuClick::MenuBackground
    } else {
        SettingsMenuClick::Outside
    }
}

/// Edge or corner of the window grabbed for resizing.
#[derive(Clone, Copy, Debug, PartialEq, Eq, Structural)]
pub enum ResizeDirection {
    North,
    South,
    East,
    West,
    NorthEast,
    NorthWest,
    SouthEast,
    SouthWest,
}

/// The resize grip for a pointer that lies within the resize border along the given edges: a
/// corner where two adjacent edges meet, a side where one edge alone is hit, and none where
/// no edge or two opposite edges are hit.
pub fn resize_direction(left: bool, right: bool, top: bool, bottom: bool) -> (r: Option<ResizeDirection>)
    ensures
        r == if left && !right && top && !bottom {
            Some(ResizeDirection::NorthWest)
        } else if !left && right && top && !bottom {
            Some(ResizeDirection::NorthEast)
        } else if left && !right && !top && bottom {
            Some(ResizeDirection::SouthWest)
        } else if !left && right && !top && bottom {
            Some(ResizeDirection::SouthEast)
        } else if left && !right && !top && !bottom {
            Some(ResizeDirection::West)
        } else if !left && right && !top && !bottom {
            Some(ResizeDirection::East)
        } else if !left && !right && top && !bottom {
            Some(ResizeDirection::North)
        } else if !left && !right && !top && bottom {
            Some(ResizeDirection::South)
        } else {
            None::<ResizeDirection>
        },
{
    match (left, right, top, bottom) {
        (true, false, true, false) => Some(ResizeDirection::NorthWest),
        (false, true, true, false) => Some(ResizeDirection::NorthEast),
        (true, false, false, true) => Some(ResizeDirection::SouthWest),
        (false, true, false, true) => Some(ResizeDirection::SouthEast),
        (true, false, false, false) => Some(ResizeDirection::West),
        (false, true, false, false) => Some(ResizeDirection::East),
        (false, false, true, false) => Some(ResizeDirection::North),
        (false, false, false, true) => Some(ResizeDirection::South),
        _ => None,
    }
}

/// The chrome never starves the panes and keeps the resize strips free: the sidebar leaves at
/// least the least pane width and the tab bar at least the least pane height whenever the
/// window has that much, the content area lies inside the window without covering the bottom
/// strip or (while it has any width) the trailing side strip, and it starts after the sidebar. (Window sizes fit in
/// `i32`, as the coordinates of the layout do.)
pub proof fn lemma_chrome_layout_bounds(size: PhysicalSize, m: ChromeMetrics)
    requires
        size.width <= i32::MAX,
        size.height <= i32::MAX,
    ensures
        ({
            let l = chrome_layout(size, m);
            &&& size.width >= m.min_pane_width ==> l.sidebar.width + m.min_pane_width <= size.width
            &&& usable_height(size, m) >= m.min_pane_height ==> l.tab_bar.height + m.min_pane_height
                <= usable_height(size, m)
            &&& l.content.x >= l.sidebar.width
            &&& l.content.y == l.tab_bar.height
            &&& l.content.right_edge() <= size.width
            &&& l.content.width > 0 ==> l.content.right_edge() + min_u32(m.side_gutter, size.width)
                <= size.width
            &&& l.content.bottom_edge() + min_u32(m.bottom_gutter, size.height) <= size.height
        }),
{
    let l = chrome_layout(size, m);
    let side = min_u32(m.side_gutter, size.width);
    let content_x = max_u32(sidebar_width(size, m), side);
    assert(content_x <= size.width);
    assert(l.content.x == content_x);
    assert(l.content.y == tab_bar_height(size, m));
    assert(size.width >= m.min_pane_width ==> l.sidebar.width + m.min_pane_width <= size.width);
    assert(l.content.right_edge() <= size.width);
    assert(tab_bar_height(size, m) <= usable_height(size, m));
    assert(l.content.bottom_edge() + min_u32(m.bottom_gutter, size.height) <= size.height);
}

} // verus!
