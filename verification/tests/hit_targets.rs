use vivida::chrome::{ChromeLayout, SidebarMode};
use vivida::click::{resolve_chrome_click, ChromeClick, ChromeMenus};
use vivida::layout::Axis;
use vivida::hit_targets::{
    chrome_targets, context_menu_rect, context_menu_row_count, menu_rows, settings_item_rows,
    sidebar_targets, tab_strip, top_controls, ContextMenuPlacement, SidebarGeometry,
    TargetMetrics, TargetRequest,
};
use vivida::model::{TabId, WorkspaceId};
use vivida::rect::{PhysicalRect, PhysicalSize};

fn rect(x: i32, y: i32, width: u32, height: u32) -> PhysicalRect {
    PhysicalRect {
        x,
        y,
        width,
        height,
    }
}

fn layout_1000_by_600() -> ChromeLayout {
    ChromeLayout {
        sidebar: rect(0, 0, 220, 600),
        tab_bar: rect(0, 0, 1000, 35),
        content: rect(220, 35, 780, 565),
    }
}

#[test]
fn top_controls_are_right_aligned_before_the_window_controls() {
    let top = top_controls(layout_1000_by_600(), 34, 0, 114);
    assert_eq!(top.toggle, rect(0, 0, 34, 35));
    assert_eq!(top.split_horizontal, rect(784, 0, 34, 35));
    assert_eq!(top.split_vertical, rect(818, 0, 34, 35));
    assert_eq!(top.gear, rect(852, 0, 34, 35));
    assert_eq!(top.minimize, rect(886, 0, 38, 35));
    assert_eq!(top.maximize, rect(924, 0, 38, 35));
    assert_eq!(top.close, rect(962, 0, 38, 35));
    assert_eq!(top.tabs_area, rect(220, 0, 564, 35));
    assert_eq!(top.label_x, 34);
}

#[test]
fn without_window_controls_the_gear_ends_the_bar() {
    let top = top_controls(layout_1000_by_600(), 34, 70, 0);
    assert_eq!(top.toggle, rect(70, 0, 34, 35));
    assert_eq!(top.gear.x + top.gear.width as i32, 1000);
    assert_eq!(top.minimize, PhysicalRect::default());
    assert_eq!(top.close, PhysicalRect::default());
    assert_eq!(top.label_x, 104);
}

#[test]
fn tabs_fill_the_strip_until_it_is_used_up() {
    let area = rect(220, 0, 564, 35);
    let ids: Vec<TabId> = (1..=6).map(TabId).collect();
    let strip = tab_strip(area, &ids, 150, 36);
    assert_eq!(
        strip.tabs,
        vec![
            (TabId(1), rect(220, 0, 150, 35)),
            (TabId(2), rect(370, 0, 150, 35)),
            (TabId(3), rect(520, 0, 150, 35)),
            (TabId(4), rect(670, 0, 78, 35)),
        ]
    );
    assert_eq!(strip.new_tab, rect(748, 0, 36, 35));
    for (_, slot) in &strip.tabs {
        assert!(slot.x >= area.x && slot.x + slot.width as i32 <= strip.new_tab.x);
    }
    assert!(strip.new_tab.x + strip.new_tab.width as i32 <= area.x + area.width as i32);
}

#[test]
fn the_new_tab_button_follows_the_last_tab() {
    let area = rect(220, 0, 564, 35);
    let strip = tab_strip(area, &vec![TabId(7), TabId(8)], 150, 36);
    assert_eq!(strip.tabs.len(), 2);
    assert_eq!(strip.new_tab, rect(520, 0, 36, 35));
    let empty = tab_strip(area, &Vec::new(), 150, 36);
    assert!(empty.tabs.is_empty());
    assert_eq!(empty.new_tab, rect(220, 0, 36, 35));
}

fn sidebar_geometry() -> SidebarGeometry {
    SidebarGeometry {
        header: 44,
        row: 38,
        list_bottom: 546,
        footer: 44,
        close: 30,
    }
}

#[test]
fn expanded_sidebar_rows_have_close_buttons_and_a_footer() {
    let area = rect(0, 0, 220, 600);
    let ids = vec![WorkspaceId(1), WorkspaceId(2), WorkspaceId(3)];
    let targets = sidebar_targets(area, &ids, true, sidebar_geometry());
    assert_eq!(
        targets.rows,
        vec![
            (WorkspaceId(1), rect(0, 44, 220, 38)),
            (WorkspaceId(2), rect(0, 82, 220, 38)),
            (WorkspaceId(3), rect(0, 120, 220, 38)),
        ]
    );
    assert_eq!(targets.close_buttons[2], (WorkspaceId(3), rect(190, 120, 30, 38)));
    assert_eq!(targets.new_workspace, rect(0, 546, 220, 44));
}

#[test]
fn compact_sidebar_rows_stop_above_the_footer() {
    let area = rect(0, 0, 44, 600);
    let ids: Vec<WorkspaceId> = (1..=20).map(WorkspaceId).collect();
    let targets = sidebar_targets(area, &ids, false, sidebar_geometry());
    assert_eq!(targets.rows.len(), 13);
    assert_eq!(targets.rows[12], (WorkspaceId(13), rect(0, 500, 44, 38)));
    assert!(targets.close_buttons.is_empty());
    assert_eq!(targets.new_workspace, PhysicalRect::default());
}

#[test]
fn gear_menu_rows_end_where_the_menu_does() {
    let rows = settings_item_rows(rect(100, 35, 190, 80), 34);
    assert_eq!(
        rows,
        vec![
            rect(100, 35, 190, 34),
            rect(100, 69, 190, 34),
            rect(100, 103, 190, 12)
        ]
    );
    let cramped = settings_item_rows(rect(100, 35, 190, 60), 34);
    assert_eq!(cramped, vec![rect(100, 35, 190, 34), rect(100, 69, 190, 26)]);
}

#[test]
fn naming_menu_rows_are_kept_even_when_clipped() {
    let rows = menu_rows(rect(0, 0, 180, 40), 30, 3, true);
    assert_eq!(
        rows,
        vec![rect(0, 0, 180, 30), rect(0, 30, 180, 10), rect(0, 60, 180, 0)]
    );
}

#[test]
fn naming_menu_row_counts_follow_the_offered_actions() {
    assert_eq!(context_menu_row_count(None, false, false, false), 1);
    assert_eq!(context_menu_row_count(None, false, true, false), 2);
    assert_eq!(context_menu_row_count(None, false, false, true), 3);
    assert_eq!(context_menu_row_count(None, false, true, true), 4);
    assert_eq!(context_menu_row_count(None, true, true, true), 3);
    assert_eq!(context_menu_row_count(Some(5), true, false, false), 5);
}

#[test]
fn naming_menu_is_moved_back_inside_the_window() {
    let size = PhysicalSize::new(800, 600);
    assert_eq!(
        context_menu_rect(size, 750, 590, 180, 30, 4),
        rect(620, 480, 180, 120)
    );
    assert_eq!(
        context_menu_rect(size, -5, 10, 180, 30, 4),
        rect(0, 10, 180, 120)
    );
    assert_eq!(
        context_menu_rect(PhysicalSize::new(100, 50), 10, 10, 180, 30, 4),
        rect(0, 0, 100, 50)
    );
}

fn target_metrics() -> TargetMetrics {
    TargetMetrics {
        button: 34,
        leading_inset: 0,
        system_controls: 114,
        tab: 150,
        new_tab: 36,
        sidebar_header: 44,
        sidebar_row: 38,
        sidebar_footer: 44,
        sidebar_close: 30,
        bottom_gutter: 10,
        settings_width: 190,
        settings_height: 102,
        settings_row: 34,
        shortcuts_width: 560,
        shortcuts_height: 420,
        shortcuts_header: 38,
        context_width: 180,
        context_row: 30,
        editor_width: 360,
        editor_height: 120,
    }
}

#[test]
fn chrome_targets_follow_what_is_shown() {
    let request = TargetRequest {
        sidebar_mode: SidebarMode::Expanded,
        workspaces: vec![WorkspaceId(1), WorkspaceId(2)],
        active_tabs: Some(vec![TabId(1), TabId(2)]),
        settings_menu_open: true,
        shortcuts_open: false,
        context_menu: Some(ContextMenuPlacement {
            anchor_x: 300,
            anchor_y: 100,
            rows: 4,
        }),
        rename_editor_open: true,
    };
    let size = PhysicalSize::new(1000, 600);
    let hits = chrome_targets(size, layout_1000_by_600(), target_metrics(), &request);
    assert_eq!(hits.gear, rect(852, 0, 34, 35));
    assert_eq!(hits.tab_rows[1], (TabId(2), rect(370, 0, 150, 35)));
    assert_eq!(hits.new_tab, rect(520, 0, 36, 35));
    assert_eq!(hits.workspace_rows[1], (WorkspaceId(2), rect(0, 82, 220, 38)));
    assert_eq!(hits.new_workspace, rect(0, 546, 220, 44));
    assert_eq!(hits.settings_menu, rect(696, 35, 190, 102));
    assert_eq!(hits.settings_items.len(), 3);
    assert_eq!(hits.shortcuts, PhysicalRect::default());
    assert_eq!(hits.context_menu, rect(300, 100, 180, 120));
    assert_eq!(hits.context_items[3], rect(300, 190, 180, 30));
    assert_eq!(hits.rename_editor, rect(320, 160, 360, 120));
}

#[test]
fn a_hidden_sidebar_and_tab_bar_leave_no_targets() {
    let request = TargetRequest {
        sidebar_mode: SidebarMode::Hidden,
        workspaces: vec![WorkspaceId(1)],
        active_tabs: Some(vec![TabId(1)]),
        settings_menu_open: false,
        shortcuts_open: true,
        context_menu: None,
        rename_editor_open: false,
    };
    let layout = ChromeLayout {
        sidebar: rect(0, 0, 0, 100),
        tab_bar: rect(0, 0, 300, 0),
        content: rect(0, 0, 300, 100),
    };
    let hits = chrome_targets(PhysicalSize::new(300, 100), layout, target_metrics(), &request);
    assert_eq!(hits.toggle, PhysicalRect::default());
    assert!(hits.tab_rows.is_empty());
    assert!(hits.workspace_rows.is_empty());
    assert_eq!(hits.shortcuts, rect(0, 0, 300, 100));
    assert_eq!(hits.shortcuts_close, rect(262, 0, 38, 38));
}

#[test]
fn clicks_on_laid_out_tabs_select_them() {
    let request = TargetRequest {
        sidebar_mode: SidebarMode::Expanded,
        workspaces: vec![WorkspaceId(1)],
        active_tabs: Some((1..=6).map(TabId).collect()),
        settings_menu_open: false,
        shortcuts_open: false,
        context_menu: None,
        rename_editor_open: false,
    };
    let hits = chrome_targets(
        PhysicalSize::new(1000, 600),
        layout_1000_by_600(),
        target_metrics(),
        &request,
    );
    let menus = ChromeMenus {
        name_editor_open: false,
        recovery_menu_open: false,
        name_menu: None,
        settings_menu_open: false,
    };
    assert_eq!(resolve_chrome_click(&menus, &hits, 369, 10), ChromeClick::SwitchTab(TabId(1)));
    assert_eq!(resolve_chrome_click(&menus, &hits, 370, 10), ChromeClick::SwitchTab(TabId(2)));
    assert_eq!(resolve_chrome_click(&menus, &hits, 747, 34), ChromeClick::SwitchTab(TabId(4)));
    assert_eq!(resolve_chrome_click(&menus, &hits, 748, 0), ChromeClick::NewTab);
    assert_eq!(resolve_chrome_click(&menus, &hits, 784, 0), ChromeClick::Split(Axis::Horizontal));
}
