use vivida::chrome::SidebarMode;
use vivida::shortcuts::{macos_sections, platform_sections, sections};

#[test]
fn sidebar_mode_cycles_through_all_presentations() {
    assert_eq!(SidebarMode::Expanded.next(), SidebarMode::Compact);
    assert_eq!(SidebarMode::Compact.next(), SidebarMode::Hidden);
    assert_eq!(SidebarMode::Hidden.next(), SidebarMode::Expanded);
}

#[test]
fn every_section_lists_described_shortcuts() {
    assert!(!sections().is_empty());
    for section in sections() {
        assert!(!section.title.is_empty());
        assert!(!section.rows.is_empty(), "{} has no rows", section.title);
        for row in &section.rows {
            assert!(!row.keys.is_empty(), "{} has an unlabelled row", section.title);
            assert!(
                !row.description.is_empty(),
                "{} has an undescribed row {}",
                section.title,
                row.keys
            );
        }
    }
}

use vivida::chrome::{
    compute_chrome_layout, control_rect, resize_gutter_rects, settings_menu_click,
    settings_menu_item_at, settings_menu_rect, shortcuts_close_rect, shortcuts_rect,
    sidebar_footer_metrics, tab_title_clip, window_frame_action, ChromeHitMap, ChromeMetrics,
    SettingsMenuClick, SettingsMenuItem, WindowFrameAction, CHROME_CONTROL_LOGICAL,
    COMPACT_SIDEBAR_LOGICAL, EXPANDED_SIDEBAR_LOGICAL, MIN_PANE_HEIGHT_LOGICAL,
    MIN_PANE_WIDTH_LOGICAL, SHORTCUTS_HEADER_LOGICAL, SIDEBAR_FOOTER_LOGICAL, TAB_BAR_LOGICAL,
    TAB_TITLE_PADDING_LOGICAL,
};
use vivida::rect::{PhysicalRect, PhysicalSize};

/// Metrics at scale 1 for a sidebar mode, with the given resize strips.
fn metrics(mode: SidebarMode, bottom_gutter: u32, side_gutter: u32) -> ChromeMetrics {
    ChromeMetrics {
        sidebar: mode.logical_width(),
        tab_bar: TAB_BAR_LOGICAL,
        min_pane_width: MIN_PANE_WIDTH_LOGICAL,
        min_pane_height: MIN_PANE_HEIGHT_LOGICAL,
        bottom_gutter,
        side_gutter,
    }
}

#[test]
fn sidebar_modes_allocate_expected_widths() {
    let size = PhysicalSize::new(1000, 600);
    assert_eq!(
        compute_chrome_layout(size, &metrics(SidebarMode::Expanded, 0, 0)).sidebar.width,
        220
    );
    assert_eq!(
        compute_chrome_layout(size, &metrics(SidebarMode::Compact, 0, 0)).sidebar.width,
        44
    );
    assert_eq!(
        compute_chrome_layout(size, &metrics(SidebarMode::Hidden, 0, 0)).sidebar.width,
        0
    );
    assert_eq!(EXPANDED_SIDEBAR_LOGICAL, 220);
    assert_eq!(COMPACT_SIDEBAR_LOGICAL, 44);
}

#[test]
fn expanded_sidebar_never_starves_the_minimum_pane_width() {
    let layout =
        compute_chrome_layout(PhysicalSize::new(300, 200), &metrics(SidebarMode::Expanded, 0, 0));
    assert_eq!(layout.sidebar.width, 140);
    assert_eq!(layout.content.width, 160);
    assert!(layout.content.height >= 80);
    assert_eq!(layout.tab_bar, PhysicalRect { x: 0, y: 0, width: 300, height: 35 });
    assert_eq!(layout.content.y, 35);
}

#[test]
fn windows_content_leaves_the_bottom_resize_gutter_uncovered() {
    let size = PhysicalSize::new(1000, 600);
    let layout = compute_chrome_layout(size, &metrics(SidebarMode::Expanded, 10, 0));

    assert_eq!(layout.content.bottom(), 590);
    assert_eq!(
        resize_gutter_rects(size, layout),
        vec![PhysicalRect { x: 220, y: 590, width: 780, height: 10 }]
    );

    let short_layout =
        compute_chrome_layout(PhysicalSize::new(1000, 100), &metrics(SidebarMode::Expanded, 10, 0));
    assert_eq!(short_layout.content.height, 80);
    assert_eq!(short_layout.content.bottom(), 90);
}

#[test]
fn macos_content_leaves_the_native_resize_border_reachable() {
    let size = PhysicalSize::new(1000, 600);
    let layout = compute_chrome_layout(size, &metrics(SidebarMode::Expanded, 6, 6));

    assert_eq!(layout.content.right(), 994);
    assert_eq!(layout.content.bottom(), 594);
    assert_eq!(
        resize_gutter_rects(size, layout),
        vec![
            PhysicalRect { x: 220, y: 594, width: 780, height: 6 },
            PhysicalRect { x: 994, y: 35, width: 6, height: 559 },
        ]
    );

    let hidden = compute_chrome_layout(size, &metrics(SidebarMode::Hidden, 6, 6));
    assert_eq!(hidden.content.x, 6);
    assert_eq!(
        resize_gutter_rects(size, hidden),
        vec![
            PhysicalRect { x: 6, y: 594, width: 994, height: 6 },
            PhysicalRect { x: 994, y: 35, width: 6, height: 559 },
            PhysicalRect { x: 0, y: 35, width: 6, height: 565 },
        ]
    );
}

#[test]
fn macos_workspace_footer_does_not_cover_the_bottom_resize_gutter() {
    let (y, height) = sidebar_footer_metrics(600, 6, SIDEBAR_FOOTER_LOGICAL);
    assert_eq!(y + height, 594);
}

#[test]
fn windows_workspace_footer_does_not_cover_the_bottom_resize_gutter() {
    let (y, height) = sidebar_footer_metrics(600, 10, SIDEBAR_FOOTER_LOGICAL);
    let new_workspace = PhysicalRect { x: 0, y: i32::try_from(y).unwrap(), width: 220, height };

    assert_eq!(new_workspace.bottom(), 590);
    assert!(new_workspace.contains(0, 589));
    assert!(!new_workspace.contains(0, 590));
    assert!(!new_workspace.contains(0, 599));
}

#[test]
fn tab_title_clip_stays_inside_tab_padding() {
    let clip = tab_title_clip(
        PhysicalRect { x: 73, y: 0, width: 150, height: 35 },
        TAB_TITLE_PADDING_LOGICAL,
    )
    .unwrap();
    assert_eq!(clip, (85, 0, 211, 35));
}

#[test]
fn tab_title_clip_omits_tabs_without_room_for_padding() {
    assert!(tab_title_clip(
        PhysicalRect { x: 0, y: 0, width: 23, height: 35 },
        TAB_TITLE_PADDING_LOGICAL
    )
    .is_none());
}

#[test]
fn application_controls_are_right_aligned_and_distinct() {
    let bar = PhysicalRect { x: 220, y: 0, width: 780, height: 35 };
    let system_width = 114;
    let width = CHROME_CONTROL_LOGICAL;
    let app_start = bar.width.saturating_sub(system_width).saturating_sub(width * 3);
    let horizontal = control_rect(app_start, bar, width);
    let vertical = control_rect(app_start + width, bar, width);
    let gear = control_rect(app_start + width * 2, bar, width);
    assert!(horizontal.x < vertical.x && vertical.x < gear.x);
    assert_eq!(gear.right(), 1000 - system_width as i64);
}

#[test]
fn settings_menu_is_anchored_to_gear_and_clamped_to_window() {
    let rect = settings_menu_rect(
        PhysicalRect { x: 560, y: 0, width: 34, height: 35 },
        PhysicalSize::new(600, 400),
        190,
        102,
    );
    assert_eq!(rect, PhysicalRect { x: 404, y: 35, width: 190, height: 102 });
}

#[test]
fn settings_menu_rows_map_to_items_and_reject_the_margins() {
    let size = PhysicalSize::new(190, 102);
    assert_eq!(settings_menu_item_at(size, 34, 10, 5), Some(SettingsMenuItem::Settings));
    assert_eq!(settings_menu_item_at(size, 34, 10, 40), Some(SettingsMenuItem::Shortcuts));
    assert_eq!(settings_menu_item_at(size, 34, 10, 101), Some(SettingsMenuItem::Documentation));
    assert_eq!(settings_menu_item_at(size, 34, 10, 102), None);
    assert_eq!(settings_menu_item_at(size, 34, -1, 40), None);
}

#[test]
fn the_shortcuts_panel_is_centred_and_clamped_to_the_chrome() {
    let (width, height) = (460, 560);
    let panel = shortcuts_rect(PhysicalSize::new(1000, 800), width, height);
    assert_eq!(panel.width, width);
    assert_eq!(panel.height, height);
    assert_eq!(panel.x, (1000 - width as i32) / 2);

    let cramped = shortcuts_rect(PhysicalSize::new(200, 150), width, height);
    assert_eq!(cramped.x, 0);
    assert_eq!(cramped.y, 0);
    assert_eq!(cramped.width, 200);
    assert_eq!(cramped.height, 150);
}

#[test]
fn the_shortcuts_close_button_sits_in_the_header_trailing_corner() {
    let panel = PhysicalRect { x: 100, y: 40, width: 460, height: 560 };
    let close = shortcuts_close_rect(panel, SHORTCUTS_HEADER_LOGICAL);
    assert_eq!(close.right(), panel.right());
    assert_eq!(close.y, panel.y);
    assert_eq!(close.height, SHORTCUTS_HEADER_LOGICAL);
}

#[test]
fn window_frame_actions_are_resolved_without_native_apis() {
    let hit_map = ChromeHitMap {
        minimize: PhysicalRect { x: 10, y: 0, width: 20, height: 35 },
        maximize: PhysicalRect { x: 30, y: 0, width: 20, height: 35 },
        close: PhysicalRect { x: 50, y: 0, width: 20, height: 35 },
        ..ChromeHitMap::default()
    };
    assert_eq!(window_frame_action(&hit_map, 15, 10), Some(WindowFrameAction::Minimize));
    assert_eq!(window_frame_action(&hit_map, 35, 10), Some(WindowFrameAction::ToggleMaximize));
    assert_eq!(window_frame_action(&hit_map, 55, 10), Some(WindowFrameAction::Close));
    assert_eq!(window_frame_action(&hit_map, 5, 10), None);
}

#[test]
fn settings_menu_items_and_dismissal_are_deterministic() {
    let hit_map = ChromeHitMap {
        gear: PhysicalRect { x: 300, y: 0, width: 34, height: 35 },
        settings_menu: PhysicalRect { x: 144, y: 35, width: 190, height: 102 },
        settings_items: vec![
            PhysicalRect { x: 144, y: 35, width: 190, height: 34 },
            PhysicalRect { x: 144, y: 69, width: 190, height: 34 },
            PhysicalRect { x: 144, y: 103, width: 190, height: 34 },
        ],
        ..ChromeHitMap::default()
    };
    assert_eq!(settings_menu_click(&hit_map, 150, 40), SettingsMenuClick::Item(0));
    assert_eq!(settings_menu_click(&hit_map, 150, 75), SettingsMenuClick::Item(1));
    assert_eq!(settings_menu_click(&hit_map, 150, 110), SettingsMenuClick::Item(2));
    assert_eq!(settings_menu_click(&hit_map, 310, 10), SettingsMenuClick::Gear);
    assert_eq!(settings_menu_click(&hit_map, 20, 200), SettingsMenuClick::Outside);
}

#[test]
fn macos_sections_use_command_symbols() {
    let mac = macos_sections();
    assert_eq!(mac.len(), 3);
    assert_eq!(mac[0].rows[0].keys, "⌘T");
    assert_eq!(mac[0].rows[10].keys, "⌃⇧F12");
    assert_eq!(mac[1].rows[3].description, "Search backward");
    assert_eq!(mac[2].title, "While searching");
    for section in &mac {
        assert!(!section.title.is_empty() && !section.rows.is_empty());
        for row in &section.rows {
            assert!(!row.keys.is_empty() && !row.description.is_empty());
        }
    }
    assert_eq!(platform_sections(true)[0].rows[0].keys, "⌘T");
    assert_eq!(platform_sections(false)[0].rows[0].keys, sections()[0].rows[0].keys);
}
