//! Tests of the registry, layout, view state and the surrounding
//! widget-state types.

use sync_manager::registry::{RectRegistry, RectMetrics, TabBarState, TabBarConfigData,
    AlignmentConfigData, TabState};
use sync_manager::split_view::{LayoutConstants, LayoutConstantsError, SplitDiffViewConfig,
    SplitDiffViewState};
use sync_manager::layout_calc::LayoutCalculator;
use sync_manager::dashboard::{DashboardState, SCROLL_TO_BOTTOM};
use sync_manager::sync::{SyncEngine, SyncOptions, SyncResult};
use sync_manager::file_browser::{FileBrowser, FileEntry};
use sync_manager::app_state::{App, ViewMode};
use sync_manager::app_config::AppConfig;
use sync_manager::ops::{DiffEngine, DiffEntry, DiffType, FileStatus, generate_simple_diff};
use sync_manager::git::GitOps;
use sync_manager::toast::{Toast, ToastType};
use sync_manager::popup::{Popup, PopupType};

fn rect(x: u16, y: u16, width: u16, height: u16) -> RectMetrics {
    RectMetrics { x, y, width, height }
}

#[test]
fn test_register_and_query() {
    let mut registry = RectRegistry::new();
    let handle = registry.register(Some("test-window"), rect(10, 20, 100, 50));
    let metrics = registry.get_metrics(handle).unwrap();
    assert_eq!(metrics.x, 10);
    assert_eq!(metrics.y, 20);
    assert_eq!(metrics.width, 100);
    assert_eq!(metrics.height, 50);
}

#[test]
fn test_update_metrics() {
    let mut registry = RectRegistry::new();
    let handle = registry.register(Some("test"), rect(10, 20, 100, 50));
    registry.update(handle, rect(15, 25, 110, 60));
    let metrics = registry.get_metrics(handle).unwrap();
    assert_eq!(metrics.x, 15);
    assert_eq!(metrics.y, 25);
    assert_eq!(metrics.width, 110);
    assert_eq!(metrics.height, 60);
}

#[test]
fn test_lookup_by_name() {
    let mut registry = RectRegistry::new();
    let handle = registry.register(Some("my-window"), rect(10, 20, 100, 50));
    let found_handle = registry.get_handle("my-window").unwrap();
    assert_eq!(handle, found_handle);
    let metrics = registry.get_metrics_by_name("my-window").unwrap();
    assert_eq!(metrics.x, 10);
}

#[test]
fn test_set_y_absolute() {
    let mut registry = RectRegistry::new();
    let handle = registry.register(Some("test-window"), rect(10, 20, 100, 50));
    registry.set_y(handle, 12);
    let metrics = registry.get_metrics(handle).unwrap();
    assert_eq!(metrics.y, 12);
    assert_eq!(metrics.x, 10);
    registry.set_y_by_name("test-window", 25);
    let metrics = registry.get_metrics_by_name("test-window").unwrap();
    assert_eq!(metrics.y, 25);
}

#[test]
fn test_offset_y_relative() {
    let mut registry = RectRegistry::new();
    let handle = registry.register(Some("test-window"), rect(10, 20, 100, 50));
    registry.offset_y(handle, 3);
    let metrics = registry.get_metrics(handle).unwrap();
    assert_eq!(metrics.y, 23);
    registry.offset_y(handle, -5);
    let metrics = registry.get_metrics(handle).unwrap();
    assert_eq!(metrics.y, 18);
    registry.offset_y_by_name("test-window", 10);
    let metrics = registry.get_metrics_by_name("test-window").unwrap();
    assert_eq!(metrics.y, 28);
}

#[test]
fn test_set_x_and_offset_x() {
    let mut registry = RectRegistry::new();
    let handle = registry.register(Some("test-window"), rect(10, 20, 100, 50));
    registry.set_x(handle, 15);
    let metrics = registry.get_metrics(handle).unwrap();
    assert_eq!(metrics.x, 15);
    registry.offset_x(handle, -3);
    let metrics = registry.get_metrics(handle).unwrap();
    assert_eq!(metrics.x, 12);
}

#[test]
fn test_register_same_name_keeps_handle() {
    let mut registry = RectRegistry::new();
    let h1 = registry.register(Some("panel"), rect(0, 0, 1, 1));
    let h2 = registry.register(Some("panel"), rect(5, 6, 7, 8));
    assert_eq!(h1, h2);
    assert_eq!(registry.get_metrics(h1).unwrap().width, 7);
    assert_eq!(registry.all_handles().len(), 1);
}

#[test]
fn test_unregister_forgets_the_rectangle() {
    let mut registry = RectRegistry::new();
    let handle = registry.register(Some("gone"), rect(1, 2, 3, 4));
    assert!(registry.handle_exists(handle));
    assert!(registry.unregister(handle));
    assert!(!registry.handle_exists(handle));
    assert!(!registry.name_exists("gone"));
}

fn tab_bar_state(names: &[&str]) -> TabBarState {
    TabBarState {
        active_tab_index: 0,
        tab_count: names.len(),
        tab_names: names.iter().map(|s| s.to_string()).collect(),
        tab_configs: Vec::new(),
        config: TabBarConfigData {
            hwnd: "hwndTabs".to_string(),
            anchor: "hwndMain".to_string(),
            style: "tab".to_string(),
            color: "cyan".to_string(),
            tab_bar_type: None,
            state_colors: None,
            alignment: AlignmentConfigData {
                vertical: "top".to_string(),
                horizontal: "center".to_string(),
                offset_x: 0,
                offset_y: 0,
            },
            min_tab_width: 8,
            tab_tooltips: true,
        },
        last_navigation_time: None,
    }
}

#[test]
fn test_tab_navigation_steps_and_wraps() {
    let mut registry = RectRegistry::new();
    let handle = registry.register(Some("bar"), rect(0, 0, 10, 1));
    registry.set_tab_bar_state(handle, tab_bar_state(&["one", "two", "three"]));
    assert_eq!(registry.get_active_tab(handle), Some(0));
    assert!(registry.navigate_tab(handle, 1));
    assert_eq!(registry.get_active_tab(handle), Some(1));
    // Stepping left from the first tab wraps to the last; a fresh state
    // avoids the debounce window.
    registry.set_tab_bar_state(handle, tab_bar_state(&["one", "two", "three"]));
    assert!(registry.navigate_tab(handle, -1));
    assert_eq!(registry.get_active_tab(handle), Some(2));
}

#[test]
fn test_set_active_tab_rejects_out_of_range() {
    let mut registry = RectRegistry::new();
    let handle = registry.register(Some("bar"), rect(0, 0, 10, 1));
    registry.set_tab_bar_state(handle, tab_bar_state(&["one", "two"]));
    assert!(registry.set_active_tab(handle, 1));
    assert_eq!(registry.get_active_tab(handle), Some(1));
    assert!(!registry.set_active_tab(handle, 2));
    assert_eq!(registry.get_active_tab(handle), Some(1));
}

#[test]
fn test_gutter_width_caching() {
    let mut state = SplitDiffViewState::default();
    let constants = LayoutConstants::default_constants();
    let (width1, digits1) = state.get_gutter_width(100, 200, &constants);
    assert_eq!(digits1, 3);
    assert_eq!(width1, 4);
    let (width2, digits2) = state.get_gutter_width(100, 200, &constants);
    assert_eq!(width1, width2);
    assert_eq!(digits1, digits2);
    let (width3, digits3) = state.get_gutter_width(1000, 2000, &constants);
    assert_eq!(digits3, 4);
    assert_eq!(width3, 5);
}

#[test]
fn test_config_builder_pattern() {
    let config = SplitDiffViewConfig::new()
        .with_source_title("Source File")
        .with_dest_title("Dest File");
    assert_eq!(config.source_title, "Source File");
    assert_eq!(config.dest_title, "Dest File");
}

#[test]
fn test_layout_constants_validation_errors() {
    assert_eq!(
        LayoutConstants::new(1, 2, 0, 1, 1),
        Err(LayoutConstantsError::InvalidSplitRatio)
    );
    assert_eq!(
        LayoutConstants::new(1, 1, 2, 1, 1),
        Err(LayoutConstantsError::InvalidBorderWidth)
    );
    assert_eq!(
        LayoutConstants::new(1, 2, 2, 1, 0),
        Err(LayoutConstantsError::InvalidMinLineDigits)
    );
    assert!(LayoutConstants::new(1, 2, 2, 1, 1).is_ok());
}

#[test]
fn test_layout_calculator_source_area() {
    let calc = LayoutCalculator::new(LayoutConstants::default_constants());
    let area = rect(0, 0, 100, 50);
    let source = calc.calculate_source_area(area);
    assert_eq!(source.x, 1);
    assert_eq!(source.y, 1);
    assert_eq!(source.width, 49);
    assert_eq!(source.height, 48);
}

#[test]
fn test_layout_calculator_dest_area() {
    let calc = LayoutCalculator::new(LayoutConstants::default_constants());
    let source_area = rect(1, 1, 49, 48);
    let dest = calc.calculate_dest_area(source_area, 100);
    assert_eq!(dest.x, 51);
    assert_eq!(dest.y, 1);
    assert_eq!(dest.width, 49);
    assert_eq!(dest.height, 48);
}

#[test]
fn test_dashboard_scrollback_is_bounded() {
    let mut state = DashboardState::new();
    for k in 0..1001 {
        state.add_output_line(format!("line {}", k));
    }
    assert_eq!(state.output_lines.len(), 1000);
    assert_eq!(state.output_lines.last().unwrap(), "line 1000");
    assert_eq!(state.output_lines.first().unwrap(), "line 1");
    assert_eq!(state.output_scroll, SCROLL_TO_BOTTOM);
    state.scroll_output_up(5);
    assert!(!state.auto_scroll_enabled);
}

#[test]
fn test_sync_engine_records_outcomes() {
    let engine = SyncEngine::new(SyncOptions {
        create_backup: true,
        continue_on_error: false,
        dry_run: false,
    });
    let mut result = SyncResult::new();
    assert!(engine.record_outcome(&mut result, None));
    assert!(engine.record_outcome(&mut result, None));
    let go_on = engine.record_outcome(&mut result, Some("a.txt: unreadable".to_string()));
    assert!(!go_on);
    assert_eq!(result.synced, 2);
    assert_eq!(result.failed, 1);
    assert_eq!(result.errors, vec!["a.txt: unreadable".to_string()]);
}

#[test]
fn test_diff_engine_exclusions() {
    let engine = DiffEngine::new();
    let extra = vec!["*.generated".to_string()];
    assert!(engine.should_exclude("project/node_modules/pkg", &extra));
    assert!(engine.should_exclude("Work/File.SWP", &extra));
    assert!(engine.should_exclude("out/model.generated", &extra));
    assert!(!engine.should_exclude("src/main.rs", &extra));
    assert_eq!(
        engine.determine_status(true, false, false),
        FileStatus::Added
    );
    assert_eq!(
        engine.determine_status(false, true, false),
        FileStatus::Deleted
    );
    assert_eq!(
        engine.determine_status(true, true, true),
        FileStatus::Modified
    );
    assert_eq!(
        engine.determine_status(true, true, false),
        FileStatus::Unchanged
    );
    assert_eq!(
        engine.determine_status(false, false, false),
        FileStatus::Untracked
    );
}

#[test]
fn test_simple_diff_marks_each_line() {
    let source = vec!["same".to_string(), "old".to_string(), "gone".to_string()];
    let dest = vec!["same".to_string(), "new".to_string()];
    let diff = generate_simple_diff(&source, &dest, "a/b.txt");
    assert_eq!(
        diff,
        "--- a/b.txt\n+++ a/b.txt\n same\n-old\n+new\n-gone"
    );
    let additions = generate_simple_diff(&Vec::new(), &vec!["added".to_string()], "c");
    assert_eq!(additions, "--- c\n+++ c\n+added");
}

#[test]
fn test_git_count_parsing_saturates() {
    assert_eq!(GitOps::parse_count("4294967295"), u32::MAX);
    assert_eq!(GitOps::parse_count("99999999999999"), u32::MAX);
    assert_eq!(GitOps::parse_count("0042"), 42);
    assert_eq!(GitOps::parse_count("12a"), 0);
}

#[test]
fn test_git_output_parsing() {
    assert_eq!(GitOps::parse_commit_counts("2\t3"), (2, 3));
    assert_eq!(GitOps::parse_commit_counts("  7   11  "), (7, 11));
    assert_eq!(GitOps::parse_commit_counts("nonsense"), (0, 0));
    assert_eq!(GitOps::parse_commit_counts("  \n "), (0, 0));
    assert!(GitOps::parse_has_changes(" M src/lib.rs\n"));
    assert!(!GitOps::parse_has_changes("  \n"));
}

#[test]
fn test_app_selection_moves_within_bounds() {
    let mut app = App::new("/ws".to_string(), None, AppConfig::default());
    let entry = |p: &str| DiffEntry {
        path: p.to_string(),
        source_path: format!("/shared/{}", p),
        destination_path: format!("/ws/{}", p),
        status: FileStatus::Modified,
        diff_type: DiffType::SharedToProject,
    };
    app.refresh_diffs(vec![entry("a"), entry("b")], vec![entry("c")]);
    assert_eq!(app.current_index(), 0);
    app.select_next();
    assert_eq!(app.current_index(), 1);
    app.select_next();
    assert_eq!(app.current_index(), 1);
    app.select_previous();
    assert_eq!(app.current_index(), 0);
    assert_eq!(app.selected_diff().unwrap().path, "a");
    app.toggle_view_mode();
    assert_eq!(app.view_mode, ViewMode::ProjectToShared);
    assert_eq!(app.current_diffs().len(), 1);
}

#[test]
fn test_file_browser_selection_and_descent() {
    let mut browser = FileBrowser::new("/root".to_string());
    let entry = |name: &str, is_dir: bool| FileEntry {
        name: name.to_string(),
        path: format!("/root/{}", name),
        is_dir,
        size: 0,
    };
    browser.apply_listing(
        vec![entry("docs", true), entry("a.txt", false), entry("b.txt", false)],
        Some("a.txt"),
    );
    assert_eq!(browser.selected_index, 1);
    browser.move_down();
    assert_eq!(browser.selected_index, 2);
    browser.move_down();
    assert_eq!(browser.selected_index, 2);
    browser.move_up();
    browser.move_up();
    assert_eq!(browser.selected_index, 0);
    let descend = browser.navigate_into();
    assert_eq!(descend, Some("/root/docs".to_string()));
    assert_eq!(browser.current_dir, "/root/docs");
}

#[test]
fn test_toast_and_popup_construction() {
    let toast = Toast::success("done".to_string());
    assert_eq!(toast.message, "done");
    assert_eq!(toast.toast_type, ToastType::Success);
    let popup = Popup::confirm("Sync".to_string(), "Really?".to_string());
    assert!(popup.visible);
    match popup.popup_type {
        PopupType::Confirm { selected, .. } => assert_eq!(selected, 1),
        _ => panic!("expected a confirmation popup"),
    }
}
