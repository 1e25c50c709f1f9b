//! Tests of the path, pattern, extension and text utilities.

use sync_manager::paths::{normalize_path, resolve_path, relative_path, is_inside, extension_str};
use sync_manager::patterns::{matches_pattern, PatternMatcher};
use sync_manager::highlight::get_file_extension;
use sync_manager::helpers::wrap_text;
use sync_manager::tab_bar::{TabBarStyle, TabBarAlignment, VerticalPosition,
    parse_alignment_from_config, TabBounds};
use sync_manager::registry::AlignmentConfigData;
use sync_manager::text::dec_string;

#[test]
fn test_normalize_path() {
    assert_eq!(normalize_path("a/b/../c/./d"), "a/c/d");
}

#[test]
fn test_resolve_path() {
    assert_eq!(resolve_path("/home/user", "documents"), "/home/user/documents");
    assert_eq!(resolve_path("/home/user", "/etc/config"), "/etc/config");
}

#[test]
fn test_relative_path_steps_up_and_down() {
    assert_eq!(
        relative_path("/a/b/c", "/a/d"),
        Some("../../d".to_string())
    );
    assert_eq!(relative_path("/a", "/a/b"), Some("b".to_string()));
}

#[test]
fn test_is_inside_goes_by_components() {
    assert!(is_inside("/a/b/c", "/a/b"));
    assert!(!is_inside("/a/bc", "/a/b"));
    assert!(!is_inside("a/b", "/a"));
    assert!(is_inside("/a/b/../c", "/a/c"));
}

#[test]
fn test_extension_str_keeps_case() {
    assert_eq!(extension_str("dir/file.RS"), Some("RS".to_string()));
    assert_eq!(extension_str("dir/.hidden"), None);
    assert_eq!(extension_str("file"), None);
}

#[test]
fn test_suffix_pattern() {
    assert!(matches_pattern("file.txt", "*.txt"));
    assert!(!matches_pattern("file.md", "*.txt"));
}

#[test]
fn test_prefix_pattern() {
    assert!(matches_pattern("test_file.rs", "test_*"));
    assert!(!matches_pattern("file_test.rs", "test_*"));
}

#[test]
fn test_contains_pattern() {
    assert!(matches_pattern("path/to/node_modules/file", "node_modules"));
    assert!(!matches_pattern("path/to/src/file", "node_modules"));
}

#[test]
fn test_pattern_matcher() {
    let matcher = PatternMatcher::new(vec![
        "*.swp".to_string(),
        "node_modules".to_string(),
        ".git".to_string(),
    ]);
    assert!(matcher.should_exclude("file.swp"));
    assert!(matcher.should_exclude("project/node_modules/pkg"));
    assert!(matcher.should_exclude(".git/config"));
    assert!(!matcher.should_exclude("src/main.rs"));
}

#[test]
fn test_pattern_matching_is_case_insensitive() {
    // A lowercasing that handed its input back unchanged would miss
    // both of these.
    assert!(matches_pattern("Backup.SWP", "*.swp"));
    assert!(matches_pattern("SRC/Node_Modules/x", "node_modules"));
}

#[test]
fn test_inner_star_pattern_matches_both_ends() {
    assert!(matches_pattern("report-2024.log", "report*.log"));
    assert!(!matches_pattern("report-2024.txt", "report*.log"));
}

#[test]
fn test_get_file_extension() {
    assert_eq!(get_file_extension("file.rs"), Some("rs".to_string()));
    assert_eq!(get_file_extension("file.py"), Some("py".to_string()));
    assert_eq!(get_file_extension("file.js"), Some("js".to_string()));
    assert_eq!(get_file_extension("file"), None);
    assert_eq!(get_file_extension("file."), None);
}

#[test]
fn test_get_file_extension_lowercases() {
    assert_eq!(get_file_extension("FILE.RS"), Some("rs".to_string()));
    assert_eq!(get_file_extension("dir.v2/readme"), None);
}

#[test]
fn test_wrap_text_packs_words() {
    assert_eq!(
        wrap_text("alpha beta gamma", 11),
        vec!["alpha beta".to_string(), "gamma".to_string()]
    );
    assert_eq!(
        wrap_text("one\n\ntwo", 10),
        vec!["one".to_string(), "".to_string(), "two".to_string()]
    );
    assert_eq!(wrap_text("unbreakable", 4), vec!["unbreakable".to_string()]);
}

#[test]
fn test_tab_bar_style_parsing_ignores_case() {
    assert_eq!(TabBarStyle::from_str("TABBED"), TabBarStyle::Tab);
    assert_eq!(TabBarStyle::from_str("Boxed"), TabBarStyle::Boxed);
    assert_eq!(TabBarStyle::from_str("text_static"), TabBarStyle::TextStatic);
    assert_eq!(TabBarStyle::from_str("whatever"), TabBarStyle::Tab);
}

#[test]
fn test_alignment_parsing_with_defaults() {
    let parsed = parse_alignment_from_config(&AlignmentConfigData {
        vertical: "Bottom".to_string(),
        horizontal: "LEFT".to_string(),
        offset_x: 2,
        offset_y: 1,
    });
    assert_eq!(parsed.vertical, VerticalPosition::Bottom);
    assert_eq!(parsed.horizontal, TabBarAlignment::Left);
    assert_eq!(parsed.offset_x, 2);
    assert_eq!(parsed.offset_y, 1);
}

#[test]
fn test_tab_bounds_contains() {
    let bounds = TabBounds { x: 5, y: 2, width: 4, height: 1 };
    assert!(bounds.contains(5, 2));
    assert!(bounds.contains(8, 2));
    assert!(!bounds.contains(9, 2));
    assert!(!bounds.contains(5, 3));
}

#[test]
fn test_decimal_rendering() {
    assert_eq!(dec_string(0), "0");
    assert_eq!(dec_string(7), "7");
    assert_eq!(dec_string(120), "120");
    assert_eq!(dec_string(99999), "99999");
}
