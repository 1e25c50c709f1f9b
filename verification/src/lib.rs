//! Core engine of a two-column diff viewer — line alignment, intra-line
//! word diffing, and row formatting (wrap, fold, pad) — together with the
//! registry, widget-state, and application-state machinery around it.

pub mod app_config;
pub mod app_state;
pub mod base_layout;
pub mod bounding_box;
pub mod clock;
pub mod config;
pub mod dashboard;
pub mod diff;
pub mod events;
pub mod file_browser;
pub mod format;
pub mod git;
pub mod helpers;
pub mod highlight;
pub mod layout_calc;
pub mod manager;
pub mod ops;
pub mod paths;
pub mod patterns;
pub mod popup;
pub mod project_config;
pub mod registry;
pub mod row;
pub mod split_view;
pub mod styles;
pub mod sync;
pub mod tab_bar;
pub mod tab_manager;
pub mod text;
pub mod toast;
pub mod worddiff;
