//! Configuration of the standard application frame: title, tabs, key
//! bindings and the status bar. Rendering happens in the terminal layer;
//! the library holds and validates the data.

use vstd::prelude::*;
use crate::helpers::DimmingContext;

verus! {

/// One tab of the frame's tab bar.
#[derive(Debug, Clone)]
pub struct TabConfig {
    pub name: String,
    /// Unique identifier for the tab.
    pub id: String,
}

/// One key binding shown in the footer.
#[derive(Debug, Clone)]
pub struct BindingConfig {
    /// The key, as displayed.
    pub key: String,
    /// What the key does.
    pub description: String,
}

/// The status bar's texts.
#[derive(Debug, Clone)]
pub struct StatusBarConfig {
    pub default_text: String,
    /// Text shown while a modal is active.
    pub modal_text: Option<String>,
}

/// The frame's full configuration.
#[derive(Debug, Clone)]
pub struct BaseLayoutConfig {
    pub title: String,
    pub tabs: Vec<TabConfig>,
    pub global_bindings: Vec<BindingConfig>,
    pub status_bar: StatusBarConfig,
}

/// The standard frame around the application's content.
pub struct BaseLayout {
    pub config: BaseLayoutConfig,
    pub active_tab_id: Option<String>,
    pub dimming: DimmingContext,
}

impl BaseLayout {
    /// A frame over the given configuration, active tab, and dimming
    /// state.
    pub fn new(config: BaseLayoutConfig, active_tab_id: Option<String>, dimming: DimmingContext)
        -> (r: BaseLayout)
        ensures
            r.config == config,
            r.active_tab_id == active_tab_id,
            r.dimming.modal_visible == dimming.modal_visible,
    {
        BaseLayout { config, active_tab_id, dimming }
    }
}

} // verus!
