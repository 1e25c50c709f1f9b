//! Tab bar configuration records and the object-style tab bar manager.
//! The records mirror what the configuration file holds; the loader in
//! the application shell fills them and hands them in as plain values.

use vstd::prelude::*;
use crate::registry::{RectHandle, RectRegistry, RectMetrics, TabBarConfigData, TabConfigData,
    AlignmentConfigData, TabBarStateColors, TabState, TabBarState};
use crate::text::{str_eq, to_lowercase};

verus! {

/// Alignment configuration as loaded from the configuration file.
#[derive(Debug, Clone)]
pub struct AlignmentConfigYaml {
    /// Vertical position: "top" or "bottom".
    pub vertical: String,
    /// Horizontal alignment: "left", "center", or "right".
    pub horizontal: String,
    pub offset_x: Option<u16>,
    pub offset_y: Option<u16>,
}

/// State-based tab colors as loaded from the configuration file.
#[derive(Debug, Clone)]
pub struct TabBarColorsYaml {
    pub active: Option<String>,
    pub negate: Option<String>,
    pub disabled: Option<String>,
}

/// One tab as loaded from the configuration file.
#[derive(Debug, Clone)]
pub struct TabConfigYaml {
    pub id: String,
    pub name: String,
    /// "active" for non-static bars; a state word for static bars.
    pub default: Option<String>,
}

/// A tab bar as loaded from the configuration file.
#[derive(Debug, Clone)]
pub struct TabBarConfigYaml {
    pub hwnd: String,
    pub anchor: String,
    pub alignment: AlignmentConfigYaml,
    pub style: String,
    pub color: String,
    pub tab_bar_type: Option<String>,
    pub colors: Option<TabBarColorsYaml>,
    pub min_tab_width: Option<u16>,
    pub tab_tooltips: Option<bool>,
    pub tabs: Vec<TabConfigYaml>,
}

/// Whether the style word names one of the static styles.
pub open spec fn is_static_style(style: Seq<char>) -> bool {
    style == ("box_static")@ || style == ("text_static")@
}

/// Convert a loaded tab bar configuration into the registry's form: the
/// type tag is kept only for static styles, the state colors only under
/// a "state" type, and absent offsets, width and tooltip flags get their
/// defaults.
pub fn convert_tab_bar_config(config: &TabBarConfigYaml) -> (r: TabBarConfigData)
    ensures
        r.hwnd@ == config.hwnd@,
        r.anchor@ == config.anchor@,
        r.style@ == config.style@,
        r.color@ == config.color@,
        !is_static_style(config.style@) ==> r.tab_bar_type is None && r.state_colors is None,
        r.alignment.offset_x == (match config.alignment.offset_x {
            Some(x) => x,
            None => 0u16,
        }),
        r.alignment.offset_y == (match config.alignment.offset_y {
            Some(y) => y,
            None => 0u16,
        }),
        r.min_tab_width == (match config.min_tab_width {
            Some(w) => w,
            None => 8u16,
        }),
        r.tab_tooltips == (match config.tab_tooltips {
            Some(t) => t,
            None => true,
        }),
{
    let is_static = str_eq(config.style.as_str(), "box_static") || str_eq(
        config.style.as_str(),
        "text_static",
    );
    let tab_bar_type: Option<String> = if is_static {
        match &config.tab_bar_type {
            Some(t) => Some(t.clone()),
            None => None,
        }
    } else {
        None
    };
    let is_state = match &tab_bar_type {
        Some(t) => str_eq(t.as_str(), "state"),
        None => false,
    };
    let state_colors: Option<TabBarStateColors> = if is_static && is_state {
        match &config.colors {
            Some(c) => Some(
                TabBarStateColors {
                    active: match &c.active {
                        Some(s) => Some(s.clone()),
                        None => None,
                    },
                    negate: match &c.negate {
                        Some(s) => Some(s.clone()),
                        None => None,
                    },
                    disabled: match &c.disabled {
                        Some(s) => Some(s.clone()),
                        None => None,
                    },
                },
            ),
            None => None,
        }
    } else {
        None
    };
    TabBarConfigData {
        hwnd: config.hwnd.clone(),
        anchor: config.anchor.clone(),
        style: config.style.clone(),
        color: config.color.clone(),
        tab_bar_type,
        state_colors,
        alignment: AlignmentConfigData {
            vertical: config.alignment.vertical.clone(),
            horizontal: config.alignment.horizontal.clone(),
            offset_x: match config.alignment.offset_x {
                Some(x) => x,
                None => 0,
            },
            offset_y: match config.alignment.offset_y {
                Some(y) => y,
                None => 0,
            },
        },
        min_tab_width: match config.min_tab_width {
            Some(w) => w,
            None => 8,
        },
        tab_tooltips: match config.tab_tooltips {
            Some(t) => t,
            None => true,
        },
    }
}

/// Convert the loaded tabs into registry records. For a static bar the
/// default word becomes the tab's coloring state; otherwise it marks the
/// active tab, the first tab standing in when none is marked.
pub fn create_tab_configs(config: &TabBarConfigYaml) -> (r: Vec<TabConfigData>)
    ensures
        r@.len() == config.tabs@.len(),
        forall|k: int| 0 <= k < r@.len() ==> (#[trigger] r@[k]).id@ == config.tabs@[k].id@
            && r@[k].name@ == config.tabs@[k].name@,
{
    let is_static = str_eq(config.style.as_str(), "box_static") || str_eq(
        config.style.as_str(),
        "text_static",
    );
    let mut has_explicit_active = false;
    let mut first_active: usize = 0;
    let mut i: usize = 0;
    while i < config.tabs.len()
        invariant
            0 <= i <= config.tabs@.len(),
        decreases config.tabs@.len() - i,
    {
        let is_active_default = match &config.tabs[i].default {
            Some(d) => str_eq(d.as_str(), "active"),
            None => false,
        };
        if is_active_default && !has_explicit_active {
            has_explicit_active = true;
            first_active = i;
        }
        i += 1;
    }
    let mut r: Vec<TabConfigData> = Vec::new();
    let mut k: usize = 0;
    while k < config.tabs.len()
        invariant
            0 <= k <= config.tabs@.len(),
            r@.len() == k,
            forall|q: int| 0 <= q < k ==> (#[trigger] r@[q]).id@ == config.tabs@[q].id@
                && r@[q].name@ == config.tabs@[q].name@,
        decreases config.tabs@.len() - k,
    {
        let (active, state) = if is_static {
            let tab_state = match &config.tabs[k].default {
                Some(d) => {
                    let low = to_lowercase(d.as_str());
                    if str_eq(low.as_str(), "active") {
                        TabState::Active
                    } else if str_eq(low.as_str(), "negate") {
                        TabState::Negate
                    } else if str_eq(low.as_str(), "disabled") {
                        TabState::Disabled
                    } else {
                        TabState::Default
                    }
                },
                None => TabState::Default,
            };
            (false, tab_state)
        } else {
            let is_active = if has_explicit_active {
                match &config.tabs[k].default {
                    Some(d) => str_eq(d.as_str(), "active"),
                    None => false,
                }
            } else {
                k == first_active
            };
            (is_active, TabState::Default)
        };
        r.push(
            TabConfigData {
                id: config.tabs[k].id.clone(),
                name: config.tabs[k].name.clone(),
                active,
                state,
            },
        );
        k += 1;
    }
    r
}

/// Register a tab bar from its loaded configuration: the handle gets an
/// empty area, and the converted configuration and tabs go into the
/// registry's tab-bar state.
pub fn create_tab_bar_from_config(
    registry: &mut RectRegistry,
    handle_name: &str,
    config: &TabBarConfigYaml,
) -> (h: RectHandle)
    ensures
        final(registry).spec_tab_state(h.0) matches Some(st) && st.tab_count
            == config.tabs@.len() && st.tab_configs@.len() == config.tabs@.len(),
{
    let tab_configs = create_tab_configs(config);
    let tab_bar_config = convert_tab_bar_config(config);
    let handle = registry.register(
        Some(handle_name),
        RectMetrics { x: 0, y: 0, width: 0, height: 0 },
    );
    let mut active_index: usize = 0;
    let mut names: Vec<String> = Vec::new();
    let mut i: usize = 0;
    while i < tab_configs.len()
        invariant
            0 <= i <= tab_configs@.len(),
        decreases tab_configs@.len() - i,
    {
        if tab_configs[i].active {
            active_index = i;
        }
        names.push(tab_configs[i].name.clone());
        i += 1;
    }
    let count = tab_configs.len();
    let state = TabBarState {
        active_tab_index: active_index,
        tab_count: count,
        tab_names: names,
        tab_configs,
        config: tab_bar_config,
        last_navigation_time: None,
    };
    registry.set_tab_bar_state(handle, state);
    handle
}

/// Object-style wrapper tying tab bar operations to one handle.
pub struct TabBarManager {
    handle: RectHandle,
    handle_name: String,
}

impl TabBarManager {
    /// The wrapped handle.
    pub closed spec fn spec_handle(self) -> RectHandle {
        self.handle
    }

    /// Register and initialize a tab bar from its loaded configuration.
    pub fn create(registry: &mut RectRegistry, handle_name: &str, config: &TabBarConfigYaml) -> (r:
        TabBarManager)
        ensures
            final(registry).spec_tab_state(r.spec_handle().0) matches Some(st) && st.tab_count
                == config.tabs@.len(),
    {
        let handle = create_tab_bar_from_config(registry, handle_name, config);
        TabBarManager { handle, handle_name: handle_name.to_owned() }
    }

    /// The handle (object identifier).
    pub fn handle(&self) -> (r: RectHandle)
        ensures
            r == self.spec_handle(),
    {
        self.handle
    }

    /// Step to the previous tab, unless debounced.
    pub fn navigate_previous(&self, registry: &mut RectRegistry) -> (r: bool)
        ensures
            !r ==> *final(registry) == *old(registry),
    {
        registry.navigate_tab(self.handle, -1)
    }

    /// Step to the next tab, unless debounced.
    pub fn navigate_next(&self, registry: &mut RectRegistry) -> (r: bool)
        ensures
            !r ==> *final(registry) == *old(registry),
    {
        registry.navigate_tab(self.handle, 1)
    }

    /// Set the active tab by index.
    pub fn set_active(&self, registry: &mut RectRegistry, index: usize) -> (r: bool)
        ensures
            !r ==> *final(registry) == *old(registry),
    {
        registry.set_active_tab(self.handle, index)
    }

    /// Set the coloring state of one tab.
    pub fn set_tab_state(&self, registry: &mut RectRegistry, tab_index: usize, state: TabState)
        -> (r: bool)
        ensures
            !r ==> *final(registry) == *old(registry),
    {
        registry.set_tab_state(self.handle, tab_index, state)
    }
}

} // verus!
