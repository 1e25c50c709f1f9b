//! The shape of the application's configuration file: title, bindings,
//! status bar, and the tab bars. The shell parses the file and fills
//! these records.

use vstd::prelude::*;
use crate::tab_manager::TabBarConfigYaml;

verus! {

/// One key binding, as configured.
#[derive(Debug, Clone)]
pub struct BindingConfigYaml {
    pub key: String,
    pub description: String,
}

/// The status bar texts, as configured.
#[derive(Debug, Clone)]
pub struct StatusBarConfigYaml {
    pub default_text: String,
    pub modal_text: Option<String>,
}

/// The application section of the configuration file.
#[derive(Debug, Clone)]
pub struct ApplicationConfig {
    pub title: String,
    pub bindings: Vec<BindingConfigYaml>,
    pub status_bar: StatusBarConfigYaml,
}

/// The whole configuration file: the application section plus the named
/// tab bars.
#[derive(Debug, Clone)]
pub struct AppConfig {
    pub application: ApplicationConfig,
    /// Tab bars by name.
    pub tab_bars: Vec<(String, TabBarConfigYaml)>,
}

} // verus!
