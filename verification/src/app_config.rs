//! Built-in application defaults: display settings, sync behavior and
//! the global exclude patterns.

use vstd::prelude::*;

verus! {

/// Display settings.
#[derive(Debug, Clone)]
pub struct UiSettings {
    /// Show line numbers in diff views.
    pub show_line_numbers: bool,
    /// Enable syntax highlighting.
    pub syntax_highlighting: bool,
    /// Context lines around changes.
    pub context_lines: usize,
    /// Enable mouse support.
    pub mouse_enabled: bool,
    /// Theme name.
    pub theme: String,
}

/// Default sync behavior.
#[derive(Debug, Clone)]
pub struct DefaultSettings {
    /// "both", "to_project", or "to_shared".
    pub sync_direction: String,
    /// "prompt", "newer", "source", or "destination".
    pub conflict_resolution: String,
    /// Keep syncing when a single file fails.
    pub continue_on_error: bool,
    /// Back files up before overwriting.
    pub create_backups: bool,
}

/// The application's built-in configuration.
#[derive(Debug, Clone)]
pub struct AppConfig {
    pub ui: UiSettings,
    pub defaults: DefaultSettings,
    /// Patterns excluded from every sync.
    pub global_excludes: Vec<String>,
}

impl Default for UiSettings {
    /// Line numbers on, highlighting off, three context lines, mouse on.
    fn default() -> (r: UiSettings)
        ensures
            r.show_line_numbers == true,
            r.syntax_highlighting == false,
            r.context_lines == 3,
            r.mouse_enabled == true,
    {
        UiSettings {
            show_line_numbers: true,
            syntax_highlighting: false,
            context_lines: 3,
            mouse_enabled: true,
            theme: ("default").to_owned(),
        }
    }
}

impl Default for DefaultSettings {
    /// Sync both ways, prompt on conflicts, keep going on errors, back
    /// up before overwriting.
    fn default() -> (r: DefaultSettings)
        ensures
            r.continue_on_error == true,
            r.create_backups == true,
    {
        DefaultSettings {
            sync_direction: ("both").to_owned(),
            conflict_resolution: ("prompt").to_owned(),
            continue_on_error: true,
            create_backups: true,
        }
    }
}

impl Default for AppConfig {
    /// Default settings with the standard exclude patterns.
    fn default() -> (r: AppConfig)
        ensures
            r.ui.context_lines == 3,
            r.defaults.continue_on_error == true,
            r.global_excludes@.len() == 11,
    {
        let mut global_excludes: Vec<String> = Vec::new();
        global_excludes.push((".git").to_owned());
        global_excludes.push(("__pycache__").to_owned());
        global_excludes.push(("node_modules").to_owned());
        global_excludes.push(("target").to_owned());
        global_excludes.push((".DS_Store").to_owned());
        global_excludes.push(("Thumbs.db").to_owned());
        global_excludes.push(("*.swp").to_owned());
        global_excludes.push(("*.swo").to_owned());
        global_excludes.push(("*~").to_owned());
        global_excludes.push((".idea").to_owned());
        global_excludes.push((".vscode").to_owned());
        AppConfig {
            ui: UiSettings {
                show_line_numbers: true,
                syntax_highlighting: false,
                context_lines: 3,
                mouse_enabled: true,
                theme: ("default").to_owned(),
            },
            defaults: DefaultSettings {
                sync_direction: ("both").to_owned(),
                conflict_resolution: ("prompt").to_owned(),
                continue_on_error: true,
                create_backups: true,
            },
            global_excludes,
        }
    }
}

} // verus!
