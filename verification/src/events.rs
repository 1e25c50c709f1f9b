//! Application events. The terminal's raw key and mouse events are
//! translated into these by the shell; the application logic only sees
//! this enum.

use vstd::prelude::*;

verus! {

/// What the application is asked to do.
#[derive(Debug, Clone, Copy, PartialEq, Eq, Structural)]
pub enum AppEvent {
    /// Quit the application.
    Quit,
    /// Move the selection up.
    SelectPrevious,
    /// Move the selection down.
    SelectNext,
    /// Toggle between the two view modes.
    ToggleViewMode,
    /// Toggle the side-by-side diff view.
    ToggleSideBySide,
    /// Toggle folding of unchanged regions.
    ToggleFold,
    /// Scroll up by the given number of rows.
    ScrollUp(usize),
    /// Scroll down by the given number of rows.
    ScrollDown(usize),
    /// Page up.
    PageUp,
    /// Page down.
    PageDown,
    /// Leave the current mode.
    Back,
    /// Reload the data.
    Refresh,
    /// Sync the selected file.
    SyncSelected,
    /// Sync every file.
    SyncAll,
    /// Nothing to do.
    NoOp,
}

/// Marker for the shell's event translation; the translation itself
/// reads terminal events and lives with the terminal code.
pub struct EventHandler;

} // verus!
