//! Modal popups: confirmations, input prompts, and message boxes.

use vstd::prelude::*;

verus! {

/// The kind and content of a popup.
#[derive(Debug, Clone)]
pub enum PopupType {
    /// A yes/no question; `selected` is 0 for yes, 1 for no.
    Confirm { title: String, message: String, selected: usize },
    /// A text input with a cursor.
    Input { title: String, prompt: String, input: String, cursor_pos: usize },
    /// An error message.
    Error { title: String, message: String },
    /// An informational message.
    Info { title: String, message: String },
    /// A warning message.
    Warning { title: String, message: String },
}

/// A popup and whether it is shown.
pub struct Popup {
    pub popup_type: PopupType,
    pub visible: bool,
}

impl Popup {
    /// A visible popup of the given kind.
    pub fn new(popup_type: PopupType) -> (r: Popup)
        ensures
            r.popup_type == popup_type,
            r.visible == true,
    {
        Popup { popup_type, visible: true }
    }

    /// A confirmation, defaulting to "no".
    pub fn confirm(title: String, message: String) -> (r: Popup)
        ensures
            r.popup_type == (PopupType::Confirm { title, message, selected: 1 }),
            r.visible == true,
    {
        Popup::new(PopupType::Confirm { title, message, selected: 1 })
    }

    /// An input prompt with the cursor at the start.
    pub fn input(title: String, prompt: String, initial: String) -> (r: Popup)
        ensures
            r.popup_type == (PopupType::Input { title, prompt, input: initial, cursor_pos: 0 }),
            r.visible == true,
    {
        Popup::new(PopupType::Input { title, prompt, input: initial, cursor_pos: 0 })
    }

    /// An error box.
    pub fn error(title: String, message: String) -> (r: Popup)
        ensures
            r.popup_type == (PopupType::Error { title, message }),
            r.visible == true,
    {
        Popup::new(PopupType::Error { title, message })
    }

    /// An information box.
    pub fn info(title: String, message: String) -> (r: Popup)
        ensures
            r.popup_type == (PopupType::Info { title, message }),
            r.visible == true,
    {
        Popup::new(PopupType::Info { title, message })
    }

    /// A warning box.
    pub fn warning(title: String, message: String) -> (r: Popup)
        ensures
            r.popup_type == (PopupType::Warning { title, message }),
            r.visible == true,
    {
        Popup::new(PopupType::Warning { title, message })
    }
}

} // verus!
