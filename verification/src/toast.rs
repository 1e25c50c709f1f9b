//! Toast notifications: short messages stamped with the time they were
//! shown.

use vstd::prelude::*;

verus! {

/// The flavor of a toast.
#[derive(Debug, Clone, Copy, PartialEq, Eq, Structural)]
pub enum ToastType {
    Success,
    Error,
    Info,
}

/// A toast message; `shown_at` holds milliseconds since the Unix epoch
/// so age checks survive serialization of the state.
#[derive(Debug, Clone)]
pub struct Toast {
    pub message: String,
    pub toast_type: ToastType,
    pub shown_at: u64,
}

impl Toast {
    /// A toast of the given flavor, stamped now.
    pub fn new(message: String, toast_type: ToastType) -> (r: Toast)
        ensures
            r.message == message,
            r.toast_type == toast_type,
    {
        Toast { message, toast_type, shown_at: crate::clock::now_millis() }
    }

    /// A success toast.
    pub fn success(message: String) -> (r: Toast)
        ensures
            r.message == message,
            r.toast_type == ToastType::Success,
    {
        Toast::new(message, ToastType::Success)
    }

    /// An error toast.
    pub fn error(message: String) -> (r: Toast)
        ensures
            r.message == message,
            r.toast_type == ToastType::Error,
    {
        Toast::new(message, ToastType::Error)
    }

    /// An informational toast.
    pub fn info(message: String) -> (r: Toast)
        ensures
            r.message == message,
            r.toast_type == ToastType::Info,
    {
        Toast::new(message, ToastType::Info)
    }
}

} // verus!
