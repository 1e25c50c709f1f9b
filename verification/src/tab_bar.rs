//! Tab bar data types and the parsing of their textual configuration.

use vstd::prelude::*;
use crate::registry::{AlignmentConfigData, TabState};
use crate::text::{lower_of, to_lowercase, str_eq};

verus! {

/// How the tab bar draws its tabs.
#[derive(Debug, Clone, Copy, PartialEq, Eq, Structural)]
pub enum TabBarStyle {
    /// Curved brackets around the active tab.
    Tab,
    /// Plain text with separators.
    Text,
    /// Square brackets around the active tab.
    Boxed,
    /// All tabs in brackets.
    BoxStatic,
    /// All tabs as plain text.
    TextStatic,
}

/// Horizontal placement of the tab row.
#[derive(Debug, Clone, Copy, PartialEq, Eq, Structural)]
pub enum TabBarAlignment {
    Left,
    Center,
    Right,
}

/// Whether the bar hangs on the top or bottom edge.
#[derive(Debug, Clone, Copy, PartialEq, Eq, Structural)]
pub enum VerticalPosition {
    Top,
    Bottom,
}

/// One tab as the renderer sees it.
#[derive(Debug, Clone)]
pub struct TabBarItem {
    pub name: String,
    pub active: bool,
    /// Coloring state, for state-based bars.
    pub state: Option<TabState>,
}

/// The screen area one tab occupies, for click detection.
#[derive(Debug, Clone, Copy, PartialEq, Eq, Structural)]
pub struct TabBounds {
    pub x: u16,
    pub y: u16,
    pub width: u16,
    pub height: u16,
}

impl TabBounds {
    /// Whether the coordinate falls inside this tab.
    pub fn contains(&self, x: u16, y: u16) -> (r: bool)
        ensures
            r == (self.x <= x && x < self.x + self.width && self.y <= y && y < self.y
                + self.height),
    {
        x >= self.x && (x as u32) < self.x as u32 + self.width as u32 && y >= self.y && (y as u32)
            < self.y as u32 + self.height as u32
    }
}

/// The style a configuration word names, after lowercasing; anything
/// unrecognized falls back to the curved style.
pub open spec fn style_of_spec(t: Seq<char>) -> TabBarStyle {
    if t == ("tabbed")@ || t == ("tab")@ {
        TabBarStyle::Tab
    } else if t == ("boxed")@ {
        TabBarStyle::Boxed
    } else if t == ("text")@ {
        TabBarStyle::Text
    } else if t == ("box_static")@ || t == ("boxstatic")@ {
        TabBarStyle::BoxStatic
    } else if t == ("text_static")@ || t == ("textstatic")@ {
        TabBarStyle::TextStatic
    } else {
        TabBarStyle::Tab
    }
}

impl TabBarStyle {
    /// Parse a style word, case-insensitively.
    pub fn from_str(style: &str) -> (r: TabBarStyle)
        ensures
            r == style_of_spec(lower_of(style@)),
    {
        let lowered = to_lowercase(style);
        let t = lowered.as_str();
        if str_eq(t, "tabbed") || str_eq(t, "tab") {
            TabBarStyle::Tab
        } else if str_eq(t, "boxed") {
            TabBarStyle::Boxed
        } else if str_eq(t, "text") {
            TabBarStyle::Text
        } else if str_eq(t, "box_static") || str_eq(t, "boxstatic") {
            TabBarStyle::BoxStatic
        } else if str_eq(t, "text_static") || str_eq(t, "textstatic") {
            TabBarStyle::TextStatic
        } else {
            TabBarStyle::Tab
        }
    }
}

/// A parsed alignment configuration.
#[derive(Debug, Clone, Copy, PartialEq, Eq, Structural)]
pub struct ParsedAlignment {
    pub vertical: VerticalPosition,
    pub horizontal: TabBarAlignment,
    pub offset_x: u16,
    pub offset_y: u16,
}

/// The vertical word's meaning: "bottom" hangs the bar below, anything
/// else keeps it on top.
pub open spec fn vertical_of_spec(t: Seq<char>) -> VerticalPosition {
    if t == ("bottom")@ {
        VerticalPosition::Bottom
    } else {
        VerticalPosition::Top
    }
}

/// The horizontal word's meaning: "left" and "right" place the row at
/// the edges, anything else centers it.
pub open spec fn horizontal_of_spec(t: Seq<char>) -> TabBarAlignment {
    if t == ("left")@ {
        TabBarAlignment::Left
    } else if t == ("right")@ {
        TabBarAlignment::Right
    } else {
        TabBarAlignment::Center
    }
}

/// Parse the alignment words of a stored configuration,
/// case-insensitively, keeping the offsets.
pub fn parse_alignment_from_config(alignment: &AlignmentConfigData) -> (r: ParsedAlignment)
    ensures
        r.vertical == vertical_of_spec(lower_of(alignment.vertical@)),
        r.horizontal == horizontal_of_spec(lower_of(alignment.horizontal@)),
        r.offset_x == alignment.offset_x,
        r.offset_y == alignment.offset_y,
{
    let v = to_lowercase(alignment.vertical.as_str());
    let vertical = if str_eq(v.as_str(), "bottom") {
        VerticalPosition::Bottom
    } else {
        VerticalPosition::Top
    };
    let h = to_lowercase(alignment.horizontal.as_str());
    let horizontal = if str_eq(h.as_str(), "left") {
        TabBarAlignment::Left
    } else if str_eq(h.as_str(), "right") {
        TabBarAlignment::Right
    } else {
        TabBarAlignment::Center
    };
    ParsedAlignment { vertical, horizontal, offset_x: alignment.offset_x, offset_y: alignment.offset_y }
}

} // verus!
