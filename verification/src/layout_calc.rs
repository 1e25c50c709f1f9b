//! Area arithmetic for the split-panel layout.

use vstd::prelude::*;
use crate::registry::RectMetrics;
use crate::split_view::LayoutConstants;

verus! {

/// `a - b`, floored at zero.
pub open spec fn sat_sub(a: int, b: int) -> int {
    if a >= b {
        a - b
    } else {
        0
    }
}

/// `a + b`, capped at the type's maximum.
pub open spec fn sat_add_u16(a: int, b: int) -> int {
    if a + b > 0xffff {
        0xffff
    } else {
        a + b
    }
}

/// Computes the source and destination panel areas of the split view.
pub struct LayoutCalculator {
    constants: LayoutConstants,
}

impl LayoutCalculator {
    /// The constants the calculator was built with.
    pub closed spec fn spec_constants(self) -> LayoutConstants {
        self.constants
    }

    /// A calculator over the given constants.
    pub fn new(constants: LayoutConstants) -> (r: LayoutCalculator)
        ensures
            r.spec_constants() == constants,
    {
        LayoutCalculator { constants }
    }

    /// The source panel: inset by the border offset, half the width after
    /// subtracting the borders.
    pub fn calculate_source_area(&self, area: RectMetrics) -> (r: RectMetrics)
        requires
            self.spec_constants().valid(),
        ensures
            r.x == sat_add_u16(area.x as int, self.spec_constants().border_offset_spec() as int),
            r.y == sat_add_u16(area.y as int, self.spec_constants().border_offset_spec() as int),
            r.width == sat_sub(area.width as int, self.spec_constants().border_width_spec() as int)
                / self.spec_constants().split_ratio_spec() as int,
            r.height == sat_sub(
                area.height as int,
                self.spec_constants().border_width_spec() as int,
            ),
    {
        let off = self.constants.border_offset();
        let bw = self.constants.border_width();
        let ratio = self.constants.split_ratio();
        RectMetrics {
            x: if area.x <= u16::MAX - off {
                area.x + off
            } else {
                u16::MAX
            },
            y: if area.y <= u16::MAX - off {
                area.y + off
            } else {
                u16::MAX
            },
            width: (if area.width >= bw {
                area.width - bw
            } else {
                0
            }) / ratio,
            height: if area.height >= bw {
                area.height - bw
            } else {
                0
            },
        }
    }

    /// The destination panel: to the right of the source panel, the same
    /// height, half the parent width after subtracting the borders.
    pub fn calculate_dest_area(&self, source_area: RectMetrics, parent_width: u16) -> (r:
        RectMetrics)
        requires
            self.spec_constants().valid(),
        ensures
            r.x == sat_add_u16(
                sat_add_u16(source_area.x as int, source_area.width as int),
                self.spec_constants().border_offset_spec() as int,
            ),
            r.y == source_area.y,
            r.width == sat_sub(
                parent_width as int,
                self.spec_constants().border_width_spec() as int,
            ) / self.spec_constants().split_ratio_spec() as int,
            r.height == source_area.height,
    {
        let off = self.constants.border_offset();
        let bw = self.constants.border_width();
        let ratio = self.constants.split_ratio();
        let xw = if source_area.x <= u16::MAX - source_area.width {
            source_area.x + source_area.width
        } else {
            u16::MAX
        };
        RectMetrics {
            x: if xw <= u16::MAX - off {
                xw + off
            } else {
                u16::MAX
            },
            y: source_area.y,
            width: (if parent_width >= bw {
                parent_width - bw
            } else {
                0
            }) / ratio,
            height: source_area.height,
        }
    }

    /// How many rows fit inside the block borders.
    pub fn calculate_available_height(&self, area: RectMetrics) -> (r: usize)
        ensures
            r == sat_sub(area.height as int, self.spec_constants().border_width_spec() as int),
    {
        let bw = self.constants.border_width();
        (if area.height >= bw {
            area.height - bw
        } else {
            0
        }) as usize
    }

    /// The text width: the content width minus the gutter and the border
    /// offset.
    pub fn calculate_text_width(&self, content_width: u16, gutter_width: usize) -> (r: usize)
        ensures
            r == sat_sub(
                sat_sub(
                    content_width as int,
                    if gutter_width > 0xffff {
                        0xffff as int
                    } else {
                        gutter_width as int
                    },
                ),
                self.spec_constants().border_offset_spec() as int,
            ),
    {
        let gw: u16 = if gutter_width > 0xffff {
            0xffff
        } else {
            gutter_width as u16
        };
        let off = self.constants.border_offset();
        let a = if content_width >= gw {
            content_width - gw
        } else {
            0
        };
        (if a >= off {
            a - off
        } else {
            0
        }) as usize
    }
}

} // verus!
