//! Dashboard state: the status line and a bounded scrollback of output
//! lines with auto-scroll.

use vstd::prelude::*;

verus! {

/// At most this many output lines stay in memory.
pub const MAX_OUTPUT_LINES: usize = 1000;

/// Sentinel asking the renderer to scroll to the bottom; the renderer
/// replaces it once it knows the visible height.
pub const SCROLL_TO_BOTTOM: usize = usize::MAX;

/// The dashboard's mutable state.
#[derive(Debug)]
pub struct DashboardState {
    pub status_text: String,
    pub output_lines: Vec<String>,
    pub output_scroll: usize,
    /// While set, new lines scroll the view to the bottom.
    pub auto_scroll_enabled: bool,
}

impl DashboardState {
    /// A fresh dashboard: ready, empty, auto-scrolling.
    pub fn new() -> (r: DashboardState)
        ensures
            r.output_lines@.len() == 0,
            r.output_scroll == 0,
            r.auto_scroll_enabled == true,
    {
        proof {
            reveal_strlit("Ready");
        }
        DashboardState {
            status_text: ("Ready").to_owned(),
            output_lines: Vec::new(),
            output_scroll: 0,
            auto_scroll_enabled: true,
        }
    }

    /// Scroll the output up; manual scrolling switches auto-scroll off.
    pub fn scroll_output_up(&mut self, amount: usize)
        ensures
            final(self).auto_scroll_enabled == false,
            final(self).output_lines == old(self).output_lines,
            final(self).output_scroll == (if old(self).output_scroll > 0 && old(
                self,
            ).output_scroll != SCROLL_TO_BOTTOM {
                if old(self).output_scroll >= amount {
                    old(self).output_scroll - amount
                } else {
                    0
                }
            } else {
                old(self).output_scroll as int
            }),
    {
        self.auto_scroll_enabled = false;
        if self.output_scroll > 0 && self.output_scroll != SCROLL_TO_BOTTOM {
            if self.output_scroll >= amount {
                self.output_scroll = self.output_scroll - amount;
            } else {
                self.output_scroll = 0;
            }
        }
    }

    /// Scroll the output down, against a conservative bound of one line
    /// visible; manual scrolling switches auto-scroll off.
    pub fn scroll_output_down(&mut self, amount: usize)
        ensures
            final(self).auto_scroll_enabled == false,
            final(self).output_lines == old(self).output_lines,
            old(self).output_lines@.len() == 0 ==> final(self).output_scroll == old(
                self,
            ).output_scroll,
            old(self).output_lines@.len() > 0 ==> final(self).output_scroll <= old(
                self,
            ).output_lines@.len() - 1 || final(self).output_scroll == old(self).output_scroll,
    {
        self.auto_scroll_enabled = false;
        let total_lines = self.output_lines.len();
        if total_lines > 0 {
            let estimated_max = total_lines - 1;
            let current_scroll = if self.output_scroll == SCROLL_TO_BOTTOM {
                0
            } else {
                self.output_scroll
            };
            if current_scroll < estimated_max {
                let bumped = if current_scroll <= usize::MAX - amount {
                    current_scroll + amount
                } else {
                    usize::MAX
                };
                self.output_scroll = if bumped < estimated_max {
                    bumped
                } else {
                    estimated_max
                };
            } else if self.output_scroll == SCROLL_TO_BOTTOM {
                self.output_scroll = current_scroll;
            }
        }
    }

    /// Scroll so the last lines fill the given height.
    pub fn scroll_to_bottom(&mut self, visible_height: usize)
        ensures
            final(self).output_lines == old(self).output_lines,
            final(self).output_scroll == (if old(self).output_lines@.len() > visible_height {
                old(self).output_lines@.len() - visible_height
            } else {
                0
            }),
    {
        if self.output_lines.len() == 0 {
            self.output_scroll = 0;
            return ;
        }
        let total_lines = self.output_lines.len();
        self.output_scroll = if total_lines > visible_height {
            total_lines - visible_height
        } else {
            0
        };
    }

    /// Append an output line, dropping the oldest lines beyond the
    /// limit and pulling a manual scroll position back by the number
    /// dropped; with auto-scroll on, the scroll marks the bottom.
    pub fn add_output_line(&mut self, line: String)
        ensures
            final(self).output_lines@.len() <= MAX_OUTPUT_LINES,
            final(self).output_lines@.len() > 0,
            final(self).output_lines@.last() == line,
            final(self).output_lines@ == (if old(self).output_lines@.len() + 1
                > MAX_OUTPUT_LINES {
                old(self).output_lines@.push(line).skip(
                    old(self).output_lines@.len() + 1 - MAX_OUTPUT_LINES,
                )
            } else {
                old(self).output_lines@.push(line)
            }),
            old(self).auto_scroll_enabled ==> final(self).output_scroll == SCROLL_TO_BOTTOM,
            !old(self).auto_scroll_enabled ==> final(self).output_scroll == (if old(
                self,
            ).output_lines@.len() + 1 > MAX_OUTPUT_LINES && old(self).output_scroll
                != SCROLL_TO_BOTTOM {
                if old(self).output_scroll >= old(self).output_lines@.len() + 1
                    - MAX_OUTPUT_LINES {
                    old(self).output_scroll - (old(self).output_lines@.len() + 1
                        - MAX_OUTPUT_LINES)
                } else {
                    0
                }
            } else {
                old(self).output_scroll as int
            }),
            final(self).auto_scroll_enabled == old(self).auto_scroll_enabled,
            final(self).status_text == old(self).status_text,
    {
        self.output_lines.push(line);
        if self.output_lines.len() > MAX_OUTPUT_LINES {
            let remove_count = self.output_lines.len() - MAX_OUTPUT_LINES;
            let ghost pre = self.output_lines@;
            let mut kept = self.output_lines.split_off(remove_count);
            self.output_lines = kept;
            proof {
                assert(self.output_lines@.len() == MAX_OUTPUT_LINES);
                assert(self.output_lines@.last() == pre.last());
            }
            if self.output_scroll != SCROLL_TO_BOTTOM {
                if self.output_scroll >= remove_count {
                    self.output_scroll = self.output_scroll - remove_count;
                } else {
                    self.output_scroll = 0;
                }
            }
        }
        if self.auto_scroll_enabled {
            self.output_scroll = SCROLL_TO_BOTTOM;
        }
    }

    /// Replace the status text.
    pub fn set_status_text(&mut self, text: &str)
        ensures
            final(self).status_text@ == text@,
            final(self).output_lines == old(self).output_lines,
            final(self).output_scroll == old(self).output_scroll,
    {
        self.status_text = text.to_owned();
    }
}

} // verus!
