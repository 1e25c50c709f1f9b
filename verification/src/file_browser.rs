//! File browser state: the entry list, the selection and the scroll
//! window. Reading directories is the shell's job; it hands the sorted
//! listing in and receives the directory to descend into.

use vstd::prelude::*;
use crate::text::str_eq;

verus! {

/// One directory entry.
#[derive(Debug, Clone)]
pub struct FileEntry {
    pub name: String,
    /// Full path of the entry.
    pub path: String,
    pub is_dir: bool,
    pub size: u64,
}

/// Browser state over one directory listing.
pub struct FileBrowser {
    pub current_dir: String,
    pub entries: Vec<FileEntry>,
    pub selected_index: usize,
    pub scroll_offset: usize,
    pub visible_height: usize,
}

impl FileBrowser {
    /// The selection stays inside the entry list (or at zero for an
    /// empty one), and the scroll window shows it.
    pub open spec fn selection_ok(self) -> bool {
        &&& self.selected_index < self.entries@.len() || self.selected_index == 0
        &&& self.scroll_offset <= self.selected_index
    }

    /// An empty browser at the given directory; the shell loads the
    /// listing and hands it to `apply_listing`.
    pub fn new(initial_path: String) -> (r: FileBrowser)
        ensures
            r.current_dir == initial_path,
            r.entries@.len() == 0,
            r.selected_index == 0,
            r.scroll_offset == 0,
            r.selection_ok(),
    {
        FileBrowser {
            current_dir: initial_path,
            entries: Vec::new(),
            selected_index: 0,
            scroll_offset: 0,
            visible_height: 0,
        }
    }

    /// Keep the scroll window over the selection.
    pub fn adjust_scroll_to_selection(&mut self)
        ensures
            final(self).scroll_offset <= final(self).selected_index,
            final(self).selected_index == old(self).selected_index,
            final(self).entries == old(self).entries,
            final(self).current_dir == old(self).current_dir,
    {
        if self.visible_height == 0 {
            self.scroll_offset = self.selected_index;
        } else {
            if self.selected_index < self.scroll_offset {
                self.scroll_offset = self.selected_index;
            }
            if self.selected_index >= self.scroll_offset && self.selected_index
                - self.scroll_offset >= self.visible_height {
                self.scroll_offset = self.selected_index - (self.visible_height - 1);
            }
        }
    }

    /// Install a freshly loaded listing, selecting the entry named
    /// `focus_name` when it is present and the first entry otherwise.
    pub fn apply_listing(&mut self, entries: Vec<FileEntry>, focus_name: Option<&str>)
        ensures
            final(self).entries == entries,
            final(self).selection_ok(),
            final(self).current_dir == old(self).current_dir,
    {
        let mut sel: usize = 0;
        let mut found = false;
        if let Some(name) = focus_name {
            let mut k: usize = 0;
            while k < entries.len() && !found
                invariant
                    0 <= k <= entries@.len(),
                    found ==> sel < entries@.len(),
                    !found ==> sel == 0,
                decreases entries@.len() - k + (if found { 0int } else { 1int }),
            {
                if str_eq(entries[k].name.as_str(), name) {
                    sel = k;
                    found = true;
                } else {
                    k += 1;
                }
            }
        }
        self.entries = entries;
        self.selected_index = sel;
        self.scroll_offset = 0;
        self.adjust_scroll_to_selection();
    }

    /// Move the selection up one entry.
    pub fn move_up(&mut self)
        ensures
            final(self).selected_index == (if old(self).selected_index > 0 {
                old(self).selected_index - 1
            } else {
                0
            }),
            final(self).entries == old(self).entries,
            final(self).scroll_offset <= final(self).selected_index,
    {
        if self.selected_index > 0 {
            self.selected_index = self.selected_index - 1;
        }
        self.adjust_scroll_to_selection();
    }

    /// Move the selection down one entry.
    pub fn move_down(&mut self)
        ensures
            final(self).selected_index == (if old(self).selected_index + 1 < old(
                self,
            ).entries@.len() {
                old(self).selected_index + 1
            } else {
                old(self).selected_index as int
            }),
            final(self).entries == old(self).entries,
            final(self).scroll_offset <= final(self).selected_index,
    {
        if self.entries.len() > 0 && self.selected_index < self.entries.len() - 1 {
            self.selected_index = self.selected_index + 1;
        }
        self.adjust_scroll_to_selection();
    }

    /// Descend into the selected directory: the current directory moves
    /// there and the emptied listing waits for the shell to load it. The
    /// returned path names the directory to read; a selected plain file
    /// or an empty listing changes nothing.
    pub fn navigate_into(&mut self) -> (r: Option<String>)
        ensures
            match r {
                Some(p) => final(self).current_dir == p && old(self).selected_index < old(
                    self,
                ).entries@.len() && old(self).entries@[old(self).selected_index as int].is_dir,
                None => *final(self) == *old(self),
            },
    {
        if self.selected_index < self.entries.len() {
            if self.entries[self.selected_index].is_dir {
                let path = self.entries[self.selected_index].path.clone();
                self.current_dir = path.clone();
                self.entries = Vec::new();
                self.selected_index = 0;
                self.scroll_offset = 0;
                return Some(path);
            }
        }
        None
    }

    /// Step to the parent directory, handing the shell the parent path
    /// it should load; the listing empties until then.
    pub fn navigate_parent(&mut self, parent: String) -> (r: Option<String>)
        ensures
            r matches Some(p) && p == parent,
            final(self).current_dir == parent,
            final(self).entries@.len() == 0,
    {
        self.current_dir = parent.clone();
        self.entries = Vec::new();
        self.selected_index = 0;
        self.scroll_offset = 0;
        Some(parent)
    }
}

} // verus!
