//! Main application state: the two diff lists, the selection in each,
//! the view toggles and the cached diff content. Reading files and
//! walking directories happens in the shell, which hands the results in
//! as plain values.

use vstd::prelude::*;
use crate::app_config::AppConfig;
use crate::project_config::ProjectConfig;
use crate::ops::DiffEntry;

verus! {

/// Which direction the interface is looking at.
#[derive(Debug, Clone, Copy, PartialEq, Eq, Structural)]
pub enum ViewMode {
    /// Changes flowing from the shared copy to the project.
    SharedToProject,
    /// Changes flowing from the project to the shared copy.
    ProjectToShared,
}

/// The application's state.
pub struct App {
    /// Built-in defaults.
    pub config: AppConfig,
    /// The loaded project configuration, when one was found.
    pub project_config: Option<ProjectConfig>,
    /// The workspace root path.
    pub workspace_root: String,
    pub view_mode: ViewMode,
    pub shared_to_project_diffs: Vec<DiffEntry>,
    pub project_to_shared_diffs: Vec<DiffEntry>,
    pub shared_to_project_index: usize,
    pub project_to_shared_index: usize,
    pub show_side_by_side: bool,
    pub fold_unchanged: bool,
    pub diff_scroll_offset: usize,
    /// The cached unified diff for the current selection.
    pub cached_diff_content: Option<String>,
    /// Which file the cache belongs to.
    pub cached_diff_path: Option<String>,
    /// The source lines of the side-by-side view.
    pub side_by_side_source: Option<Vec<String>>,
    /// The destination lines of the side-by-side view.
    pub side_by_side_dest: Option<Vec<String>>,
    pub should_quit: bool,
}

impl App {
    /// The diff list the current view mode looks at.
    pub open spec fn spec_current_diffs(self) -> Seq<DiffEntry> {
        match self.view_mode {
            ViewMode::SharedToProject => self.shared_to_project_diffs@,
            ViewMode::ProjectToShared => self.project_to_shared_diffs@,
        }
    }

    /// The selected index in the current view mode.
    pub open spec fn spec_current_index(self) -> usize {
        match self.view_mode {
            ViewMode::SharedToProject => self.shared_to_project_index,
            ViewMode::ProjectToShared => self.project_to_shared_index,
        }
    }

    /// A fresh application over the detected workspace root and the
    /// loaded project configuration; the shell loads both and refreshes
    /// the diff lists afterwards.
    pub fn new(workspace_root: String, project_config: Option<ProjectConfig>, config: AppConfig)
        -> (r: App)
        ensures
            r.workspace_root == workspace_root,
            r.project_config == project_config,
            r.view_mode == ViewMode::SharedToProject,
            r.spec_current_diffs().len() == 0,
            r.fold_unchanged == true,
            r.should_quit == false,
    {
        App {
            config,
            project_config,
            workspace_root,
            view_mode: ViewMode::SharedToProject,
            shared_to_project_diffs: Vec::new(),
            project_to_shared_diffs: Vec::new(),
            shared_to_project_index: 0,
            project_to_shared_index: 0,
            show_side_by_side: false,
            fold_unchanged: true,
            diff_scroll_offset: 0,
            cached_diff_content: None,
            cached_diff_path: None,
            side_by_side_source: None,
            side_by_side_dest: None,
            should_quit: false,
        }
    }

    /// The selected diff entry, when one exists.
    pub fn selected_diff(&self) -> (r: Option<&DiffEntry>)
        ensures
            match r {
                Some(d) => self.spec_current_index() < self.spec_current_diffs().len() && *d
                    == self.spec_current_diffs()[self.spec_current_index() as int],
                None => self.spec_current_index() >= self.spec_current_diffs().len(),
            },
    {
        match self.view_mode {
            ViewMode::SharedToProject => {
                if self.shared_to_project_index < self.shared_to_project_diffs.len() {
                    Some(&self.shared_to_project_diffs[self.shared_to_project_index])
                } else {
                    None
                }
            },
            ViewMode::ProjectToShared => {
                if self.project_to_shared_index < self.project_to_shared_diffs.len() {
                    Some(&self.project_to_shared_diffs[self.project_to_shared_index])
                } else {
                    None
                }
            },
        }
    }

    /// The diff list of the current view mode.
    pub fn current_diffs(&self) -> (r: &Vec<DiffEntry>)
        ensures
            r@ == self.spec_current_diffs(),
    {
        match self.view_mode {
            ViewMode::SharedToProject => &self.shared_to_project_diffs,
            ViewMode::ProjectToShared => &self.project_to_shared_diffs,
        }
    }

    /// The selected index of the current view mode.
    pub fn current_index(&self) -> (r: usize)
        ensures
            r == self.spec_current_index(),
    {
        match self.view_mode {
            ViewMode::SharedToProject => self.shared_to_project_index,
            ViewMode::ProjectToShared => self.project_to_shared_index,
        }
    }

    /// Move the selection of the current view mode; nothing else
    /// changes.
    pub fn set_current_index(&mut self, index: usize)
        ensures
            final(self).spec_current_index() == index,
            final(self).view_mode == old(self).view_mode,
            final(self).spec_current_diffs() == old(self).spec_current_diffs(),
            final(self).shared_to_project_diffs == old(self).shared_to_project_diffs,
            final(self).project_to_shared_diffs == old(self).project_to_shared_diffs,
            old(self).view_mode == ViewMode::SharedToProject
                ==> final(self).project_to_shared_index == old(self).project_to_shared_index,
            old(self).view_mode == ViewMode::ProjectToShared
                ==> final(self).shared_to_project_index == old(self).shared_to_project_index,
            final(self).cached_diff_content == old(self).cached_diff_content,
            final(self).cached_diff_path == old(self).cached_diff_path,
            final(self).show_side_by_side == old(self).show_side_by_side,
            final(self).fold_unchanged == old(self).fold_unchanged,
            final(self).diff_scroll_offset == old(self).diff_scroll_offset,
            final(self).side_by_side_source == old(self).side_by_side_source,
            final(self).side_by_side_dest == old(self).side_by_side_dest,
            final(self).should_quit == old(self).should_quit,
            final(self).config == old(self).config,
            final(self).project_config == old(self).project_config,
            final(self).workspace_root == old(self).workspace_root,
    {
        match self.view_mode {
            ViewMode::SharedToProject => {
                self.shared_to_project_index = index;
            },
            ViewMode::ProjectToShared => {
                self.project_to_shared_index = index;
            },
        }
    }

    /// Drop the cached diff and the side-by-side view.
    pub fn clear_diff_cache(&mut self)
        ensures
            final(self).cached_diff_content is None,
            final(self).cached_diff_path is None,
            final(self).show_side_by_side == false,
            final(self).side_by_side_source is None,
            final(self).side_by_side_dest is None,
            final(self).diff_scroll_offset == 0,
            final(self).view_mode == old(self).view_mode,
            final(self).shared_to_project_diffs == old(self).shared_to_project_diffs,
            final(self).project_to_shared_diffs == old(self).project_to_shared_diffs,
            final(self).shared_to_project_index == old(self).shared_to_project_index,
            final(self).project_to_shared_index == old(self).project_to_shared_index,
            final(self).spec_current_diffs() == old(self).spec_current_diffs(),
            final(self).spec_current_index() == old(self).spec_current_index(),
            final(self).fold_unchanged == old(self).fold_unchanged,
            final(self).should_quit == old(self).should_quit,
            final(self).config == old(self).config,
            final(self).project_config == old(self).project_config,
            final(self).workspace_root == old(self).workspace_root,
    {
        self.cached_diff_content = None;
        self.cached_diff_path = None;
        self.show_side_by_side = false;
        self.side_by_side_source = None;
        self.side_by_side_dest = None;
        self.diff_scroll_offset = 0;
    }

    /// Step the selection up; movement drops the cache, standing still
    /// changes nothing.
    pub fn select_previous(&mut self)
        ensures
            final(self).spec_current_index() == (if old(self).spec_current_index() > 0 {
                old(self).spec_current_index() - 1
            } else {
                0
            }),
            final(self).view_mode == old(self).view_mode,
            final(self).spec_current_diffs() == old(self).spec_current_diffs(),
            final(self).shared_to_project_diffs == old(self).shared_to_project_diffs,
            final(self).project_to_shared_diffs == old(self).project_to_shared_diffs,
            old(self).view_mode == ViewMode::SharedToProject
                ==> final(self).project_to_shared_index == old(self).project_to_shared_index,
            old(self).view_mode == ViewMode::ProjectToShared
                ==> final(self).shared_to_project_index == old(self).shared_to_project_index,
            old(self).spec_current_index() > 0 ==> final(self).cached_diff_content is None
                && final(self).show_side_by_side == false && final(self).diff_scroll_offset == 0,
            old(self).spec_current_index() == 0 ==> *final(self) == *old(self),
    {
        let index = self.current_index();
        if index > 0 {
            self.set_current_index(index - 1);
            self.clear_diff_cache();
        }
    }

    /// Step the selection down; movement drops the cache, standing
    /// still changes nothing.
    pub fn select_next(&mut self)
        ensures
            final(self).spec_current_index() == (if old(self).spec_current_index() + 1
                < old(self).spec_current_diffs().len() {
                old(self).spec_current_index() + 1
            } else {
                old(self).spec_current_index() as int
            }),
            final(self).view_mode == old(self).view_mode,
            final(self).spec_current_diffs() == old(self).spec_current_diffs(),
            final(self).shared_to_project_diffs == old(self).shared_to_project_diffs,
            final(self).project_to_shared_diffs == old(self).project_to_shared_diffs,
            old(self).view_mode == ViewMode::SharedToProject
                ==> final(self).project_to_shared_index == old(self).project_to_shared_index,
            old(self).view_mode == ViewMode::ProjectToShared
                ==> final(self).shared_to_project_index == old(self).shared_to_project_index,
            old(self).spec_current_index() + 1 < old(self).spec_current_diffs().len()
                ==> final(self).cached_diff_content is None && final(self).show_side_by_side
                == false && final(self).diff_scroll_offset == 0,
            old(self).spec_current_index() + 1 >= old(self).spec_current_diffs().len()
                ==> *final(self) == *old(self),
    {
        let index = self.current_index();
        let len = self.current_diffs().len();
        if len > 0 && index < len - 1 {
            self.set_current_index(index + 1);
            self.clear_diff_cache();
        }
    }

    /// Flip between the two view modes, dropping the cache.
    pub fn toggle_view_mode(&mut self)
        ensures
            final(self).view_mode == (match old(self).view_mode {
                ViewMode::SharedToProject => ViewMode::ProjectToShared,
                ViewMode::ProjectToShared => ViewMode::SharedToProject,
            }),
            final(self).cached_diff_content is None,
            final(self).show_side_by_side == false,
    {
        self.view_mode = match self.view_mode {
            ViewMode::SharedToProject => ViewMode::ProjectToShared,
            ViewMode::ProjectToShared => ViewMode::SharedToProject,
        };
        self.clear_diff_cache();
    }

    /// Flip the side-by-side view; the shell reads the two files and
    /// hands their lines in, or nothing when the view turns off or a
    /// file could not be read.
    pub fn toggle_side_by_side(
        &mut self,
        source: Option<Vec<String>>,
        dest: Option<Vec<String>>,
    )
        ensures
            final(self).show_side_by_side == !old(self).show_side_by_side,
            final(self).diff_scroll_offset == 0,
            final(self).show_side_by_side ==> final(self).side_by_side_source == source
                && final(self).side_by_side_dest == dest,
            !final(self).show_side_by_side ==> final(self).side_by_side_source is None
                && final(self).side_by_side_dest is None,
    {
        self.show_side_by_side = !self.show_side_by_side;
        if self.show_side_by_side {
            self.side_by_side_source = source;
            self.side_by_side_dest = dest;
        } else {
            self.side_by_side_source = None;
            self.side_by_side_dest = None;
        }
        self.diff_scroll_offset = 0;
    }

    /// Flip folding, only while the side-by-side view is up.
    pub fn toggle_fold(&mut self)
        ensures
            old(self).show_side_by_side ==> final(self).fold_unchanged == !old(
                self,
            ).fold_unchanged && final(self).diff_scroll_offset == 0,
            !old(self).show_side_by_side ==> *final(self) == *old(self),
    {
        if self.show_side_by_side {
            self.fold_unchanged = !self.fold_unchanged;
            self.diff_scroll_offset = 0;
        }
    }

    /// Scroll the diff view up.
    pub fn scroll_up(&mut self, amount: usize)
        ensures
            final(self).diff_scroll_offset == (if old(self).diff_scroll_offset >= amount {
                old(self).diff_scroll_offset - amount
            } else {
                0
            }),
    {
        if self.diff_scroll_offset >= amount {
            self.diff_scroll_offset = self.diff_scroll_offset - amount;
        } else {
            self.diff_scroll_offset = 0;
        }
    }

    /// Scroll the diff view down, saturating; the formatter clamps the
    /// offset to the row count.
    pub fn scroll_down(&mut self, amount: usize)
        ensures
            final(self).diff_scroll_offset == (if old(self).diff_scroll_offset + amount
                <= usize::MAX {
                old(self).diff_scroll_offset + amount
            } else {
                usize::MAX as int
            }),
    {
        if self.diff_scroll_offset <= usize::MAX - amount {
            self.diff_scroll_offset = self.diff_scroll_offset + amount;
        } else {
            self.diff_scroll_offset = usize::MAX;
        }
    }

    /// Install freshly computed diff lists, clamping both selections
    /// back to the start when they fell off the end, and dropping the
    /// cache.
    pub fn refresh_diffs(
        &mut self,
        shared_to_project: Vec<DiffEntry>,
        project_to_shared: Vec<DiffEntry>,
    )
        ensures
            final(self).shared_to_project_diffs == shared_to_project,
            final(self).project_to_shared_diffs == project_to_shared,
            final(self).shared_to_project_index < shared_to_project@.len()
                || final(self).shared_to_project_index == 0,
            final(self).project_to_shared_index < project_to_shared@.len()
                || final(self).project_to_shared_index == 0,
            final(self).cached_diff_content is None,
    {
        self.shared_to_project_diffs = shared_to_project;
        self.project_to_shared_diffs = project_to_shared;
        if self.shared_to_project_index >= self.shared_to_project_diffs.len() {
            self.shared_to_project_index = 0;
        }
        if self.project_to_shared_index >= self.project_to_shared_diffs.len() {
            self.project_to_shared_index = 0;
        }
        self.clear_diff_cache();
    }

    /// Ask the application to quit.
    pub fn quit(&mut self)
        ensures
            final(self).should_quit == true,
    {
        self.should_quit = true;
    }
}

} // verus!
