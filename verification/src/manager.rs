//! Object-style manager for the split diff view: owns the configuration
//! and state, registers a handle for the view area, and drives the
//! alignment and formatting engine.

use vstd::prelude::*;
use crate::registry::{RectHandle, RectRegistry, RectMetrics};
use crate::split_view::{SplitDiffViewConfig, SplitDiffViewState};
use crate::format::{SplitDiffRenderData, compute_render_data_static, markers_paired,
    manager_render_ok, full_rows_ok, clipped_from};
use crate::diff::{align_lines, alignment_ok, line_views, lemma_seq_lens_le, LineAlignment};
use crate::row::DisplayRow;

verus! {

/// Manager owning one split diff view's configuration and state.
pub struct SplitDiffManager {
    handle: RectHandle,
    handle_name: String,
    config: SplitDiffViewConfig,
    state: SplitDiffViewState,
}

impl SplitDiffManager {
    /// The wrapped handle.
    pub closed spec fn spec_handle(self) -> RectHandle {
        self.handle
    }

    /// The handle name.
    pub closed spec fn spec_handle_name(self) -> Seq<char> {
        self.handle_name@
    }

    /// The view state.
    pub closed spec fn spec_state(self) -> SplitDiffViewState {
        self.state
    }

    /// The view configuration.
    pub closed spec fn spec_config(self) -> SplitDiffViewConfig {
        self.config
    }

    /// Register the view's handle and build a manager around the given
    /// configuration.
    pub fn create(registry: &mut RectRegistry, handle_name: &str, config: SplitDiffViewConfig)
        -> (r: SplitDiffManager)
        ensures
            r.spec_handle_name() == handle_name@,
            r.spec_state().scroll_offset == 0,
            r.spec_state().fold_unchanged == true,
    {
        let handle = registry.register(
            Some(handle_name),
            RectMetrics { x: 0, y: 0, width: 0, height: 0 },
        );
        SplitDiffManager {
            handle,
            handle_name: handle_name.to_owned(),
            config,
            state: SplitDiffViewState::default_state(),
        }
    }

    /// The handle (object identifier).
    pub fn handle(&self) -> (r: RectHandle)
        ensures
            r == self.spec_handle(),
    {
        self.handle
    }

    /// The handle name.
    pub fn handle_name(&self) -> (r: &str)
        ensures
            r@ == self.spec_handle_name(),
    {
        self.handle_name.as_str()
    }

    /// The configuration.
    pub fn config(&self) -> (r: &SplitDiffViewConfig)
        ensures
            *r == self.spec_config(),
    {
        &self.config
    }

    /// The configuration, for updating.
    pub fn config_mut(&mut self) -> (r: &mut SplitDiffViewConfig)
        ensures
            *r == old(self).spec_config(),
            final(self).spec_config() == *final(r),
            final(self).spec_state() == old(self).spec_state(),
            final(self).spec_handle() == old(self).spec_handle(),
            final(self).spec_handle_name() == old(self).spec_handle_name(),
    {
        &mut self.config
    }

    /// The state.
    pub fn state(&self) -> (r: &SplitDiffViewState)
        ensures
            *r == self.spec_state(),
    {
        &self.state
    }

    /// The state, for updating.
    pub fn state_mut(&mut self) -> (r: &mut SplitDiffViewState)
        ensures
            *r == old(self).spec_state(),
            final(self).spec_state() == *final(r),
            final(self).spec_config() == old(self).spec_config(),
            final(self).spec_handle() == old(self).spec_handle(),
            final(self).spec_handle_name() == old(self).spec_handle_name(),
    {
        &mut self.state
    }

    /// Jump the scroll offset; nothing else changes.
    pub fn set_scroll_offset(&mut self, offset: usize)
        ensures
            final(self).spec_state().scroll_offset == offset,
            final(self).spec_state().fold_unchanged == old(self).spec_state().fold_unchanged,
            final(self).spec_state().cached_gutter_width == old(
                self,
            ).spec_state().cached_gutter_width,
            final(self).spec_config() == old(self).spec_config(),
            final(self).spec_handle() == old(self).spec_handle(),
            final(self).spec_handle_name() == old(self).spec_handle_name(),
    {
        self.state.scroll_offset = offset;
    }

    /// Switch folding of unchanged regions on or off; nothing else
    /// changes.
    pub fn set_fold_unchanged(&mut self, fold: bool)
        ensures
            final(self).spec_state().fold_unchanged == fold,
            final(self).spec_state().scroll_offset == old(self).spec_state().scroll_offset,
            final(self).spec_state().cached_gutter_width == old(
                self,
            ).spec_state().cached_gutter_width,
            final(self).spec_config() == old(self).spec_config(),
            final(self).spec_handle() == old(self).spec_handle(),
            final(self).spec_handle_name() == old(self).spec_handle_name(),
    {
        self.state.fold_unchanged = fold;
    }

    /// Scroll up by `lines`, stopping at the top; nothing else changes.
    pub fn scroll_up(&mut self, lines: usize)
        ensures
            final(self).spec_state().scroll_offset == (if old(self).spec_state().scroll_offset
                >= lines {
                old(self).spec_state().scroll_offset - lines
            } else {
                0
            }),
            final(self).spec_state().fold_unchanged == old(self).spec_state().fold_unchanged,
            final(self).spec_state().cached_gutter_width == old(
                self,
            ).spec_state().cached_gutter_width,
            final(self).spec_config() == old(self).spec_config(),
            final(self).spec_handle() == old(self).spec_handle(),
            final(self).spec_handle_name() == old(self).spec_handle_name(),
    {
        if self.state.scroll_offset >= lines {
            self.state.scroll_offset = self.state.scroll_offset - lines;
        } else {
            self.state.scroll_offset = 0;
        }
    }

    /// Scroll down by `lines`, saturating at the type's maximum; the
    /// formatter clamps the offset to the row count; nothing else
    /// changes.
    pub fn scroll_down(&mut self, lines: usize)
        ensures
            final(self).spec_state().scroll_offset == (if old(self).spec_state().scroll_offset
                + lines <= usize::MAX {
                old(self).spec_state().scroll_offset + lines
            } else {
                usize::MAX as int
            }),
            final(self).spec_state().fold_unchanged == old(self).spec_state().fold_unchanged,
            final(self).spec_state().cached_gutter_width == old(
                self,
            ).spec_state().cached_gutter_width,
            final(self).spec_config() == old(self).spec_config(),
            final(self).spec_handle() == old(self).spec_handle(),
            final(self).spec_handle_name() == old(self).spec_handle_name(),
    {
        if self.state.scroll_offset <= usize::MAX - lines {
            self.state.scroll_offset = self.state.scroll_offset + lines;
        } else {
            self.state.scroll_offset = usize::MAX;
        }
    }

    /// Align the two line lists and format them for display with this
    /// view's scroll and fold state. The two row lists come out equally
    /// tall, no taller than the available height, at least one row when
    /// there is anything to show, with fold markers paired across the
    /// columns; they are a clipped window of full lists built for an
    /// alignment of the two inputs that satisfies the aligner's
    /// contract.
    pub fn compute_render_data(
        &mut self,
        source_lines: &Vec<String>,
        dest_lines: &Vec<String>,
        text_width: usize,
        available_height: usize,
        context_lines: usize,
    ) -> (r: SplitDiffRenderData)
        requires
            source_lines@.len() < usize::MAX,
            dest_lines@.len() < usize::MAX,
        ensures
            r.source_rows@.len() == r.dest_rows@.len(),
            r.source_rows@.len() <= available_height,
            markers_paired(r.source_rows@, r.dest_rows@),
            ((source_lines@.len() > 0 || dest_lines@.len() > 0) && available_height > 0)
                ==> r.source_rows@.len() >= 1,
            exists|ops: Seq<LineAlignment>|
                #[trigger] alignment_ok(ops, line_views(source_lines@), line_views(dest_lines@))
                    && manager_render_ok(
                    r.source_rows@,
                    r.dest_rows@,
                    ops,
                    line_views(source_lines@),
                    line_views(dest_lines@),
                    text_width as int,
                    old(self).spec_state().fold_unchanged,
                    context_lines as int,
                    old(self).spec_state().scroll_offset as int,
                    available_height as int,
                ),
            *final(self) == *old(self),
    {
        let n = source_lines.len();
        let m = dest_lines.len();
        let max_len = if n > m {
            n
        } else {
            m
        };
        let max_line_digits = crate::text::digit_count(if max_len == 0 {
            1
        } else {
            max_len
        });
        let gutter_width = max_line_digits + 1;
        proof {
            crate::text::lemma_digit_count_mono(n as nat, if max_len == 0 { 1nat } else { max_len as nat });
            crate::text::lemma_digit_count_mono(m as nat, if max_len == 0 { 1nat } else { max_len as nat });
        }
        let aligned = align_lines(source_lines, dest_lines);
        let r = compute_render_data_static(
            &aligned,
            source_lines,
            dest_lines,
            text_width,
            gutter_width,
            max_line_digits,
            self.state.fold_unchanged,
            context_lines,
            self.state.scroll_offset,
            available_height,
        );
        proof {
            let sv = line_views(source_lines@);
            let dv = line_views(dest_lines@);
            if source_lines@.len() > 0 || dest_lines@.len() > 0 {
                lemma_seq_lens_le(aligned@);
                assert(aligned@.len() > 0);
            }
            let (fs, fd) = choose|fs: Seq<DisplayRow>, fd: Seq<DisplayRow>|
                #[trigger] full_rows_ok(
                    fs,
                    fd,
                    aligned@,
                    sv,
                    dv,
                    text_width as int,
                    gutter_width as int,
                    self.state.fold_unchanged,
                    context_lines as int,
                ) && clipped_from(
                    r.source_rows@,
                    fs,
                    self.state.scroll_offset as int,
                    available_height as int,
                ) && clipped_from(
                    r.dest_rows@,
                    fd,
                    self.state.scroll_offset as int,
                    available_height as int,
                );
            assert(manager_render_ok(
                r.source_rows@,
                r.dest_rows@,
                aligned@,
                sv,
                dv,
                text_width as int,
                self.state.fold_unchanged,
                context_lines as int,
                self.state.scroll_offset as int,
                available_height as int,
            )) by {
                assert(full_rows_ok(
                    fs,
                    fd,
                    aligned@,
                    sv,
                    dv,
                    text_width as int,
                    gutter_width as int,
                    self.state.fold_unchanged,
                    context_lines as int,
                ));
            }
        }
        r
    }
}

} // verus!
