//! Configuration and state of the split diff view: validated layout
//! constants, the view configuration builder, and the per-view state
//! with its memoized gutter width.

use vstd::prelude::*;
use crate::text::{digit_count, digit_count_spec};

verus! {

/// Why a layout constants value was rejected.
#[derive(Debug, Clone, Copy, PartialEq, Eq, Structural)]
pub enum LayoutConstantsError {
    /// The split ratio must be greater than zero.
    InvalidSplitRatio,
    /// The border width must be at least two.
    InvalidBorderWidth,
    /// At least one digit column is needed for line numbers.
    InvalidMinLineDigits,
}

impl LayoutConstantsError {
    /// A short description of the rejection.
    pub fn message(&self) -> (r: &'static str) {
        match self {
            LayoutConstantsError::InvalidSplitRatio => "Split ratio must be greater than zero",
            LayoutConstantsError::InvalidBorderWidth => "Border width must be at least 2",
            LayoutConstantsError::InvalidMinLineDigits => "Minimum line digits must be at least 1",
        }
    }
}

/// Validated layout constants; the fields stay private so every value
/// went through `new`.
#[derive(Debug, Clone, Copy, PartialEq, Eq, Structural)]
pub struct LayoutConstants {
    border_offset: u16,
    border_width: u16,
    split_ratio: u16,
    gutter_space_after_digits: usize,
    min_line_digits: usize,
}

impl LayoutConstants {
    /// What validation guarantees of every constructed value.
    pub open spec fn valid(self) -> bool {
        &&& self.split_ratio_spec() > 0
        &&& self.border_width_spec() >= 2
        &&& self.min_line_digits_spec() >= 1
    }

    /// Validate and build a layout constants value: the split ratio must
    /// be positive, the border width at least two, and the minimum digit
    /// count at least one.
    pub fn new(
        border_offset: u16,
        border_width: u16,
        split_ratio: u16,
        gutter_space_after_digits: usize,
        min_line_digits: usize,
    ) -> (r: Result<LayoutConstants, LayoutConstantsError>)
        ensures
            (split_ratio == 0) ==> r == Err::<LayoutConstants, _>(
                LayoutConstantsError::InvalidSplitRatio,
            ),
            (split_ratio > 0 && border_width < 2) ==> r == Err::<LayoutConstants, _>(
                LayoutConstantsError::InvalidBorderWidth,
            ),
            (split_ratio > 0 && border_width >= 2 && min_line_digits == 0) ==> r == Err::<
                LayoutConstants,
                _,
            >(LayoutConstantsError::InvalidMinLineDigits),
            (split_ratio > 0 && border_width >= 2 && min_line_digits >= 1) ==> (r matches Ok(c)
                && c.valid() && c.border_offset_spec() == border_offset && c.border_width_spec()
                == border_width && c.split_ratio_spec() == split_ratio
                && c.gutter_space_spec() == gutter_space_after_digits
                && c.min_line_digits_spec() == min_line_digits),
    {
        if split_ratio == 0 {
            return Err(LayoutConstantsError::InvalidSplitRatio);
        }
        if border_width < 2 {
            return Err(LayoutConstantsError::InvalidBorderWidth);
        }
        if min_line_digits == 0 {
            return Err(LayoutConstantsError::InvalidMinLineDigits);
        }
        Ok(
            LayoutConstants {
                border_offset,
                border_width,
                split_ratio,
                gutter_space_after_digits,
                min_line_digits,
            },
        )
    }

    /// The default constants: a 50/50 split inside standard borders, one
    /// space after the digits, one digit at least.
    pub fn default_constants() -> (r: LayoutConstants)
        ensures
            r.valid(),
            r.border_offset_spec() == 1,
            r.border_width_spec() == 2,
            r.split_ratio_spec() == 2,
            r.gutter_space_spec() == 1,
            r.min_line_digits_spec() == 1,
    {
        LayoutConstants {
            border_offset: 1,
            border_width: 2,
            split_ratio: 2,
            gutter_space_after_digits: 1,
            min_line_digits: 1,
        }
    }

    pub closed spec fn border_offset_spec(self) -> u16 {
        self.border_offset
    }

    pub closed spec fn border_width_spec(self) -> u16 {
        self.border_width
    }

    pub closed spec fn split_ratio_spec(self) -> u16 {
        self.split_ratio
    }

    pub closed spec fn gutter_space_spec(self) -> usize {
        self.gutter_space_after_digits
    }

    pub closed spec fn min_line_digits_spec(self) -> usize {
        self.min_line_digits
    }

    /// The offset from the parent border.
    pub fn border_offset(&self) -> (r: u16)
        ensures
            r == self.border_offset_spec(),
    {
        self.border_offset
    }

    /// The total border width.
    pub fn border_width(&self) -> (r: u16)
        ensures
            r == self.border_width_spec(),
    {
        self.border_width
    }

    /// The ratio the width is divided by.
    pub fn split_ratio(&self) -> (r: u16)
        ensures
            r == self.split_ratio_spec(),
    {
        self.split_ratio
    }

    /// The space after the line number digits.
    pub fn gutter_space_after_digits(&self) -> (r: usize)
        ensures
            r == self.gutter_space_spec(),
    {
        self.gutter_space_after_digits
    }

    /// The minimum digit columns when no lines exist.
    pub fn min_line_digits(&self) -> (r: usize)
        ensures
            r == self.min_line_digits_spec(),
    {
        self.min_line_digits
    }
}

impl Default for LayoutConstants {
    /// The default constants.
    fn default() -> (r: LayoutConstants)
        ensures
            r.valid(),
    {
        LayoutConstants::default_constants()
    }
}

/// Errors of split diff view rendering.
#[derive(Debug, Clone, Copy, PartialEq, Eq, Structural)]
pub enum SplitDiffViewError {
    /// The bounding box could not be prepared.
    BoxPreparationFailed,
    /// The computed area was unusable.
    InvalidArea,
}

/// Immutable configuration of the split diff view; runtime state lives
/// in `SplitDiffViewState`.
#[derive(Debug, Clone)]
pub struct SplitDiffViewConfig {
    pub source_title: String,
    pub dest_title: String,
    pub layout_constants: LayoutConstants,
    /// File extension for syntax highlighting, without the leading dot;
    /// none means no highlighting.
    pub file_extension: Option<String>,
}

impl SplitDiffViewConfig {
    /// The default configuration.
    pub fn new() -> (r: SplitDiffViewConfig)
        ensures
            r.layout_constants.valid(),
            r.file_extension is None,
    {
        proof {
            reveal_strlit("Source");
            reveal_strlit("Destination");
        }
        SplitDiffViewConfig {
            source_title: ("Source").to_owned(),
            dest_title: ("Destination").to_owned(),
            layout_constants: LayoutConstants::default_constants(),
            file_extension: None,
        }
    }

    /// Builder: set the source panel title.
    pub fn with_source_title(self, title: &str) -> (r: SplitDiffViewConfig)
        ensures
            r.source_title@ == title@,
            r.dest_title == self.dest_title,
            r.layout_constants == self.layout_constants,
            r.file_extension == self.file_extension,
    {
        SplitDiffViewConfig { source_title: title.to_owned(), ..self }
    }

    /// Builder: set the destination panel title.
    pub fn with_dest_title(self, title: &str) -> (r: SplitDiffViewConfig)
        ensures
            r.dest_title@ == title@,
            r.source_title == self.source_title,
            r.layout_constants == self.layout_constants,
            r.file_extension == self.file_extension,
    {
        SplitDiffViewConfig { dest_title: title.to_owned(), ..self }
    }

    /// Builder: set the layout constants.
    pub fn with_layout_constants(self, constants: LayoutConstants) -> (r: SplitDiffViewConfig)
        ensures
            r.layout_constants == constants,
            r.source_title == self.source_title,
            r.dest_title == self.dest_title,
            r.file_extension == self.file_extension,
    {
        SplitDiffViewConfig { layout_constants: constants, ..self }
    }

    /// Builder: set the file extension for syntax highlighting, without
    /// the leading dot.
    pub fn with_file_extension(self, extension: &str) -> (r: SplitDiffViewConfig)
        ensures
            r.file_extension matches Some(e) && e@ == extension@,
            r.source_title == self.source_title,
            r.dest_title == self.dest_title,
            r.layout_constants == self.layout_constants,
    {
        SplitDiffViewConfig { file_extension: Some(extension.to_owned()), ..self }
    }

    /// Builder: take the extension from a file path.
    pub fn with_file_path(self, file_path: &str) -> (r: SplitDiffViewConfig)
        ensures
            match r.file_extension {
                Some(e) => crate::highlight::file_extension_spec(file_path@) == Some(e@),
                None => crate::highlight::file_extension_spec(file_path@) is None,
            },
            r.source_title == self.source_title,
            r.dest_title == self.dest_title,
            r.layout_constants == self.layout_constants,
    {
        SplitDiffViewConfig {
            file_extension: crate::highlight::get_file_extension(file_path),
            ..self
        }
    }
}

impl Default for SplitDiffViewConfig {
    /// The default configuration.
    fn default() -> (r: SplitDiffViewConfig)
        ensures
            r.layout_constants.valid(),
            r.file_extension is None,
    {
        SplitDiffViewConfig::new()
    }
}

/// Runtime state of the split diff view. The last gutter computation is
/// kept as (source line count, dest line count, gutter width, digit
/// count) for callers that read it; lookups never trust it.
#[derive(Debug)]
pub struct SplitDiffViewState {
    pub scroll_offset: usize,
    pub fold_unchanged: bool,
    /// (source line count, dest line count, gutter width, digit count).
    pub cached_gutter_width: Option<(usize, usize, usize, usize)>,
}

impl SplitDiffViewState {
    /// The memoized gutter computation, if one is stored.
    pub open spec fn spec_cache(self) -> Option<(usize, usize, usize, usize)> {
        self.cached_gutter_width
    }

    /// The digit count the gutter uses for the given line counts.
    pub open spec fn digits_for(
        source_line_count: int,
        dest_line_count: int,
        min_digits: int,
    ) -> int {
        let m = if source_line_count > dest_line_count {
            source_line_count
        } else {
            dest_line_count
        };
        if m == 0 {
            min_digits
        } else {
            digit_count_spec(m as nat) as int
        }
    }

    /// The default state: top of the file, folding on, nothing cached.
    pub fn default_state() -> (r: SplitDiffViewState)
        ensures
            r.scroll_offset == 0,
            r.fold_unchanged == true,
            r.spec_cache() is None,
    {
        SplitDiffViewState { scroll_offset: 0, fold_unchanged: true, cached_gutter_width: None }
    }

    /// The gutter width and digit count for the given line counts. The
    /// answer is always the freshly computed one — digit counting is
    /// plain integer work — and the cache memoizes it for callers that
    /// read the stored pair, so a stale or tampered cache can never
    /// surface.
    pub fn get_gutter_width(
        &mut self,
        source_line_count: usize,
        dest_line_count: usize,
        constants: &LayoutConstants,
    ) -> (r: (usize, usize))
        requires
            constants.valid(),
            constants.min_line_digits_spec() <= 20,
            constants.gutter_space_spec() <= usize::MAX - 20,
        ensures
            r.1 == SplitDiffViewState::digits_for(
                source_line_count as int,
                dest_line_count as int,
                constants.min_line_digits_spec() as int,
            ),
            r.0 == r.1 + constants.gutter_space_spec(),
            final(self).spec_cache() == Some(
                (source_line_count, dest_line_count, r.0, r.1),
            ),
            final(self).scroll_offset == old(self).scroll_offset,
            final(self).fold_unchanged == old(self).fold_unchanged,
    {
        let max_line_num = if source_line_count > dest_line_count {
            source_line_count
        } else {
            dest_line_count
        };
        let max_line_digits = if max_line_num == 0 {
            constants.min_line_digits()
        } else {
            digit_count(max_line_num)
        };
        let gutter_width = max_line_digits + constants.gutter_space_after_digits();
        self.cached_gutter_width = Some(
            (source_line_count, dest_line_count, gutter_width, max_line_digits),
        );
        (gutter_width, max_line_digits)
    }
}

impl Default for SplitDiffViewState {
    /// The default state.
    fn default() -> (r: SplitDiffViewState)
        ensures
            r.scroll_offset == 0,
            r.fold_unchanged == true,
    {
        SplitDiffViewState::default_state()
    }
}

} // verus!
