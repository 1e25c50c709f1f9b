//! The diff engine's data model: what kind of comparison is being made,
//! the per-file status, and the engine's exclusion rules. Walking the
//! file system happens in the shell, which asks the engine which paths
//! to skip.

use vstd::prelude::*;
use crate::patterns::{matches_pattern, matches_pattern_spec, any_pattern_matches};
use crate::text::{lower_of, str_eq};
use crate::diff::line_views;

verus! {

/// Which direction the comparison runs.
#[derive(Debug, Clone, Copy, PartialEq, Eq, Structural)]
pub enum DiffType {
    /// Comparing shared resources to the project.
    SharedToProject,
    /// Comparing the project to the shared resources.
    ProjectToShared,
}

/// How a file differs between the two sides.
#[derive(Debug, Clone, Copy, PartialEq, Eq, Structural)]
pub enum FileStatus {
    /// Only in the source; it would be added.
    Added,
    /// In both, with different content.
    Modified,
    /// Only in the destination; it was deleted from the source.
    Deleted,
    /// Not tracked on either side.
    Untracked,
    /// Identical on both sides.
    Unchanged,
}

/// One differing file.
#[derive(Debug, Clone)]
pub struct DiffEntry {
    /// Path relative to the compared roots.
    pub path: String,
    /// Full path on the source side.
    pub source_path: String,
    /// Full path on the destination side.
    pub destination_path: String,
    pub status: FileStatus,
    pub diff_type: DiffType,
}

/// The engine deciding which files need syncing.
pub struct DiffEngine {
    exclude_patterns: Vec<String>,
}

impl DiffEngine {
    /// The exclusion patterns in force.
    pub closed spec fn spec_excludes(self) -> Seq<String> {
        self.exclude_patterns@
    }

    /// An engine with the standard exclusions: version control innards,
    /// caches, build outputs, editor leavings.
    pub fn new() -> (r: DiffEngine)
        ensures
            r.spec_excludes().len() == 16,
            r.spec_excludes()[0]@ == (".git")@,
            r.spec_excludes()[1]@ == ("__pycache__")@,
            r.spec_excludes()[2]@ == (".pyc")@,
            r.spec_excludes()[3]@ == (".pyo")@,
            r.spec_excludes()[4]@ == (".pyd")@,
            r.spec_excludes()[5]@ == (".DS_Store")@,
            r.spec_excludes()[6]@ == ("Thumbs.db")@,
            r.spec_excludes()[7]@ == ("*.swp")@,
            r.spec_excludes()[8]@ == ("*.swo")@,
            r.spec_excludes()[9]@ == ("*~")@,
            r.spec_excludes()[10]@ == (".uv")@,
            r.spec_excludes()[11]@ == ("uv.lock")@,
            r.spec_excludes()[12]@ == ("target")@,
            r.spec_excludes()[13]@ == ("node_modules")@,
            r.spec_excludes()[14]@ == (".idea")@,
            r.spec_excludes()[15]@ == (".vscode")@,
    {
        let mut exclude_patterns: Vec<String> = Vec::new();
        exclude_patterns.push((".git").to_owned());
        exclude_patterns.push(("__pycache__").to_owned());
        exclude_patterns.push((".pyc").to_owned());
        exclude_patterns.push((".pyo").to_owned());
        exclude_patterns.push((".pyd").to_owned());
        exclude_patterns.push((".DS_Store").to_owned());
        exclude_patterns.push(("Thumbs.db").to_owned());
        exclude_patterns.push(("*.swp").to_owned());
        exclude_patterns.push(("*.swo").to_owned());
        exclude_patterns.push(("*~").to_owned());
        exclude_patterns.push((".uv").to_owned());
        exclude_patterns.push(("uv.lock").to_owned());
        exclude_patterns.push(("target").to_owned());
        exclude_patterns.push(("node_modules").to_owned());
        exclude_patterns.push((".idea").to_owned());
        exclude_patterns.push((".vscode").to_owned());
        DiffEngine { exclude_patterns }
    }

    /// The engine with extra exclusion patterns appended.
    pub fn with_excludes(self, patterns: Vec<String>) -> (r: DiffEngine)
        ensures
            r.spec_excludes() == self.spec_excludes() + patterns@,
    {
        let mut e = self;
        let mut patterns = patterns;
        e.exclude_patterns.append(&mut patterns);
        e
    }

    /// Whether a walked path is excluded: some pattern, built in or
    /// handed in for this run, matches it case-insensitively.
    pub fn should_exclude(&self, path: &str, additional_excludes: &Vec<String>) -> (r: bool)
        ensures
            r == (any_pattern_matches(self.spec_excludes(), path@) || any_pattern_matches(
                additional_excludes@,
                path@,
            )),
    {
        let mut k: usize = 0;
        while k < self.exclude_patterns.len()
            invariant
                0 <= k <= self.exclude_patterns@.len(),
                forall|q: int| 0 <= q < k ==> !matches_pattern_spec(
                    lower_of(path@),
                    lower_of((#[trigger] self.exclude_patterns@[q])@),
                ),
            decreases self.exclude_patterns@.len() - k,
        {
            if matches_pattern(path, self.exclude_patterns[k].as_str()) {
                return true;
            }
            k += 1;
        }
        let mut j: usize = 0;
        while j < additional_excludes.len()
            invariant
                0 <= j <= additional_excludes@.len(),
                forall|q: int| 0 <= q < self.exclude_patterns@.len() ==> !matches_pattern_spec(
                    lower_of(path@),
                    lower_of((#[trigger] self.exclude_patterns@[q])@),
                ),
                forall|q: int| 0 <= q < j ==> !matches_pattern_spec(
                    lower_of(path@),
                    lower_of((#[trigger] additional_excludes@[q])@),
                ),
            decreases additional_excludes@.len() - j,
        {
            if matches_pattern(path, additional_excludes[j].as_str()) {
                return true;
            }
            j += 1;
        }
        false
    }

    /// What status a file gets from which sides hold it and whether the
    /// contents agree: present only here means added, only there means
    /// deleted, both with differences means modified, both in agreement
    /// means unchanged, and neither means untracked.
    pub fn determine_status(
        &self,
        source_exists: bool,
        dest_exists: bool,
        contents_differ: bool,
    ) -> (r: FileStatus)
        ensures
            r == (if !source_exists && dest_exists {
                FileStatus::Deleted
            } else if source_exists && !dest_exists {
                FileStatus::Added
            } else if source_exists && dest_exists && contents_differ {
                FileStatus::Modified
            } else if source_exists && dest_exists {
                FileStatus::Unchanged
            } else {
                FileStatus::Untracked
            }),
    {
        if !source_exists && dest_exists {
            FileStatus::Deleted
        } else if source_exists && !dest_exists {
            FileStatus::Added
        } else if source_exists && dest_exists {
            if contents_differ {
                FileStatus::Modified
            } else {
                FileStatus::Unchanged
            }
        } else {
            FileStatus::Untracked
        }
    }
}

/// One entry of the fallback line diff: a leading newline, then a
/// space, minus or plus marker and the line; equal lines give one
/// context line, differing pairs a minus line and a plus line, and a
/// line present on one side only its single marked line.
pub open spec fn simple_diff_entry(sv: Seq<Seq<char>>, dv: Seq<Seq<char>>, k: int) -> Seq<char> {
    if 0 <= k && k < sv.len() && k < dv.len() {
        if sv[k] == dv[k] {
            seq!['\n', ' '] + sv[k]
        } else {
            seq!['\n', '-'] + sv[k] + seq!['\n', '+'] + dv[k]
        }
    } else if 0 <= k && k < sv.len() {
        seq!['\n', '-'] + sv[k]
    } else if 0 <= k && k < dv.len() {
        seq!['\n', '+'] + dv[k]
    } else {
        Seq::<char>::empty()
    }
}

/// The first `i` entries of the fallback line diff, concatenated.
pub open spec fn simple_diff_upto(sv: Seq<Seq<char>>, dv: Seq<Seq<char>>, i: int) -> Seq<char>
    decreases i,
{
    if i <= 0 {
        Seq::<char>::empty()
    } else {
        simple_diff_upto(sv, dv, i - 1) + simple_diff_entry(sv, dv, i - 1)
    }
}

/// The two header lines naming the compared path.
pub open spec fn simple_diff_header(path: Seq<char>) -> Seq<char> {
    seq!['-', '-', '-', ' '] + path + seq!['\n', '+', '+', '+', ' '] + path
}

/// What the fallback diff of two line lists spells out.
pub open spec fn simple_diff_spec(
    path: Seq<char>,
    sv: Seq<Seq<char>>,
    dv: Seq<Seq<char>>,
) -> Seq<char> {
    simple_diff_header(path) + simple_diff_upto(
        sv,
        dv,
        if sv.len() >= dv.len() {
            sv.len() as int
        } else {
            dv.len() as int
        },
    )
}

/// The fallback line-by-line diff, used when no richer diff is at hand:
/// two header lines naming the path, then each index's context, minus
/// or plus lines.
pub fn generate_simple_diff(
    source_lines: &Vec<String>,
    dest_lines: &Vec<String>,
    path: &str,
) -> (r: String)
    ensures
        r@ == simple_diff_spec(path@, line_views(source_lines@), line_views(dest_lines@)),
{
    let ghost sv = line_views(source_lines@);
    let ghost dv = line_views(dest_lines@);
    proof {
        reveal_strlit("--- ");
        reveal_strlit("\n+++ ");
        reveal_strlit("\n ");
        reveal_strlit("\n-");
        reveal_strlit("\n+");
    }
    let mut r = ("--- ").to_owned();
    r.append(path);
    r.append("\n+++ ");
    r.append(path);
    proof {
        assert(r@ =~= simple_diff_header(path@));
    }
    let n = source_lines.len();
    let m = dest_lines.len();
    let max_len = if n >= m {
        n
    } else {
        m
    };
    let mut i: usize = 0;
    proof {
        assert(r@ =~= simple_diff_header(path@) + simple_diff_upto(sv, dv, 0));
    }
    while i < max_len
        invariant
            0 <= i <= max_len,
            n == source_lines@.len(),
            m == dest_lines@.len(),
            sv == line_views(source_lines@),
            dv == line_views(dest_lines@),
            max_len == if n >= m { n as int } else { m as int },
            ("\n ")@ == seq!['\n', ' '],
            ("\n-")@ == seq!['\n', '-'],
            ("\n+")@ == seq!['\n', '+'],
            r@ == simple_diff_header(path@) + simple_diff_upto(sv, dv, i as int),
        decreases max_len - i,
    {
        if i < n && i < m {
            if str_eq(source_lines[i].as_str(), dest_lines[i].as_str()) {
                r.append("\n ");
                r.append(source_lines[i].as_str());
            } else {
                r.append("\n-");
                r.append(source_lines[i].as_str());
                r.append("\n+");
                r.append(dest_lines[i].as_str());
            }
        } else if i < n {
            r.append("\n-");
            r.append(source_lines[i].as_str());
        } else {
            r.append("\n+");
            r.append(dest_lines[i].as_str());
        }
        i += 1;
        proof {
            assert(r@ =~= simple_diff_header(path@) + simple_diff_upto(sv, dv, i as int));
        }
    }
    r
}

impl Default for DiffEngine {
    /// The engine with the standard exclusions.
    fn default() -> (r: DiffEngine)
        ensures
            r.spec_excludes().len() == 16,
    {
        DiffEngine::new()
    }
}

} // verus!
