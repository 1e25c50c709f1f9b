//! Git status as the application reads it. Running git and talking to
//! the file system happens in the shell; the parsing of what the
//! commands print is here.

use vstd::prelude::*;
use crate::text::{is_ws_char, is_blank};

verus! {

/// What the application knows about a repository.
#[derive(Debug, Clone)]
pub struct GitStatus {
    pub is_repo: bool,
    pub has_remote: bool,
    pub remote_url: Option<String>,
    pub branch: Option<String>,
    pub commits_ahead: u32,
    pub commits_behind: u32,
    pub has_uncommitted_changes: bool,
}

impl GitStatus {
    /// The status of a path that is no repository at all.
    pub fn not_a_repo() -> (r: GitStatus)
        ensures
            r.is_repo == false,
            r.has_remote == false,
            r.remote_url is None,
            r.branch is None,
            r.commits_ahead == 0,
            r.commits_behind == 0,
            r.has_uncommitted_changes == false,
    {
        GitStatus {
            is_repo: false,
            has_remote: false,
            remote_url: None,
            branch: None,
            commits_ahead: 0,
            commits_behind: 0,
            has_uncommitted_changes: false,
        }
    }
}

/// Marker for the shell's git runner; the commands themselves run in
/// the shell.
pub struct GitOps;

/// The numeric value of a digit character, or ten for anything else.
pub open spec fn digit_value(c: char) -> int {
    if c == '0' { 0 }
    else if c == '1' { 1 }
    else if c == '2' { 2 }
    else if c == '3' { 3 }
    else if c == '4' { 4 }
    else if c == '5' { 5 }
    else if c == '6' { 6 }
    else if c == '7' { 7 }
    else if c == '8' { 8 }
    else if c == '9' { 9 }
    else { 10 }
}

/// Every character is a decimal digit.
pub open spec fn all_digits(s: Seq<char>) -> bool {
    forall|i: int| 0 <= i < s.len() ==> digit_value(#[trigger] s[i]) < 10
}

/// The number a digit run spells out.
pub open spec fn dec_value(s: Seq<char>) -> int
    decreases s.len(),
{
    if s.len() == 0 {
        0
    } else {
        dec_value(s.drop_last()) * 10 + digit_value(s.last())
    }
}

impl GitOps {
    /// Parse one ahead-behind count: a run of decimal digits makes the
    /// number, saturating at the type's maximum; anything else gives
    /// zero, as a failed parse does.
    pub fn parse_count(word: &str) -> (r: u32)
        ensures
            word@.len() == 0 ==> r == 0,
            !all_digits(word@) ==> r == 0,
            all_digits(word@) && dec_value(word@) <= u32::MAX ==> r == dec_value(word@),
    {
        let len = word.unicode_len();
        if len == 0 {
            return 0;
        }
        let mut acc: u32 = 0;
        let mut i: usize = 0;
        while i < len
            invariant
                0 <= i <= len,
                len == word@.len(),
                forall|q: int| 0 <= q < i ==> digit_value(#[trigger] word@[q]) < 10,
                acc == dec_value(word@.take(i as int)) || (acc == u32::MAX && dec_value(
                    word@.take(i as int),
                ) > u32::MAX),
                dec_value(word@.take(i as int)) >= 0,
            decreases len - i,
        {
            let c = word.get_char(i);
            let d: u32 = if c == '0' {
                0
            } else if c == '1' {
                1
            } else if c == '2' {
                2
            } else if c == '3' {
                3
            } else if c == '4' {
                4
            } else if c == '5' {
                5
            } else if c == '6' {
                6
            } else if c == '7' {
                7
            } else if c == '8' {
                8
            } else if c == '9' {
                9
            } else {
                proof {
                    assert(digit_value(word@[i as int]) >= 10);
                }
                return 0;
            };
            proof {
                assert(word@.take(i + 1).drop_last() =~= word@.take(i as int));
                assert(word@.take(i + 1).last() == word@[i as int]);
                assert(d == digit_value(word@[i as int]));
            }
            if acc <= (u32::MAX - d) / 10 {
                acc = acc * 10 + d;
            } else {
                acc = u32::MAX;
                proof {
                    assert(dec_value(word@.take(i + 1)) > u32::MAX);
                }
            }
            i += 1;
        }
        proof {
            assert(word@.take(len as int) =~= word@);
        }
        acc
    }

    /// Parse the two whitespace-separated counts that a left-right
    /// rev-list count prints; fewer than two fields give two zeros.
    pub fn parse_commit_counts(text: &str) -> (r: (u32, u32))
        ensures
            is_blank_text(text@) ==> r == (0u32, 0u32),
            crate::diff::tokens_of(text@).len() < 2 ==> r == (0u32, 0u32),
            (crate::diff::tokens_of(text@).len() >= 2 && all_digits(
                crate::diff::tokens_of(text@)[0],
            ) && dec_value(crate::diff::tokens_of(text@)[0]) <= u32::MAX) ==> r.0 == dec_value(
                crate::diff::tokens_of(text@)[0],
            ),
            (crate::diff::tokens_of(text@).len() >= 2 && all_digits(
                crate::diff::tokens_of(text@)[1],
            ) && dec_value(crate::diff::tokens_of(text@)[1]) <= u32::MAX) ==> r.1 == dec_value(
                crate::diff::tokens_of(text@)[1],
            ),
            (crate::diff::tokens_of(text@).len() >= 2 && !all_digits(
                crate::diff::tokens_of(text@)[0],
            )) ==> r.0 == 0,
            (crate::diff::tokens_of(text@).len() >= 2 && !all_digits(
                crate::diff::tokens_of(text@)[1],
            )) ==> r.1 == 0,
    {
        let words = crate::diff::split_ws_words(text);
        proof {
            assert(crate::worddiff::views_of(words@).len() == words@.len());
            if words@.len() >= 2 {
                assert(words@[0]@ == crate::worddiff::views_of(words@)[0]);
                assert(words@[1]@ == crate::worddiff::views_of(words@)[1]);
            }
        }
        if words.len() >= 2 {
            proof {
                if is_blank_text(text@) {
                    assert(crate::diff::is_token_of(text@, words@[0]@));
                    let (i, j) = choose|i: int, j: int|
                        crate::diff::is_token_at(text@, words@[0]@, i, j);
                    assert(!is_ws_char(text@[i]));
                    assert(false);
                }
            }
            (GitOps::parse_count(words[0].as_str()), GitOps::parse_count(words[1].as_str()))
        } else {
            (0, 0)
        }
    }

    /// Whether a porcelain status output reports uncommitted changes:
    /// anything but whitespace counts.
    pub fn parse_has_changes(text: &str) -> (r: bool)
        ensures
            r == !is_blank_text(text@),
    {
        !is_blank(text)
    }
}

/// Nothing but whitespace.
pub open spec fn is_blank_text(s: Seq<char>) -> bool {
    forall|i: int| 0 <= i < s.len() ==> is_ws_char(#[trigger] s[i])
}

} // verus!
