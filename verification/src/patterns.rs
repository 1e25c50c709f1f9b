//! Glob-like pattern matching for file exclusions: a leading star
//! matches a suffix, a trailing star a prefix, a single inner star a
//! prefix-and-suffix pair, and a bare word matches anywhere; matching is
//! case-insensitive.

use vstd::prelude::*;
use crate::text::{lower_of, to_lowercase, str_is_prefix, is_prefix_of};

verus! {

/// `sub` occurs in `s` at position `i`.
pub open spec fn occurs_at(s: Seq<char>, sub: Seq<char>, i: int) -> bool {
    0 <= i && i + sub.len() <= s.len() && s.subrange(i, i + sub.len()) == sub
}

/// `sub` occurs somewhere in `s`.
pub open spec fn contains_sub(s: Seq<char>, sub: Seq<char>) -> bool {
    exists|i: int| occurs_at(s, sub, i)
}

/// `suf` is a suffix of `s`.
pub open spec fn is_suffix_of(suf: Seq<char>, s: Seq<char>) -> bool {
    suf.len() <= s.len() && s.skip(s.len() - suf.len()) == suf
}

/// `s` with every star removed.
pub open spec fn drop_stars(s: Seq<char>) -> Seq<char>
    decreases s.len(),
{
    if s.len() == 0 {
        Seq::<char>::empty()
    } else if s.last() == '*' {
        drop_stars(s.drop_last())
    } else {
        drop_stars(s.drop_last()).push(s.last())
    }
}

/// `s` holds a star.
pub open spec fn has_star(s: Seq<char>) -> bool {
    exists|i: int| 0 <= i < s.len() && s[i] == '*'
}

/// What the matcher decides for a lowercased path against a lowercased
/// pattern.
pub open spec fn matches_pattern_spec(path: Seq<char>, pat: Seq<char>) -> bool {
    if pat.len() > 0 && pat[0] == '*' {
        is_suffix_of(pat.skip(1), path)
    } else if pat.len() > 0 && pat.last() == '*' {
        is_prefix_of(pat.take(pat.len() - 1), path)
    } else if has_star(pat) {
        if star_count(pat) == 1 {
            is_prefix_of(pat.take(first_star(pat)), path) && is_suffix_of(
                pat.skip(first_star(pat) + 1),
                path,
            )
        } else {
            contains_sub(path, drop_stars(pat))
        }
    } else {
        contains_sub(path, pat)
    }
}

/// How many stars `s` holds.
pub open spec fn star_count(s: Seq<char>) -> int
    decreases s.len(),
{
    if s.len() == 0 {
        0
    } else {
        star_count(s.drop_last()) + if s.last() == '*' {
            1int
        } else {
            0int
        }
    }
}

/// The position of the first star.
pub open spec fn first_star(s: Seq<char>) -> int
    decreases s.len(),
{
    if s.len() == 0 {
        0
    } else if has_star(s.drop_last()) {
        first_star(s.drop_last())
    } else {
        s.len() - 1
    }
}

/// Whether `suf` ends `s`.
pub fn str_is_suffix(suf: &str, s: &str) -> (r: bool)
    ensures
        r == is_suffix_of(suf@, s@),
{
    let ls = suf.unicode_len();
    let ln = s.unicode_len();
    if ls > ln {
        return false;
    }
    let mut i: usize = 0;
    while i < ls
        invariant
            0 <= i <= ls,
            ls == suf@.len(),
            ln == s@.len(),
            ls <= ln,
            forall|k: int| 0 <= k < i ==> suf@[k] == s@[ln - ls + k],
        decreases ls - i,
    {
        if suf.get_char(i) != s.get_char(ln - ls + i) {
            proof {
                assert(s@.skip(ln - ls) != suf@) by {
                    if s@.skip(ln - ls) == suf@ {
                        assert(s@.skip(ln - ls)[i as int] == suf@[i as int]);
                    }
                }
            }
            return false;
        }
        i += 1;
    }
    proof {
        assert(s@.skip(ln - ls) =~= suf@);
    }
    true
}

/// Whether `sub` occurs anywhere in `s`.
pub fn str_contains(s: &str, sub: &str) -> (r: bool)
    ensures
        r == contains_sub(s@, sub@),
{
    let ln = s.unicode_len();
    let ls = sub.unicode_len();
    if ls == 0 {
        proof {
            assert(s@.subrange(0, 0) =~= sub@);
            assert(occurs_at(s@, sub@, 0));
        }
        return true;
    }
    if ls > ln {
        proof {
            if contains_sub(s@, sub@) {
                let i = choose|i: int| occurs_at(s@, sub@, i);
            }
        }
        return false;
    }
    let mut i: usize = 0;
    while i <= ln - ls
        invariant
            0 <= i <= ln - ls + 1,
            1 <= ls <= ln,
            ln == s@.len(),
            ls == sub@.len(),
            forall|q: int| 0 <= q < i ==> !occurs_at(s@, sub@, q),
        decreases ln - ls - i + 1,
    {
        let mut k: usize = 0;
        let mut hit = true;
        while k < ls && hit
            invariant
                0 <= k <= ls,
                0 <= i <= ln - ls,
                ls <= ln,
                ln == s@.len(),
                ls == sub@.len(),
                hit ==> forall|q: int| 0 <= q < k ==> s@[i + q] == sub@[q],
                !hit ==> !occurs_at(s@, sub@, i as int),
            decreases ls - k + (if hit { 1int } else { 0int }),
        {
            if s.get_char(i + k) != sub.get_char(k) {
                proof {
                    assert(!occurs_at(s@, sub@, i as int)) by {
                        if occurs_at(s@, sub@, i as int) {
                            assert(s@.subrange(i as int, i + sub@.len())[k as int] == sub@[
                                k as int]);
                        }
                    }
                }
                hit = false;
            } else {
                k += 1;
            }
        }
        if hit {
            proof {
                assert(s@.subrange(i as int, i + sub@.len()) =~= sub@);
                assert(occurs_at(s@, sub@, i as int));
            }
            return true;
        }
        i += 1;
    }
    proof {
        if contains_sub(s@, sub@) {
            let q = choose|q: int| occurs_at(s@, sub@, q);
            assert(q <= ln - ls);
            assert(!occurs_at(s@, sub@, q));
        }
    }
    false
}

/// Remove every star.
fn remove_stars(s: &str) -> (r: String)
    ensures
        r@ == drop_stars(s@),
{
    let len = s.unicode_len();
    let mut r = String::new();
    let mut i: usize = 0;
    while i < len
        invariant
            0 <= i <= len,
            len == s@.len(),
            r@ == drop_stars(s@.take(i as int)),
        decreases len - i,
    {
        let c = s.get_char(i);
        if c != '*' {
            let piece = s.substring_char(i, i + 1);
            r.append(piece);
        }
        i += 1;
        proof {
            assert(s@.take(i as int).drop_last() =~= s@.take(i - 1));
            assert(s@.take(i as int).last() == s@[i - 1]);
            if s@[i - 1] != '*' {
                assert(r@ =~= drop_stars(s@.take(i as int)));
            }
        }
    }
    proof {
        assert(s@.take(len as int) =~= s@);
    }
    r
}

/// The position of the first star and the total star count.
fn scan_stars(s: &str) -> (r: (usize, usize))
    ensures
        has_star(s@) ==> r.1 > 0 && r.0 == first_star(s@) && r.0 < s@.len() && s@[r.0 as int]
            == '*',
        !has_star(s@) ==> r.1 == 0,
        r.1 == star_count(s@),
{
    let len = s.unicode_len();
    let mut count: usize = 0;
    let mut first: usize = 0;
    let mut i: usize = 0;
    while i < len
        invariant
            0 <= i <= len,
            len == s@.len(),
            count == star_count(s@.take(i as int)),
            count <= i,
            has_star(s@.take(i as int)) ==> count > 0 && first == first_star(s@.take(i as int))
                && first < i && s@[first as int] == '*',
            !has_star(s@.take(i as int)) ==> count == 0,
            count > 0 ==> has_star(s@.take(i as int)),
        decreases len - i,
    {
        let c = s.get_char(i);
        proof {
            assert(s@.take(i + 1).drop_last() =~= s@.take(i as int));
            assert(s@.take(i + 1).last() == s@[i as int]);
        }
        if c == '*' {
            if count == 0 {
                first = i;
            }
            count += 1;
            proof {
                assert(has_star(s@.take(i + 1))) by {
                    assert(s@.take(i + 1)[i as int] == '*');
                }
                if !has_star(s@.take(i as int)) {
                    assert(first_star(s@.take(i + 1)) == i);
                }
            }
        } else {
            proof {
                if has_star(s@.take(i + 1)) {
                    let q = choose|q: int|
                        0 <= q < s@.take(i + 1).len() && (#[trigger] s@.take(i + 1)[q]) == '*';
                    assert(q < i);
                    assert(s@.take(i as int)[q] == '*');
                    assert(has_star(s@.take(i as int)));
                }
                if has_star(s@.take(i as int)) {
                    assert(first_star(s@.take(i + 1)) == first_star(s@.take(i as int)));
                }
            }
        }
        i += 1;
    }
    proof {
        assert(s@.take(len as int) =~= s@);
    }
    (first, count)
}

/// Whether the lowercased path matches the lowercased pattern: leading
/// star for suffixes, trailing star for prefixes, one inner star for a
/// prefix-and-suffix pair, several stars for a starless-contains check,
/// no star for a plain contains check.
pub fn matches_pattern(path: &str, pattern: &str) -> (r: bool)
    ensures
        r == matches_pattern_spec(lower_of(path@), lower_of(pattern@)),
{
    let path_l = to_lowercase(path);
    let pat_l = to_lowercase(pattern);
    let p = path_l.as_str();
    let t = pat_l.as_str();
    let tlen = t.unicode_len();
    if tlen > 0 && t.get_char(0) == '*' {
        let suf = t.substring_char(1, tlen);
        proof {
            assert(suf@ =~= t@.skip(1));
        }
        str_is_suffix(suf, p)
    } else if tlen > 0 && t.get_char(tlen - 1) == '*' {
        let pre = t.substring_char(0, tlen - 1);
        proof {
            assert(pre@ =~= t@.take(tlen - 1));
        }
        str_is_prefix(pre, p)
    } else {
        let (first, count) = scan_stars(t);
        if count == 0 {
            proof {
                if has_star(t@) {
                }
            }
            str_contains(p, t)
        } else if count == 1 {
            let pre = t.substring_char(0, first);
            let suf = t.substring_char(first + 1, tlen);
            proof {
                assert(pre@ =~= t@.take(first_star(t@)));
                assert(suf@ =~= t@.skip(first_star(t@) + 1));
            }
            let a = str_is_prefix(pre, p);
            let b = str_is_suffix(suf, p);
            a && b
        } else {
            let stripped = remove_stars(t);
            str_contains(p, stripped.as_str())
        }
    }
}

/// A list of exclusion patterns.
pub struct PatternMatcher {
    patterns: Vec<String>,
}

/// Some pattern in the list matches the path.
pub open spec fn any_pattern_matches(pats: Seq<String>, path: Seq<char>) -> bool {
    exists|k: int|
        0 <= k < pats.len() && matches_pattern_spec(lower_of(path), lower_of((#[trigger] pats[k])@))
}

impl PatternMatcher {
    /// The held patterns.
    pub closed spec fn spec_patterns(self) -> Seq<String> {
        self.patterns@
    }

    /// A matcher over the given patterns.
    pub fn new(patterns: Vec<String>) -> (r: PatternMatcher)
        ensures
            r.spec_patterns() == patterns@,
    {
        PatternMatcher { patterns }
    }

    /// Whether any pattern matches the path.
    pub fn should_exclude(&self, path: &str) -> (r: bool)
        ensures
            r == any_pattern_matches(self.spec_patterns(), path@),
    {
        let mut k: usize = 0;
        while k < self.patterns.len()
            invariant
                0 <= k <= self.patterns@.len(),
                forall|q: int| 0 <= q < k ==> !matches_pattern_spec(
                    lower_of(path@),
                    lower_of((#[trigger] self.patterns@[q])@),
                ),
            decreases self.patterns@.len() - k,
        {
            if matches_pattern(path, self.patterns[k].as_str()) {
                return true;
            }
            k += 1;
        }
        false
    }

    /// Add a pattern.
    pub fn add_pattern(&mut self, pattern: String)
        ensures
            final(self).spec_patterns() == old(self).spec_patterns().push(pattern),
    {
        self.patterns.push(pattern);
    }

    /// The held patterns.
    pub fn patterns(&self) -> (r: &Vec<String>)
        ensures
            r@ == self.spec_patterns(),
    {
        &self.patterns
    }
}

impl Default for PatternMatcher {
    /// A matcher with no patterns.
    fn default() -> (r: PatternMatcher)
        ensures
            r.spec_patterns().len() == 0,
    {
        PatternMatcher::new(Vec::new())
    }
}

} // verus!
