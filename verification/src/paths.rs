//! Path manipulation over plain strings with `/` separators: splitting
//! into components, resolving `.` and `..`, joining, relative paths and
//! ancestry tests.

use vstd::prelude::*;
use crate::text::str_eq;
use crate::worddiff::lcp_units;
use crate::highlight::last_index_of;

verus! {

/// The path names an absolute location.
pub open spec fn abs_spec(s: Seq<char>) -> bool {
    s.len() > 0 && s[0] == '/'
}

/// The slash-separated components of a path, empty runs dropped.
pub open spec fn comps_spec(s: Seq<char>) -> Seq<Seq<char>>
    decreases s.len(),
{
    if s.len() == 0 {
        Seq::<Seq<char>>::empty()
    } else {
        let rest = comps_spec(s.drop_last());
        let c = s.last();
        if c == '/' {
            rest
        } else if s.len() >= 2 && s[s.len() - 2] != '/' {
            rest.update(rest.len() - 1, rest.last().push(c))
        } else {
            rest.push(seq![c])
        }
    }
}

/// Resolve `.` and `..` components: a dot vanishes, a double dot drops
/// the component before it when one exists.
pub open spec fn norm_comps(cs: Seq<Seq<char>>) -> Seq<Seq<char>>
    decreases cs.len(),
{
    if cs.len() == 0 {
        Seq::<Seq<char>>::empty()
    } else {
        let r = norm_comps(cs.drop_last());
        let c = cs.last();
        if c == (".")@ {
            r
        } else if c == ("..")@ {
            if r.len() > 0 {
                r.drop_last()
            } else {
                r
            }
        } else {
            r.push(c)
        }
    }
}

/// Join components with slashes, with a leading slash for an absolute
/// path.
pub open spec fn join_spec(abs: bool, cs: Seq<Seq<char>>) -> Seq<char>
    decreases cs.len(),
{
    if cs.len() == 0 {
        if abs {
            seq!['/']
        } else {
            Seq::<char>::empty()
        }
    } else if cs.len() == 1 {
        (if abs {
            seq!['/']
        } else {
            Seq::<char>::empty()
        }) + cs[0]
    } else {
        join_spec(abs, cs.drop_last()) + seq!['/'] + cs.last()
    }
}

/// One component list is a prefix of another.
pub open spec fn comps_prefix(d: Seq<Seq<char>>, p: Seq<Seq<char>>) -> bool {
    d.len() <= p.len() && p.take(d.len() as int) == d
}

/// Split a path into its slash-separated components.
pub fn path_components(path: &str) -> (r: Vec<String>)
    ensures
        crate::worddiff::views_of(r@) == comps_spec(path@),
{
    let len = path.unicode_len();
    let mut r: Vec<String> = Vec::new();
    let mut i: usize = 0;
    proof {
        assert(crate::worddiff::views_of(r@) =~= comps_spec(path@.take(0)));
    }
    while i < len
        invariant
            0 <= i <= len,
            len == path@.len(),
            i == len || i == 0 || path@[i - 1] == '/' || path@[i as int] == '/',
            crate::worddiff::views_of(r@) == comps_spec(path@.take(i as int)),
        decreases len - i,
    {
        let c = path.get_char(i);
        if c == '/' {
            i += 1;
            proof {
                assert(path@.take(i as int).drop_last() =~= path@.take(i - 1));
                assert(path@.take(i as int).last() == path@[i - 1]);
            }
        } else {
            let start = i;
            let mut j = i + 1;
            let ghost base = r@;
            proof {
                assert(path@.take(j as int).drop_last() =~= path@.take(start as int));
                assert(path@.take(j as int).last() == path@[start as int]);
                assert(path@.subrange(start as int, j as int) =~= seq![path@[start as int]]);
                assert(comps_spec(path@.take(j as int)) == crate::worddiff::views_of(base).push(
                    path@.subrange(start as int, j as int),
                ));
            }
            while j < len && path.get_char(j) != '/'
                invariant
                    start < j <= len,
                    len == path@.len(),
                    start == 0 || path@[start - 1] == '/',
                    forall|q: int| start <= q < j ==> #[trigger] path@[q] != '/',
                    comps_spec(path@.take(j as int)) == crate::worddiff::views_of(base).push(
                        path@.subrange(start as int, j as int),
                    ),
                decreases len - j,
            {
                j += 1;
                proof {
                    assert(path@.take(j as int).drop_last() =~= path@.take(j - 1));
                    assert(path@.take(j as int).last() == path@[j - 1]);
                    let prev = comps_spec(path@.take(j - 1));
                    assert(prev == crate::worddiff::views_of(base).push(
                        path@.subrange(start as int, j - 1),
                    ));
                    assert(path@[j - 2] != '/');
                    assert(prev.last() == path@.subrange(start as int, j - 1));
                    assert(prev.update(prev.len() - 1, prev.last().push(path@[j - 1])) =~=
                        crate::worddiff::views_of(base).push(
                        path@.subrange(start as int, j as int),
                    )) by {
                        assert(path@.subrange(start as int, j - 1).push(path@[j - 1]) =~= path@
                            .subrange(start as int, j as int));
                    }
                }
            }
            r.push(path.substring_char(start, j).to_owned());
            i = j;
            proof {
                assert(crate::worddiff::views_of(r@) =~= crate::worddiff::views_of(base).push(
                    path@.subrange(start as int, j as int),
                ));
            }
        }
    }
    proof {
        assert(path@.take(len as int) =~= path@);
    }
    r
}

/// Resolve `.` and `..` in a component list.
fn normalize_components(comps: &Vec<String>) -> (r: Vec<String>)
    ensures
        crate::worddiff::views_of(r@) == norm_comps(crate::worddiff::views_of(comps@)),
{
    let mut r: Vec<String> = Vec::new();
    let mut k: usize = 0;
    let ghost cv = crate::worddiff::views_of(comps@);
    proof {
        assert(crate::worddiff::views_of(r@) =~= norm_comps(cv.take(0)));
    }
    while k < comps.len()
        invariant
            0 <= k <= comps@.len(),
            cv == crate::worddiff::views_of(comps@),
            crate::worddiff::views_of(r@) == norm_comps(cv.take(k as int)),
        decreases comps@.len() - k,
    {
        proof {
            assert(cv.take(k + 1).drop_last() =~= cv.take(k as int));
            assert(cv.take(k + 1).last() == cv[k as int]);
            reveal_strlit(".");
            reveal_strlit("..");
        }
        if str_eq(comps[k].as_str(), ".") {
        } else if str_eq(comps[k].as_str(), "..") {
            if r.len() > 0 {
                let ghost pre = crate::worddiff::views_of(r@);
                r.pop();
                proof {
                    assert(crate::worddiff::views_of(r@) =~= pre.drop_last());
                }
            }
        } else {
            let ghost pre = crate::worddiff::views_of(r@);
            r.push(comps[k].clone());
            proof {
                assert(crate::worddiff::views_of(r@) =~= pre.push(cv[k as int]));
            }
        }
        k += 1;
    }
    proof {
        assert(cv.take(cv.len() as int) =~= cv);
    }
    r
}

/// Join components back into a path string.
fn join_components(absolute: bool, comps: &Vec<String>) -> (r: String)
    ensures
        r@ == join_spec(absolute, crate::worddiff::views_of(comps@)),
{
    let ghost cv = crate::worddiff::views_of(comps@);
    let mut r = String::new();
    proof {
        reveal_strlit("/");
        assert(("/")@ =~= seq!['/']);
    }
    if absolute {
        r.append("/");
    }
    let mut k: usize = 0;
    proof {
        assert(r@ =~= join_spec(absolute, cv.take(0)));
    }
    while k < comps.len()
        invariant
            0 <= k <= comps@.len(),
            cv == crate::worddiff::views_of(comps@),
            ("/")@ == seq!['/'],
            r@ == join_spec(absolute, cv.take(k as int)),
        decreases comps@.len() - k,
    {
        if k > 0 {
            r.append("/");
        }
        r.append(comps[k].as_str());
        k += 1;
        proof {
            assert(cv.take(k as int).drop_last() =~= cv.take(k - 1));
            assert(cv.take(k as int).last() == cv[k - 1]);
            if k == 1 {
                assert(r@ =~= join_spec(absolute, cv.take(1)));
            } else {
                assert(r@ =~= join_spec(absolute, cv.take(k as int)));
            }
        }
    }
    proof {
        assert(cv.take(cv.len() as int) =~= cv);
    }
    r
}

/// Whether the path is absolute.
fn is_absolute(path: &str) -> (r: bool)
    ensures
        r == abs_spec(path@),
{
    path.unicode_len() > 0 && path.get_char(0) == '/'
}

/// Normalize a path: split it into components, resolve `.` and `..`,
/// and join what remains, keeping a leading slash.
pub fn normalize_path(path: &str) -> (r: String)
    ensures
        r@ == join_spec(abs_spec(path@), norm_comps(comps_spec(path@))),
{
    let absolute = is_absolute(path);
    let comps = path_components(path);
    let normed = normalize_components(&comps);
    join_components(absolute, &normed)
}

/// Resolve `relative` against `base`: an absolute `relative` stands
/// alone, anything else is appended to `base` and normalized.
pub fn resolve_path(base: &str, relative: &str) -> (r: String)
    ensures
        abs_spec(relative@) ==> r@ == relative@,
        !abs_spec(relative@) ==> r@ == join_spec(
            abs_spec(base@ + seq!['/'] + relative@),
            norm_comps(comps_spec(base@ + seq!['/'] + relative@)),
        ),
{
    if is_absolute(relative) {
        relative.to_owned()
    } else {
        let mut joined = base.to_owned();
        proof {
            reveal_strlit("/");
            assert(("/")@ =~= seq!['/']);
        }
        joined.append("/");
        joined.append(relative);
        proof {
            assert(joined@ =~= base@ + seq!['/'] + relative@);
        }
        normalize_path(joined.as_str())
    }
}

/// The relative components leading from `f` to `t` given their common
/// prefix length `p`: a step up for each component of `f` past the
/// prefix, then the rest of `t`.
pub open spec fn rel_comps_at(f: Seq<Seq<char>>, t: Seq<Seq<char>>, p: int) -> Seq<Seq<char>> {
    Seq::new(if f.len() >= p { (f.len() - p) as nat } else { 0 }, |k: int| ("..")@) + t.skip(p)
}

/// The relative path from one normalized location to another: steps up
/// past the common prefix of the normalized components, then down the
/// rest; paths of distinct absoluteness share no prefix.
pub fn relative_path(from: &str, to: &str) -> (r: Option<String>)
    ensures
        r matches Some(s) && s@ == join_spec(
            false,
            rel_comps_at(
                norm_comps(comps_spec(from@)),
                norm_comps(comps_spec(to@)),
                if abs_spec(from@) == abs_spec(to@) {
                    lcp_units(norm_comps(comps_spec(from@)), norm_comps(comps_spec(to@))) as int
                } else {
                    0
                },
            ),
        ),
{
    let fc = normalize_components(&path_components(from));
    let tc = normalize_components(&path_components(to));
    let ghost fv = crate::worddiff::views_of(fc@);
    let ghost tv = crate::worddiff::views_of(tc@);
    let same_kind = is_absolute(from) == is_absolute(to);
    let min = if fc.len() < tc.len() {
        fc.len()
    } else {
        tc.len()
    };
    let mut p: usize = 0;
    if same_kind {
        while p < min && str_eq(fc[p].as_str(), tc[p].as_str())
            invariant
                0 <= p <= min,
                min == if fc@.len() < tc@.len() { fc@.len() as int } else { tc@.len() as int },
                fv == crate::worddiff::views_of(fc@),
                tv == crate::worddiff::views_of(tc@),
                forall|q: int| 0 <= q < p ==> fv[q] == tv[q],
            decreases min - p,
        {
            p += 1;
        }
        proof {
            crate::worddiff::lemma_lcp_from_scan(fv, tv, p as int);
        }
    }
    proof {
        assert(p <= fv.len() && p <= tv.len());
    }
    let mut result: Vec<String> = Vec::new();
    let mut k = p;
    while k < fc.len()
        invariant
            p <= k,
            k <= fv.len(),
            p <= fv.len(),
            p <= tv.len(),
            fv == crate::worddiff::views_of(fc@),
            crate::worddiff::views_of(result@) == Seq::new((k - p) as nat, |q: int| ("..")@),
        decreases fc@.len() - k,
    {
        let ghost pre = crate::worddiff::views_of(result@);
        result.push(("..").to_owned());
        k += 1;
        proof {
            assert(crate::worddiff::views_of(result@) =~= pre.push(("..")@));
            assert(pre.push(("..")@) =~= Seq::new((k - p) as nat, |q: int| ("..")@));
        }
    }
    let ghost dots = crate::worddiff::views_of(result@);
    let mut k2 = p;
    while k2 < tc.len()
        invariant
            p <= k2,
            k2 <= tv.len(),
            p <= tv.len(),
            tv == crate::worddiff::views_of(tc@),
            crate::worddiff::views_of(result@) == dots + tv.subrange(
                p as int,
                if k2 <= tv.len() { k2 as int } else { p as int },
            ),
        decreases tc@.len() - k2,
    {
        let ghost pre = crate::worddiff::views_of(result@);
        result.push(tc[k2].clone());
        k2 += 1;
        proof {
            assert(crate::worddiff::views_of(result@) =~= pre.push(tv[k2 - 1]));
            assert(pre.push(tv[k2 - 1]) =~= dots + tv.subrange(p as int, k2 as int));
        }
    }
    proof {
        assert(crate::worddiff::views_of(result@) =~= rel_comps_at(
            fv,
            tv,
            if same_kind { lcp_units(fv, tv) as int } else { 0 },
        )) by {
            assert(tv.subrange(p as int, tv.len() as int) =~= tv.skip(p as int));
        }
    }
    Some(join_components(false, &result))
}

/// Whether `path` lies inside `directory`, after normalizing both: same
/// absoluteness and the directory's components lead the path's.
pub fn is_inside(path: &str, directory: &str) -> (r: bool)
    ensures
        r == (abs_spec(path@) == abs_spec(directory@) && comps_prefix(
            norm_comps(comps_spec(directory@)),
            norm_comps(comps_spec(path@)),
        )),
{
    let pc = normalize_components(&path_components(path));
    let dc = normalize_components(&path_components(directory));
    let ghost pv = crate::worddiff::views_of(pc@);
    let ghost dv = crate::worddiff::views_of(dc@);
    if is_absolute(path) != is_absolute(directory) {
        return false;
    }
    if dc.len() > pc.len() {
        proof {
            assert(dv.len() == dc@.len() && pv.len() == pc@.len());
            assert(!comps_prefix(dv, pv));
        }
        return false;
    }
    let mut k: usize = 0;
    while k < dc.len()
        invariant
            0 <= k <= dv.len() <= pv.len(),
            pv == crate::worddiff::views_of(pc@),
            dv == crate::worddiff::views_of(dc@),
            pv == norm_comps(comps_spec(path@)),
            dv == norm_comps(comps_spec(directory@)),
            abs_spec(path@) == abs_spec(directory@),
            forall|q: int| 0 <= q < k ==> pv[q] == dv[q],
        decreases dv.len() - k,
    {
        if !str_eq(pc[k].as_str(), dc[k].as_str()) {
            proof {
                assert(pv[k as int] != dv[k as int]);
                assert(!comps_prefix(dv, pv)) by {
                    if comps_prefix(dv, pv) {
                        assert(pv.take(dv.len() as int)[k as int] == dv[k as int]);
                        assert(pv.take(dv.len() as int)[k as int] == pv[k as int]);
                    }
                }
            }
            return false;
        }
        k += 1;
    }
    proof {
        assert(pv.take(dv.len() as int) =~= dv);
    }
    true
}

/// The extension of a path: the text after the last dot of the final
/// component, unless the dot starts the component or ends the path.
pub fn extension_str(path: &str) -> (r: Option<String>)
    ensures
        match r {
            Some(e) => {
                let dot = last_index_of(path@, '.');
                dot > last_index_of(path@, '/') + 1 && dot + 1 < path@.len() && e@ == path@
                    .subrange(dot + 1, path@.len() as int)
            },
            None => !(last_index_of(path@, '.') > last_index_of(path@, '/') + 1 && last_index_of(
                path@,
                '.',
            ) + 1 < path@.len()),
        },
{
    let len = path.unicode_len();
    proof {
        crate::highlight::lemma_last_index_bounds(path@, '/');
        crate::highlight::lemma_last_index_bounds(path@, '.');
    }
    let name_start = match crate::highlight::rfind_char(path, '/') {
        Some(i) => i + 1,
        None => 0,
    };
    let dot = match crate::highlight::rfind_char(path, '.') {
        Some(i) => i,
        None => {
            return None;
        },
    };
    if dot > name_start && dot + 1 < len {
        Some(path.substring_char(dot + 1, len).to_owned())
    } else {
        None
    }
}

} // verus!
