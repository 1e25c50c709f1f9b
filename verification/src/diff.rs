//! Line alignment between two files.
//!
//! `align_lines` computes an order-preserving correspondence between two
//! line lists: blank lines at identical positions are forced to match, a
//! longest-common-subsequence dynamic program aligns the rest, treating
//! two lines as a match when they are equal after normalization or when
//! their whitespace-split token sets overlap enough, and a final pass
//! reclassifies blank matched lines that trail a one-sided run.

use vstd::prelude::*;
use crate::text::{is_ws_char, is_blank_line, norm_spec, is_blank, norm_eq, str_eq};

verus! {

/// How a display line relates the two files.
#[derive(Clone, Copy, PartialEq, Eq, Debug)]
pub enum LineAlignment {
    /// Lines exist in both files at the given indices.
    Both(usize, usize),
    /// Line only exists in the source file.
    SourceOnly(usize),
    /// Line only exists in the destination file.
    DestOnly(usize),
}

/// The source indices that an op list mentions, in op order.
pub open spec fn src_seq(ops: Seq<LineAlignment>) -> Seq<int>
    decreases ops.len(),
{
    if ops.len() == 0 {
        Seq::<int>::empty()
    } else {
        src_seq(ops.drop_last()) + match ops.last() {
            LineAlignment::Both(s, _) => seq![s as int],
            LineAlignment::SourceOnly(s) => seq![s as int],
            LineAlignment::DestOnly(_) => Seq::<int>::empty(),
        }
    }
}

/// The destination indices that an op list mentions, in op order.
pub open spec fn dst_seq(ops: Seq<LineAlignment>) -> Seq<int>
    decreases ops.len(),
{
    if ops.len() == 0 {
        Seq::<int>::empty()
    } else {
        dst_seq(ops.drop_last()) + match ops.last() {
            LineAlignment::Both(_, d) => seq![d as int],
            LineAlignment::SourceOnly(_) => Seq::<int>::empty(),
            LineAlignment::DestOnly(d) => seq![d as int],
        }
    }
}

/// The integers from `lo` (inclusive) to `hi` (exclusive), in order.
pub open spec fn idx_range(lo: int, hi: int) -> Seq<int> {
    Seq::new(if hi >= lo { (hi - lo) as nat } else { 0 }, |k: int| lo + k)
}

/// The views of a list of lines.
pub open spec fn line_views(lines: Seq<String>) -> Seq<Seq<char>> {
    Seq::new(lines.len(), |i: int| lines[i]@)
}

/// `t` occupies `line[i..j)` as a maximal whitespace-delimited token.
pub open spec fn is_token_at(line: Seq<char>, t: Seq<char>, i: int, j: int) -> bool {
    0 <= i < j <= line.len()
        && t == line.subrange(i, j)
        && (forall|k: int| i <= k < j ==> !is_ws_char(#[trigger] line[k]))
        && (i == 0 || is_ws_char(line[i - 1]))
        && (j == line.len() || is_ws_char(line[j]))
}

/// `t` is one of the whitespace-delimited tokens of `line`.
pub open spec fn is_token_of(line: Seq<char>, t: Seq<char>) -> bool {
    exists|i: int, j: int| is_token_at(line, t, i, j)
}

/// The two lines have at least one whitespace-delimited token in common.
pub open spec fn shares_token(a: Seq<char>, b: Seq<char>) -> bool {
    exists|t: Seq<char>| is_token_of(a, t) && is_token_of(b, t)
}

/// What lets two lines stand as a matched pair: equal after
/// normalization — blank lines only at one and the same position — or
/// similar by token overlap.
pub open spec fn lines_match(src_v: Seq<Seq<char>>, dst_v: Seq<Seq<char>>, s: int, d: int) -> bool {
    (norm_spec(src_v[s]) == norm_spec(dst_v[d]) && (!is_blank_line(src_v[s]) || s == d))
        || similar_spec(src_v[s], dst_v[d])
}

/// What every op of an alignment satisfies: indices are in bounds, a
/// matched pair passes the match predicate — equal after normalization
/// or similar by token overlap — and a matched pair of blank lines sits
/// at one and the same position.
pub open spec fn align_op_ok(
    op: LineAlignment,
    src_v: Seq<Seq<char>>,
    dst_v: Seq<Seq<char>>,
) -> bool {
    match op {
        LineAlignment::Both(s, d) => {
            &&& s < src_v.len()
            &&& d < dst_v.len()
            &&& (norm_spec(src_v[s as int]) == norm_spec(dst_v[d as int])
                || shares_token(src_v[s as int], dst_v[d as int]))
            &&& lines_match(src_v, dst_v, s as int, d as int)
            &&& ((is_blank_line(src_v[s as int]) && is_blank_line(dst_v[d as int])) ==> s == d)
        },
        LineAlignment::SourceOnly(s) => s < src_v.len(),
        LineAlignment::DestOnly(d) => d < dst_v.len(),
    }
}

/// The maximal whitespace-free runs of a line, in order, built one
/// character at a time: whitespace ends a run, a word character extends
/// the run before it or starts a new one.
pub open spec fn tokens_of(s: Seq<char>) -> Seq<Seq<char>>
    decreases s.len(),
{
    if s.len() == 0 {
        Seq::<Seq<char>>::empty()
    } else {
        let rest = tokens_of(s.drop_last());
        let c = s.last();
        if is_ws_char(c) {
            rest
        } else if s.len() >= 2 && !is_ws_char(s[s.len() - 2]) {
            rest.update(rest.len() - 1, rest.last().push(c))
        } else {
            rest.push(seq![c])
        }
    }
}

/// The list with every later duplicate dropped.
pub open spec fn dedup_views(vs: Seq<Seq<char>>) -> Seq<Seq<char>>
    decreases vs.len(),
{
    if vs.len() == 0 {
        Seq::<Seq<char>>::empty()
    } else {
        let rest = dedup_views(vs.drop_last());
        if rest.contains(vs.last()) {
            rest
        } else {
            rest.push(vs.last())
        }
    }
}

/// How many entries of `a` appear in `b`.
pub open spec fn inter_count(a: Seq<Seq<char>>, b: Seq<Seq<char>>) -> int
    decreases a.len(),
{
    if a.len() == 0 {
        0
    } else {
        inter_count(a.drop_last(), b) + if b.contains(a.last()) {
            1int
        } else {
            0int
        }
    }
}

/// The similarity heuristic, exactly: two blank lines are similar, a
/// blank and a nonblank line are not, and two nonblank lines are
/// similar when more than thirty percent of the union of their
/// deduplicated token lists lies in the intersection.
pub open spec fn similar_spec(a: Seq<char>, b: Seq<char>) -> bool {
    if is_blank_line(a) && is_blank_line(b) {
        true
    } else if is_blank_line(a) || is_blank_line(b) {
        false
    } else {
        let ua = dedup_views(tokens_of(a));
        let ub = dedup_views(tokens_of(b));
        let inter = inter_count(ua, ub);
        let union = ua.len() + ub.len() - inter;
        union > 0 && 10 * inter > 3 * union
    }
}

/// Everything `align_lines` promises of its result in one predicate:
/// the coverage invariant on both index sequences and the per-op
/// conditions.
pub open spec fn alignment_ok(
    ops: Seq<LineAlignment>,
    src_v: Seq<Seq<char>>,
    dst_v: Seq<Seq<char>>,
) -> bool {
    &&& src_seq(ops) == idx_range(0, src_v.len() as int)
    &&& dst_seq(ops) == idx_range(0, dst_v.len() as int)
    &&& forall|k: int| 0 <= k < ops.len() ==> align_op_ok(#[trigger] ops[k], src_v, dst_v)
}

/// An op list has no more index-bearing entries than ops.
pub proof fn lemma_seq_lens_le(ops: Seq<LineAlignment>)
    ensures
        src_seq(ops).len() <= ops.len(),
        dst_seq(ops).len() <= ops.len(),
        src_seq(ops).len() + dst_seq(ops).len() >= ops.len(),
    decreases ops.len(),
{
    if ops.len() == 0 {
    } else {
        lemma_seq_lens_le(ops.drop_last());
    }
}

/// A forced blank pair at position `i` survives in the alignment either
/// as the matched pair itself or, when and only when reclassified behind
/// a one-sided op, as an adjacent one-sided pair right after that op.
pub open spec fn forced_pair_in(ops: Seq<LineAlignment>, i: int) -> bool {
    exists|k: int|
        0 <= k < ops.len() && ((#[trigger] ops[k]) == LineAlignment::Both(i as usize, i as usize)
            || (k + 1 < ops.len() && k >= 1 && !(ops[k - 1] is Both) && ((ops[k]
            == LineAlignment::SourceOnly(i as usize) && ops[k + 1] == LineAlignment::DestOnly(
            i as usize,
        )) || (ops[k] == LineAlignment::DestOnly(i as usize) && ops[k + 1]
            == LineAlignment::SourceOnly(i as usize)))))
}

/// The first `p` ops are all matched pairs.
pub open spec fn all_both_prefix(ops: Seq<LineAlignment>, p: int) -> bool {
    forall|q: int| 0 <= q < p ==> (#[trigger] ops[q]) is Both
}

/// No blank matched pair stands right after a one-sided op: the
/// trailing-blank pass has reclassified every such pair.
pub open spec fn no_blank_match_after_one_sided(
    ops: Seq<LineAlignment>,
    src_v: Seq<Seq<char>>,
    dst_v: Seq<Seq<char>>,
) -> bool {
    forall|k: int|
        0 <= k && k + 1 < ops.len() && !((#[trigger] ops[k]) is Both) ==> (match ops[k + 1] {
            LineAlignment::Both(s, d) => !(is_blank_line(src_v[s as int]) && is_blank_line(
                dst_v[d as int],
            )),
            _ => true,
        })
}

/// How many positions from `k` on carry lines that the match predicate
/// pairs up on the diagonal.
pub open spec fn diag_prefix_len(src_v: Seq<Seq<char>>, dst_v: Seq<Seq<char>>, k: int) -> int
    decreases src_v.len() - k,
{
    if 0 <= k && k < src_v.len() && k < dst_v.len() && lines_match(src_v, dst_v, k, k) {
        1 + diag_prefix_len(src_v, dst_v, k + 1)
    } else {
        0
    }
}

/// The smaller of two integers.
pub open spec fn min2(a: int, b: int) -> int {
    if a <= b {
        a
    } else {
        b
    }
}

/// The diagonal run from `lo`, capped at `cap` positions.
pub open spec fn diag_cap(src_v: Seq<Seq<char>>, dst_v: Seq<Seq<char>>, lo: int, cap: int) -> int {
    min2(diag_prefix_len(src_v, dst_v, lo), cap)
}

pub proof fn lemma_diag_bounds(src_v: Seq<Seq<char>>, dst_v: Seq<Seq<char>>, k: int)
    requires
        0 <= k,
    ensures
        0 <= diag_prefix_len(src_v, dst_v, k),
        k + diag_prefix_len(src_v, dst_v, k) <= src_v.len() || diag_prefix_len(src_v, dst_v, k)
            == 0,
        k + diag_prefix_len(src_v, dst_v, k) <= dst_v.len() || diag_prefix_len(src_v, dst_v, k)
            == 0,
    decreases src_v.len() - k,
{
    if 0 <= k && k < src_v.len() && k < dst_v.len() && lines_match(src_v, dst_v, k, k) {
        lemma_diag_bounds(src_v, dst_v, k + 1);
    }
}

proof fn lemma_diag_members(src_v: Seq<Seq<char>>, dst_v: Seq<Seq<char>>, k: int, q: int)
    requires
        0 <= k <= q,
        q < k + diag_prefix_len(src_v, dst_v, k),
    ensures
        q < src_v.len(),
        q < dst_v.len(),
        lines_match(src_v, dst_v, q, q),
    decreases q - k,
{
    lemma_diag_bounds(src_v, dst_v, k);
    if q == k {
    } else {
        lemma_diag_members(src_v, dst_v, k + 1, q);
    }
}

proof fn lemma_diag_shift(src_v: Seq<Seq<char>>, dst_v: Seq<Seq<char>>, a: int, k: int)
    requires
        0 <= a <= k,
        k <= a + diag_prefix_len(src_v, dst_v, a),
    ensures
        diag_prefix_len(src_v, dst_v, k) == a + diag_prefix_len(src_v, dst_v, a) - k,
    decreases k - a,
{
    if k == a {
    } else {
        lemma_diag_shift(src_v, dst_v, a + 1, k);
    }
}

/// A list whose ops are all matched pairs mentions one source and one
/// destination index per op.
proof fn lemma_both_lens(ops: Seq<LineAlignment>)
    requires
        all_both_prefix(ops, ops.len() as int),
    ensures
        src_seq(ops).len() == ops.len(),
        dst_seq(ops).len() == ops.len(),
    decreases ops.len(),
{
    if ops.len() == 0 {
    } else {
        assert(all_both_prefix(ops.drop_last(), ops.drop_last().len() as int)) by {
            assert(forall|q: int|
                0 <= q < ops.len() - 1 ==> #[trigger] ops.drop_last()[q] == ops[q]);
        }
        lemma_both_lens(ops.drop_last());
        assert(ops[ops.len() - 1] is Both);
    }
}

/// If the first `m` ops are matched pairs and the whole list carries
/// only `m` indices per side, nothing follows them.
proof fn lemma_all_both_exact(ops: Seq<LineAlignment>, m: int)
    requires
        0 <= m <= ops.len(),
        all_both_prefix(ops, m),
        src_seq(ops).len() == m,
        dst_seq(ops).len() == m,
    ensures
        ops.len() == m,
{
    assert(ops =~= ops.take(m) + ops.skip(m));
    lemma_src_seq_concat(ops.take(m), ops.skip(m));
    assert(all_both_prefix(ops.take(m), m)) by {
        assert(forall|q: int| 0 <= q < m ==> #[trigger] ops.take(m)[q] == ops[q]);
    }
    lemma_both_lens(ops.take(m));
    lemma_seq_lens_le(ops.skip(m));
    assert(src_seq(ops.skip(m)).len() == 0);
    assert(dst_seq(ops.skip(m)).len() == 0);
}

proof fn lemma_src_seq_push(ops: Seq<LineAlignment>, op: LineAlignment)
    ensures
        src_seq(ops.push(op)) == src_seq(ops) + match op {
            LineAlignment::Both(s, _) => seq![s as int],
            LineAlignment::SourceOnly(s) => seq![s as int],
            LineAlignment::DestOnly(_) => Seq::<int>::empty(),
        },
        dst_seq(ops.push(op)) == dst_seq(ops) + match op {
            LineAlignment::Both(_, d) => seq![d as int],
            LineAlignment::SourceOnly(_) => Seq::<int>::empty(),
            LineAlignment::DestOnly(d) => seq![d as int],
        },
{
    assert(ops.push(op).drop_last() =~= ops);
    assert(ops.push(op).last() == op);
}

proof fn lemma_src_seq_concat(a: Seq<LineAlignment>, b: Seq<LineAlignment>)
    ensures
        src_seq(a + b) == src_seq(a) + src_seq(b),
        dst_seq(a + b) == dst_seq(a) + dst_seq(b),
    decreases b.len(),
{
    if b.len() == 0 {
        assert(a + b =~= a);
        assert(src_seq(a) + src_seq(b) =~= src_seq(a));
        assert(dst_seq(a) + dst_seq(b) =~= dst_seq(a));
    } else {
        lemma_src_seq_concat(a, b.drop_last());
        assert((a + b).drop_last() =~= a + b.drop_last());
        assert((a + b).last() == b.last());
        assert(b.drop_last().push(b.last()) =~= b);
        lemma_src_seq_push(b.drop_last(), b.last());
        assert(src_seq(a + b) =~= src_seq(a) + src_seq(b));
        assert(dst_seq(a + b) =~= dst_seq(a) + dst_seq(b));
    }
}

/// Per-line data the aligner precomputes: the line itself, whether it is
/// blank, and its whitespace-delimited tokens.
struct LineData {
    text: String,
    blank: bool,
    tokens: Vec<String>,
}

/// The precomputed data describes `line`.
spec fn data_ok(d: LineData, line: Seq<char>) -> bool {
    &&& d.text@ == line
    &&& d.blank == is_blank_line(line)
    &&& forall|k: int| 0 <= k < d.tokens@.len() ==> is_token_of(line, #[trigger] d.tokens@[k]@)
    &&& crate::worddiff::views_of(d.tokens@) == tokens_of(line)
}

/// Split a line into its maximal whitespace-delimited tokens.
fn token_list(s: &str) -> (ts: Vec<String>)
    ensures
        forall|k: int| 0 <= k < ts@.len() ==> is_token_of(s@, #[trigger] ts@[k]@),
        crate::worddiff::views_of(ts@) == tokens_of(s@),
{
    let len = s.unicode_len();
    let mut ts: Vec<String> = Vec::new();
    let mut i: usize = 0;
    proof {
        assert(crate::worddiff::views_of(ts@) =~= tokens_of(s@.take(0)));
    }
    while i < len
        invariant
            0 <= i <= len,
            len == s@.len(),
            i == len || i == 0 || is_ws_char(s@[i - 1]) || is_ws_char(s@[i as int]),
            forall|k: int| 0 <= k < ts@.len() ==> is_token_of(s@, #[trigger] ts@[k]@),
            crate::worddiff::views_of(ts@) == tokens_of(s@.take(i as int)),
        decreases len - i,
    {
        if crate::text::is_whitespace_char(s.get_char(i)) {
            i += 1;
            proof {
                assert(s@.take(i as int).drop_last() =~= s@.take(i - 1));
                assert(s@.take(i as int).last() == s@[i - 1]);
            }
        } else {
            // The start of a token: its left boundary is the line start or
            // a whitespace character.
            let start = i;
            let mut j = i + 1;
            let ghost base = ts@;
            proof {
                assert(s@.take(j as int).drop_last() =~= s@.take(start as int));
                assert(s@.take(j as int).last() == s@[start as int]);
                assert(s@.subrange(start as int, j as int) =~= seq![s@[start as int]]);
                assert(tokens_of(s@.take(j as int)) == crate::worddiff::views_of(base).push(
                    s@.subrange(start as int, j as int),
                ));
            }
            while j < len && !crate::text::is_whitespace_char(s.get_char(j))
                invariant
                    start < j <= len,
                    len == s@.len(),
                    start == 0 || is_ws_char(s@[start - 1]),
                    forall|k: int| start <= k < j ==> !is_ws_char(#[trigger] s@[k]),
                    tokens_of(s@.take(j as int)) == crate::worddiff::views_of(base).push(
                        s@.subrange(start as int, j as int),
                    ),
                decreases len - j,
            {
                j += 1;
                proof {
                    assert(s@.take(j as int).drop_last() =~= s@.take(j - 1));
                    assert(s@.take(j as int).last() == s@[j - 1]);
                    let prev = tokens_of(s@.take(j - 1));
                    assert(prev == crate::worddiff::views_of(base).push(
                        s@.subrange(start as int, j - 1),
                    ));
                    assert(!is_ws_char(s@[j - 2]));
                    assert(prev.last() == s@.subrange(start as int, j - 1));
                    assert(prev.update(prev.len() - 1, prev.last().push(s@[j - 1])) =~=
                        crate::worddiff::views_of(base).push(
                        s@.subrange(start as int, j as int),
                    )) by {
                        assert(s@.subrange(start as int, j - 1).push(s@[j - 1]) =~= s@.subrange(
                            start as int,
                            j as int,
                        ));
                    }
                }
            }
            let tok = s.substring_char(start, j).to_owned();
            proof {
                assert(is_token_at(s@, tok@, start as int, j as int));
            }
            ts.push(tok);
            i = j;
            proof {
                assert(crate::worddiff::views_of(ts@) =~= crate::worddiff::views_of(base).push(
                    s@.subrange(start as int, j as int),
                ));
            }
        }
    }
    proof {
        assert(s@.take(len as int) =~= s@);
    }
    ts
}

/// Split a string into its maximal whitespace-delimited words.
pub fn split_ws_words(s: &str) -> (ts: Vec<String>)
    ensures
        forall|k: int| 0 <= k < ts@.len() ==> is_token_of(s@, #[trigger] ts@[k]@),
        crate::worddiff::views_of(ts@) == tokens_of(s@),
{
    token_list(s)
}

/// Precompute the aligner's per-line data.
fn make_line_data(s: &String) -> (d: LineData)
    ensures
        data_ok(d, s@),
{
    LineData { text: s.clone(), blank: is_blank(s.as_str()), tokens: token_list(s.as_str()) }
}

/// Whether some element of `list` has the view of `t`.
fn contains_tok(list: &Vec<String>, t: &String) -> (r: bool)
    ensures
        r == exists|k: int| 0 <= k < list@.len() && #[trigger] list@[k]@ == t@,
{
    let mut k: usize = 0;
    while k < list.len()
        invariant
            0 <= k <= list@.len(),
            forall|q: int| 0 <= q < k ==> #[trigger] list@[q]@ != t@,
        decreases list@.len() - k,
    {
        if str_eq(list[k].as_str(), t.as_str()) {
            return true;
        }
        k += 1;
    }
    false
}

/// `t` is the view of some element of `list`.
spec fn view_in(t: Seq<char>, list: Seq<String>) -> bool {
    exists|j: int| 0 <= j < list.len() && (#[trigger] list[j])@ == t
}

/// Drop duplicate tokens, keeping first occurrences.
fn dedup_toks(list: &Vec<String>) -> (u: Vec<String>)
    ensures
        forall|k: int| 0 <= k < u@.len() ==> view_in((#[trigger] u@[k])@, list@),
        forall|k1: int, k2: int| 0 <= k1 < k2 < u@.len() ==> u@[k1]@ != u@[k2]@,
        crate::worddiff::views_of(u@) == dedup_views(crate::worddiff::views_of(list@)),
{
    let ghost lv = crate::worddiff::views_of(list@);
    let mut u: Vec<String> = Vec::new();
    let mut i: usize = 0;
    proof {
        assert(crate::worddiff::views_of(u@) =~= dedup_views(lv.take(0)));
    }
    while i < list.len()
        invariant
            0 <= i <= list@.len(),
            lv == crate::worddiff::views_of(list@),
            forall|k: int| 0 <= k < u@.len() ==> view_in((#[trigger] u@[k])@, list@),
            forall|k1: int, k2: int| 0 <= k1 < k2 < u@.len() ==> u@[k1]@ != u@[k2]@,
            crate::worddiff::views_of(u@) == dedup_views(lv.take(i as int)),
        decreases list@.len() - i,
    {
        proof {
            assert(lv.take(i + 1).drop_last() =~= lv.take(i as int));
            assert(lv.take(i + 1).last() == lv[i as int]);
        }
        let present = contains_tok(&u, &list[i]);
        proof {
            assert(present == crate::worddiff::views_of(u@).contains(lv[i as int])) by {
                if present {
                    let k = choose|k: int|
                        0 <= k < u@.len() && (#[trigger] u@[k])@ == list@[i as int]@;
                    assert(crate::worddiff::views_of(u@)[k] == lv[i as int]);
                }
                if crate::worddiff::views_of(u@).contains(lv[i as int]) {
                    let k = choose|k: int|
                        0 <= k < u@.len() && crate::worddiff::views_of(u@)[k] == lv[i as int];
                    assert(u@[k]@ == list@[i as int]@);
                }
            }
        }
        if !present {
            let ghost u0 = u@;
            u.push(list[i].clone());
            proof {
                assert(u@[u@.len() - 1]@ == list@[i as int]@);
                assert(view_in(u@[u@.len() - 1]@, list@));
                assert(crate::worddiff::views_of(u@) =~= crate::worddiff::views_of(u0).push(
                    lv[i as int],
                ));
            }
        }
        i += 1;
        proof {
            assert(crate::worddiff::views_of(u@) =~= dedup_views(lv.take(i as int)));
        }
    }
    proof {
        assert(lv.take(lv.len() as int) =~= lv);
    }
    u
}

/// The similarity heuristic: more than 30 percent of the union of the two
/// lines' token sets lies in their intersection. A `true` answer on two
/// lines that are not both blank means they share a token.
fn similar_lines(
    a: &LineData,
    b: &LineData,
    Ghost(la): Ghost<Seq<char>>,
    Ghost(lb): Ghost<Seq<char>>,
) -> (r: bool)
    requires
        data_ok(*a, la),
        data_ok(*b, lb),
    ensures
        r ==> (is_blank_line(la) && is_blank_line(lb)) || shares_token(la, lb),
        r == similar_spec(la, lb),
{
    if a.blank && b.blank {
        return true;
    }
    if a.blank || b.blank {
        return false;
    }
    let ua = dedup_toks(&a.tokens);
    let ub = dedup_toks(&b.tokens);
    proof {
        assert forall|q: int| 0 <= q < ua@.len() implies is_token_of(la, (#[trigger] ua@[q])@) by {
            let j = choose|j: int| 0 <= j < a.tokens@.len() && (#[trigger] a.tokens@[j])@ == ua@[q]@;
            assert(is_token_of(la, a.tokens@[j]@));
        }
        assert forall|q: int| 0 <= q < ub@.len() implies is_token_of(lb, (#[trigger] ub@[q])@) by {
            let j = choose|j: int| 0 <= j < b.tokens@.len() && (#[trigger] b.tokens@[j])@ == ub@[q]@;
            assert(is_token_of(lb, b.tokens@[j]@));
        }
    }
    let mut inter: usize = 0;
    let ghost uav = crate::worddiff::views_of(ua@);
    let ghost ubv = crate::worddiff::views_of(ub@);
    let mut k: usize = 0;
    proof {
        assert(inter as int == inter_count(uav.take(0), ubv));
    }
    while k < ua.len()
        invariant
            0 <= k <= ua@.len(),
            inter <= k,
            uav == crate::worddiff::views_of(ua@),
            ubv == crate::worddiff::views_of(ub@),
            forall|q: int| 0 <= q < ua@.len() ==> is_token_of(la, #[trigger] ua@[q]@),
            forall|q: int| 0 <= q < ub@.len() ==> is_token_of(lb, #[trigger] ub@[q]@),
            inter > 0 ==> shares_token(la, lb),
            inter as int == inter_count(uav.take(k as int), ubv),
        decreases ua@.len() - k,
    {
        proof {
            assert(uav.take(k + 1).drop_last() =~= uav.take(k as int));
            assert(uav.take(k + 1).last() == uav[k as int]);
        }
        let hit = contains_tok(&ub, &ua[k]);
        proof {
            assert(hit == ubv.contains(uav[k as int])) by {
                if hit {
                    let j = choose|j: int|
                        0 <= j < ub@.len() && (#[trigger] ub@[j])@ == ua@[k as int]@;
                    assert(ubv[j] == uav[k as int]);
                }
                if ubv.contains(uav[k as int]) {
                    let j = choose|j: int| 0 <= j < ubv.len() && #[trigger] ubv[j] == uav[
                        k as int];
                    assert(ub@[j]@ == ua@[k as int]@);
                }
            }
        }
        if hit {
            proof {
                let j = choose|j: int| 0 <= j < ub@.len() && #[trigger] ub@[j]@ == ua@[k as int]@;
                assert(is_token_of(lb, ua@[k as int]@));
                assert(shares_token(la, lb)) by {
                    let t = ua@[k as int]@;
                    assert(is_token_of(la, t) && is_token_of(lb, t));
                }
            }
            inter += 1;
        }
        k += 1;
    }
    proof {
        assert(uav.take(uav.len() as int) =~= uav);
        assert(uav == dedup_views(tokens_of(la)));
        assert(ubv == dedup_views(tokens_of(lb)));
    }
    let na = ua.len() as u128;
    let nb = ub.len() as u128;
    let inter_w = inter as u128;
    let union_w = na + nb - inter_w;
    if union_w == 0 {
        proof {
            assert(uav.len() + ubv.len() - inter_count(uav, ubv) == 0);
        }
        return false;
    }
    if 10 * inter_w > 3 * union_w {
        proof {
            assert(inter > 0) by {
                if inter == 0 {
                    assert(10 * inter_w == 0);
                }
            }
            assert(10 * inter_count(uav, ubv) > 3 * (uav.len() + ubv.len() - inter_count(
                uav,
                ubv,
            )));
        }
        true
    } else {
        proof {
            assert(!(10 * inter_count(uav, ubv) > 3 * (uav.len() + ubv.len() - inter_count(
                uav,
                ubv,
            ))));
        }
        false
    }
}

/// The alignment holds `Both(i, i)`.
pub open spec fn contains_both(ops: Seq<LineAlignment>, i: int) -> bool {
    exists|k: int|
        0 <= k < ops.len() && #[trigger] ops[k] == LineAlignment::Both(i as usize, i as usize)
}

proof fn lemma_contains_both_extend(a: Seq<LineAlignment>, b: Seq<LineAlignment>, i: int)
    requires
        contains_both(a, i),
    ensures
        contains_both(a + b, i),
{
    let k = choose|k: int|
        0 <= k < a.len() && #[trigger] a[k] == LineAlignment::Both(i as usize, i as usize);
    assert((a + b)[k] == a[k]);
}

proof fn lemma_forced_pair_extend(a: Seq<LineAlignment>, b: Seq<LineAlignment>, i: int)
    requires
        forced_pair_in(a, i),
    ensures
        forced_pair_in(a + b, i),
{
    let k = choose|k: int|
        0 <= k < a.len() && ((#[trigger] a[k]) == LineAlignment::Both(i as usize, i as usize) || (k
            + 1 < a.len() && k >= 1 && !(a[k - 1] is Both) && ((a[k] == LineAlignment::SourceOnly(
            i as usize,
        ) && a[k + 1] == LineAlignment::DestOnly(i as usize)) || (a[k] == LineAlignment::DestOnly(
            i as usize,
        ) && a[k + 1] == LineAlignment::SourceOnly(i as usize)))));
    assert((a + b)[k] == a[k]);
    if k + 1 < a.len() {
        assert((a + b)[k + 1] == a[k + 1]);
    }
    if k >= 1 {
        assert((a + b)[k - 1] == a[k - 1]);
    }
}

proof fn lemma_seq_take_step(ops: Seq<LineAlignment>, k: int)
    requires
        0 <= k < ops.len(),
    ensures
        src_seq(ops.take(k + 1)) == src_seq(ops.take(k)) + match ops[k] {
            LineAlignment::Both(s, _) => seq![s as int],
            LineAlignment::SourceOnly(s) => seq![s as int],
            LineAlignment::DestOnly(_) => Seq::<int>::empty(),
        },
        dst_seq(ops.take(k + 1)) == dst_seq(ops.take(k)) + match ops[k] {
            LineAlignment::Both(_, d) => seq![d as int],
            LineAlignment::SourceOnly(_) => Seq::<int>::empty(),
            LineAlignment::DestOnly(d) => seq![d as int],
        },
{
    assert(ops.take(k + 1).drop_last() =~= ops.take(k));
    assert(ops.take(k + 1).last() == ops[k]);
}

/// Whether the pair of lines counts as a match for the dynamic program:
/// equal after normalization (blank lines only at one and the same
/// position), or similar enough by token overlap.
fn match_pred(
    src: &Vec<LineData>,
    dst: &Vec<LineData>,
    si: usize,
    dj: usize,
    Ghost(src_v): Ghost<Seq<Seq<char>>>,
    Ghost(dst_v): Ghost<Seq<Seq<char>>>,
) -> (r: bool)
    requires
        si < src@.len(),
        dj < dst@.len(),
        src@.len() == src_v.len(),
        dst@.len() == dst_v.len(),
        data_ok(src@[si as int], src_v[si as int]),
        data_ok(dst@[dj as int], dst_v[dj as int]),
    ensures
        r ==> (norm_spec(src_v[si as int]) == norm_spec(dst_v[dj as int]) || shares_token(
            src_v[si as int],
            dst_v[dj as int],
        )),
        r ==> ((is_blank_line(src_v[si as int]) && is_blank_line(dst_v[dj as int])) ==> si == dj),
        r ==> lines_match(src_v, dst_v, si as int, dj as int),
        (si == dj && lines_match(src_v, dst_v, si as int, dj as int)) ==> r,
{
    let a = &src[si];
    let b = &dst[dj];
    if norm_eq(a.text.as_str(), b.text.as_str()) {
        if a.blank {
            si == dj
        } else {
            proof {
                if is_blank_line(src_v[si as int]) {
                }
            }
            true
        }
    } else {
        let r = similar_lines(a, b, Ghost(src_v[si as int]), Ghost(dst_v[dj as int]));
        proof {
            if r && is_blank_line(src_v[si as int]) && is_blank_line(dst_v[dj as int]) {
                assert(norm_spec(src_v[si as int]) =~= norm_spec(dst_v[dj as int]));
            }
        }
        r
    }
}

/// A vector of `n` zeros.
fn zero_row(n: usize) -> (v: Vec<usize>)
    ensures
        v@.len() == n,
        forall|q: int| 0 <= q < n ==> v@[q] == 0,
{
    let mut v: Vec<usize> = Vec::new();
    let mut i: usize = 0;
    while i < n
        invariant
            0 <= i <= n,
            v@.len() == i,
            forall|q: int| 0 <= q < i ==> v@[q] == 0,
        decreases n - i,
    {
        v.push(0);
        i += 1;
    }
    v
}

/// Align `src[s_lo..s_hi)` against `dst[d_lo..d_hi)` with the dynamic
/// program, walking the table from the top left and preferring the match
/// diagonal whenever the match predicate allows it; on ties the source
/// side is consumed first.
fn lcs_chunk(
    src: &Vec<LineData>,
    dst: &Vec<LineData>,
    s_lo: usize,
    s_hi: usize,
    d_lo: usize,
    d_hi: usize,
    Ghost(src_v): Ghost<Seq<Seq<char>>>,
    Ghost(dst_v): Ghost<Seq<Seq<char>>>,
) -> (ops: Vec<LineAlignment>)
    requires
        s_lo <= s_hi <= src@.len(),
        d_lo <= d_hi <= dst@.len(),
        s_lo == d_lo,
        s_hi - s_lo < usize::MAX,
        d_hi - d_lo < usize::MAX,
        src@.len() == src_v.len(),
        dst@.len() == dst_v.len(),
        forall|q: int| 0 <= q < src@.len() ==> data_ok(#[trigger] src@[q], src_v[q]),
        forall|q: int| 0 <= q < dst@.len() ==> data_ok(#[trigger] dst@[q], dst_v[q]),
    ensures
        src_seq(ops@) == idx_range(s_lo as int, s_hi as int),
        dst_seq(ops@) == idx_range(d_lo as int, d_hi as int),
        forall|k: int| 0 <= k < ops@.len() ==> align_op_ok(#[trigger] ops@[k], src_v, dst_v),
        forall|t: int|
            0 <= t < diag_cap(src_v, dst_v, s_lo as int, min2(s_hi - s_lo, d_hi - d_lo))
                ==> ops@[t] == LineAlignment::Both((s_lo + t) as usize, (s_lo + t) as usize),
        ops@.len() >= diag_cap(src_v, dst_v, s_lo as int, min2(s_hi - s_lo, d_hi - d_lo)),
{
    let ls = s_hi - s_lo;
    let ld = d_hi - d_lo;
    let ghost dc = diag_cap(src_v, dst_v, s_lo as int, min2(ls as int, ld as int));
    proof {
        lemma_diag_bounds(src_v, dst_v, s_lo as int);
    }

    // Suffix-based table: rows_rev[k][j] is the value of the program for
    // the suffixes starting at source row ls - k and destination column j.
    let mut rows_rev: Vec<Vec<usize>> = Vec::new();
    rows_rev.push(zero_row(ld + 1));
    let mut fi: usize = ls;
    while fi > 0
        invariant
            0 <= fi <= ls,
            ls == s_hi - s_lo,
            ld == d_hi - d_lo,
            ls < usize::MAX,
            ld < usize::MAX,
            s_lo <= s_hi <= src@.len(),
            d_lo <= d_hi <= dst@.len(),
            src@.len() == src_v.len(),
            dst@.len() == dst_v.len(),
            forall|q: int| 0 <= q < src@.len() ==> data_ok(#[trigger] src@[q], src_v[q]),
            forall|q: int| 0 <= q < dst@.len() ==> data_ok(#[trigger] dst@[q], dst_v[q]),
            rows_rev@.len() == ls - fi + 1,
            forall|r: int| 0 <= r < rows_rev@.len() ==> (#[trigger] rows_rev@[r])@.len() == ld + 1,
            forall|r: int, q: int|
                0 <= r < rows_rev@.len() && 0 <= q < ld + 1 ==> (#[trigger] rows_rev@[r]@[q]) <= r,
        decreases fi,
    {
        fi -= 1;
        let i = fi;
        let k = ls - fi;
        let mut cur = zero_row(ld + 1);
        let mut j = ld;
        while j > 0
            invariant
                0 <= j <= ld,
                ls == s_hi - s_lo,
                ld == d_hi - d_lo,
                1 <= k <= ls,
                k == ls - fi,
                i == fi,
                s_lo <= s_hi <= src@.len(),
                d_lo <= d_hi <= dst@.len(),
                src@.len() == src_v.len(),
                dst@.len() == dst_v.len(),
                forall|q: int| 0 <= q < src@.len() ==> data_ok(#[trigger] src@[q], src_v[q]),
                forall|q: int| 0 <= q < dst@.len() ==> data_ok(#[trigger] dst@[q], dst_v[q]),
                rows_rev@.len() == k,
                forall|r: int| 0 <= r < k ==> (#[trigger] rows_rev@[r])@.len() == ld + 1,
                forall|r: int, q: int|
                    0 <= r < k && 0 <= q < ld + 1 ==> (#[trigger] rows_rev@[r]@[q]) <= r,
                cur@.len() == ld + 1,
                forall|q: int| 0 <= q < ld + 1 ==> (#[trigger] cur@[q]) <= k,
            decreases j,
    {
            j -= 1;
            let prev = &rows_rev[k - 1];
            let val: usize = if match_pred(src, dst, s_lo + i, d_lo + j, Ghost(src_v), Ghost(dst_v))
            {
                prev[j + 1] + 1
            } else {
                let a = prev[j];
                let b = cur[j + 1];
                if a >= b {
                    a
                } else {
                    b
                }
            };
            cur.set(j, val);
        }
        rows_rev.push(cur);
    }

    // Walk forward from the top-left corner, emitting ops in order.
    let mut ops: Vec<LineAlignment> = Vec::new();
    let mut i: usize = 0;
    let mut j: usize = 0;
    while i < ls || j < ld
        invariant
            0 <= i <= ls,
            0 <= j <= ld,
            ls == s_hi - s_lo,
            ld == d_hi - d_lo,
            s_lo <= s_hi <= src@.len(),
            d_lo <= d_hi <= dst@.len(),
            src@.len() == src_v.len(),
            dst@.len() == dst_v.len(),
            forall|q: int| 0 <= q < src@.len() ==> data_ok(#[trigger] src@[q], src_v[q]),
            forall|q: int| 0 <= q < dst@.len() ==> data_ok(#[trigger] dst@[q], dst_v[q]),
            rows_rev@.len() == ls + 1,
            forall|r: int| 0 <= r < ls + 1 ==> (#[trigger] rows_rev@[r])@.len() == ld + 1,
            src_seq(ops@) == idx_range(s_lo as int, s_lo + i),
            dst_seq(ops@) == idx_range(d_lo as int, d_lo + j),
            forall|q: int| 0 <= q < ops@.len() ==> align_op_ok(#[trigger] ops@[q], src_v, dst_v),
            s_lo == d_lo,
            dc == diag_cap(src_v, dst_v, s_lo as int, min2(ls as int, ld as int)),
            forall|t: int|
                0 <= t < ops@.len() && t < dc ==> #[trigger] ops@[t] == LineAlignment::Both(
                    (s_lo + t) as usize,
                    (s_lo + t) as usize,
                ),
            ops@.len() < dc ==> i == ops@.len() && j == ops@.len(),
        decreases (ls - i) + (ld - j),
    {
        let ghost old_ops = ops@;
        if i < ls && j < ld && match_pred(src, dst, s_lo + i, d_lo + j, Ghost(src_v), Ghost(dst_v))
        {
            let op = LineAlignment::Both(s_lo + i, d_lo + j);
            ops.push(op);
            proof {
                lemma_src_seq_push(old_ops, op);
                assert(src_seq(ops@) =~= idx_range(s_lo as int, s_lo + i + 1));
                assert(dst_seq(ops@) =~= idx_range(d_lo as int, d_lo + j + 1));
            }
            i += 1;
            j += 1;
        } else if i < ls && (j == ld || rows_rev[ls - i - 1][j] >= rows_rev[ls - i][j + 1]) {
            proof {
                if old_ops.len() < dc {
                    lemma_diag_members(src_v, dst_v, s_lo as int, s_lo + old_ops.len());
                    assert(false);
                }
            }
            let op = LineAlignment::SourceOnly(s_lo + i);
            ops.push(op);
            proof {
                lemma_src_seq_push(old_ops, op);
                assert(src_seq(ops@) =~= idx_range(s_lo as int, s_lo + i + 1));
                assert(dst_seq(ops@) =~= idx_range(d_lo as int, d_lo + j as int));
            }
            i += 1;
        } else {
            proof {
                if old_ops.len() < dc {
                    lemma_diag_members(src_v, dst_v, s_lo as int, s_lo + old_ops.len());
                    assert(false);
                }
            }
            let op = LineAlignment::DestOnly(d_lo + j);
            ops.push(op);
            proof {
                lemma_src_seq_push(old_ops, op);
                assert(src_seq(ops@) =~= idx_range(s_lo as int, s_lo + i as int));
                assert(dst_seq(ops@) =~= idx_range(d_lo as int, d_lo + j + 1));
            }
            j += 1;
        }
    }
    proof {
        assert(ops@.len() >= dc) by {
            if ops@.len() < dc {
            }
        }
    }
    ops
}

/// Reclassify a blank matched pair that immediately follows a one-sided
/// op as a one-sided pair of its own, so that a blank line trailing an
/// addition or removal renders as part of it.
fn absorb_trailing_blanks(
    input: Vec<LineAlignment>,
    src: &Vec<LineData>,
    dst: &Vec<LineData>,
    Ghost(src_v): Ghost<Seq<Seq<char>>>,
    Ghost(dst_v): Ghost<Seq<Seq<char>>>,
) -> (out: Vec<LineAlignment>)
    requires
        src@.len() == src_v.len(),
        dst@.len() == dst_v.len(),
        forall|q: int| 0 <= q < src@.len() ==> data_ok(#[trigger] src@[q], src_v[q]),
        forall|q: int| 0 <= q < dst@.len() ==> data_ok(#[trigger] dst@[q], dst_v[q]),
        forall|k: int| 0 <= k < input@.len() ==> align_op_ok(#[trigger] input@[k], src_v, dst_v),
    ensures
        src_seq(out@) == src_seq(input@),
        dst_seq(out@) == dst_seq(input@),
        forall|k: int| 0 <= k < out@.len() ==> align_op_ok(#[trigger] out@[k], src_v, dst_v),
        forall|i: int| contains_both(input@, i) ==> forced_pair_in(out@, i),
        no_blank_match_after_one_sided(out@, src_v, dst_v),
        forall|p: int|
            0 <= p <= input@.len() && #[trigger] all_both_prefix(input@, p) ==> out@.len() >= p
                && (forall|q: int| 0 <= q < p ==> out@[q] == input@[q]),
{
    let mut out: Vec<LineAlignment> = Vec::new();
    let mut last_src = false;
    let mut last_dst = false;
    let mut k: usize = 0;
    while k < input.len()
        invariant
            0 <= k <= input@.len(),
            src@.len() == src_v.len(),
            dst@.len() == dst_v.len(),
            forall|q: int| 0 <= q < src@.len() ==> data_ok(#[trigger] src@[q], src_v[q]),
            forall|q: int| 0 <= q < dst@.len() ==> data_ok(#[trigger] dst@[q], dst_v[q]),
            forall|q: int| 0 <= q < input@.len() ==> align_op_ok(
                #[trigger] input@[q],
                src_v,
                dst_v,
            ),
            src_seq(out@) == src_seq(input@.take(k as int)),
            dst_seq(out@) == dst_seq(input@.take(k as int)),
            forall|q: int| 0 <= q < out@.len() ==> align_op_ok(#[trigger] out@[q], src_v, dst_v),
            forall|i: int| contains_both(input@.take(k as int), i) ==> forced_pair_in(out@, i),
            last_src == (out@.len() > 0 && out@.last() is SourceOnly),
            last_dst == (out@.len() > 0 && out@.last() is DestOnly),
            no_blank_match_after_one_sided(out@, src_v, dst_v),
            all_both_prefix(input@, k as int) ==> out@.len() == k,
            forall|p: int|
                0 <= p <= k && #[trigger] all_both_prefix(input@, p) ==> out@.len() >= p && (
                forall|q: int| 0 <= q < p ==> out@[q] == input@[q]),
        decreases input@.len() - k,
    {
        let ghost old_out = out@;
        let op = input[k];
        proof {
            lemma_seq_take_step(input@, k as int);
        }
        match op {
            LineAlignment::Both(s, d) => {
                let blanks = src[s].blank && dst[d].blank;
                if blanks && (last_src || last_dst) {
                    let first = if last_src {
                        LineAlignment::SourceOnly(s)
                    } else {
                        LineAlignment::DestOnly(d)
                    };
                    let second = if last_src {
                        LineAlignment::DestOnly(d)
                    } else {
                        LineAlignment::SourceOnly(s)
                    };
                    proof {
                        assert(old_out.len() > 0 && !(old_out.last() is Both));
                    }
                    out.push(first);
                    let ghost mid_out = out@;
                    out.push(second);
                    last_src = !last_src;
                    last_dst = !last_dst;
                    proof {
                        lemma_src_seq_push(old_out, first);
                        lemma_src_seq_push(mid_out, second);
                        assert(s == d);
                        assert(src_seq(out@) =~= src_seq(input@.take(k + 1)));
                        assert(dst_seq(out@) =~= dst_seq(input@.take(k + 1)));
                        assert(forced_pair_in(out@, s as int)) by {
                            assert(out@[out@.len() - 2] == first);
                            assert(out@[out@.len() - 1] == second);
                            assert(out@[out@.len() - 3] == old_out.last());
                        }
                        assert(no_blank_match_after_one_sided(out@, src_v, dst_v)) by {
                            assert(forall|q: int|
                                0 <= q < old_out.len() ==> #[trigger] out@[q] == old_out[q]);
                        }
                    }
                } else {
                    out.push(op);
                    last_src = false;
                    last_dst = false;
                    proof {
                        lemma_src_seq_push(old_out, op);
                        assert(forced_pair_in(out@, s as int) || s != d) by {
                            if s == d {
                                assert(out@[out@.len() - 1] == LineAlignment::Both(s, d));
                            }
                        }
                        assert(no_blank_match_after_one_sided(out@, src_v, dst_v)) by {
                            assert(forall|q: int|
                                0 <= q < old_out.len() ==> #[trigger] out@[q] == old_out[q]);
                            if old_out.len() > 0 && !(old_out.last() is Both) {
                                assert(!(src[s as int].blank && dst[d as int].blank));
                            }
                        }
                    }
                }
            },
            LineAlignment::SourceOnly(s) => {
                out.push(op);
                last_src = true;
                last_dst = false;
                proof {
                    lemma_src_seq_push(old_out, op);
                    assert(no_blank_match_after_one_sided(out@, src_v, dst_v)) by {
                        assert(forall|q: int|
                            0 <= q < old_out.len() ==> #[trigger] out@[q] == old_out[q]);
                    }
                }
            },
            LineAlignment::DestOnly(d) => {
                out.push(op);
                last_src = false;
                last_dst = true;
                proof {
                    lemma_src_seq_push(old_out, op);
                    assert(no_blank_match_after_one_sided(out@, src_v, dst_v)) by {
                        assert(forall|q: int|
                            0 <= q < old_out.len() ==> #[trigger] out@[q] == old_out[q]);
                    }
                }
            },
        }
        k += 1;
        proof {
            assert forall|i: int| contains_both(input@.take(k as int), i) implies forced_pair_in(
                out@,
                i,
            ) by {
                let q = choose|q: int|
                    0 <= q < input@.take(k as int).len() && #[trigger] input@.take(k as int)[q]
                        == LineAlignment::Both(i as usize, i as usize);
                if q < k - 1 {
                    assert(contains_both(input@.take(k - 1), i));
                    assert(forced_pair_in(old_out, i));
                    assert(out@ =~= old_out + out@.skip(old_out.len() as int));
                    lemma_forced_pair_extend(old_out, out@.skip(old_out.len() as int), i);
                } else {
                    assert(input@[k - 1] == LineAlignment::Both(i as usize, i as usize));
                }
            }
            assert forall|p: int|
                0 <= p <= k && #[trigger] all_both_prefix(input@, p) implies out@.len() >= p && (
            forall|q: int| 0 <= q < p ==> out@[q] == input@[q]) by {
                if p == k {
                    assert(all_both_prefix(input@, k - 1));
                    assert(input@[k - 1] is Both);
                    assert(old_out.len() == k - 1);
                    assert(forall|q: int| 0 <= q < k - 1 ==> #[trigger] out@[q] == old_out[q]);
                } else {
                    assert(forall|q: int| 0 <= q < p ==> #[trigger] out@[q] == old_out[q]);
                }
            }
        }
    }
    proof {
        assert(input@.take(input@.len() as int) =~= input@);
    }
    out
}

/// Align the two line lists.
///
/// The source indices of `Both` and `SourceOnly` ops are exactly
/// `0..source.len()`, in order and once each; symmetrically for the
/// destination indices of `Both` and `DestOnly` ops. A matched pair is
/// either equal after normalization or shares a whitespace-delimited
/// token, matched blank lines sit at one and the same position, and a
/// blank pair at the same position inside the shared prefix survives as
/// a match or as an adjacent reclassified pair.
pub fn align_lines(source: &Vec<String>, dest: &Vec<String>) -> (r: Vec<LineAlignment>)
    requires
        source@.len() < usize::MAX,
        dest@.len() < usize::MAX,
    ensures
        alignment_ok(r@, line_views(source@), line_views(dest@)),
        src_seq(r@) == idx_range(0, source@.len() as int),
        dst_seq(r@) == idx_range(0, dest@.len() as int),
        forall|k: int| 0 <= k < r@.len() ==> align_op_ok(
            #[trigger] r@[k],
            line_views(source@),
            line_views(dest@),
        ),
        forall|i: int|
            0 <= i < source@.len() && i < dest@.len() && is_blank_line(source@[i]@)
                && is_blank_line(dest@[i]@) ==> forced_pair_in(r@, i),
        forall|q: int|
            0 <= q < diag_prefix_len(line_views(source@), line_views(dest@), 0)
                ==> #[trigger] r@[q] == LineAlignment::Both(q as usize, q as usize),
        no_blank_match_after_one_sided(r@, line_views(source@), line_views(dest@)),
{
    let ghost src_v = line_views(source@);
    let ghost dst_v = line_views(dest@);
    let n = source.len();
    let m = dest.len();
    let ghost dd = diag_prefix_len(src_v, dst_v, 0);
    proof {
        lemma_diag_bounds(src_v, dst_v, 0);
        assert(0 <= dd && dd <= n && dd <= m);
    }

    let mut src_data: Vec<LineData> = Vec::new();
    let mut idx: usize = 0;
    while idx < n
        invariant
            0 <= idx <= n,
            n == source@.len(),
            src_v == line_views(source@),
            src_data@.len() == idx,
            forall|q: int| 0 <= q < idx ==> data_ok(#[trigger] src_data@[q], src_v[q]),
        decreases n - idx,
    {
        src_data.push(make_line_data(&source[idx]));
        idx += 1;
    }
    let mut dst_data: Vec<LineData> = Vec::new();
    let mut jdx: usize = 0;
    while jdx < m
        invariant
            0 <= jdx <= m,
            m == dest@.len(),
            dst_v == line_views(dest@),
            dst_data@.len() == jdx,
            forall|q: int| 0 <= q < jdx ==> data_ok(#[trigger] dst_data@[q], dst_v[q]),
        decreases m - jdx,
    {
        dst_data.push(make_line_data(&dest[jdx]));
        jdx += 1;
    }

    let min_len = if n < m {
        n
    } else {
        m
    };
    let mut ops: Vec<LineAlignment> = Vec::new();
    let mut base: usize = 0;
    let mut f: usize = 0;
    while f < min_len
        invariant
            0 <= base <= f <= min_len,
            min_len == if n < m { n as int } else { m as int },
            n == source@.len(),
            m == dest@.len(),
            src_v == line_views(source@),
            dst_v == line_views(dest@),
            src_data@.len() == n,
            dst_data@.len() == m,
            forall|q: int| 0 <= q < n ==> data_ok(#[trigger] src_data@[q], src_v[q]),
            forall|q: int| 0 <= q < m ==> data_ok(#[trigger] dst_data@[q], dst_v[q]),
            src_seq(ops@) == idx_range(0, base as int),
            dst_seq(ops@) == idx_range(0, base as int),
            forall|q: int| 0 <= q < ops@.len() ==> align_op_ok(#[trigger] ops@[q], src_v, dst_v),
            forall|i: int|
                0 <= i < f && is_blank_line(src_v[i]) && is_blank_line(dst_v[i])
                    ==> contains_both(ops@, i),
            dd == diag_prefix_len(src_v, dst_v, 0),
            0 <= dd && dd <= n && dd <= m,
            ops@.len() >= base,
            base <= dd ==> ops@.len() == base && (forall|q: int|
                0 <= q < base ==> #[trigger] ops@[q] == LineAlignment::Both(
                    q as usize,
                    q as usize,
                )),
            base > dd ==> (forall|q: int|
                0 <= q < dd ==> #[trigger] ops@[q] == LineAlignment::Both(
                    q as usize,
                    q as usize,
                )),
        decreases min_len - f,
    {
        if src_data[f].blank && dst_data[f].blank {
            let ghost pre = ops@;
            let mut chunk = lcs_chunk(
                &src_data,
                &dst_data,
                base,
                f,
                base,
                f,
                Ghost(src_v),
                Ghost(dst_v),
            );
            let ghost chunk_v = chunk@;
            proof {
                lemma_src_seq_concat(pre, chunk_v);
            }
            ops.append(&mut chunk);
            let ghost mid = ops@;
            let op = LineAlignment::Both(f, f);
            ops.push(op);
            proof {
                lemma_src_seq_push(mid, op);
                assert(src_seq(ops@) =~= idx_range(0, f + 1));
                assert(dst_seq(ops@) =~= idx_range(0, f + 1));
                assert(ops@[ops@.len() - 1] == LineAlignment::Both(f, f));
                assert forall|i: int|
                    0 <= i < f + 1 && is_blank_line(src_v[i]) && is_blank_line(dst_v[i]) implies
                    contains_both(ops@, i) by {
                    if i < f {
                        lemma_contains_both_extend(pre, chunk_v.push(op), i);
                        assert(ops@ =~= pre + chunk_v.push(op));
                    } else {
                        assert(ops@[ops@.len() - 1] == LineAlignment::Both(
                            i as usize,
                            i as usize,
                        ));
                    }
                }
                assert(ops@ =~= pre + chunk_v.push(op));
                if base <= dd {
                    lemma_diag_shift(src_v, dst_v, 0, base as int);
                    if f as int == dd {
                        // The blank pair at `f` is norm-equal, so the
                        // diagonal cannot break exactly there.
                        lemma_diag_shift(src_v, dst_v, 0, dd);
                        assert(diag_prefix_len(src_v, dst_v, dd) == 0);
                        assert(0 <= dd && dd < src_v.len() && dd < dst_v.len());
                        assert(norm_spec(src_v[dd]) =~= norm_spec(dst_v[dd]));
                        assert(diag_prefix_len(src_v, dst_v, dd) == 1 + diag_prefix_len(
                            src_v,
                            dst_v,
                            dd + 1,
                        ));
                        lemma_diag_bounds(src_v, dst_v, dd + 1);
                        assert(false);
                    }
                    if (f as int) < dd {
                        assert(diag_cap(
                            src_v,
                            dst_v,
                            base as int,
                            min2((f - base) as int, (f - base) as int),
                        ) == f - base);
                        assert(all_both_prefix(chunk_v, (f - base) as int)) by {
                            assert forall|t: int| 0 <= t < f - base implies (#[trigger] chunk_v[t])
                                is Both by {
                                assert(chunk_v[t] == LineAlignment::Both(
                                    (base + t) as usize,
                                    (base + t) as usize,
                                ));
                            }
                        }
                        lemma_all_both_exact(chunk_v, (f - base) as int);
                        assert(ops@.len() == f + 1);
                        assert forall|q: int| 0 <= q < f + 1 implies #[trigger] ops@[q]
                            == LineAlignment::Both(q as usize, q as usize) by {
                            if q < base {
                                assert(ops@[q] == pre[q]);
                            } else if q < f {
                                assert(ops@[q] == chunk_v[q - base]);
                                assert(chunk_v[q - base] == LineAlignment::Both(
                                    (base + (q - base)) as usize,
                                    (base + (q - base)) as usize,
                                ));
                            } else {
                                assert(ops@[q] == op);
                            }
                        }
                    } else {
                        // The diagonal breaks inside this chunk.
                        assert(diag_cap(
                            src_v,
                            dst_v,
                            base as int,
                            min2((f - base) as int, (f - base) as int),
                        ) == dd - base);
                        assert(chunk_v.len() >= dd - base);
                        assert forall|q: int| 0 <= q < dd implies #[trigger] ops@[q]
                            == LineAlignment::Both(q as usize, q as usize) by {
                            if q < base {
                                assert(ops@[q] == pre[q]);
                            } else {
                                assert(chunk_v[q - base] == LineAlignment::Both(
                                    (base + (q - base)) as usize,
                                    (base + (q - base)) as usize,
                                ));
                                assert(ops@[q] == chunk_v[q - base]);
                            }
                        }
                    }
                } else {
                    lemma_seq_lens_le(pre);
                    assert(pre.len() >= base);
                    assert forall|q: int| 0 <= q < dd implies #[trigger] ops@[q]
                        == LineAlignment::Both(q as usize, q as usize) by {
                        assert(ops@[q] == pre[q]);
                    }
                }
                lemma_seq_lens_le(ops@);
                assert(ops@.len() >= f + 1);
            }
            base = f + 1;
        } else {
            proof {
                assert forall|i: int|
                    0 <= i < f + 1 && is_blank_line(src_v[i]) && is_blank_line(dst_v[i]) implies
                    contains_both(ops@, i) by {
                    if i == f {
                        assert(src_data@[f as int].blank);
                        assert(false);
                    }
                }
            }
        }
        f += 1;
    }

    let ghost pre = ops@;
    let mut chunk = lcs_chunk(&src_data, &dst_data, base, n, base, m, Ghost(src_v), Ghost(dst_v));
    let ghost chunk_v = chunk@;
    proof {
        lemma_src_seq_concat(pre, chunk_v);
    }
    ops.append(&mut chunk);
    proof {
        assert(src_seq(ops@) =~= idx_range(0, n as int));
        assert(dst_seq(ops@) =~= idx_range(0, m as int));
        assert forall|i: int|
            0 <= i < min_len && is_blank_line(src_v[i]) && is_blank_line(dst_v[i]) implies
            contains_both(ops@, i) by {
            lemma_contains_both_extend(pre, chunk_v, i);
            assert(ops@ =~= pre + chunk_v);
        }
        assert(ops@ =~= pre + chunk_v);
        if base <= dd {
            lemma_diag_shift(src_v, dst_v, 0, base as int);
            assert(diag_cap(src_v, dst_v, base as int, min2((n - base) as int, (m - base) as int))
                == dd - base);
            assert(chunk_v.len() >= dd - base);
            assert forall|q: int| 0 <= q < dd implies #[trigger] ops@[q] == LineAlignment::Both(
                q as usize,
                q as usize,
            ) by {
                if q < base {
                    assert(ops@[q] == pre[q]);
                } else {
                    assert(chunk_v[q - base] == LineAlignment::Both(
                        (base + (q - base)) as usize,
                        (base + (q - base)) as usize,
                    ));
                    assert(ops@[q] == chunk_v[q - base]);
                }
            }
        } else {
            lemma_seq_lens_le(pre);
            assert(pre.len() >= base);
            assert forall|q: int| 0 <= q < dd implies #[trigger] ops@[q] == LineAlignment::Both(
                q as usize,
                q as usize,
            ) by {
                assert(ops@[q] == pre[q]);
            }
        }
    }
    let ghost pre_absorb = ops@;
    let r = absorb_trailing_blanks(ops, &src_data, &dst_data, Ghost(src_v), Ghost(dst_v));
    proof {
        assert forall|i: int|
            0 <= i < source@.len() && i < dest@.len() && is_blank_line(source@[i]@)
                && is_blank_line(dest@[i]@) implies forced_pair_in(r@, i) by {
            assert(is_blank_line(src_v[i]) && is_blank_line(dst_v[i]));
        }
        // The diagonal prefix is all matched pairs, so the
        // reclassification pass leaves it alone.
        lemma_seq_lens_le(pre_absorb);
        assert(dd <= pre_absorb.len());
        assert(all_both_prefix(pre_absorb, dd)) by {
            assert forall|q: int| 0 <= q < dd implies (#[trigger] pre_absorb[q]) is Both by {
                assert(pre_absorb[q] == LineAlignment::Both(q as usize, q as usize));
            }
        }
        assert forall|q: int| 0 <= q < dd implies #[trigger] r@[q] == LineAlignment::Both(
            q as usize,
            q as usize,
        ) by {
            assert(r@[q] == pre_absorb[q]);
        }
    }
    r
}

} // verus!
