//! Row formatting: turning an alignment plus the two line lists into two
//! synchronized, wrapped, optionally folded, viewport-clipped row lists.
//!
//! The two outputs have equal length after every op — the vertical-sync
//! invariant — and fold markers stand at the same index on both sides
//! with the same hidden count.

use vstd::prelude::*;
use crate::diff::{LineAlignment, align_op_ok, line_views, min2};
use crate::row::{DisplayRow, row_wf, create_wrapped_lines, create_blank_line,
    create_fold_indicator, rows_flat, flat_flags, line_segments_spec, row_content,
    lemma_rows_flat_snoc, lemma_rows_flat_concat, wrap_row_lens, row_flat_len,
    row_pad, lemma_row_full_width};
use crate::text::{norm_spec, norm_eq, digit_count_spec};

verus! {

/// Render-ready data for the split diff view: one row list per column,
/// always of equal length.
pub struct SplitDiffRenderData {
    pub source_rows: Vec<DisplayRow>,
    pub dest_rows: Vec<DisplayRow>,
}

/// Both row lists are well formed for the width pair.
pub open spec fn rows_wf(rows: Seq<DisplayRow>, text_width: int, gutter_width: int) -> bool {
    forall|k: int| 0 <= k < rows.len() ==> row_wf(#[trigger] rows[k], text_width, gutter_width)
}

/// Fold markers pair up: wherever one side holds a marker, the other side
/// holds the identical marker.
pub open spec fn markers_paired(a: Seq<DisplayRow>, b: Seq<DisplayRow>) -> bool {
    &&& a.len() == b.len()
    &&& forall|k: int| 0 <= k < a.len() && (#[trigger] a[k]) is FoldMarker ==> a[k] == b[k]
    &&& forall|k: int| 0 <= k < b.len() && (#[trigger] b[k]) is FoldMarker ==> a[k] == b[k]
}

/// The flagged characters the source column owes one op: the source
/// line's segments for a matched or source-only op; a destination-only
/// op contributes only blank padding.
pub open spec fn op_flat_source(
    op: LineAlignment,
    src_v: Seq<Seq<char>>,
    dst_v: Seq<Seq<char>>,
) -> Seq<(char, bool)> {
    match op {
        LineAlignment::Both(s, d) => flat_flags(
            line_segments_spec(src_v[s as int], Some(dst_v[d as int]), false),
        ),
        LineAlignment::SourceOnly(s) => flat_flags(
            line_segments_spec(src_v[s as int], None, false),
        ),
        LineAlignment::DestOnly(_) => Seq::<(char, bool)>::empty(),
    }
}

/// The flagged characters the destination column owes one op.
pub open spec fn op_flat_dest(
    op: LineAlignment,
    src_v: Seq<Seq<char>>,
    dst_v: Seq<Seq<char>>,
) -> Seq<(char, bool)> {
    match op {
        LineAlignment::Both(s, d) => flat_flags(
            line_segments_spec(dst_v[d as int], Some(src_v[s as int]), true),
        ),
        LineAlignment::DestOnly(d) => flat_flags(
            line_segments_spec(dst_v[d as int], None, true),
        ),
        LineAlignment::SourceOnly(_) => Seq::<(char, bool)>::empty(),
    }
}

/// The flagged characters the source column owes a whole op list.
pub open spec fn ops_flat_source(
    ops: Seq<LineAlignment>,
    src_v: Seq<Seq<char>>,
    dst_v: Seq<Seq<char>>,
) -> Seq<(char, bool)>
    decreases ops.len(),
{
    if ops.len() == 0 {
        Seq::<(char, bool)>::empty()
    } else {
        ops_flat_source(ops.drop_last(), src_v, dst_v) + op_flat_source(ops.last(), src_v, dst_v)
    }
}

/// The flagged characters the destination column owes a whole op list.
pub open spec fn ops_flat_dest(
    ops: Seq<LineAlignment>,
    src_v: Seq<Seq<char>>,
    dst_v: Seq<Seq<char>>,
) -> Seq<(char, bool)>
    decreases ops.len(),
{
    if ops.len() == 0 {
        Seq::<(char, bool)>::empty()
    } else {
        ops_flat_dest(ops.drop_last(), src_v, dst_v) + op_flat_dest(ops.last(), src_v, dst_v)
    }
}

proof fn lemma_ops_flat_take_step(
    ops: Seq<LineAlignment>,
    src_v: Seq<Seq<char>>,
    dst_v: Seq<Seq<char>>,
    i: int,
)
    requires
        0 <= i < ops.len(),
    ensures
        ops_flat_source(ops.take(i + 1), src_v, dst_v) == ops_flat_source(ops.take(i), src_v, dst_v)
            + op_flat_source(ops[i], src_v, dst_v),
        ops_flat_dest(ops.take(i + 1), src_v, dst_v) == ops_flat_dest(ops.take(i), src_v, dst_v)
            + op_flat_dest(ops[i], src_v, dst_v),
{
    assert(ops.take(i + 1).drop_last() =~= ops.take(i));
    assert(ops.take(i + 1).last() == ops[i]);
}

/// What the full, pre-viewport row lists satisfy: equally tall, well
/// formed, fold markers paired, one row at least per op with folding off
/// and, for a positive width with folding off, reproducing op by op the
/// flagged characters of both columns.
pub open spec fn full_rows_ok(
    full_s: Seq<DisplayRow>,
    full_d: Seq<DisplayRow>,
    ops: Seq<LineAlignment>,
    src_v: Seq<Seq<char>>,
    dst_v: Seq<Seq<char>>,
    text_width: int,
    gutter_width: int,
    fold_unchanged: bool,
    ctx: int,
) -> bool {
    &&& full_s.len() == full_d.len()
    &&& rows_wf(full_s, text_width, gutter_width)
    &&& rows_wf(full_d, text_width, gutter_width)
    &&& markers_paired(full_s, full_d)
    &&& (!fold_unchanged ==> full_s.len() >= ops.len())
    &&& ((!fold_unchanged && text_width > 0) ==> rows_flat(full_s) == ops_flat_source(
        ops,
        src_v,
        dst_v,
    ) && rows_flat(full_d) == ops_flat_dest(ops, src_v, dst_v))
    &&& (ops.len() > 0 ==> full_s.len() >= 1)
    &&& (fold_unchanged ==> marker_counts(full_s) == fold_plan(ops, src_v, dst_v, ctx, 0)
        && marker_counts(full_d) == marker_counts(full_s))
    &&& (!fold_unchanged ==> marker_counts(full_s) == Seq::<int>::empty() && marker_counts(full_d)
        == Seq::<int>::empty())
    &&& ((fold_unchanged && text_width > 0) ==> rows_flat(full_s) == ops_flat_source(
        kept_ops(ops, src_v, dst_v, ctx, 0),
        src_v,
        dst_v,
    ) && rows_flat(full_d) == ops_flat_dest(kept_ops(ops, src_v, dst_v, ctx, 0), src_v, dst_v))
    &&& ((fold_unchanged && text_width > 0) ==> full_s.len() == ops_row_count(
        kept_ops(ops, src_v, dst_v, ctx, 0),
        src_v,
        dst_v,
        text_width,
    ) + fold_plan(ops, src_v, dst_v, ctx, 0).len())
    &&& ((!fold_unchanged && text_width > 0) ==> full_s.len() == ops_row_count(
        ops,
        src_v,
        dst_v,
        text_width,
    ))
    &&& (forall|k: int|
        0 <= k < full_s.len() && (#[trigger] full_s[k]) is Content ==> row_flat_len(full_s[k])
            + row_pad(full_s[k]).len() == text_width)
    &&& (forall|k: int|
        0 <= k < full_d.len() && (#[trigger] full_d[k]) is Content ==> row_flat_len(full_d[k])
            + row_pad(full_d[k]).len() == text_width)
}

/// The larger of two integers.
pub open spec fn max2(a: int, b: int) -> int {
    if a >= b {
        a
    } else {
        b
    }
}

/// The rows one op contributes for a positive text width: each side
/// wraps its line against the other, and the shorter side is padded
/// with blank rows to the taller one.
pub open spec fn op_row_count(
    op: LineAlignment,
    src_v: Seq<Seq<char>>,
    dst_v: Seq<Seq<char>>,
    w: int,
) -> int {
    match op {
        LineAlignment::Both(s, d) => max2(
            wrap_row_lens(
                line_segments_spec(src_v[s as int], Some(dst_v[d as int]), false),
                w,
            ).len() as int,
            wrap_row_lens(
                line_segments_spec(dst_v[d as int], Some(src_v[s as int]), true),
                w,
            ).len() as int,
        ),
        LineAlignment::SourceOnly(s) => wrap_row_lens(
            line_segments_spec(src_v[s as int], None, false),
            w,
        ).len() as int,
        LineAlignment::DestOnly(d) => wrap_row_lens(
            line_segments_spec(dst_v[d as int], None, true),
            w,
        ).len() as int,
    }
}

/// The text rows a whole op list contributes.
pub open spec fn ops_row_count(
    ops: Seq<LineAlignment>,
    src_v: Seq<Seq<char>>,
    dst_v: Seq<Seq<char>>,
    w: int,
) -> int
    decreases ops.len(),
{
    if ops.len() == 0 {
        0
    } else {
        ops_row_count(ops.drop_last(), src_v, dst_v, w) + op_row_count(ops.last(), src_v, dst_v, w)
    }
}

proof fn lemma_ops_ledger_concat(
    a: Seq<LineAlignment>,
    b: Seq<LineAlignment>,
    src_v: Seq<Seq<char>>,
    dst_v: Seq<Seq<char>>,
    w: int,
)
    ensures
        ops_flat_source(a + b, src_v, dst_v) == ops_flat_source(a, src_v, dst_v) + ops_flat_source(
            b,
            src_v,
            dst_v,
        ),
        ops_flat_dest(a + b, src_v, dst_v) == ops_flat_dest(a, src_v, dst_v) + ops_flat_dest(
            b,
            src_v,
            dst_v,
        ),
        ops_row_count(a + b, src_v, dst_v, w) == ops_row_count(a, src_v, dst_v, w)
            + ops_row_count(b, src_v, dst_v, w),
    decreases b.len(),
{
    if b.len() == 0 {
        assert(a + b =~= a);
        assert(ops_flat_source(a, src_v, dst_v) + ops_flat_source(b, src_v, dst_v) =~=
            ops_flat_source(a, src_v, dst_v));
        assert(ops_flat_dest(a, src_v, dst_v) + ops_flat_dest(b, src_v, dst_v) =~= ops_flat_dest(
            a,
            src_v,
            dst_v,
        ));
    } else {
        lemma_ops_ledger_concat(a, b.drop_last(), src_v, dst_v, w);
        assert((a + b).drop_last() =~= a + b.drop_last());
        assert((a + b).last() == b.last());
        assert(ops_flat_source(a, src_v, dst_v) + (ops_flat_source(b.drop_last(), src_v, dst_v)
            + op_flat_source(b.last(), src_v, dst_v)) =~= (ops_flat_source(a, src_v, dst_v)
            + ops_flat_source(b.drop_last(), src_v, dst_v)) + op_flat_source(
            b.last(),
            src_v,
            dst_v,
        ));
        assert(ops_flat_dest(a, src_v, dst_v) + (ops_flat_dest(b.drop_last(), src_v, dst_v)
            + op_flat_dest(b.last(), src_v, dst_v)) =~= (ops_flat_dest(a, src_v, dst_v)
            + ops_flat_dest(b.drop_last(), src_v, dst_v)) + op_flat_dest(b.last(), src_v, dst_v));
    }
}

proof fn lemma_ops_ledger_snoc(
    a: Seq<LineAlignment>,
    op: LineAlignment,
    src_v: Seq<Seq<char>>,
    dst_v: Seq<Seq<char>>,
    w: int,
)
    ensures
        ops_flat_source(a.push(op), src_v, dst_v) == ops_flat_source(a, src_v, dst_v)
            + op_flat_source(op, src_v, dst_v),
        ops_flat_dest(a.push(op), src_v, dst_v) == ops_flat_dest(a, src_v, dst_v) + op_flat_dest(
            op,
            src_v,
            dst_v,
        ),
        ops_row_count(a.push(op), src_v, dst_v, w) == ops_row_count(a, src_v, dst_v, w)
            + op_row_count(op, src_v, dst_v, w),
{
    assert(a.push(op).drop_last() =~= a);
    assert(a.push(op).last() == op);
}

/// How many ops from `i` on are unchanged matched pairs.
pub open spec fn unchanged_run(
    ops: Seq<LineAlignment>,
    src_v: Seq<Seq<char>>,
    dst_v: Seq<Seq<char>>,
    i: int,
) -> int
    decreases ops.len() - i,
{
    if 0 <= i && i < ops.len() && ops[i] is Both && !op_changed_spec(ops[i], src_v, dst_v) {
        1 + unchanged_run(ops, src_v, dst_v, i + 1)
    } else {
        0
    }
}

/// Whether the run of `u` unchanged ops at `i` gets folded under
/// `ctx` context lines: a change must sit on at least one side, and the
/// run must exceed twice the context plus one with changes on both
/// sides, the context plus one with a change on one.
pub open spec fn run_folds(
    ops: Seq<LineAlignment>,
    src_v: Seq<Seq<char>>,
    dst_v: Seq<Seq<char>>,
    ctx: int,
    i: int,
    u: int,
) -> bool {
    let before = i > 0 && op_changed_spec(ops[i - 1], src_v, dst_v);
    let after = i + u < ops.len() && op_changed_spec(ops[i + u], src_v, dst_v);
    u > 0 && ((before && after && u > 2 * ctx + 1) || (!(before && after) && (before || after)
        && u > ctx + 1))
}

/// The hidden count of a folded run: the run minus the context kept at
/// each edge with an adjacent change.
pub open spec fn run_hidden(
    ops: Seq<LineAlignment>,
    src_v: Seq<Seq<char>>,
    dst_v: Seq<Seq<char>>,
    ctx: int,
    i: int,
    u: int,
) -> int {
    let before = i > 0 && op_changed_spec(ops[i - 1], src_v, dst_v);
    let after = i + u < ops.len() && op_changed_spec(ops[i + u], src_v, dst_v);
    let cb = if before {
        min2(ctx, u)
    } else {
        0
    };
    let ca = if after {
        min2(ctx, u - cb)
    } else {
        0
    };
    u - cb - ca
}

/// The hidden counts of the folded runs, in op order.
pub open spec fn fold_plan(
    ops: Seq<LineAlignment>,
    src_v: Seq<Seq<char>>,
    dst_v: Seq<Seq<char>>,
    ctx: int,
    i: int,
) -> Seq<int>
    decreases ops.len() - i,
{
    if i < 0 || i >= ops.len() || ctx < 0 {
        Seq::<int>::empty()
    } else {
        let u = unchanged_run(ops, src_v, dst_v, i);
        if run_folds(ops, src_v, dst_v, ctx, i, u) && i + u > i && i + u <= ops.len() {
            seq![run_hidden(ops, src_v, dst_v, ctx, i, u)] + fold_plan(
                ops,
                src_v,
                dst_v,
                ctx,
                i + u,
            )
        } else {
            fold_plan(ops, src_v, dst_v, ctx, i + 1)
        }
    }
}

/// The ops that folding keeps, in emission order: for each folded run
/// the context ops at its changed edges, and every other op as it
/// stands.
pub open spec fn kept_ops(
    ops: Seq<LineAlignment>,
    src_v: Seq<Seq<char>>,
    dst_v: Seq<Seq<char>>,
    ctx: int,
    i: int,
) -> Seq<LineAlignment>
    decreases ops.len() - i,
{
    if i < 0 || i >= ops.len() || ctx < 0 {
        Seq::<LineAlignment>::empty()
    } else {
        let u = unchanged_run(ops, src_v, dst_v, i);
        if run_folds(ops, src_v, dst_v, ctx, i, u) && i + u > i && i + u <= ops.len() {
            let before = i > 0 && op_changed_spec(ops[i - 1], src_v, dst_v);
            let after = i + u < ops.len() && op_changed_spec(ops[i + u], src_v, dst_v);
            let cb = if before {
                min2(ctx, u)
            } else {
                0
            };
            let ca = if after {
                min2(ctx, u - cb)
            } else {
                0
            };
            ops.subrange(i, i + cb) + ops.subrange(i + u - ca, i + u) + kept_ops(
                ops,
                src_v,
                dst_v,
                ctx,
                i + u,
            )
        } else {
            seq![ops[i]] + kept_ops(ops, src_v, dst_v, ctx, i + 1)
        }
    }
}

/// The hidden counts of a row list's fold markers, in order.
pub open spec fn marker_counts(rows: Seq<DisplayRow>) -> Seq<int>
    decreases rows.len(),
{
    if rows.len() == 0 {
        Seq::<int>::empty()
    } else {
        (match rows[0] {
            DisplayRow::FoldMarker { hidden_count } => seq![hidden_count as int],
            DisplayRow::Content { .. } => Seq::<int>::empty(),
        }) + marker_counts(rows.skip(1))
    }
}

proof fn lemma_marker_counts_concat(a: Seq<DisplayRow>, b: Seq<DisplayRow>)
    ensures
        marker_counts(a + b) == marker_counts(a) + marker_counts(b),
    decreases a.len(),
{
    if a.len() == 0 {
        assert(a + b =~= b);
        assert(marker_counts(a) + marker_counts(b) =~= marker_counts(b));
    } else {
        lemma_marker_counts_concat(a.skip(1), b);
        assert((a + b).skip(1) =~= a.skip(1) + b);
        assert((a + b)[0] == a[0]);
        let h = match a[0] {
            DisplayRow::FoldMarker { hidden_count } => seq![hidden_count as int],
            DisplayRow::Content { .. } => Seq::<int>::empty(),
        };
        assert(h + (marker_counts(a.skip(1)) + marker_counts(b)) =~= (h + marker_counts(
            a.skip(1),
        )) + marker_counts(b));
    }
}

/// A list of text rows carries no markers.
proof fn lemma_marker_counts_content(rows: Seq<DisplayRow>)
    requires
        forall|k: int| 0 <= k < rows.len() ==> (#[trigger] rows[k]) is Content,
    ensures
        marker_counts(rows) == Seq::<int>::empty(),
    decreases rows.len(),
{
    if rows.len() == 0 {
    } else {
        assert(forall|k: int| 0 <= k < rows.len() - 1 ==> #[trigger] rows.skip(1)[k] == rows[k
            + 1]);
        lemma_marker_counts_content(rows.skip(1));
        assert(rows[0] is Content);
        assert(marker_counts(rows) =~= Seq::<int>::empty());
    }
}

proof fn lemma_unchanged_run_at(
    ops: Seq<LineAlignment>,
    src_v: Seq<Seq<char>>,
    dst_v: Seq<Seq<char>>,
    i: int,
    j: int,
)
    requires
        0 <= i <= j <= ops.len(),
        forall|q: int|
            i <= q < j ==> (#[trigger] ops[q]) is Both && !op_changed_spec(ops[q], src_v, dst_v),
        j == ops.len() || !(ops[j] is Both) || op_changed_spec(ops[j], src_v, dst_v),
    ensures
        unchanged_run(ops, src_v, dst_v, i) == j - i,
    decreases j - i,
{
    if i == j {
    } else {
        lemma_unchanged_run_at(ops, src_v, dst_v, i + 1, j);
    }
}

/// The viewport relation: `out` is `full` with the clamped scroll
/// offset dropped from the front, then cut to the height.
pub open spec fn clipped_from(
    out: Seq<DisplayRow>,
    full: Seq<DisplayRow>,
    scroll: int,
    height: int,
) -> bool {
    let eff = if scroll < full.len() {
        scroll
    } else if full.len() == 0 {
        0
    } else {
        full.len() - 1
    };
    out == full.subrange(
        eff,
        if full.len() - eff <= height {
            full.len() as int
        } else {
            eff + height
        },
    )
}

/// The render data is a clipped view of full lists built for the op
/// list, for some gutter sizing.
pub open spec fn manager_render_ok(
    out_s: Seq<DisplayRow>,
    out_d: Seq<DisplayRow>,
    ops: Seq<LineAlignment>,
    src_v: Seq<Seq<char>>,
    dst_v: Seq<Seq<char>>,
    text_width: int,
    fold_unchanged: bool,
    ctx: int,
    scroll: int,
    height: int,
) -> bool {
    exists|full_s: Seq<DisplayRow>, full_d: Seq<DisplayRow>, gutter_width: int|
        #[trigger] full_rows_ok(full_s, full_d, ops, src_v, dst_v, text_width, gutter_width,
            fold_unchanged, ctx) && clipped_from(out_s, full_s, scroll, height) && clipped_from(
            out_d,
            full_d,
            scroll,
            height,
        )
}

/// An op renders as changed: one-sided, or matched lines that differ
/// after normalization.
pub open spec fn op_changed_spec(
    op: LineAlignment,
    src_v: Seq<Seq<char>>,
    dst_v: Seq<Seq<char>>,
) -> bool {
    match op {
        LineAlignment::Both(s, d) => norm_spec(src_v[s as int]) != norm_spec(dst_v[d as int]),
        LineAlignment::SourceOnly(_) => true,
        LineAlignment::DestOnly(_) => true,
    }
}

/// Whether the op at `j` is an unchanged matched pair.
fn is_unchanged_op(
    aligned: &Vec<LineAlignment>,
    j: usize,
    source_lines: &Vec<String>,
    dest_lines: &Vec<String>,
) -> (r: bool)
    requires
        j < aligned@.len(),
        align_op_ok(aligned@[j as int], line_views(source_lines@), line_views(dest_lines@)),
    ensures
        r == (aligned@[j as int] is Both && !op_changed_spec(
            aligned@[j as int],
            line_views(source_lines@),
            line_views(dest_lines@),
        )),
{
    match aligned[j] {
        LineAlignment::Both(s, d) => norm_eq(source_lines[s].as_str(), dest_lines[d].as_str()),
        LineAlignment::SourceOnly(_) => false,
        LineAlignment::DestOnly(_) => false,
    }
}

/// Whether the op at `j` renders as changed.
fn op_changed(
    aligned: &Vec<LineAlignment>,
    j: usize,
    source_lines: &Vec<String>,
    dest_lines: &Vec<String>,
) -> (r: bool)
    requires
        j < aligned@.len(),
        align_op_ok(aligned@[j as int], line_views(source_lines@), line_views(dest_lines@)),
    ensures
        r == op_changed_spec(
            aligned@[j as int],
            line_views(source_lines@),
            line_views(dest_lines@),
        ),
{
    match aligned[j] {
        LineAlignment::Both(s, d) => !norm_eq(source_lines[s].as_str(), dest_lines[d].as_str()),
        LineAlignment::SourceOnly(_) => true,
        LineAlignment::DestOnly(_) => true,
    }
}

/// Pad the shorter side with blank rows until both sides stand equally
/// tall.
fn pad_to_match(
    rows_s: &mut Vec<DisplayRow>,
    rows_d: &mut Vec<DisplayRow>,
    text_width: usize,
    gutter_width: usize,
)
    ensures
        final(rows_s)@.len() == final(rows_d)@.len(),
        final(rows_s)@.len() >= old(rows_s)@.len(),
        final(rows_d)@.len() >= old(rows_d)@.len(),
        forall|k: int| 0 <= k < old(rows_s)@.len() ==> final(rows_s)@[k] == old(rows_s)@[k],
        forall|k: int| 0 <= k < old(rows_d)@.len() ==> final(rows_d)@[k] == old(rows_d)@[k],
        forall|k: int|
            old(rows_s)@.len() <= k < final(rows_s)@.len() ==> (#[trigger] final(rows_s)@[k])
                is Content && row_wf(final(rows_s)@[k], text_width as int, gutter_width as int),
        forall|k: int|
            old(rows_d)@.len() <= k < final(rows_d)@.len() ==> (#[trigger] final(rows_d)@[k])
                is Content && row_wf(final(rows_d)@[k], text_width as int, gutter_width as int),
        rows_flat(final(rows_s)@) == rows_flat(old(rows_s)@),
        rows_flat(final(rows_d)@) == rows_flat(old(rows_d)@),
        final(rows_s)@.len() == max2(old(rows_s)@.len() as int, old(rows_d)@.len() as int),
{
    while rows_s.len() < rows_d.len()
        invariant
            forall|k: int| 0 <= k < old(rows_s)@.len() ==> rows_s@[k] == old(rows_s)@[k],
            rows_d@ == old(rows_d)@,
            rows_s@.len() <= rows_d@.len() || rows_s@.len() == old(rows_s)@.len(),
            rows_s@.len() >= old(rows_s)@.len(),
            forall|k: int|
                old(rows_s)@.len() <= k < rows_s@.len() ==> (#[trigger] rows_s@[k]) is Content
                    && row_wf(rows_s@[k], text_width as int, gutter_width as int),
            rows_flat(rows_s@) == rows_flat(old(rows_s)@),
        decreases rows_d@.len() - rows_s@.len(),
    {
        let ghost pre = rows_s@;
        let blank = create_blank_line(text_width, gutter_width);
        rows_s.push(blank);
        proof {
            lemma_rows_flat_snoc(pre, blank);
            assert(rows_flat(pre) + flat_flags(row_content(blank)) =~= rows_flat(pre));
        }
    }
    while rows_d.len() < rows_s.len()
        invariant
            forall|k: int| 0 <= k < old(rows_d)@.len() ==> rows_d@[k] == old(rows_d)@[k],
            forall|k: int| 0 <= k < old(rows_s)@.len() ==> rows_s@[k] == old(rows_s)@[k],
            rows_d@.len() <= rows_s@.len(),
            rows_s@.len() >= old(rows_s)@.len(),
            rows_d@.len() >= old(rows_d)@.len(),
            forall|k: int|
                old(rows_s)@.len() <= k < rows_s@.len() ==> (#[trigger] rows_s@[k]) is Content
                    && row_wf(rows_s@[k], text_width as int, gutter_width as int),
            forall|k: int|
                old(rows_d)@.len() <= k < rows_d@.len() ==> (#[trigger] rows_d@[k]) is Content
                    && row_wf(rows_d@[k], text_width as int, gutter_width as int),
            rows_flat(rows_s@) == rows_flat(old(rows_s)@),
            rows_flat(rows_d@) == rows_flat(old(rows_d)@),
        decreases rows_s@.len() - rows_d@.len(),
    {
        let ghost pre = rows_d@;
        let blank = create_blank_line(text_width, gutter_width);
        rows_d.push(blank);
        proof {
            lemma_rows_flat_snoc(pre, blank);
            assert(rows_flat(pre) + flat_flags(row_content(blank)) =~= rows_flat(pre));
        }
    }
}

/// What the per-op emitters guarantee: the sides stay equally tall, grow
/// by at least one row each, old rows stand untouched, the new rows are
/// well formed, and no new fold marker appears.
spec fn emit_ok(
    s0: Seq<DisplayRow>,
    d0: Seq<DisplayRow>,
    s1: Seq<DisplayRow>,
    d1: Seq<DisplayRow>,
    text_width: int,
    gutter_width: int,
) -> bool {
    &&& s0.len() == d0.len() ==> s1.len() == d1.len()
    &&& s1.len() > s0.len() || d1.len() > d0.len()
    &&& s1.len() >= s0.len()
    &&& d1.len() >= d0.len()
    &&& forall|k: int| 0 <= k < s0.len() ==> s1[k] == s0[k]
    &&& forall|k: int| 0 <= k < d0.len() ==> d1[k] == d0[k]
    &&& forall|k: int|
        s0.len() <= k < s1.len() ==> (#[trigger] s1[k]) is Content && row_wf(
            s1[k],
            text_width,
            gutter_width,
        )
    &&& forall|k: int|
        d0.len() <= k < d1.len() ==> (#[trigger] d1[k]) is Content && row_wf(
            d1[k],
            text_width,
            gutter_width,
        )
}

/// Emit the rows for one matched pair: wrap both sides against each
/// other and pad the shorter one.
fn emit_both(
    rows_s: &mut Vec<DisplayRow>,
    rows_d: &mut Vec<DisplayRow>,
    s: usize,
    d: usize,
    source_lines: &Vec<String>,
    dest_lines: &Vec<String>,
    text_width: usize,
    gutter_width: usize,
    max_line_digits: usize,
)
    requires
        s < source_lines@.len(),
        d < dest_lines@.len(),
        source_lines@.len() < usize::MAX,
        dest_lines@.len() < usize::MAX,
        digit_count_spec(source_lines@.len() as nat) <= max_line_digits,
        digit_count_spec(dest_lines@.len() as nat) <= max_line_digits,
        gutter_width == max_line_digits + 1,
    ensures
        emit_ok(
            old(rows_s)@,
            old(rows_d)@,
            final(rows_s)@,
            final(rows_d)@,
            text_width as int,
            gutter_width as int,
        ),
        marker_counts(final(rows_s)@) == marker_counts(old(rows_s)@),
        marker_counts(final(rows_d)@) == marker_counts(old(rows_d)@),
        text_width > 0 ==> rows_flat(final(rows_s)@) == rows_flat(old(rows_s)@) + flat_flags(
            line_segments_spec(
                source_lines@[s as int]@,
                Some(dest_lines@[d as int]@),
                false,
            ),
        ),
        text_width > 0 ==> rows_flat(final(rows_d)@) == rows_flat(old(rows_d)@) + flat_flags(
            line_segments_spec(
                dest_lines@[d as int]@,
                Some(source_lines@[s as int]@),
                true,
            ),
        ),
        text_width > 0 ==> final(rows_s)@.len() == old(rows_s)@.len() + max2(
            wrap_row_lens(
                line_segments_spec(
                    source_lines@[s as int]@,
                    Some(dest_lines@[d as int]@),
                    false,
                ),
                text_width as int,
            ).len() as int,
            wrap_row_lens(
                line_segments_spec(
                    dest_lines@[d as int]@,
                    Some(source_lines@[s as int]@),
                    true,
                ),
                text_width as int,
            ).len() as int,
        ),
{
    proof {
        crate::text::lemma_digit_count_mono((s + 1) as nat, source_lines@.len() as nat);
        crate::text::lemma_digit_count_mono((d + 1) as nat, dest_lines@.len() as nat);
    }
    let mut src_wrapped = create_wrapped_lines(
        s,
        source_lines[s].as_str(),
        Option::Some(dest_lines[d].as_str()),
        false,
        text_width,
        gutter_width,
        max_line_digits,
    );
    let mut dest_wrapped = create_wrapped_lines(
        d,
        dest_lines[d].as_str(),
        Option::Some(source_lines[s].as_str()),
        true,
        text_width,
        gutter_width,
        max_line_digits,
    );
    pad_to_match(&mut src_wrapped, &mut dest_wrapped, text_width, gutter_width);
    let ghost s0 = rows_s@;
    let ghost d0 = rows_d@;
    let ghost sw = src_wrapped@;
    let ghost dw = dest_wrapped@;
    rows_s.append(&mut src_wrapped);
    rows_d.append(&mut dest_wrapped);
    proof {
        assert(rows_s@ == s0 + sw);
        assert(rows_d@ == d0 + dw);
        lemma_rows_flat_concat(s0, sw);
        lemma_rows_flat_concat(d0, dw);
        lemma_marker_counts_concat(s0, sw);
        lemma_marker_counts_concat(d0, dw);
        lemma_marker_counts_content(sw);
        lemma_marker_counts_content(dw);
        assert(marker_counts(s0) + marker_counts(sw) =~= marker_counts(s0));
        assert(marker_counts(d0) + marker_counts(dw) =~= marker_counts(d0));
    }
}

/// Emit the rows for a one-sided op: wrap the present side as changed
/// and give the other side blank rows of the same height.
fn emit_one_side(
    rows_have: &mut Vec<DisplayRow>,
    rows_blank: &mut Vec<DisplayRow>,
    idx: usize,
    lines: &Vec<String>,
    is_dest: bool,
    text_width: usize,
    gutter_width: usize,
    max_line_digits: usize,
)
    requires
        idx < lines@.len(),
        lines@.len() < usize::MAX,
        digit_count_spec(lines@.len() as nat) <= max_line_digits,
        gutter_width == max_line_digits + 1,
    ensures
        emit_ok(
            old(rows_have)@,
            old(rows_blank)@,
            final(rows_have)@,
            final(rows_blank)@,
            text_width as int,
            gutter_width as int,
        ),
        text_width > 0 ==> rows_flat(final(rows_have)@) == rows_flat(old(rows_have)@)
            + flat_flags(line_segments_spec(lines@[idx as int]@, None, is_dest)),
        rows_flat(final(rows_blank)@) == rows_flat(old(rows_blank)@),
        marker_counts(final(rows_have)@) == marker_counts(old(rows_have)@),
        marker_counts(final(rows_blank)@) == marker_counts(old(rows_blank)@),
        text_width > 0 ==> final(rows_have)@.len() == old(rows_have)@.len() + wrap_row_lens(
            line_segments_spec(lines@[idx as int]@, None, is_dest),
            text_width as int,
        ).len(),
        text_width > 0 ==> final(rows_blank)@.len() == old(rows_blank)@.len() + wrap_row_lens(
            line_segments_spec(lines@[idx as int]@, None, is_dest),
            text_width as int,
        ).len(),
{
    proof {
        crate::text::lemma_digit_count_mono((idx + 1) as nat, lines@.len() as nat);
    }
    let mut wrapped = create_wrapped_lines(
        idx,
        lines[idx].as_str(),
        Option::None,
        is_dest,
        text_width,
        gutter_width,
        max_line_digits,
    );
    let mut blanks: Vec<DisplayRow> = Vec::new();
    let mut t: usize = 0;
    let count = wrapped.len();
    while t < count
        invariant
            0 <= t <= count,
            blanks@.len() == t,
            forall|k: int| 0 <= k < t ==> (#[trigger] blanks@[k]) is Content && row_wf(
                blanks@[k],
                text_width as int,
                gutter_width as int,
            ),
            rows_flat(blanks@) == Seq::<(char, bool)>::empty(),
        decreases count - t,
    {
        let ghost pre = blanks@;
        let blank = create_blank_line(text_width, gutter_width);
        blanks.push(blank);
        t += 1;
        proof {
            lemma_rows_flat_snoc(pre, blank);
            assert(rows_flat(pre) + flat_flags(row_content(blank)) =~= rows_flat(pre));
        }
    }
    let ghost h0 = rows_have@;
    let ghost b0 = rows_blank@;
    let ghost wv = wrapped@;
    let ghost bv = blanks@;
    rows_have.append(&mut wrapped);
    rows_blank.append(&mut blanks);
    proof {
        assert(rows_have@ == h0 + wv);
        assert(rows_blank@ == b0 + bv);
        lemma_rows_flat_concat(h0, wv);
        lemma_rows_flat_concat(b0, bv);
        assert(rows_flat(b0) + rows_flat(bv) =~= rows_flat(b0));
        lemma_marker_counts_concat(h0, wv);
        lemma_marker_counts_concat(b0, bv);
        lemma_marker_counts_content(wv);
        lemma_marker_counts_content(bv);
        assert(marker_counts(h0) + marker_counts(wv) =~= marker_counts(h0));
        assert(marker_counts(b0) + marker_counts(bv) =~= marker_counts(b0));
    }
}

/// Emit the rows of one alignment op: both sides for a matched pair,
/// the present side plus blank padding opposite for a one-sided op.
#[verifier::rlimit(100)]
fn emit_op(
    rows_s: &mut Vec<DisplayRow>,
    rows_d: &mut Vec<DisplayRow>,
    aligned: &Vec<LineAlignment>,
    i: usize,
    source_lines: &Vec<String>,
    dest_lines: &Vec<String>,
    text_width: usize,
    gutter_width: usize,
    max_line_digits: usize,
)
    requires
        i < aligned@.len(),
        align_op_ok(aligned@[i as int], line_views(source_lines@), line_views(dest_lines@)),
        source_lines@.len() < usize::MAX,
        dest_lines@.len() < usize::MAX,
        digit_count_spec(source_lines@.len() as nat) <= max_line_digits,
        digit_count_spec(dest_lines@.len() as nat) <= max_line_digits,
        gutter_width == max_line_digits + 1,
        old(rows_s)@.len() == old(rows_d)@.len(),
        rows_wf(old(rows_s)@, text_width as int, gutter_width as int),
        rows_wf(old(rows_d)@, text_width as int, gutter_width as int),
        markers_paired(old(rows_s)@, old(rows_d)@),
    ensures
        final(rows_s)@.len() == final(rows_d)@.len(),
        final(rows_s)@.len() > old(rows_s)@.len(),
        rows_wf(final(rows_s)@, text_width as int, gutter_width as int),
        rows_wf(final(rows_d)@, text_width as int, gutter_width as int),
        markers_paired(final(rows_s)@, final(rows_d)@),
        marker_counts(final(rows_s)@) == marker_counts(old(rows_s)@),
        marker_counts(final(rows_d)@) == marker_counts(old(rows_d)@),
        text_width > 0 ==> rows_flat(final(rows_s)@) == rows_flat(old(rows_s)@) + op_flat_source(
            aligned@[i as int],
            line_views(source_lines@),
            line_views(dest_lines@),
        ),
        text_width > 0 ==> rows_flat(final(rows_d)@) == rows_flat(old(rows_d)@) + op_flat_dest(
            aligned@[i as int],
            line_views(source_lines@),
            line_views(dest_lines@),
        ),
        text_width > 0 ==> final(rows_s)@.len() == old(rows_s)@.len() + op_row_count(
            aligned@[i as int],
            line_views(source_lines@),
            line_views(dest_lines@),
            text_width as int,
        ),
{
    let ghost sv = line_views(source_lines@);
    let ghost dv = line_views(dest_lines@);
    match aligned[i] {
        LineAlignment::Both(s, d) => {
            emit_both(rows_s, rows_d, s, d, source_lines, dest_lines, text_width, gutter_width,
                max_line_digits);
            proof {
                assert(sv[s as int] == source_lines@[s as int]@);
                assert(dv[d as int] == dest_lines@[d as int]@);
            }
        },
        LineAlignment::SourceOnly(s) => {
            emit_one_side(rows_s, rows_d, s, source_lines, false, text_width, gutter_width,
                max_line_digits);
            proof {
                assert(sv[s as int] == source_lines@[s as int]@);
                if text_width > 0 {
                    assert(rows_flat(rows_d@) =~= rows_flat(old(rows_d)@) + op_flat_dest(
                        aligned@[i as int],
                        sv,
                        dv,
                    ));
                }
            }
        },
        LineAlignment::DestOnly(d) => {
            emit_one_side(rows_d, rows_s, d, dest_lines, true, text_width, gutter_width,
                max_line_digits);
            proof {
                assert(dv[d as int] == dest_lines@[d as int]@);
                if text_width > 0 {
                    assert(rows_flat(rows_s@) =~= rows_flat(old(rows_s)@) + op_flat_source(
                        aligned@[i as int],
                        sv,
                        dv,
                    ));
                }
            }
        },
    }
}

/// Emit one folded run of unchanged matched pairs: the leading context
/// pairs, the fold-marker row on both sides, and the trailing context
/// pairs.
#[verifier::rlimit(100)]
fn emit_fold_run(
    rows_s: &mut Vec<DisplayRow>,
    rows_d: &mut Vec<DisplayRow>,
    aligned: &Vec<LineAlignment>,
    source_lines: &Vec<String>,
    dest_lines: &Vec<String>,
    i: usize,
    j: usize,
    context_before: usize,
    context_after: usize,
    hidden_count: usize,
    text_width: usize,
    gutter_width: usize,
    max_line_digits: usize,
)
    requires
        i + context_before <= j <= aligned@.len(),
        context_after <= j - i - context_before,
        hidden_count > 0,
        forall|q: int| 0 <= q < aligned@.len() ==> align_op_ok(
            #[trigger] aligned@[q],
            line_views(source_lines@),
            line_views(dest_lines@),
        ),
        forall|q: int| i <= q < j ==> (#[trigger] aligned@[q]) is Both,
        source_lines@.len() < usize::MAX,
        dest_lines@.len() < usize::MAX,
        digit_count_spec(source_lines@.len() as nat) <= max_line_digits,
        digit_count_spec(dest_lines@.len() as nat) <= max_line_digits,
        gutter_width == max_line_digits + 1,
        old(rows_s)@.len() == old(rows_d)@.len(),
        rows_wf(old(rows_s)@, text_width as int, gutter_width as int),
        rows_wf(old(rows_d)@, text_width as int, gutter_width as int),
        markers_paired(old(rows_s)@, old(rows_d)@),
        marker_counts(old(rows_d)@) == marker_counts(old(rows_s)@),
    ensures
        final(rows_s)@.len() == final(rows_d)@.len(),
        final(rows_s)@.len() >= old(rows_s)@.len() + 1,
        rows_wf(final(rows_s)@, text_width as int, gutter_width as int),
        rows_wf(final(rows_d)@, text_width as int, gutter_width as int),
        markers_paired(final(rows_s)@, final(rows_d)@),
        marker_counts(final(rows_s)@) == marker_counts(old(rows_s)@) + seq![hidden_count as int],
        marker_counts(final(rows_d)@) == marker_counts(final(rows_s)@),
        text_width > 0 ==> rows_flat(final(rows_s)@) == rows_flat(old(rows_s)@) + ops_flat_source(
            aligned@.subrange(i as int, (i + context_before) as int) + aligned@.subrange(
                (j - context_after) as int,
                j as int,
            ),
            line_views(source_lines@),
            line_views(dest_lines@),
        ),
        text_width > 0 ==> rows_flat(final(rows_d)@) == rows_flat(old(rows_d)@) + ops_flat_dest(
            aligned@.subrange(i as int, (i + context_before) as int) + aligned@.subrange(
                (j - context_after) as int,
                j as int,
            ),
            line_views(source_lines@),
            line_views(dest_lines@),
        ),
        text_width > 0 ==> final(rows_s)@.len() == old(rows_s)@.len() + ops_row_count(
            aligned@.subrange(i as int, (i + context_before) as int) + aligned@.subrange(
                (j - context_after) as int,
                j as int,
            ),
            line_views(source_lines@),
            line_views(dest_lines@),
            text_width as int,
        ) + 1,
{
    let ghost sv = line_views(source_lines@);
    let ghost dv = line_views(dest_lines@);
    let ghost tw = text_width as int;
    let ghost m0 = marker_counts(rows_s@);
    let ghost sub1 = aligned@.subrange(i as int, (i + context_before) as int);
    proof {
        assert(aligned@.subrange(i as int, i as int) =~= Seq::<LineAlignment>::empty());
        assert(ops_flat_source(aligned@.subrange(i as int, i as int), sv, dv) =~= Seq::<(
            char,
            bool,
        )>::empty());
        assert(ops_flat_dest(aligned@.subrange(i as int, i as int), sv, dv) =~= Seq::<(
            char,
            bool,
        )>::empty());
        assert(rows_flat(rows_s@) + ops_flat_source(
            aligned@.subrange(i as int, i as int),
            sv,
            dv,
        ) =~= rows_flat(rows_s@));
        assert(rows_flat(rows_d@) + ops_flat_dest(
            aligned@.subrange(i as int, i as int),
            sv,
            dv,
        ) =~= rows_flat(rows_d@));
    }
    // Context rows before the fold.
    let mut k = i;
    while k < i + context_before
        invariant
            i <= k <= i + context_before,
            i + context_before <= j <= aligned@.len(),
            forall|q: int| 0 <= q < aligned@.len() ==> align_op_ok(
                #[trigger] aligned@[q],
                line_views(source_lines@),
                line_views(dest_lines@),
            ),
            forall|q: int| i <= q < j ==> (#[trigger] aligned@[q]) is Both,
            source_lines@.len() < usize::MAX,
            dest_lines@.len() < usize::MAX,
            digit_count_spec(source_lines@.len() as nat) <= max_line_digits,
            digit_count_spec(dest_lines@.len() as nat) <= max_line_digits,
            gutter_width == max_line_digits + 1,
            rows_s@.len() == rows_d@.len(),
            rows_s@.len() >= old(rows_s)@.len(),
            rows_wf(rows_s@, text_width as int, gutter_width as int),
            rows_wf(rows_d@, text_width as int, gutter_width as int),
            markers_paired(rows_s@, rows_d@),
            marker_counts(rows_s@) == m0,
            marker_counts(rows_d@) == marker_counts(rows_s@),
            m0 == marker_counts(old(rows_s)@),
            sv == line_views(source_lines@),
            dv == line_views(dest_lines@),
            tw == text_width as int,
            text_width > 0 ==> rows_flat(rows_s@) == rows_flat(old(rows_s)@) + ops_flat_source(
                aligned@.subrange(i as int, k as int),
                sv,
                dv,
            ),
            text_width > 0 ==> rows_flat(rows_d@) == rows_flat(old(rows_d)@) + ops_flat_dest(
                aligned@.subrange(i as int, k as int),
                sv,
                dv,
            ),
            text_width > 0 ==> rows_s@.len() == old(rows_s)@.len() + ops_row_count(
                aligned@.subrange(i as int, k as int),
                sv,
                dv,
                tw,
            ),
        decreases i + context_before - k,
    {
        let ghost acc0 = aligned@.subrange(i as int, k as int);
        if let LineAlignment::Both(s, d) = aligned[k] {
            emit_both(rows_s, rows_d, s, d, source_lines, dest_lines, text_width,
                gutter_width, max_line_digits);
            proof {
                assert(sv[s as int] == source_lines@[s as int]@);
                assert(dv[d as int] == dest_lines@[d as int]@);
            }
        }
        k += 1;
        proof {
            lemma_ops_ledger_snoc(acc0, aligned@[k - 1], sv, dv, tw);
            assert(aligned@.subrange(i as int, k as int) =~= acc0.push(aligned@[k - 1]));
            if text_width > 0 {
                assert(rows_flat(rows_s@) =~= rows_flat(old(rows_s)@) + ops_flat_source(
                    aligned@.subrange(i as int, k as int),
                    sv,
                    dv,
                ));
                assert(rows_flat(rows_d@) =~= rows_flat(old(rows_d)@) + ops_flat_dest(
                    aligned@.subrange(i as int, k as int),
                    sv,
                    dv,
                ));
            }
        }
    }
    // The marker row, identical on both sides.
    let ghost s_pre = rows_s@;
    let ghost d_pre = rows_d@;
    rows_s.push(create_fold_indicator(hidden_count));
    rows_d.push(create_fold_indicator(hidden_count));
    proof {
        lemma_marker_counts_concat(s_pre, seq![DisplayRow::FoldMarker { hidden_count }]);
        lemma_marker_counts_concat(d_pre, seq![DisplayRow::FoldMarker { hidden_count }]);
        assert(rows_s@ =~= s_pre + seq![DisplayRow::FoldMarker { hidden_count }]);
        assert(rows_d@ =~= d_pre + seq![DisplayRow::FoldMarker { hidden_count }]);
        assert(seq![DisplayRow::FoldMarker { hidden_count }].skip(1) =~= Seq::<
            DisplayRow,
        >::empty());
        assert(marker_counts(seq![DisplayRow::FoldMarker { hidden_count }]) == seq![
            hidden_count as int,
        ] + marker_counts(Seq::<DisplayRow>::empty()));
        assert(marker_counts(seq![DisplayRow::FoldMarker { hidden_count }]) =~= seq![
            hidden_count as int,
        ]);
        assert(marker_counts(rows_s@) =~= m0 + seq![hidden_count as int]);
        assert(marker_counts(rows_d@) =~= marker_counts(d_pre) + seq![hidden_count as int]);
        lemma_rows_flat_snoc(s_pre, (DisplayRow::FoldMarker { hidden_count }));
        lemma_rows_flat_snoc(d_pre, (DisplayRow::FoldMarker { hidden_count }));
        assert(flat_flags(row_content((DisplayRow::FoldMarker { hidden_count }))) =~= Seq::<(
            char,
            bool,
        )>::empty());
        assert(rows_flat(rows_s@) =~= rows_flat(s_pre));
        assert(rows_flat(rows_d@) =~= rows_flat(d_pre));
        assert(aligned@.subrange((j - context_after) as int, (j - context_after) as int) =~= Seq::<
            LineAlignment,
        >::empty());
        assert(sub1 + aligned@.subrange((j - context_after) as int, (j - context_after) as int)
            =~= sub1);
    }
    // Context rows after the fold.
    let mut k2 = j - context_after;
    while k2 < j
        invariant
            j - context_after <= k2 <= j <= aligned@.len(),
            i <= j - context_after,
            forall|q: int| 0 <= q < aligned@.len() ==> align_op_ok(
                #[trigger] aligned@[q],
                line_views(source_lines@),
                line_views(dest_lines@),
            ),
            forall|q: int| i <= q < j ==> (#[trigger] aligned@[q]) is Both,
            source_lines@.len() < usize::MAX,
            dest_lines@.len() < usize::MAX,
            digit_count_spec(source_lines@.len() as nat) <= max_line_digits,
            digit_count_spec(dest_lines@.len() as nat) <= max_line_digits,
            gutter_width == max_line_digits + 1,
            rows_s@.len() == rows_d@.len(),
            rows_s@.len() >= old(rows_s)@.len() + 1,
            rows_wf(rows_s@, text_width as int, gutter_width as int),
            rows_wf(rows_d@, text_width as int, gutter_width as int),
            markers_paired(rows_s@, rows_d@),
            marker_counts(rows_s@) == m0 + seq![hidden_count as int],
            marker_counts(rows_d@) == marker_counts(rows_s@),
            m0 == marker_counts(old(rows_s)@),
            sv == line_views(source_lines@),
            dv == line_views(dest_lines@),
            tw == text_width as int,
            sub1 == aligned@.subrange(i as int, (i + context_before) as int),
            text_width > 0 ==> rows_flat(rows_s@) == rows_flat(old(rows_s)@) + ops_flat_source(
                sub1 + aligned@.subrange((j - context_after) as int, k2 as int),
                sv,
                dv,
            ),
            text_width > 0 ==> rows_flat(rows_d@) == rows_flat(old(rows_d)@) + ops_flat_dest(
                sub1 + aligned@.subrange((j - context_after) as int, k2 as int),
                sv,
                dv,
            ),
            text_width > 0 ==> rows_s@.len() == old(rows_s)@.len() + ops_row_count(
                sub1 + aligned@.subrange((j - context_after) as int, k2 as int),
                sv,
                dv,
                tw,
            ) + 1,
        decreases j - k2,
    {
        let ghost acc0 = sub1 + aligned@.subrange((j - context_after) as int, k2 as int);
        if let LineAlignment::Both(s, d) = aligned[k2] {
            emit_both(rows_s, rows_d, s, d, source_lines, dest_lines, text_width,
                gutter_width, max_line_digits);
            proof {
                assert(sv[s as int] == source_lines@[s as int]@);
                assert(dv[d as int] == dest_lines@[d as int]@);
            }
        }
        k2 += 1;
        proof {
            lemma_ops_ledger_snoc(acc0, aligned@[k2 - 1], sv, dv, tw);
            assert(aligned@.subrange((j - context_after) as int, k2 as int) =~= aligned@.subrange(
                (j - context_after) as int,
                k2 - 1,
            ).push(aligned@[k2 - 1]));
            assert(sub1 + aligned@.subrange((j - context_after) as int, k2 as int) =~= acc0.push(
                aligned@[k2 - 1],
            ));
            if text_width > 0 {
                assert(rows_flat(rows_s@) =~= rows_flat(old(rows_s)@) + ops_flat_source(
                    sub1 + aligned@.subrange((j - context_after) as int, k2 as int),
                    sv,
                    dv,
                ));
                assert(rows_flat(rows_d@) =~= rows_flat(old(rows_d)@) + ops_flat_dest(
                    sub1 + aligned@.subrange((j - context_after) as int, k2 as int),
                    sv,
                    dv,
                ));
            }
        }
    }
}

/// Build the full (pre-viewport) row lists for an alignment.
///
///
/// The two lists are equally tall after every op; fold markers pair up
/// across the columns; with folding off, at least one row stands for
/// every op.
#[verifier::rlimit(100)]
pub fn build_aligned_lines(
    aligned: &Vec<LineAlignment>,
    source_lines: &Vec<String>,
    dest_lines: &Vec<String>,
    text_width: usize,
    gutter_width: usize,
    max_line_digits: usize,
    fold_unchanged: bool,
    context_lines: usize,
) -> (r: (Vec<DisplayRow>, Vec<DisplayRow>))
    requires
        forall|k: int| 0 <= k < aligned@.len() ==> align_op_ok(
            #[trigger] aligned@[k],
            line_views(source_lines@),
            line_views(dest_lines@),
        ),
        source_lines@.len() < usize::MAX,
        dest_lines@.len() < usize::MAX,
        digit_count_spec(source_lines@.len() as nat) <= max_line_digits,
        digit_count_spec(dest_lines@.len() as nat) <= max_line_digits,
        gutter_width == max_line_digits + 1,
    ensures
        r.0@.len() == r.1@.len(),
        rows_wf(r.0@, text_width as int, gutter_width as int),
        rows_wf(r.1@, text_width as int, gutter_width as int),
        markers_paired(r.0@, r.1@),
        !fold_unchanged ==> r.0@.len() >= aligned@.len(),
        aligned@.len() > 0 ==> r.0@.len() >= 1,
        (!fold_unchanged && text_width > 0) ==> rows_flat(r.0@) == ops_flat_source(
            aligned@,
            line_views(source_lines@),
            line_views(dest_lines@),
        ),
        (!fold_unchanged && text_width > 0) ==> rows_flat(r.1@) == ops_flat_dest(
            aligned@,
            line_views(source_lines@),
            line_views(dest_lines@),
        ),
        fold_unchanged ==> marker_counts(r.0@) == fold_plan(
            aligned@,
            line_views(source_lines@),
            line_views(dest_lines@),
            context_lines as int,
            0,
        ),
        fold_unchanged ==> marker_counts(r.1@) == marker_counts(r.0@),
        !fold_unchanged ==> marker_counts(r.0@) == Seq::<int>::empty() && marker_counts(r.1@)
            == Seq::<int>::empty(),
        full_rows_ok(
            r.0@,
            r.1@,
            aligned@,
            line_views(source_lines@),
            line_views(dest_lines@),
            text_width as int,
            gutter_width as int,
            fold_unchanged,
            context_lines as int,
        ),
{
    let ghost sv = line_views(source_lines@);
    let ghost dv = line_views(dest_lines@);
    let ghost cx = context_lines as int;
    let ghost tw = text_width as int;
    let ghost mut gkept = Seq::<LineAlignment>::empty();
    let mut rows_s: Vec<DisplayRow> = Vec::new();
    let mut rows_d: Vec<DisplayRow> = Vec::new();
    let len = aligned.len();
    let mut i: usize = 0;
    proof {
        assert(ops_flat_source(aligned@.take(0), sv, dv) =~= Seq::<(char, bool)>::empty());
        assert(ops_flat_dest(aligned@.take(0), sv, dv) =~= Seq::<(char, bool)>::empty());
        assert(gkept + kept_ops(aligned@, sv, dv, cx, 0) =~= kept_ops(aligned@, sv, dv, cx, 0));
        assert(ops_flat_source(gkept, sv, dv) =~= Seq::<(char, bool)>::empty());
        assert(ops_flat_dest(gkept, sv, dv) =~= Seq::<(char, bool)>::empty());
    }
    while i < len
        invariant
            0 <= i <= len,
            len == aligned@.len(),
            forall|k: int| 0 <= k < aligned@.len() ==> align_op_ok(
                #[trigger] aligned@[k],
                line_views(source_lines@),
                line_views(dest_lines@),
            ),
            source_lines@.len() < usize::MAX,
            dest_lines@.len() < usize::MAX,
            digit_count_spec(source_lines@.len() as nat) <= max_line_digits,
            digit_count_spec(dest_lines@.len() as nat) <= max_line_digits,
            gutter_width == max_line_digits + 1,
            rows_s@.len() == rows_d@.len(),
            rows_wf(rows_s@, text_width as int, gutter_width as int),
            rows_wf(rows_d@, text_width as int, gutter_width as int),
            markers_paired(rows_s@, rows_d@),
            !fold_unchanged ==> rows_s@.len() >= i,
            i > 0 ==> rows_s@.len() >= 1,
            sv == line_views(source_lines@),
            dv == line_views(dest_lines@),
            (!fold_unchanged && text_width > 0) ==> rows_flat(rows_s@) == ops_flat_source(
                aligned@.take(i as int),
                sv,
                dv,
            ),
            (!fold_unchanged && text_width > 0) ==> rows_flat(rows_d@) == ops_flat_dest(
                aligned@.take(i as int),
                sv,
                dv,
            ),
            cx == context_lines as int,
            fold_unchanged ==> fold_plan(aligned@, sv, dv, cx, 0) == marker_counts(rows_s@)
                + fold_plan(aligned@, sv, dv, cx, i as int),
            fold_unchanged ==> marker_counts(rows_d@) == marker_counts(rows_s@),
            !fold_unchanged ==> marker_counts(rows_s@) == Seq::<int>::empty() && marker_counts(
                rows_d@,
            ) == Seq::<int>::empty(),
            tw == text_width as int,
            fold_unchanged ==> kept_ops(aligned@, sv, dv, cx, 0) == gkept + kept_ops(
                aligned@,
                sv,
                dv,
                cx,
                i as int,
            ),
            (fold_unchanged && text_width > 0) ==> rows_flat(rows_s@) == ops_flat_source(
                gkept,
                sv,
                dv,
            ),
            (fold_unchanged && text_width > 0) ==> rows_flat(rows_d@) == ops_flat_dest(
                gkept,
                sv,
                dv,
            ),
            (fold_unchanged && text_width > 0) ==> rows_s@.len() == ops_row_count(
                gkept,
                sv,
                dv,
                tw,
            ) + marker_counts(rows_s@).len(),
            (!fold_unchanged && text_width > 0) ==> rows_s@.len() == ops_row_count(
                aligned@.take(i as int),
                sv,
                dv,
                tw,
            ),
        decreases len - i,
    {
        if fold_unchanged {
            // Measure the run of unchanged matched lines starting here.
            let mut j = i;
            while j < len && is_unchanged_op(aligned, j, source_lines, dest_lines)
                invariant
                    i <= j <= len,
                    len == aligned@.len(),
                    forall|k: int| 0 <= k < aligned@.len() ==> align_op_ok(
                        #[trigger] aligned@[k],
                        line_views(source_lines@),
                        line_views(dest_lines@),
                    ),
                    forall|k: int|
                        i <= k < j ==> (#[trigger] aligned@[k]) is Both && !op_changed_spec(
                            aligned@[k],
                            sv,
                            dv,
                        ),
                    sv == line_views(source_lines@),
                    dv == line_views(dest_lines@),
                decreases len - j,
            {
                j += 1;
            }
            let unchanged_count = j - i;
            proof {
                lemma_unchanged_run_at(aligned@, sv, dv, i as int, j as int);
            }
            let has_change_before = i > 0 && op_changed(aligned, i - 1, source_lines, dest_lines);
            let has_change_after = j < len && op_changed(aligned, j, source_lines, dest_lines);
            // Fold only when enough unchanged lines sit next to a change:
            // with changes on both sides the threshold is twice the
            // context plus one, with one side the context plus one.
            let should_fold = if has_change_before && has_change_after {
                context_lines <= (usize::MAX - 1) / 2 && unchanged_count > 2 * context_lines + 1
            } else if has_change_before || has_change_after {
                context_lines < usize::MAX && unchanged_count > context_lines + 1
            } else {
                false
            };
            proof {
                assert(unchanged_count <= aligned@.len());
                assert(run_folds(aligned@, sv, dv, cx, i as int, unchanged_count as int)
                    == should_fold) by {
                    if context_lines > (usize::MAX - 1) / 2 {
                        assert(2 * cx + 1 > usize::MAX as int);
                    }
                }
            }
            if should_fold {
                let ghost m0 = marker_counts(rows_s@);
                let context_before = if has_change_before {
                    if context_lines < unchanged_count {
                        context_lines
                    } else {
                        unchanged_count
                    }
                } else {
                    0
                };
                let context_after = if has_change_after {
                    if context_lines < unchanged_count - context_before {
                        context_lines
                    } else {
                        unchanged_count - context_before
                    }
                } else {
                    0
                };
                let hidden_count = unchanged_count - context_before - context_after;
                let ghost gkept0 = gkept;
                let ghost ksl = aligned@.subrange(i as int, (i + context_before) as int)
                    + aligned@.subrange((j - context_after) as int, j as int);
                proof {
                    assert(hidden_count > 0);
                    assert(kept_ops(aligned@, sv, dv, cx, i as int) == ksl + kept_ops(
                        aligned@,
                        sv,
                        dv,
                        cx,
                        j as int,
                    ));
                    assert(run_hidden(aligned@, sv, dv, cx, i as int, unchanged_count as int)
                        == hidden_count as int);
                }
                emit_fold_run(&mut rows_s, &mut rows_d, aligned, source_lines, dest_lines, i, j,
                    context_before, context_after, hidden_count, text_width, gutter_width,
                    max_line_digits);
                proof {
                    gkept = gkept0 + ksl;
                    if text_width > 0 {
                        lemma_ops_ledger_concat(gkept0, ksl, sv, dv, tw);
                        assert(rows_flat(rows_s@) =~= ops_flat_source(gkept, sv, dv));
                        assert(rows_flat(rows_d@) =~= ops_flat_dest(gkept, sv, dv));
                        assert(rows_s@.len() == ops_row_count(gkept, sv, dv, tw) + marker_counts(
                            rows_s@,
                        ).len());
                    }
                    assert(kept_ops(aligned@, sv, dv, cx, 0) == gkept + kept_ops(
                        aligned@,
                        sv,
                        dv,
                        cx,
                        j as int,
                    )) by {
                        assert(gkept0 + (ksl + kept_ops(aligned@, sv, dv, cx, j as int)) =~= gkept
                            + kept_ops(aligned@, sv, dv, cx, j as int));
                    }
                    assert(fold_plan(aligned@, sv, dv, cx, i as int) == seq![
                        hidden_count as int,
                    ] + fold_plan(aligned@, sv, dv, cx, j as int));
                    assert(fold_plan(aligned@, sv, dv, cx, 0) == marker_counts(rows_s@)
                        + fold_plan(aligned@, sv, dv, cx, j as int)) by {
                        assert((m0 + seq![hidden_count as int]) + fold_plan(
                            aligned@,
                            sv,
                            dv,
                            cx,
                            j as int,
                        ) =~= m0 + (seq![hidden_count as int] + fold_plan(
                            aligned@,
                            sv,
                            dv,
                            cx,
                            j as int,
                        )));
                    }
                }
                i = j;
                continue ;
            }
        }
        let ghost gkept_prev = gkept;
        proof {
            lemma_ops_flat_take_step(aligned@, sv, dv, i as int);
            assert(aligned@.take(i + 1) =~= aligned@.take(i as int).push(aligned@[i as int]));
            lemma_ops_ledger_snoc(aligned@.take(i as int), aligned@[i as int], sv, dv, tw);
            if fold_unchanged {
                assert(kept_ops(aligned@, sv, dv, cx, i as int) == seq![aligned@[i as int]]
                    + kept_ops(aligned@, sv, dv, cx, i + 1));
                gkept = gkept.push(aligned@[i as int]);
                assert(gkept =~= gkept_prev + seq![aligned@[i as int]]);
                assert(kept_ops(aligned@, sv, dv, cx, 0) == gkept + kept_ops(
                    aligned@,
                    sv,
                    dv,
                    cx,
                    i + 1,
                )) by {
                    assert(gkept_prev + (seq![aligned@[i as int]] + kept_ops(
                        aligned@,
                        sv,
                        dv,
                        cx,
                        i + 1,
                    )) =~= gkept + kept_ops(aligned@, sv, dv, cx, i + 1));
                }
                lemma_ops_ledger_snoc(gkept_prev, aligned@[i as int], sv, dv, tw);
            }
        }
        emit_op(&mut rows_s, &mut rows_d, aligned, i, source_lines, dest_lines, text_width,
            gutter_width, max_line_digits);
        i += 1;
        proof {
            if fold_unchanged && text_width > 0 {
                assert(rows_flat(rows_s@) =~= ops_flat_source(gkept, sv, dv));
                assert(rows_flat(rows_d@) =~= ops_flat_dest(gkept, sv, dv));
                assert(rows_s@.len() == ops_row_count(gkept, sv, dv, tw) + marker_counts(
                    rows_s@,
                ).len());
            }
            if !fold_unchanged && text_width > 0 {
                assert(rows_flat(rows_s@) =~= ops_flat_source(aligned@.take(i as int), sv, dv));
                assert(rows_flat(rows_d@) =~= ops_flat_dest(aligned@.take(i as int), sv, dv));
                assert(rows_s@.len() == ops_row_count(aligned@.take(i as int), sv, dv, tw));
            }
            if fold_unchanged {
                assert(fold_plan(aligned@, sv, dv, cx, i - 1) == fold_plan(
                    aligned@,
                    sv,
                    dv,
                    cx,
                    i as int,
                ));
            }
        }
    }
    proof {
        assert(aligned@.take(len as int) =~= aligned@);
        assert forall|k: int|
            0 <= k < rows_s@.len() && (#[trigger] rows_s@[k]) is Content implies row_flat_len(
            rows_s@[k],
        ) + row_pad(rows_s@[k]).len() == text_width as int by {
            lemma_row_full_width(rows_s@[k], text_width as int, gutter_width as int);
        }
        assert forall|k: int|
            0 <= k < rows_d@.len() && (#[trigger] rows_d@[k]) is Content implies row_flat_len(
            rows_d@[k],
        ) + row_pad(rows_d@[k]).len() == text_width as int by {
            lemma_row_full_width(rows_d@[k], text_width as int, gutter_width as int);
        }
        if fold_unchanged {
            assert(kept_ops(aligned@, sv, dv, cx, len as int) =~= Seq::<LineAlignment>::empty());
            assert(gkept + kept_ops(aligned@, sv, dv, cx, len as int) =~= gkept);
            assert(kept_ops(aligned@, sv, dv, cx, 0) == gkept);
            assert(fold_plan(aligned@, sv, dv, cx, len as int) =~= Seq::<int>::empty());
            assert(marker_counts(rows_s@) + fold_plan(aligned@, sv, dv, cx, len as int) =~=
                marker_counts(rows_s@));
        }
    }
    (rows_s, rows_d)
}

/// Clip `rows` to the viewport: drop `eff_scroll` rows from the front,
/// keep at most `height` rows.
pub fn apply_viewport(rows: Vec<DisplayRow>, eff_scroll: usize, height: usize) -> (out: Vec<
    DisplayRow,
>)
    requires
        eff_scroll <= rows@.len(),
    ensures
        out@ == rows@.subrange(
            eff_scroll as int,
            if rows@.len() - eff_scroll <= height {
                rows@.len() as int
            } else {
                eff_scroll + height
            },
        ),
{
    let ghost orig = rows@;
    let mut rows = rows;
    let mut tail = rows.split_off(eff_scroll);
    tail.truncate(height);
    proof {
        assert(tail@ =~= orig.subrange(
            eff_scroll as int,
            if orig.len() - eff_scroll <= height {
                orig.len() as int
            } else {
                eff_scroll + height
            },
        ));
    }
    tail
}

/// Format the aligned lines for display: build both columns, apply the
/// scroll offset (clamped to keep at least one row in view), and clip to
/// the available height. The columns always have equal length, at most
/// `available_height`, and their fold markers pair up; the outputs are
/// the same clipped window of full lists that, with folding off and a
/// positive width, reproduce op by op the flagged characters of both
/// columns.
pub fn compute_render_data_static(
    aligned: &Vec<LineAlignment>,
    source_lines: &Vec<String>,
    dest_lines: &Vec<String>,
    text_width: usize,
    gutter_width: usize,
    max_line_digits: usize,
    fold_unchanged: bool,
    context_lines: usize,
    scroll_offset: usize,
    available_height: usize,
) -> (r: SplitDiffRenderData)
    requires
        forall|k: int| 0 <= k < aligned@.len() ==> align_op_ok(
            #[trigger] aligned@[k],
            line_views(source_lines@),
            line_views(dest_lines@),
        ),
        source_lines@.len() < usize::MAX,
        dest_lines@.len() < usize::MAX,
        digit_count_spec(source_lines@.len() as nat) <= max_line_digits,
        digit_count_spec(dest_lines@.len() as nat) <= max_line_digits,
        gutter_width == max_line_digits + 1,
    ensures
        r.source_rows@.len() == r.dest_rows@.len(),
        r.source_rows@.len() <= available_height,
        rows_wf(r.source_rows@, text_width as int, gutter_width as int),
        rows_wf(r.dest_rows@, text_width as int, gutter_width as int),
        markers_paired(r.source_rows@, r.dest_rows@),
        (aligned@.len() > 0 && available_height > 0) ==> r.source_rows@.len() >= 1,
        forall|k: int|
            0 <= k < r.source_rows@.len() && (#[trigger] r.source_rows@[k]) is Content
                ==> row_flat_len(r.source_rows@[k]) + row_pad(r.source_rows@[k]).len()
                == text_width,
        forall|k: int|
            0 <= k < r.dest_rows@.len() && (#[trigger] r.dest_rows@[k]) is Content
                ==> row_flat_len(r.dest_rows@[k]) + row_pad(r.dest_rows@[k]).len() == text_width,
        exists|full_s: Seq<DisplayRow>, full_d: Seq<DisplayRow>|
            #[trigger] full_rows_ok(
                full_s,
                full_d,
                aligned@,
                line_views(source_lines@),
                line_views(dest_lines@),
                text_width as int,
                gutter_width as int,
                fold_unchanged,
                context_lines as int,
            ) && clipped_from(
                r.source_rows@,
                full_s,
                scroll_offset as int,
                available_height as int,
            ) && clipped_from(r.dest_rows@, full_d, scroll_offset as int, available_height as int),
{
    let (rows_s, rows_d) = build_aligned_lines(
        aligned,
        source_lines,
        dest_lines,
        text_width,
        gutter_width,
        max_line_digits,
        fold_unchanged,
        context_lines,
    );
    let full = rows_s.len();
    let eff = if scroll_offset < full {
        scroll_offset
    } else {
        if full == 0 {
            0
        } else {
            full - 1
        }
    };
    let ghost full_s = rows_s@;
    let ghost full_d = rows_d@;
    let out_s = apply_viewport(rows_s, eff, available_height);
    let out_d = apply_viewport(rows_d, eff, available_height);
    proof {
        assert(out_s@.len() == out_d@.len());
        assert(markers_paired(out_s@, out_d@));
        assert(clipped_from(out_s@, full_s, scroll_offset as int, available_height as int));
        assert(clipped_from(out_d@, full_d, scroll_offset as int, available_height as int));
        assert forall|k: int|
            0 <= k < out_s@.len() && (#[trigger] out_s@[k]) is Content implies row_flat_len(
            out_s@[k],
        ) + row_pad(out_s@[k]).len() == text_width as int by {
            lemma_row_full_width(out_s@[k], text_width as int, gutter_width as int);
        }
        assert forall|k: int|
            0 <= k < out_d@.len() && (#[trigger] out_d@[k]) is Content implies row_flat_len(
            out_d@[k],
        ) + row_pad(out_d@[k]).len() == text_width as int by {
            lemma_row_full_width(out_d@[k], text_width as int, gutter_width as int);
        }
    }
    SplitDiffRenderData { source_rows: out_s, dest_rows: out_d }
}

} // verus!
