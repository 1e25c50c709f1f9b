//! Display rows: wrapping one logical line's segments into physical rows.
//!
//! A row holds a gutter string, its content spans, the padding that
//! fills the row out to the text width it was built for, and that
//! width; gutter, spans and padding together always span exactly the
//! gutter width plus the text width. Only the first physical row of a
//! logical line carries the line number in its gutter; continuation
//! rows get a blank gutter of the same width. A fold marker is a
//! special row carrying a hidden-line count, rendered identically on
//! both columns.

use vstd::prelude::*;
use crate::text::{dec_rep, digit_count_spec, digit_count, dec_string, spaces};
use crate::worddiff::{seg_views, word_diff_spec, compute_word_diff_source, compute_word_diff_dest,
    split_word_units, units_spec, is_unit_seq, concat_all, views_of};

verus! {

/// One physical terminal row.
#[derive(Debug, Clone, PartialEq, Eq)]
pub enum DisplayRow {
    /// A text row: the gutter, the content spans, the spaces that pad
    /// the content out to the text width the row was built for, that
    /// width, and whether the padding counts as changed.
    Content {
        gutter: String,
        spans: Vec<(String, bool)>,
        pad: String,
        width: usize,
        pad_changed: bool,
    },
    /// A placeholder for a folded run of unchanged lines.
    FoldMarker { hidden_count: usize },
}

/// The characters of the segments, each paired with its change flag.
pub open spec fn tag_seq(t: Seq<char>, c: bool) -> Seq<(char, bool)> {
    Seq::new(t.len(), |i: int| (t[i], c))
}

/// The flagged characters of a segment list, in order.
pub open spec fn flat_flags(segs: Seq<(Seq<char>, bool)>) -> Seq<(char, bool)>
    decreases segs.len(),
{
    if segs.len() == 0 {
        Seq::<(char, bool)>::empty()
    } else {
        tag_seq(segs[0].0, segs[0].1) + flat_flags(segs.skip(1))
    }
}

/// The characters of a flagged character list, without the flags.
pub open spec fn chars_of_flat(fl: Seq<(char, bool)>) -> Seq<char> {
    Seq::new(fl.len(), |i: int| fl[i].0)
}

/// A row's content spans.
pub open spec fn row_content(r: DisplayRow) -> Seq<(Seq<char>, bool)> {
    match r {
        DisplayRow::Content { spans, .. } => seg_views(spans@),
        DisplayRow::FoldMarker { .. } => Seq::<(Seq<char>, bool)>::empty(),
    }
}

/// A row's gutter characters.
pub open spec fn row_gutter(r: DisplayRow) -> Seq<char> {
    match r {
        DisplayRow::Content { gutter, .. } => gutter@,
        DisplayRow::FoldMarker { .. } => Seq::<char>::empty(),
    }
}

/// `n` spaces.
pub open spec fn spaces_seq(n: int) -> Seq<char> {
    Seq::new(if n >= 0 { n as nat } else { 0 }, |i: int| ' ')
}

/// The first-row gutter: the one-based line number, right-aligned in
/// `digits` columns, followed by one space.
pub open spec fn num_gutter_spec(idx: int, digits: int) -> Seq<char> {
    let d = dec_rep((idx + 1) as nat);
    spaces_seq(digits - d.len()) + d + seq![' ']
}

/// A row's padding characters.
pub open spec fn row_pad(r: DisplayRow) -> Seq<char> {
    match r {
        DisplayRow::Content { pad, .. } => pad@,
        DisplayRow::FoldMarker { .. } => Seq::<char>::empty(),
    }
}

/// A text row is well formed for a width pair when it was built for
/// that text width, its gutter fills the gutter width, its content
/// fits, and its padding is exactly the spaces that fill the content
/// out to the text width.
pub open spec fn row_wf(r: DisplayRow, text_width: int, gutter_width: int) -> bool {
    match r {
        DisplayRow::Content { gutter, spans, pad, width, .. } => {
            &&& width == text_width
            &&& gutter@.len() == gutter_width
            &&& flat_flags(seg_views(spans@)).len() <= text_width
            &&& pad@ == spaces_seq(text_width - flat_flags(seg_views(spans@)).len())
        },
        DisplayRow::FoldMarker { .. } => true,
    }
}

/// The length of a row's content in characters.
pub open spec fn row_flat_len(r: DisplayRow) -> int {
    flat_flags(row_content(r)).len() as int
}

/// The length of a row's first span, zero for an empty row.
pub open spec fn row_first_span_len(r: DisplayRow) -> int {
    if row_content(r).len() > 0 {
        row_content(r)[0].0.len() as int
    } else {
        0
    }
}

/// The content length of each row, in order.
pub open spec fn row_lens_of(rows: Seq<DisplayRow>) -> Seq<int> {
    Seq::new(rows.len(), |k: int| row_flat_len(rows[k]))
}

/// The full-width chunk rows that hard-splitting a token of length `r`
/// emits before its remainder.
pub open spec fn chunk_lens(r: int, w: int) -> Seq<int>
    decreases r,
{
    if w > 0 && r > w {
        seq![w] + chunk_lens(r - w, w)
    } else {
        Seq::<int>::empty()
    }
}

/// The remainder a hard split leaves on the open row.
pub open spec fn chunk_rem(r: int, w: int) -> int
    decreases r,
{
    if w > 0 && r > w {
        chunk_rem(r - w, w)
    } else {
        r
    }
}

/// The row content lengths of greedy wrapping with `cur` columns
/// already filled on the open row: a token moves whole onto the open
/// row when it fits there, opens a fresh row when it fits a row at
/// all, and is hard-split into full-width chunks plus a remainder
/// otherwise.
pub open spec fn greedy_lens(toks: Seq<(Seq<char>, bool)>, w: int, cur: int) -> Seq<int>
    decreases toks.len(),
{
    if toks.len() == 0 {
        if cur > 0 {
            seq![cur]
        } else {
            Seq::<int>::empty()
        }
    } else {
        let tl = toks[0].0.len() as int;
        if tl <= w {
            if tl <= w - cur {
                greedy_lens(toks.skip(1), w, cur + tl)
            } else {
                seq![cur] + greedy_lens(toks.skip(1), w, tl)
            }
        } else {
            (if cur > 0 {
                seq![cur]
            } else {
                Seq::<int>::empty()
            }) + chunk_lens(tl, w) + greedy_lens(toks.skip(1), w, chunk_rem(tl, w))
        }
    }
}

/// A unit list tagged with one change flag.
pub open spec fn tag_units(us: Seq<Seq<char>>, c: bool) -> Seq<(Seq<char>, bool)> {
    Seq::new(us.len(), |k: int| (us[k], c))
}

/// The word-plus-whitespace tokens of a segment list, in order, each
/// carrying its segment's change flag.
pub open spec fn seg_tokens(segs: Seq<(Seq<char>, bool)>) -> Seq<(Seq<char>, bool)>
    decreases segs.len(),
{
    if segs.len() == 0 {
        Seq::<(Seq<char>, bool)>::empty()
    } else {
        tag_units(units_spec(segs[0].0), segs[0].1) + seg_tokens(segs.skip(1))
    }
}

/// The row content lengths greedy wrapping owes one logical line's
/// segments: a line without tokens gets one empty row.
pub open spec fn wrap_row_lens(segs: Seq<(Seq<char>, bool)>, w: int) -> Seq<int> {
    let toks = seg_tokens(segs);
    if toks.len() > 0 {
        greedy_lens(toks, w, 0)
    } else {
        seq![0]
    }
}

/// A well-formed text row's spans and padding together span exactly
/// the text width: what the renderer prints after the gutter always
/// fills the column.
pub proof fn lemma_row_full_width(r: DisplayRow, text_width: int, gutter_width: int)
    requires
        row_wf(r, text_width, gutter_width),
        r is Content,
    ensures
        row_flat_len(r) + row_pad(r).len() == text_width,
{
}

proof fn lemma_seg_tokens_snoc(segs: Seq<(Seq<char>, bool)>, s: (Seq<char>, bool))
    ensures
        seg_tokens(segs.push(s)) == seg_tokens(segs) + tag_units(units_spec(s.0), s.1),
    decreases segs.len(),
{
    if segs.len() == 0 {
        assert(segs.push(s)[0] == s);
        assert(segs.push(s).skip(1) =~= Seq::<(Seq<char>, bool)>::empty());
        assert(tag_units(units_spec(s.0), s.1) + seg_tokens(Seq::<(Seq<char>, bool)>::empty()) =~=
            tag_units(units_spec(s.0), s.1));
        assert(seg_tokens(segs) + tag_units(units_spec(s.0), s.1) =~= tag_units(
            units_spec(s.0),
            s.1,
        ));
    } else {
        lemma_seg_tokens_snoc(segs.skip(1), s);
        assert(segs.push(s).skip(1) =~= segs.skip(1).push(s));
        assert(segs.push(s)[0] == segs[0]);
        assert(tag_units(units_spec(segs[0].0), segs[0].1) + (seg_tokens(segs.skip(1))
            + tag_units(units_spec(s.0), s.1)) =~= (tag_units(units_spec(segs[0].0), segs[0].1)
            + seg_tokens(segs.skip(1))) + tag_units(units_spec(s.0), s.1));
    }
}

/// The flagged characters of a whole row list.
pub open spec fn rows_flat(rows: Seq<DisplayRow>) -> Seq<(char, bool)>
    decreases rows.len(),
{
    if rows.len() == 0 {
        Seq::<(char, bool)>::empty()
    } else {
        flat_flags(row_content(rows[0])) + rows_flat(rows.skip(1))
    }
}

proof fn lemma_flat_concat(a: Seq<(Seq<char>, bool)>, b: Seq<(Seq<char>, bool)>)
    ensures
        flat_flags(a + b) == flat_flags(a) + flat_flags(b),
    decreases a.len(),
{
    if a.len() == 0 {
        assert(a + b =~= b);
        assert(flat_flags(a) + flat_flags(b) =~= flat_flags(b));
    } else {
        lemma_flat_concat(a.skip(1), b);
        assert((a + b).skip(1) =~= a.skip(1) + b);
        assert((a + b)[0] == a[0]);
        assert(tag_seq(a[0].0, a[0].1) + (flat_flags(a.skip(1)) + flat_flags(b)) =~= (tag_seq(
            a[0].0,
            a[0].1,
        ) + flat_flags(a.skip(1))) + flat_flags(b));
    }
}

proof fn lemma_flat_snoc(segs: Seq<(Seq<char>, bool)>, t: Seq<char>, c: bool)
    ensures
        flat_flags(segs.push((t, c))) == flat_flags(segs) + tag_seq(t, c),
{
    assert(segs.push((t, c)) =~= segs + seq![(t, c)]);
    lemma_flat_concat(segs, seq![(t, c)]);
    assert(seq![(t, c)].skip(1) =~= Seq::<(Seq<char>, bool)>::empty());
    assert(flat_flags(seq![(t, c)]) == tag_seq(t, c) + flat_flags(
        Seq::<(Seq<char>, bool)>::empty(),
    ));
    assert(tag_seq(t, c) + Seq::<(char, bool)>::empty() =~= tag_seq(t, c));
}

pub proof fn lemma_rows_flat_snoc(rows: Seq<DisplayRow>, r: DisplayRow)
    ensures
        rows_flat(rows.push(r)) == rows_flat(rows) + flat_flags(row_content(r)),
    decreases rows.len(),
{
    if rows.len() == 0 {
        assert(rows.push(r).skip(1) =~= Seq::<DisplayRow>::empty());
        assert(rows.push(r)[0] == r);
        assert(rows_flat(rows.push(r)) == flat_flags(row_content(r)) + rows_flat(
            Seq::<DisplayRow>::empty(),
        ));
        assert(flat_flags(row_content(r)) + Seq::<(char, bool)>::empty() =~= flat_flags(
            row_content(r),
        ));
        assert(Seq::<(char, bool)>::empty() + flat_flags(row_content(r)) =~= flat_flags(
            row_content(r),
        ));
    } else {
        lemma_rows_flat_snoc(rows.skip(1), r);
        assert(rows.push(r).skip(1) =~= rows.skip(1).push(r));
        assert(rows.push(r)[0] == rows[0]);
        assert(flat_flags(row_content(rows[0])) + (rows_flat(rows.skip(1)) + flat_flags(
            row_content(r),
        )) =~= (flat_flags(row_content(rows[0])) + rows_flat(rows.skip(1))) + flat_flags(
            row_content(r),
        ));
    }
}

/// Row content concatenates across list concatenation.
pub proof fn lemma_rows_flat_concat(a: Seq<DisplayRow>, b: Seq<DisplayRow>)
    ensures
        rows_flat(a + b) == rows_flat(a) + rows_flat(b),
    decreases a.len(),
{
    if a.len() == 0 {
        assert(a + b =~= b);
        assert(rows_flat(a) + rows_flat(b) =~= rows_flat(b));
    } else {
        lemma_rows_flat_concat(a.skip(1), b);
        assert((a + b).skip(1) =~= a.skip(1) + b);
        assert((a + b)[0] == a[0]);
        assert(flat_flags(row_content(a[0])) + (rows_flat(a.skip(1)) + rows_flat(b)) =~= (
        flat_flags(row_content(a[0])) + rows_flat(a.skip(1))) + rows_flat(b));
    }
}

/// The flagged characters of a segment list spell out its concatenated
/// texts.
pub proof fn lemma_flat_chars(segs: Seq<(Seq<char>, bool)>)
    ensures
        chars_of_flat(flat_flags(segs)) == crate::worddiff::segs_text(segs),
    decreases segs.len(),
{
    if segs.len() == 0 {
        assert(chars_of_flat(flat_flags(segs)) =~= crate::worddiff::segs_text(segs));
    } else {
        lemma_flat_chars(segs.skip(1));
        assert(chars_of_flat(flat_flags(segs)) =~= crate::worddiff::segs_text(segs));
    }
}

/// The segments the formatter wraps for one logical line: the word diff
/// against the other side when one exists, the whole line as changed for
/// a one-sided line.
pub open spec fn line_segments_spec(line: Seq<char>, other: Option<Seq<char>>, is_dest: bool) -> Seq<
    (Seq<char>, bool),
> {
    match other {
        Option::Some(o) => word_diff_spec(line, o, is_dest),
        Option::None => seq![(line, true)],
    }
}

/// The first-row gutter string for line index `idx`.
fn make_num_gutter(idx: usize, max_line_digits: usize) -> (g: String)
    requires
        idx < usize::MAX,
        digit_count_spec((idx + 1) as nat) <= max_line_digits,
    ensures
        g@ == num_gutter_spec(idx as int, max_line_digits as int),
        g@.len() == max_line_digits + 1,
{
    let dc = digit_count(idx + 1);
    let mut g = spaces(max_line_digits - dc);
    let num = dec_string(idx + 1);
    g.append(num.as_str());
    g.append(" ");
    proof {
        reveal_strlit(" ");
        assert((" ")@ =~= seq![' ']);
        assert(g@ =~= num_gutter_spec(idx as int, max_line_digits as int));
    }
    g
}

/// Flush the accumulated spans as one row, padded with spaces out to
/// the text width; the first row of the line carries the number
/// gutter, later rows a blank one.
fn flush_row(
    rows: &mut Vec<DisplayRow>,
    cur: &mut Vec<(String, bool)>,
    content_w: usize,
    idx: usize,
    text_width: usize,
    gutter_width: usize,
    max_line_digits: usize,
    pad_changed: bool,
)
    requires
        idx < usize::MAX,
        digit_count_spec((idx + 1) as nat) <= max_line_digits,
        gutter_width == max_line_digits + 1,
        content_w == flat_flags(seg_views(old(cur)@)).len(),
        content_w <= text_width,
    ensures
        final(rows)@.len() == old(rows)@.len() + 1,
        forall|k: int| 0 <= k < old(rows)@.len() ==> final(rows)@[k] == old(rows)@[k],
        row_content(final(rows)@.last()) == seg_views(old(cur)@),
        row_gutter(final(rows)@.last()) == if old(rows)@.len() == 0 {
            num_gutter_spec(idx as int, max_line_digits as int)
        } else {
            spaces_seq(gutter_width as int)
        },
        row_wf(final(rows)@.last(), text_width as int, gutter_width as int),
        final(rows)@.last() is Content,
        rows_flat(final(rows)@) == rows_flat(old(rows)@) + flat_flags(seg_views(old(cur)@)),
        final(cur)@ == Seq::<(String, bool)>::empty(),
{
    let gutter = if rows.len() == 0 {
        make_num_gutter(idx, max_line_digits)
    } else {
        spaces(gutter_width)
    };
    let pad = spaces(text_width - content_w);
    let spans = cur.split_off(0);
    proof {
        assert(seg_views(spans@) =~= seg_views(old(cur)@));
        assert(pad@ =~= spaces_seq(text_width - flat_flags(seg_views(spans@)).len()));
    }
    let ghost rows0 = rows@;
    let row = DisplayRow::Content { gutter, spans, pad, width: text_width, pad_changed };
    rows.push(row);
    proof {
        lemma_rows_flat_snoc(rows0, row);
        assert(cur@ =~= Seq::<(String, bool)>::empty());
    }
}

/// Emit the full-width rows that hard-splitting one token wider than
/// the row produces, and leave its remainder as the open row's first
/// span.
#[verifier::rlimit(100)]
fn hard_split_token(
    rows: &mut Vec<DisplayRow>,
    cur: &mut Vec<(String, bool)>,
    tok: &String,
    flag: bool,
    idx: usize,
    text_width: usize,
    gutter_width: usize,
    max_line_digits: usize,
    pad_changed: bool,
) -> (rw: usize)
    requires
        idx < usize::MAX,
        digit_count_spec((idx + 1) as nat) <= max_line_digits,
        gutter_width == max_line_digits + 1,
        text_width > 0,
        tok@.len() > text_width,
        old(cur)@ == Seq::<(String, bool)>::empty(),
        old(rows)@.len() >= 1 ==> row_gutter(old(rows)@[0]) == num_gutter_spec(
            idx as int,
            max_line_digits as int,
        ),
    ensures
        final(rows)@.len() > old(rows)@.len(),
        forall|k: int| 0 <= k < old(rows)@.len() ==> final(rows)@[k] == old(rows)@[k],
        forall|k: int|
            old(rows)@.len() <= k < final(rows)@.len() ==> (#[trigger] final(rows)@[k]) is Content
                && row_wf(final(rows)@[k], text_width as int, gutter_width as int) && row_flat_len(
                final(rows)@[k],
            ) == text_width && row_first_span_len(final(rows)@[k]) == text_width && row_content(
                final(rows)@[k],
            ).len() >= 1,
        row_gutter(final(rows)@[0]) == num_gutter_spec(idx as int, max_line_digits as int),
        forall|k: int|
            1 <= k < final(rows)@.len() && old(rows)@.len() <= k ==> row_gutter(
                #[trigger] final(rows)@[k],
            ) == spaces_seq(gutter_width as int),
        rw == chunk_rem(tok@.len() as int, text_width as int),
        1 <= rw <= text_width,
        final(cur)@.len() == 1,
        final(cur)@[0].1 == flag,
        final(cur)@[0].0@ == tok@.subrange(tok@.len() - rw, tok@.len() as int),
        flat_flags(seg_views(final(cur)@)) == tag_seq(
            tok@.subrange(tok@.len() - rw, tok@.len() as int),
            flag,
        ),
        flat_flags(seg_views(final(cur)@)).len() == rw,
        rows_flat(final(rows)@) == rows_flat(old(rows)@) + tag_seq(
            tok@.take(tok@.len() - rw),
            flag,
        ),
        row_lens_of(final(rows)@) == row_lens_of(old(rows)@) + chunk_lens(
            tok@.len() as int,
            text_width as int,
        ),
{
    let ghost tok_view = tok@;
    let ghost tw = text_width as int;
    let tok_w = tok.as_str().unicode_len();
    let mut off: usize = 0;
    proof {
        assert(tag_seq(tok_view.take(0), flag) =~= Seq::<(char, bool)>::empty());
        assert(rows_flat(rows@) + tag_seq(tok_view.take(0), flag) =~= rows_flat(rows@));
    }
    while tok_w - off > text_width
        invariant
            0 <= off < tok_w,
            tok_w == tok_view.len(),
            tok@ == tok_view,
            tw == text_width as int,
            text_width > 0,
            idx < usize::MAX,
            digit_count_spec((idx + 1) as nat) <= max_line_digits,
            gutter_width == max_line_digits + 1,
            cur@ =~= Seq::<(String, bool)>::empty(),
            rows@.len() >= old(rows)@.len(),
            forall|k: int| 0 <= k < old(rows)@.len() ==> #[trigger] rows@[k] == old(rows)@[k],
            forall|k: int|
                old(rows)@.len() <= k < rows@.len() ==> (#[trigger] rows@[k]) is Content
                    && row_wf(rows@[k], text_width as int, gutter_width as int) && row_flat_len(
                    rows@[k],
                ) == text_width && row_first_span_len(rows@[k]) == text_width && row_content(
                    rows@[k],
                ).len() >= 1,
            rows@.len() >= 1 ==> row_gutter(rows@[0]) == num_gutter_spec(
                idx as int,
                max_line_digits as int,
            ),
            forall|k: int|
                1 <= k < rows@.len() && old(rows)@.len() <= k ==> row_gutter(
                    #[trigger] rows@[k],
                ) == spaces_seq(gutter_width as int),
            rows_flat(rows@) == rows_flat(old(rows)@) + tag_seq(tok_view.take(off as int), flag),
            row_lens_of(old(rows)@) + chunk_lens(tok_w as int, tw) == row_lens_of(rows@)
                + chunk_lens(tok_w - off, tw),
            chunk_rem(tok_w as int, tw) == chunk_rem(tok_w - off, tw),
            off > 0 ==> rows@.len() > old(rows)@.len(),
        decreases tok_w - off,
    {
        let chunk = tok.as_str().substring_char(off, off + text_width).to_owned();
        let ghost cur0 = cur@;
        cur.push((chunk, flag));
        proof {
            assert(seg_views(cur@) =~= seg_views(cur0).push(
                (tok_view.subrange(off as int, off + text_width), flag),
            ));
            lemma_flat_snoc(
                seg_views(cur0),
                tok_view.subrange(off as int, off + text_width),
                flag,
            );
            assert(flat_flags(seg_views(cur@)) =~= tag_seq(
                tok_view.subrange(off as int, off + text_width),
                flag,
            ));
        }
        let ghost rows0 = rows@;
        let ghost chunk_cur = cur@;
        flush_row(rows, cur, text_width, idx, text_width, gutter_width, max_line_digits,
            pad_changed);
        off = off + text_width;
        proof {
            assert(tag_seq(tok_view.take(off - text_width), flag) + tag_seq(
                tok_view.subrange(off - text_width, off as int),
                flag,
            ) =~= tag_seq(tok_view.take(off as int), flag));
            assert(rows_flat(rows@) =~= rows_flat(old(rows)@) + tag_seq(
                tok_view.take(off as int),
                flag,
            ));
            assert(row_content(rows@.last()) == seg_views(chunk_cur));
            assert(row_flat_len(rows@.last()) == text_width) by {
                assert(flat_flags(seg_views(chunk_cur)) =~= tag_seq(
                    tok_view.subrange(off - text_width, off as int),
                    flag,
                ));
            }
            assert(row_first_span_len(rows@.last()) == text_width) by {
                assert(seg_views(chunk_cur)[0].0 == tok_view.subrange(
                    off - text_width,
                    off as int,
                ));
            }
            assert(forall|k: int| 0 <= k < rows0.len() ==> #[trigger] rows@[k] == rows0[k]);
            assert(row_lens_of(rows@) =~= row_lens_of(rows0) + seq![tw]);
            assert(chunk_lens(tok_w - off + text_width, tw) == seq![tw] + chunk_lens(
                tok_w - off,
                tw,
            ));
            assert(chunk_rem(tok_w - off + text_width, tw) == chunk_rem(tok_w - off, tw));
            assert(row_lens_of(old(rows)@) + chunk_lens(tok_w as int, tw) =~= row_lens_of(rows@)
                + chunk_lens(tok_w - off, tw));
        }
    }
    proof {
        assert(off > 0) by {
            if off == 0 {
                assert(tok_w <= text_width);
            }
        }
    }
    let chunk = tok.as_str().substring_char(off, tok_w).to_owned();
    let ghost cur0 = cur@;
    cur.push((chunk, flag));
    let rw = tok_w - off;
    proof {
        assert(seg_views(cur@) =~= seg_views(cur0).push(
            (tok_view.subrange(off as int, tok_w as int), flag),
        ));
        lemma_flat_snoc(seg_views(cur0), tok_view.subrange(off as int, tok_w as int), flag);
        assert(flat_flags(seg_views(cur@)) =~= tag_seq(
            tok_view.subrange(off as int, tok_w as int),
            flag,
        ));
        assert(chunk_lens(tok_w - off, tw) == Seq::<int>::empty());
        assert(chunk_rem(tok_w - off, tw) == tok_w - off);
        assert(row_lens_of(rows@) + Seq::<int>::empty() =~= row_lens_of(rows@));
        assert(row_lens_of(rows@) =~= row_lens_of(old(rows)@) + chunk_lens(tok_w as int, tw));
        assert(tok_view.take(off as int) == tok_view.take(tok_view.len() - rw));
        assert(cur@.len() == 1);
        assert(cur@[0].0@ == tok_view.subrange(tok_view.len() - rw, tok_view.len() as int));
    }
    rw
}

/// Wrap one logical line's flagged tokens into rows of at most
/// `text_width` columns, hard-splitting a token wider than the row.
/// Filling is greedy: each row together with the first span of the row
/// after it overflows the width, so no row ends early.
#[verifier::rlimit(100)]
fn wrap_tokens(
    toks: &Vec<(String, bool)>,
    idx: usize,
    text_width: usize,
    gutter_width: usize,
    max_line_digits: usize,
    pad_changed: bool,
) -> (rows: Vec<DisplayRow>)
    requires
        idx < usize::MAX,
        digit_count_spec((idx + 1) as nat) <= max_line_digits,
        gutter_width == max_line_digits + 1,
        text_width > 0,
        forall|k: int| 0 <= k < toks@.len() ==> (#[trigger] toks@[k]).0@.len() > 0,
    ensures
        rows@.len() >= 1,
        forall|k: int| 0 <= k < rows@.len() ==> row_wf(
            #[trigger] rows@[k],
            text_width as int,
            gutter_width as int,
        ) && rows@[k] is Content,
        row_gutter(rows@[0]) == num_gutter_spec(idx as int, max_line_digits as int),
        forall|k: int| 1 <= k < rows@.len() ==> row_gutter(#[trigger] rows@[k]) == spaces_seq(
            gutter_width as int,
        ),
        rows_flat(rows@) == flat_flags(seg_views(toks@)),
        forall|k: int|
            0 <= k < rows@.len() - 1 ==> row_flat_len(#[trigger] rows@[k]) + row_first_span_len(
                rows@[k + 1],
            ) > text_width,
        forall|k: int| 1 <= k < rows@.len() ==> row_content(#[trigger] rows@[k]).len() >= 1,
        toks@.len() > 0 ==> row_lens_of(rows@) == greedy_lens(
            seg_views(toks@),
            text_width as int,
            0,
        ),
        toks@.len() == 0 ==> rows@.len() == 1 && row_flat_len(rows@[0]) == 0,
{
    let ghost stoks = seg_views(toks@);
    let ghost tw = text_width as int;
    let ghost glens = greedy_lens(stoks, tw, 0);
    let mut rows: Vec<DisplayRow> = Vec::new();
    let mut cur: Vec<(String, bool)> = Vec::new();
    let mut cur_w: usize = 0;
    let mut t: usize = 0;
    proof {
        assert(flat_flags(seg_views(toks@.take(0))) =~= Seq::<(char, bool)>::empty());
        assert(rows_flat(rows@) + flat_flags(seg_views(cur@)) =~= Seq::<(char, bool)>::empty());
        assert(row_lens_of(rows@) =~= Seq::<int>::empty());
        assert(stoks.skip(0) =~= stoks);
        assert(row_lens_of(rows@) + greedy_lens(stoks.skip(0), tw, 0) =~= glens);
    }
    while t < toks.len()
        invariant
            0 <= t <= toks@.len(),
            idx < usize::MAX,
            digit_count_spec((idx + 1) as nat) <= max_line_digits,
            gutter_width == max_line_digits + 1,
            text_width > 0,
            cur_w == flat_flags(seg_views(cur@)).len(),
            cur_w <= text_width,
            forall|k: int| 0 <= k < rows@.len() ==> row_wf(
                #[trigger] rows@[k],
                text_width as int,
                gutter_width as int,
            ) && rows@[k] is Content,
            rows@.len() >= 1 ==> row_gutter(rows@[0]) == num_gutter_spec(
                idx as int,
                max_line_digits as int,
            ),
            forall|k: int| 1 <= k < rows@.len() ==> row_gutter(#[trigger] rows@[k]) == spaces_seq(
                gutter_width as int,
            ),
            rows_flat(rows@) + flat_flags(seg_views(cur@)) == flat_flags(
                seg_views(toks@.take(t as int)),
            ),
            forall|k: int| 0 <= k < toks@.len() ==> (#[trigger] toks@[k]).0@.len() > 0,
            forall|q: int| 0 <= q < cur@.len() ==> (#[trigger] cur@[q]).0@.len() >= 1,
            forall|k: int|
                0 <= k < rows@.len() - 1 ==> row_flat_len(#[trigger] rows@[k])
                    + row_first_span_len(rows@[k + 1]) > text_width,
            forall|k: int| 1 <= k < rows@.len() ==> row_content(#[trigger] rows@[k]).len() >= 1,
            rows@.len() >= 1 && cur@.len() >= 1 ==> row_flat_len(rows@.last()) + cur@[0].0@.len()
                > text_width,
            rows@.len() >= 1 && cur@.len() == 0 ==> row_flat_len(rows@.last()) == text_width,
            rows@.len() >= 1 ==> row_flat_len(rows@.last()) >= 1,
            stoks == seg_views(toks@),
            tw == text_width as int,
            glens == greedy_lens(stoks, tw, 0),
            glens == row_lens_of(rows@) + greedy_lens(stoks.skip(t as int), tw, cur_w as int),
            t > 0 ==> cur_w >= 1,
        decreases toks@.len() - t,
    {
        let tok_w = toks[t].0.as_str().unicode_len();
        let flag = toks[t].1;
        let ghost tok_view = toks@[t as int].0@;
        proof {
            assert(toks@.take(t + 1).drop_last() =~= toks@.take(t as int));
            assert(seg_views(toks@.take(t + 1)) =~= seg_views(toks@.take(t as int)).push(
                (tok_view, flag),
            ));
            lemma_flat_snoc(seg_views(toks@.take(t as int)), tok_view, flag);
            assert(stoks.skip(t as int)[0] == (tok_view, flag));
            assert(stoks.skip(t as int).skip(1) =~= stoks.skip(t + 1));
            assert(stoks.skip(t as int).len() > 0);
        }
        if tok_w <= text_width {
            // The token fits on a row; start a new row if it would not
            // fit on this one.
            let ghost flushed = tok_w > text_width - cur_w;
            let ghost w0 = cur_w as int;
            if tok_w > text_width - cur_w {
                proof {
                    assert(cur@.len() >= 1) by {
                        if cur@.len() == 0 {
                            assert(seg_views(cur@) =~= Seq::<(Seq<char>, bool)>::empty());
                        }
                    }
                }
                let ghost rows0 = rows@;
                let ghost cur0f = cur@;
                flush_row(&mut rows, &mut cur, cur_w, idx, text_width, gutter_width,
                    max_line_digits, pad_changed);
                cur_w = 0;
                proof {
                    assert(row_content(rows@.last()) == seg_views(cur0f));
                    assert(row_first_span_len(rows@.last()) == cur0f[0].0@.len());
                    assert(row_flat_len(rows@.last()) == w0);
                    assert(forall|k: int|
                        0 <= k < rows0.len() ==> #[trigger] rows@[k] == rows0[k]);
                    assert(row_lens_of(rows@) =~= row_lens_of(rows0) + seq![w0]);
                }
            }
            let ghost cur0 = cur@;
            cur.push((toks[t].0.clone(), flag));
            cur_w = cur_w + tok_w;
            proof {
                assert(seg_views(cur@) =~= seg_views(cur0).push((tok_view, flag)));
                lemma_flat_snoc(seg_views(cur0), tok_view, flag);
                assert(cur@[0].0@.len() >= 1 || cur0.len() >= 1);
                if flushed {
                    assert(cur_w == tok_view.len());
                    assert(greedy_lens(stoks.skip(t as int), tw, w0) == seq![w0] + greedy_lens(
                        stoks.skip(t + 1),
                        tw,
                        cur_w as int,
                    ));
                    assert(glens =~= row_lens_of(rows@) + greedy_lens(
                        stoks.skip(t + 1),
                        tw,
                        cur_w as int,
                    ));
                } else {
                    assert(greedy_lens(stoks.skip(t as int), tw, w0) == greedy_lens(
                        stoks.skip(t + 1),
                        tw,
                        cur_w as int,
                    ));
                    assert(glens == row_lens_of(rows@) + greedy_lens(
                        stoks.skip(t + 1),
                        tw,
                        cur_w as int,
                    ));
                }
            }
        } else {
            // Hard-split: fill whole rows with slices of the token.
            let ghost rows_pre = rows@;
            let ghost w_pre = cur_w as int;
            if cur.len() > 0 {
                let ghost rows0 = rows@;
                let ghost cur0f = cur@;
                let ghost w0 = cur_w as int;
                flush_row(&mut rows, &mut cur, cur_w, idx, text_width, gutter_width,
                    max_line_digits, pad_changed);
                cur_w = 0;
                proof {
                    assert(row_content(rows@.last()) == seg_views(cur0f));
                    assert(row_first_span_len(rows@.last()) == cur0f[0].0@.len());
                    assert(row_flat_len(rows@.last()) == w0);
                    assert(w0 >= 1) by {
                        assert(seg_views(cur0f)[0].0.len() >= 1);
                        assert(flat_flags(seg_views(cur0f)).len() >= seg_views(
                            cur0f,
                        )[0].0.len()) by {
                            assert(flat_flags(seg_views(cur0f)) == tag_seq(
                                seg_views(cur0f)[0].0,
                                seg_views(cur0f)[0].1,
                            ) + flat_flags(seg_views(cur0f).skip(1)));
                        }
                    }
                    assert(forall|k: int|
                        0 <= k < rows0.len() ==> #[trigger] rows@[k] == rows0[k]);
                    assert(row_lens_of(rows@) =~= row_lens_of(rows0) + seq![w0]);
                }
            }
            proof {
                assert(greedy_lens(stoks.skip(t as int), tw, w_pre) == (if w_pre > 0 {
                    seq![w_pre]
                } else {
                    Seq::<int>::empty()
                }) + chunk_lens(tok_view.len() as int, tw) + greedy_lens(
                    stoks.skip(t + 1),
                    tw,
                    chunk_rem(tok_view.len() as int, tw),
                ));
                if w_pre == 0 {
                    assert(rows@ == rows_pre);
                    assert(Seq::<int>::empty() + chunk_lens(tok_view.len() as int, tw) =~=
                        chunk_lens(tok_view.len() as int, tw));
                }
                assert(glens =~= row_lens_of(rows@) + chunk_lens(tok_view.len() as int, tw)
                    + greedy_lens(stoks.skip(t + 1), tw, chunk_rem(tok_view.len() as int, tw)));
            }
            proof {
                assert(cur@ =~= Seq::<(String, bool)>::empty());
            }
            cur_w = hard_split_token(&mut rows, &mut cur, &toks[t].0, flag, idx, text_width,
                gutter_width, max_line_digits, pad_changed);
            proof {
                assert(tag_seq(tok_view.take(tok_view.len() - cur_w), flag) + tag_seq(
                    tok_view.subrange(tok_view.len() - cur_w, tok_view.len() as int),
                    flag,
                ) =~= tag_seq(tok_view, flag));
                assert(rows_flat(rows@) + flat_flags(seg_views(cur@)) =~= flat_flags(
                    seg_views(toks@.take(t + 1)),
                ));
                assert(glens =~= row_lens_of(rows@) + greedy_lens(
                    stoks.skip(t + 1),
                    tw,
                    cur_w as int,
                ));
                assert(rows@.len() >= 1 && row_flat_len(rows@.last()) == text_width);
                assert(cur@[0].0@.len() == cur_w);
            }
        }
        t += 1;
        proof {
            assert(rows_flat(rows@) + flat_flags(seg_views(cur@)) =~= flat_flags(
                seg_views(toks@.take(t as int)),
            ));
        }
    }
    proof {
        assert(stoks.skip(toks@.len() as int) =~= Seq::<(Seq<char>, bool)>::empty());
        if toks@.len() > 0 {
            assert(cur@.len() >= 1) by {
                if cur@.len() == 0 {
                    assert(seg_views(cur@) =~= Seq::<(Seq<char>, bool)>::empty());
                }
            }
        }
    }
    if cur.len() > 0 || rows.len() == 0 {
        let ghost rows0 = rows@;
        let ghost cur0f = cur@;
        flush_row(&mut rows, &mut cur, cur_w, idx, text_width, gutter_width, max_line_digits,
            pad_changed);
        proof {
            assert(row_content(rows@.last()) == seg_views(cur0f));
            if rows0.len() >= 1 {
                assert(cur0f.len() >= 1);
                assert(row_first_span_len(rows@.last()) == cur0f[0].0@.len());
            }
            assert(forall|k: int| 0 <= k < rows0.len() ==> #[trigger] rows@[k] == rows0[k]);
            assert(row_flat_len(rows@.last()) == cur_w);
            assert(row_lens_of(rows@) =~= row_lens_of(rows0) + seq![cur_w as int]);
        }
    }
    proof {
        assert(toks@.take(toks@.len() as int) =~= toks@);
        assert(rows_flat(rows@) =~= flat_flags(seg_views(toks@)));
        if toks@.len() > 0 {
            assert(cur_w >= 1);
            assert(greedy_lens(Seq::<(Seq<char>, bool)>::empty(), tw, cur_w as int) =~= seq![
                cur_w as int,
            ]);
            assert(row_lens_of(rows@) =~= glens);
        } else {
            assert(stoks =~= Seq::<(Seq<char>, bool)>::empty());
            assert(glens =~= Seq::<int>::empty());
            assert(row_lens_of(rows@).len() == 1);
            assert(rows@.len() == 1);
            assert(row_flat_len(rows@[0]) == 0);
        }
    }
    rows
}

/// Break the segments into their word-plus-whitespace tokens, keeping
/// each token's change flag.
fn explode_segments(segs: &Vec<(String, bool)>) -> (toks: Vec<(String, bool)>)
    ensures
        flat_flags(seg_views(toks@)) == flat_flags(seg_views(segs@)),
        seg_views(toks@) == seg_tokens(seg_views(segs@)),
        forall|k: int| 0 <= k < toks@.len() ==> (#[trigger] toks@[k]).0@.len() > 0,
{
    let mut toks: Vec<(String, bool)> = Vec::new();
    let mut i: usize = 0;
    proof {
        assert(flat_flags(seg_views(toks@)) =~= flat_flags(seg_views(segs@.take(0))));
        assert(seg_views(toks@) =~= seg_tokens(seg_views(segs@.take(0))));
    }
    while i < segs.len()
        invariant
            0 <= i <= segs@.len(),
            flat_flags(seg_views(toks@)) == flat_flags(seg_views(segs@.take(i as int))),
            seg_views(toks@) == seg_tokens(seg_views(segs@.take(i as int))),
            forall|k: int| 0 <= k < toks@.len() ==> (#[trigger] toks@[k]).0@.len() > 0,
        decreases segs@.len() - i,
    {
        let flag = segs[i].1;
        let units = split_word_units(segs[i].0.as_str());
        let ghost seg_text = segs@[i as int].0@;
        let mut u: usize = 0;
        proof {
            assert(tag_units(views_of(units@).take(0), flag) =~= Seq::<(Seq<char>, bool)>::empty());
            assert(seg_views(toks@) + Seq::<(Seq<char>, bool)>::empty() =~= seg_views(toks@));
        }
        while u < units.len()
            invariant
                0 <= u <= units@.len(),
                0 <= i < segs@.len(),
                flag == segs@[i as int].1,
                seg_text == segs@[i as int].0@,
                views_of(units@) == units_spec(seg_text),
                is_unit_seq(seg_text, views_of(units@)),
                flat_flags(seg_views(toks@)) == flat_flags(seg_views(segs@.take(i as int)))
                    + tag_seq(concat_all(views_of(units@).take(u as int)), flag),
                seg_views(toks@) == seg_tokens(seg_views(segs@.take(i as int))) + tag_units(
                    views_of(units@).take(u as int),
                    flag,
                ),
                forall|k: int| 0 <= k < toks@.len() ==> (#[trigger] toks@[k]).0@.len() > 0,
            decreases units@.len() - u,
        {
            let ghost toks0 = toks@;
            toks.push((units[u].clone(), flag));
            u += 1;
            proof {
                assert(seg_views(toks@) =~= seg_views(toks0).push(
                    (views_of(units@)[u - 1], flag),
                ));
                lemma_flat_snoc(seg_views(toks0), views_of(units@)[u - 1], flag);
                crate::worddiff::lemma_concat_snoc(
                    views_of(units@).take(u - 1),
                    views_of(units@)[u - 1],
                );
                assert(views_of(units@).take(u as int) =~= views_of(units@).take(u - 1).push(
                    views_of(units@)[u - 1],
                ));
                assert(tag_seq(concat_all(views_of(units@).take(u - 1)), flag) + tag_seq(
                    views_of(units@)[u - 1],
                    flag,
                ) =~= tag_seq(concat_all(views_of(units@).take(u as int)), flag));
                assert(tag_units(views_of(units@).take(u as int), flag) =~= tag_units(
                    views_of(units@).take(u - 1),
                    flag,
                ).push((views_of(units@)[u - 1], flag)));
                assert(seg_tokens(seg_views(segs@.take(i as int))) + tag_units(
                    views_of(units@).take(u as int),
                    flag,
                ) =~= (seg_tokens(seg_views(segs@.take(i as int))) + tag_units(
                    views_of(units@).take(u - 1),
                    flag,
                )).push((views_of(units@)[u - 1], flag)));
            }
        }
        i += 1;
        proof {
            assert(views_of(units@).take(views_of(units@).len() as int) =~= views_of(units@));
            assert(concat_all(views_of(units@)) == seg_text);
            assert(segs@.take(i as int).drop_last() =~= segs@.take(i - 1));
            assert(seg_views(segs@.take(i as int)) =~= seg_views(segs@.take(i - 1)).push(
                (seg_text, flag),
            ));
            lemma_flat_snoc(seg_views(segs@.take(i - 1)), seg_text, flag);
            assert(flat_flags(seg_views(toks@)) =~= flat_flags(seg_views(segs@.take(i as int))));
            lemma_seg_tokens_snoc(seg_views(segs@.take(i - 1)), (seg_text, flag));
            assert(tag_units(views_of(units@), flag) =~= tag_units(units_spec(seg_text), flag));
            assert(seg_views(toks@) =~= seg_tokens(seg_views(segs@.take(i as int))));
        }
    }
    proof {
        assert(segs@.take(segs@.len() as int) =~= segs@);
    }
    toks
}

/// Wrap one logical line into display rows with word-level change flags.
///
/// The rows reproduce, in order, every character of the line's segments
/// with its change flag; the first row carries the line number, the rest
/// a blank gutter of the same width. With a text width of zero a single
/// empty row stands for the line.
pub fn create_wrapped_lines(
    idx: usize,
    line: &str,
    other_line: Option<&str>,
    is_dest: bool,
    text_width: usize,
    gutter_width: usize,
    max_line_digits: usize,
) -> (rows: Vec<DisplayRow>)
    requires
        idx < usize::MAX,
        digit_count_spec((idx + 1) as nat) <= max_line_digits,
        gutter_width == max_line_digits + 1,
    ensures
        rows@.len() >= 1,
        forall|k: int| 0 <= k < rows@.len() ==> row_wf(
            #[trigger] rows@[k],
            text_width as int,
            gutter_width as int,
        ) && rows@[k] is Content,
        row_gutter(rows@[0]) == num_gutter_spec(idx as int, max_line_digits as int),
        forall|k: int| 1 <= k < rows@.len() ==> row_gutter(#[trigger] rows@[k]) == spaces_seq(
            gutter_width as int,
        ),
        text_width > 0 ==> rows_flat(rows@) == flat_flags(
            line_segments_spec(
                line@,
                match other_line {
                    Option::Some(o) => Option::Some(o@),
                    Option::None => Option::None,
                },
                is_dest,
            ),
        ),
        text_width > 0 ==> chars_of_flat(rows_flat(rows@)) == line@,
        text_width == 0 ==> rows@.len() == 1,
        text_width > 0 ==> (forall|k: int|
            0 <= k < rows@.len() - 1 ==> row_flat_len(#[trigger] rows@[k]) + row_first_span_len(
                rows@[k + 1],
            ) > text_width),
        text_width > 0 ==> (forall|k: int|
            1 <= k < rows@.len() ==> row_content(#[trigger] rows@[k]).len() >= 1),
        text_width > 0 ==> row_lens_of(rows@) == wrap_row_lens(
            line_segments_spec(
                line@,
                match other_line {
                    Option::Some(o) => Option::Some(o@),
                    Option::None => Option::None,
                },
                is_dest,
            ),
            text_width as int,
        ),
        forall|k: int| 0 <= k < rows@.len() ==> row_flat_len(#[trigger] rows@[k]) + row_pad(
            rows@[k],
        ).len() == text_width,
{
    proof {
        let other_v = match other_line {
            Option::Some(o) => Option::Some(o@),
            Option::None => Option::<Seq<char>>::None,
        };
        let segs = line_segments_spec(line@, other_v, is_dest);
        lemma_flat_chars(segs);
        match other_v {
            Option::Some(o) => {
                crate::worddiff::lemma_word_diff_reconstructs(line@, o, is_dest);
            },
            Option::None => {
                assert(seq![(line@, true)].skip(1) =~= Seq::<(Seq<char>, bool)>::empty());
                assert(crate::worddiff::segs_text(segs) == line@ + crate::worddiff::segs_text(
                    Seq::<(Seq<char>, bool)>::empty(),
                ));
                assert(line@ + Seq::<char>::empty() =~= line@);
            },
        }
    }
    let segs: Vec<(String, bool)> = match other_line {
        Option::Some(o) => {
            if is_dest {
                compute_word_diff_dest(line, o)
            } else {
                compute_word_diff_source(line, o)
            }
        },
        Option::None => {
            let mut s: Vec<(String, bool)> = Vec::new();
            s.push((line.to_owned(), true));
            proof {
                assert(seg_views(s@) =~= seq![(line@, true)]);
            }
            s
        },
    };
    if text_width == 0 {
        let mut rows: Vec<DisplayRow> = Vec::new();
        let mut cur: Vec<(String, bool)> = Vec::new();
        proof {
            assert(flat_flags(seg_views(cur@)) =~= Seq::<(char, bool)>::empty());
        }
        flush_row(&mut rows, &mut cur, 0, idx, text_width, gutter_width, max_line_digits, false);
        proof {
            assert forall|k: int| 0 <= k < rows@.len() implies row_flat_len(#[trigger] rows@[k])
                + row_pad(rows@[k]).len() == text_width by {
                lemma_row_full_width(rows@[k], text_width as int, gutter_width as int);
            }
        }
        return rows;
    }
    let toks = explode_segments(&segs);
    let rows = wrap_tokens(&toks, idx, text_width, gutter_width, max_line_digits,
        other_line.is_none());
    proof {
        let other_v = match other_line {
            Option::Some(o) => Option::Some(o@),
            Option::None => Option::<Seq<char>>::None,
        };
        let segs_spec = line_segments_spec(line@, other_v, is_dest);
        assert(seg_views(segs@) == segs_spec);
        assert(seg_tokens(segs_spec) == seg_views(toks@));
        if toks@.len() > 0 {
            assert(seg_tokens(segs_spec).len() > 0);
        } else {
            assert(seg_views(toks@) =~= Seq::<(Seq<char>, bool)>::empty());
            assert(row_lens_of(rows@) =~= seq![0int]);
        }
        assert(row_lens_of(rows@) == wrap_row_lens(segs_spec, text_width as int));
        assert forall|k: int| 0 <= k < rows@.len() implies row_flat_len(#[trigger] rows@[k])
            + row_pad(rows@[k]).len() == text_width by {
            lemma_row_full_width(rows@[k], text_width as int, gutter_width as int);
        }
    }
    rows
}

/// A blank row: empty gutter-width gutter, no spans, all padding.
pub fn create_blank_line(text_width: usize, gutter_width: usize) -> (r: DisplayRow)
    ensures
        r is Content,
        row_content(r) == Seq::<(Seq<char>, bool)>::empty(),
        row_gutter(r) == spaces_seq(gutter_width as int),
        row_wf(r, text_width as int, gutter_width as int),
{
    let r = DisplayRow::Content {
        gutter: spaces(gutter_width),
        spans: Vec::new(),
        pad: spaces(text_width),
        width: text_width,
        pad_changed: false,
    };
    proof {
        assert(row_content(r) =~= Seq::<(Seq<char>, bool)>::empty());
        assert(flat_flags(row_content(r)).len() == 0);
        assert(row_pad(r) =~= spaces_seq(text_width as int));
    }
    r
}

/// The placeholder row for a folded run of `hidden_count` lines.
pub fn create_fold_indicator(hidden_count: usize) -> (r: DisplayRow)
    ensures
        r == (DisplayRow::FoldMarker { hidden_count }),
{
    DisplayRow::FoldMarker { hidden_count }
}

} // verus!
