//! Intra-line word diffing.
//!
//! A line is split into units of one word plus its trailing whitespace
//! character, so separators stay attached to the word before them. For a
//! matched-but-different pair of lines, the differ emits at most three
//! segments: an unchanged common unit prefix, one changed middle, and an
//! unchanged common unit suffix. When one line is a literal character
//! prefix of the other, only the extra tail is flagged as changed.

use vstd::prelude::*;
use crate::text::{is_ws_char, norm_spec, norm_eq, str_eq, str_is_prefix};

verus! {

/// Concatenation of a list of character sequences.
pub open spec fn concat_all(us: Seq<Seq<char>>) -> Seq<char>
    decreases us.len(),
{
    if us.len() == 0 {
        Seq::<char>::empty()
    } else {
        us[0] + concat_all(us.skip(1))
    }
}

/// `us` splits `s` into units of one word plus its trailing whitespace
/// character: the units concatenate to `s`, every unit is nonempty and
/// whitespace-free except for its final character, and every unit but the
/// last ends in a whitespace character.
pub open spec fn is_unit_seq(s: Seq<char>, us: Seq<Seq<char>>) -> bool {
    &&& concat_all(us) == s
    &&& forall|k: int| 0 <= k < us.len() ==> (#[trigger] us[k]).len() > 0
    &&& forall|k: int, t: int|
        0 <= k < us.len() && 0 <= t < us[k].len() - 1 ==> !is_ws_char(#[trigger] us[k][t])
    &&& forall|k: int| 0 <= k < us.len() - 1 ==> is_ws_char((#[trigger] us[k]).last())
}

/// The unit split of `s`, built one character at a time: a whitespace
/// character ends a unit; a word character joins the unit after it.
pub open spec fn units_spec(s: Seq<char>) -> Seq<Seq<char>>
    decreases s.len(),
{
    if s.len() == 0 {
        Seq::<Seq<char>>::empty()
    } else {
        let rest = units_spec(s.skip(1));
        if is_ws_char(s[0]) {
            seq![s.take(1)] + rest
        } else if rest.len() == 0 {
            seq![s]
        } else {
            seq![seq![s[0]] + rest[0]] + rest.skip(1)
        }
    }
}

/// `units_spec` yields a unit split.
pub proof fn lemma_units_spec_ok(s: Seq<char>)
    ensures
        is_unit_seq(s, units_spec(s)),
    decreases s.len(),
{
    if s.len() == 0 {
        assert(s =~= Seq::<char>::empty());
        assert(concat_all(units_spec(s)) == s);
    } else {
        lemma_units_spec_ok(s.skip(1));
        let rest = units_spec(s.skip(1));
        if is_ws_char(s[0]) {
            let us = seq![s.take(1)] + rest;
            assert(us.skip(1) =~= rest);
            assert(us[0] + concat_all(rest) =~= s);
            assert(concat_all(us) == us[0] + concat_all(us.skip(1)));
            assert(forall|k: int| 1 <= k < us.len() ==> #[trigger] us[k] == rest[k - 1]);
            assert(us[0].len() == 1);
            assert forall|k: int, t: int|
                0 <= k < us.len() && 0 <= t < us[k].len() - 1 implies !is_ws_char(
                #[trigger] us[k][t],
            ) by {
                if k >= 1 {
                    assert(us[k] == rest[k - 1]);
                }
            }
            assert forall|k: int| 0 <= k < us.len() - 1 implies is_ws_char(
                (#[trigger] us[k]).last(),
            ) by {
                if k == 0 {
                    assert(us[0].last() == s[0]);
                } else {
                    assert(us[k] == rest[k - 1]);
                }
            }
        } else if rest.len() == 0 {
            let us = seq![s];
            assert(us.skip(1) =~= Seq::<Seq<char>>::empty());
            assert(concat_all(us) =~= s);
            // The tail split is empty, so the tail itself is empty and
            // `s` is the one-character word.
            assert(s.skip(1).len() == 0);
            assert(s.len() == 1);
        } else {
            let us = seq![seq![s[0]] + rest[0]] + rest.skip(1);
            assert(us.skip(1) =~= rest.skip(1));
            assert(concat_all(rest) == rest[0] + concat_all(rest.skip(1)));
            assert(us[0] + concat_all(rest.skip(1)) =~= s) by {
                assert(concat_all(rest) =~= s.skip(1));
                assert(rest[0] + concat_all(rest.skip(1)) =~= s.skip(1));
                assert(us[0] =~= seq![s[0]] + rest[0]);
                assert((seq![s[0]] + rest[0]) + concat_all(rest.skip(1)) =~= seq![s[0]] + (rest[0]
                    + concat_all(rest.skip(1))));
                assert(seq![s[0]] + s.skip(1) =~= s);
            }
            assert(concat_all(us) == us[0] + concat_all(us.skip(1)));
            assert(forall|k: int| 1 <= k < us.len() ==> #[trigger] us[k] == rest[k]);
            assert(us[0].len() == 1 + rest[0].len());
            assert forall|k: int, t: int|
                0 <= k < us.len() && 0 <= t < us[k].len() - 1 implies !is_ws_char(
                #[trigger] us[k][t],
            ) by {
                if k == 0 {
                    if t > 0 {
                        assert(us[0][t] == rest[0][t - 1]);
                    }
                } else {
                    assert(us[k] == rest[k]);
                    if k < rest.len() - 1 {
                    }
                }
            }
            assert forall|k: int| 0 <= k < us.len() - 1 implies is_ws_char(
                (#[trigger] us[k]).last(),
            ) by {
                if k == 0 {
                    assert(us[0].last() == rest[0].last());
                } else {
                    assert(us[k] == rest[k]);
                }
            }
        }
    }
}

/// A nonempty unit list concatenates to something at least as long as its
/// first unit, which it starts with.
proof fn lemma_concat_first(us: Seq<Seq<char>>)
    requires
        us.len() > 0,
    ensures
        concat_all(us).len() >= us[0].len(),
        concat_all(us).take(us[0].len() as int) == us[0],
{
    assert(concat_all(us) == us[0] + concat_all(us.skip(1)));
    assert((us[0] + concat_all(us.skip(1))).take(us[0].len() as int) =~= us[0]);
}

/// Two unit splits of one and the same line are equal.
proof fn lemma_unit_seq_unique(s: Seq<char>, a: Seq<Seq<char>>, b: Seq<Seq<char>>)
    requires
        is_unit_seq(s, a),
        is_unit_seq(s, b),
    ensures
        a == b,
    decreases a.len(),
{
    if a.len() == 0 {
        assert(s.len() == 0);
        if b.len() > 0 {
            lemma_concat_first(b);
            assert(false);
        }
        assert(a =~= b);
    } else {
        if b.len() == 0 {
            lemma_concat_first(a);
            assert(s.len() == 0);
            assert(false);
        }
        lemma_concat_first(a);
        lemma_concat_first(b);
        let la = a[0].len() as int;
        let lb = b[0].len() as int;
        // The shorter head would put a whitespace character strictly
        // inside the longer head; so the heads have equal length.
        if la < lb {
            assert(a.len() >= 2) by {
                if a.len() == 1 {
                    assert(concat_all(a) == a[0] + concat_all(a.skip(1)));
                    assert(concat_all(a.skip(1)).len() >= 0);
                    assert(s.len() >= lb) by {
                        lemma_concat_first(b);
                    }
                    assert(s.len() == la + concat_all(a.skip(1)).len());
                    lemma_concat_first(a.skip(1));
                    if a.skip(1).len() == 0 {
                        assert(s.len() == la);
                    }
                }
            }
            assert(is_ws_char(a[0].last()));
            assert(s[la - 1] == a[0][la - 1]);
            assert(b[0][la - 1] == s[la - 1]);
            assert(!is_ws_char(b[0][la - 1]));
            assert(false);
        }
        if lb < la {
            assert(b.len() >= 2) by {
                if b.len() == 1 {
                    assert(concat_all(b) == b[0] + concat_all(b.skip(1)));
                    assert(s.len() >= la) by {
                        lemma_concat_first(a);
                    }
                    assert(s.len() == lb + concat_all(b.skip(1)).len());
                    lemma_concat_first(b.skip(1));
                    if b.skip(1).len() == 0 {
                        assert(s.len() == lb);
                    }
                }
            }
            assert(is_ws_char(b[0].last()));
            assert(s[lb - 1] == b[0][lb - 1]);
            assert(a[0][lb - 1] == s[lb - 1]);
            assert(!is_ws_char(a[0][lb - 1]));
            assert(false);
        }
        assert(a[0] == b[0]) by {
            assert(a[0] =~= s.take(la));
            assert(b[0] =~= s.take(lb));
        }
        let s2 = s.skip(la);
        assert(concat_all(a.skip(1)) =~= s2) by {
            assert(concat_all(a) == a[0] + concat_all(a.skip(1)));
            assert((a[0] + concat_all(a.skip(1))).skip(la) =~= concat_all(a.skip(1)));
        }
        assert(concat_all(b.skip(1)) =~= s2) by {
            assert(concat_all(b) == b[0] + concat_all(b.skip(1)));
            assert((b[0] + concat_all(b.skip(1))).skip(lb) =~= concat_all(b.skip(1)));
        }
        assert(is_unit_seq(s2, a.skip(1))) by {
            assert(forall|k: int| 0 <= k < a.skip(1).len() ==> a.skip(1)[k] == a[k + 1]);
        }
        assert(is_unit_seq(s2, b.skip(1))) by {
            assert(forall|k: int| 0 <= k < b.skip(1).len() ==> b.skip(1)[k] == b[k + 1]);
        }
        lemma_unit_seq_unique(s2, a.skip(1), b.skip(1));
        assert(a.skip(1) == b.skip(1));
        assert(a.len() == b.len()) by {
            assert(a.len() == 1 + a.skip(1).len());
            assert(b.len() == 1 + b.skip(1).len());
        }
        assert forall|k: int| 0 <= k < a.len() implies a[k] == b[k] by {
            if k > 0 {
                assert(a[k] == a.skip(1)[k - 1]);
                assert(b[k] == b.skip(1)[k - 1]);
            }
        }
        assert(a =~= b);
    }
}

/// The views of a list of owned strings.
pub open spec fn views_of(ts: Seq<String>) -> Seq<Seq<char>> {
    Seq::new(ts.len(), |k: int| ts[k]@)
}

pub proof fn lemma_concat_snoc(us: Seq<Seq<char>>, u: Seq<char>)
    ensures
        concat_all(us.push(u)) == concat_all(us) + u,
    decreases us.len(),
{
    if us.len() == 0 {
        assert(us.push(u).skip(1) =~= Seq::<Seq<char>>::empty());
        assert(us.push(u)[0] == u);
        assert(concat_all(us.push(u)) == u + concat_all(Seq::<Seq<char>>::empty()));
        assert(u + Seq::<char>::empty() =~= u);
        assert(Seq::<char>::empty() + u =~= u);
        assert(concat_all(us.push(u)) =~= concat_all(us) + u);
    } else {
        lemma_concat_snoc(us.skip(1), u);
        assert(us.push(u).skip(1) =~= us.skip(1).push(u));
        assert(concat_all(us.push(u)) == us[0] + concat_all(us.skip(1).push(u)));
        assert(us[0] + (concat_all(us.skip(1)) + u) =~= (us[0] + concat_all(us.skip(1))) + u);
    }
}

/// Split a line into word-plus-trailing-whitespace units.
pub fn split_word_units(s: &str) -> (ts: Vec<String>)
    ensures
        views_of(ts@) == units_spec(s@),
        is_unit_seq(s@, views_of(ts@)),
{
    let len = s.unicode_len();
    let mut ts: Vec<String> = Vec::new();
    let mut i: usize = 0;
    while i < len
        invariant
            0 <= i <= len,
            len == s@.len(),
            concat_all(views_of(ts@)) == s@.take(i as int),
            forall|k: int| 0 <= k < ts@.len() ==> (#[trigger] views_of(ts@)[k]).len() > 0,
            forall|k: int, t: int|
                0 <= k < ts@.len() && 0 <= t < views_of(ts@)[k].len() - 1 ==> !is_ws_char(
                    #[trigger] views_of(ts@)[k][t],
                ),
            forall|k: int| 0 <= k < ts@.len() ==> (is_ws_char(
                (#[trigger] views_of(ts@)[k]).last(),
            ) || (k == ts@.len() - 1 && i == len)),
        decreases len - i,
    {
        let start = i;
        let mut j = i;
        while j < len && !crate::text::is_whitespace_char(s.get_char(j))
            invariant
                start <= j <= len,
                len == s@.len(),
                forall|k: int| start <= k < j ==> !is_ws_char(#[trigger] s@[k]),
            decreases len - j,
        {
            j += 1;
        }
        // `j` is the first whitespace position at or after `start`, or the
        // line end; the unit includes that whitespace character.
        let end = if j < len {
            j + 1
        } else {
            len
        };
        let ghost old_ts = ts@;
        let unit = s.substring_char(start, end).to_owned();
        proof {
            assert(unit@.len() > 0);
        }
        ts.push(unit);
        i = end;
        proof {
            assert(views_of(ts@) =~= views_of(old_ts).push(s@.subrange(start as int, end as int)));
            lemma_concat_snoc(views_of(old_ts), s@.subrange(start as int, end as int));
            assert(concat_all(views_of(ts@)) =~= s@.take(i as int));
            assert forall|k: int| 0 <= k < ts@.len() implies (is_ws_char(
                (#[trigger] views_of(ts@)[k]).last(),
            ) || (k == ts@.len() - 1 && i == len)) by {
                if k < ts@.len() - 1 {
                    assert(views_of(ts@)[k] == views_of(old_ts)[k]);
                    assert(old_ts.len() > 0 ==> concat_all(views_of(old_ts)) == s@.take(
                        start as int,
                    ));
                    // Older units ended before this one began, so the old
                    // invariant's final-unit escape no longer applies.
                    if k == old_ts.len() - 1 && !is_ws_char(views_of(old_ts)[k].last()) {
                        assert(start == len);
                        assert(false);
                    }
                } else {
                    if j < len {
                        assert(views_of(ts@)[k].last() == s@[j as int]);
                    }
                }
            }
        }
    }
    proof {
        assert(s@.take(len as int) =~= s@);
        assert(is_unit_seq(s@, views_of(ts@)));
        lemma_units_spec_ok(s@);
        lemma_unit_seq_unique(s@, views_of(ts@), units_spec(s@));
    }
    ts
}

/// Length of the longest common unit prefix.
pub open spec fn lcp_units(a: Seq<Seq<char>>, b: Seq<Seq<char>>) -> nat
    decreases a.len(),
{
    if a.len() == 0 || b.len() == 0 || a[0] != b[0] {
        0
    } else {
        1 + lcp_units(a.skip(1), b.skip(1))
    }
}

/// Length of the longest common unit suffix.
pub open spec fn lcs_units(a: Seq<Seq<char>>, b: Seq<Seq<char>>) -> nat
    decreases a.len(),
{
    if a.len() == 0 || b.len() == 0 || a.last() != b.last() {
        0
    } else {
        1 + lcs_units(a.drop_last(), b.drop_last())
    }
}

pub proof fn lemma_lcp_from_scan(a: Seq<Seq<char>>, b: Seq<Seq<char>>, p: int)
    requires
        0 <= p <= a.len(),
        p <= b.len(),
        forall|q: int| 0 <= q < p ==> a[q] == b[q],
        p == a.len() || p == b.len() || a[p] != b[p],
    ensures
        p == lcp_units(a, b),
    decreases p,
{
    if p == 0 {
    } else {
        assert(a[0] == b[0]);
        assert(forall|q: int| 0 <= q < p - 1 ==> a.skip(1)[q] == a[q + 1]);
        assert(forall|q: int| 0 <= q < p - 1 ==> b.skip(1)[q] == b[q + 1]);
        if p < a.len() && p < b.len() {
            assert(a.skip(1)[p - 1] == a[p]);
            assert(b.skip(1)[p - 1] == b[p]);
        }
        lemma_lcp_from_scan(a.skip(1), b.skip(1), p - 1);
    }
}

proof fn lemma_lcs_from_scan(a: Seq<Seq<char>>, b: Seq<Seq<char>>, k: int)
    requires
        0 <= k <= a.len(),
        k <= b.len(),
        forall|q: int| 0 <= q < k ==> #[trigger] a[a.len() - 1 - q] == b[b.len() - 1 - q],
        k == a.len() || k == b.len() || a[a.len() - 1 - k] != b[b.len() - 1 - k],
    ensures
        k == lcs_units(a, b),
    decreases k,
{
    if k == 0 {
    } else {
        assert(a[a.len() - 1 - 0] == b[b.len() - 1 - 0]);
        assert(a.last() == b.last());
        let a2 = a.drop_last();
        let b2 = b.drop_last();
        assert forall|q: int| 0 <= q < k - 1 implies #[trigger] a2[a2.len() - 1 - q] == b2[b2.len()
            - 1 - q] by {
            assert(a2[a2.len() - 1 - q] == a[a.len() - 1 - (q + 1)]);
            assert(b2[b2.len() - 1 - q] == b[b.len() - 1 - (q + 1)]);
            assert(a[a.len() - 1 - (q + 1)] == b[b.len() - 1 - (q + 1)]);
        }
        if k - 1 < a2.len() && k - 1 < b2.len() {
            assert(a2[a2.len() - 1 - (k - 1)] == a[a.len() - 1 - k]);
            assert(b2[b2.len() - 1 - (k - 1)] == b[b.len() - 1 - k]);
        }
        lemma_lcs_from_scan(a2, b2, k - 1);
    }
}

proof fn lemma_lcp_le(a: Seq<Seq<char>>, b: Seq<Seq<char>>)
    ensures
        lcp_units(a, b) <= a.len(),
        lcp_units(a, b) <= b.len(),
    decreases a.len(),
{
    if a.len() == 0 || b.len() == 0 || a[0] != b[0] {
    } else {
        lemma_lcp_le(a.skip(1), b.skip(1));
    }
}

proof fn lemma_lcs_le(a: Seq<Seq<char>>, b: Seq<Seq<char>>)
    ensures
        lcs_units(a, b) <= a.len(),
        lcs_units(a, b) <= b.len(),
    decreases a.len(),
{
    if a.len() == 0 || b.len() == 0 || a.last() != b.last() {
    } else {
        lemma_lcs_le(a.drop_last(), b.drop_last());
    }
}

/// One segment: a run of characters and whether it changed.
pub open spec fn seg_views(r: Seq<(String, bool)>) -> Seq<(Seq<char>, bool)> {
    Seq::new(r.len(), |k: int| (r[k].0@, r[k].1))
}

/// The texts of a segment list, concatenated.
pub open spec fn segs_text(segs: Seq<(Seq<char>, bool)>) -> Seq<char>
    decreases segs.len(),
{
    if segs.len() == 0 {
        Seq::<char>::empty()
    } else {
        segs[0].0 + segs_text(segs.skip(1))
    }
}

proof fn lemma_segs_text_concat(a: Seq<(Seq<char>, bool)>, b: Seq<(Seq<char>, bool)>)
    ensures
        segs_text(a + b) == segs_text(a) + segs_text(b),
    decreases a.len(),
{
    if a.len() == 0 {
        assert(a + b =~= b);
        assert(segs_text(a) + segs_text(b) =~= segs_text(b));
    } else {
        lemma_segs_text_concat(a.skip(1), b);
        assert((a + b).skip(1) =~= a.skip(1) + b);
        assert((a + b)[0] == a[0]);
        assert(segs_text(a + b) == a[0].0 + segs_text(a.skip(1) + b));
        assert(a[0].0 + (segs_text(a.skip(1)) + segs_text(b)) =~= (a[0].0 + segs_text(a.skip(1)))
            + segs_text(b));
    }
}

proof fn lemma_segs_text_single(t: Seq<char>, c: bool)
    ensures
        segs_text(seq![(t, c)]) == t,
{
    assert(seq![(t, c)].skip(1) =~= Seq::<(Seq<char>, bool)>::empty());
    assert(segs_text(seq![(t, c)]) == t + segs_text(Seq::<(Seq<char>, bool)>::empty()));
    assert(t + Seq::<char>::empty() =~= t);
}

/// At most three segments: the unchanged unit prefix, the changed middle,
/// the unchanged unit suffix; empty parts are left out.
pub open spec fn seg3(pre: Seq<char>, mid: Seq<char>, suf: Seq<char>) -> Seq<(Seq<char>, bool)> {
    (if pre.len() > 0 {
        seq![(pre, false)]
    } else {
        Seq::<(Seq<char>, bool)>::empty()
    }) + (if mid.len() > 0 {
        seq![(mid, true)]
    } else {
        Seq::<(Seq<char>, bool)>::empty()
    }) + (if suf.len() > 0 {
        seq![(suf, false)]
    } else {
        Seq::<(Seq<char>, bool)>::empty()
    })
}

proof fn lemma_seg3_text(pre: Seq<char>, mid: Seq<char>, suf: Seq<char>)
    ensures
        segs_text(seg3(pre, mid, suf)) == pre + mid + suf,
        seg3(pre, mid, suf).len() <= 3,
{
    let sp = if pre.len() > 0 {
        seq![(pre, false)]
    } else {
        Seq::<(Seq<char>, bool)>::empty()
    };
    let sm = if mid.len() > 0 {
        seq![(mid, true)]
    } else {
        Seq::<(Seq<char>, bool)>::empty()
    };
    let ss = if suf.len() > 0 {
        seq![(suf, false)]
    } else {
        Seq::<(Seq<char>, bool)>::empty()
    };
    lemma_segs_text_concat(sp + sm, ss);
    lemma_segs_text_concat(sp, sm);
    lemma_segs_text_single(pre, false);
    lemma_segs_text_single(mid, true);
    lemma_segs_text_single(suf, false);
    if pre.len() == 0 {
        assert(segs_text(sp) =~= pre);
    }
    if mid.len() == 0 {
        assert(segs_text(sm) =~= mid);
    }
    if suf.len() == 0 {
        assert(segs_text(ss) =~= suf);
    }
    assert(segs_text(seg3(pre, mid, suf)) =~= pre + mid + suf);
}

/// What the word differ returns for `line` against `other`: the whole
/// line unchanged when the two are equal after normalization or when the
/// line is extended by `other`; the shared prefix plus the extra tail when
/// the line extends `other` (destination side); otherwise the common unit
/// prefix, the changed middle, and the common unit suffix of the line.
pub open spec fn word_diff_spec(line: Seq<char>, other: Seq<char>, is_dest: bool) -> Seq<
    (Seq<char>, bool),
> {
    if norm_spec(line) == norm_spec(other) {
        seq![(line, false)]
    } else if !is_dest && crate::text::is_prefix_of(line, other) {
        seq![(line, false)]
    } else if is_dest && crate::text::is_prefix_of(other, line) {
        seq![(other, false), (line.skip(other.len() as int), true)]
    } else {
        let lu = units_spec(line);
        let ou = units_spec(other);
        let p = lcp_units(lu, ou) as int;
        let k = lcs_units(lu.skip(p), ou.skip(p)) as int;
        seg3(
            concat_all(lu.take(p)),
            concat_all(lu.subrange(p, lu.len() - k)),
            concat_all(lu.skip(lu.len() - k)),
        )
    }
}

proof fn lemma_concat_split(us: Seq<Seq<char>>, i: int)
    requires
        0 <= i <= us.len(),
    ensures
        concat_all(us) == concat_all(us.take(i)) + concat_all(us.skip(i)),
    decreases i,
{
    if i == 0 {
        assert(us.take(0) =~= Seq::<Seq<char>>::empty());
        assert(us.skip(0) =~= us);
        assert(concat_all(us.take(0)) + concat_all(us) =~= concat_all(us));
    } else {
        lemma_concat_split(us.skip(1), i - 1);
        assert(us.take(i).skip(1) =~= us.skip(1).take(i - 1));
        assert(us.skip(i) =~= us.skip(1).skip(i - 1));
        assert(concat_all(us) == us[0] + concat_all(us.skip(1)));
        assert(concat_all(us.take(i)) == us[0] + concat_all(us.skip(1).take(i - 1)));
        assert((us[0] + concat_all(us.skip(1).take(i - 1))) + concat_all(us.skip(i)) =~= us[0] + (
        concat_all(us.skip(1).take(i - 1)) + concat_all(us.skip(i))));
    }
}

/// Concatenating the texts of the segments for a side reconstructs that
/// side's line, whichever side it is; and at most three segments come out.
pub proof fn lemma_word_diff_reconstructs(line: Seq<char>, other: Seq<char>, is_dest: bool)
    ensures
        segs_text(word_diff_spec(line, other, is_dest)) == line,
        word_diff_spec(line, other, is_dest).len() <= 3,
{
    if norm_spec(line) == norm_spec(other) {
        lemma_segs_text_single(line, false);
    } else if !is_dest && crate::text::is_prefix_of(line, other) {
        lemma_segs_text_single(line, false);
    } else if is_dest && crate::text::is_prefix_of(other, line) {
        let segs = seq![(other, false), (line.skip(other.len() as int), true)];
        assert(segs.skip(1) =~= seq![(line.skip(other.len() as int), true)]);
        lemma_segs_text_single(line.skip(other.len() as int), true);
        assert(segs_text(segs) == other + (line.skip(other.len() as int)));
        assert(other + line.skip(other.len() as int) =~= line) by {
            assert(line.take(other.len() as int) == other);
        }
    } else {
        let lu = units_spec(line);
        let ou = units_spec(other);
        let p = lcp_units(lu, ou) as int;
        let k = lcs_units(lu.skip(p), ou.skip(p)) as int;
        lemma_lcp_le(lu, ou);
        lemma_lcs_le(lu.skip(p), ou.skip(p));
        let q = lu.len() - k;
        lemma_seg3_text(
            concat_all(lu.take(p)),
            concat_all(lu.subrange(p, q)),
            concat_all(lu.skip(q)),
        );
        lemma_concat_split(lu, p);
        lemma_concat_split(lu.skip(p), q - p);
        assert(lu.skip(p).take(q - p) =~= lu.subrange(p, q));
        assert(lu.skip(p).skip(q - p) =~= lu.skip(q));
        lemma_units_spec_ok(line);
        assert(concat_all(lu) == line);
        assert(concat_all(lu.take(p)) + (concat_all(lu.subrange(p, q)) + concat_all(lu.skip(q)))
            =~= (concat_all(lu.take(p)) + concat_all(lu.subrange(p, q))) + concat_all(lu.skip(q)));
    }
}

/// A range of at least one unit concatenates to a nonempty text.
proof fn lemma_unit_range_nonempty(us: Seq<Seq<char>>, lo: int, hi: int)
    requires
        0 <= lo <= hi <= us.len(),
        forall|t: int| 0 <= t < us.len() ==> (#[trigger] us[t]).len() > 0,
    ensures
        (concat_all(us.subrange(lo, hi)).len() > 0) == (lo < hi),
{
    if lo < hi {
        lemma_concat_first(us.subrange(lo, hi));
    } else {
        assert(us.subrange(lo, hi) =~= Seq::<Seq<char>>::empty());
    }
}

/// The longest common unit prefix of two unit vectors.
fn unit_lcp(a: &Vec<String>, b: &Vec<String>) -> (p: usize)
    ensures
        p == lcp_units(views_of(a@), views_of(b@)),
        p <= a@.len(),
        p <= b@.len(),
{
    let min = if a.len() < b.len() {
        a.len()
    } else {
        b.len()
    };
    let mut i: usize = 0;
    while i < min
        invariant
            0 <= i <= min,
            min == if a@.len() < b@.len() { a@.len() as int } else { b@.len() as int },
            forall|q: int| 0 <= q < i ==> views_of(a@)[q] == views_of(b@)[q],
        decreases min - i,
    {
        if !str_eq(a[i].as_str(), b[i].as_str()) {
            proof {
                lemma_lcp_from_scan(views_of(a@), views_of(b@), i as int);
            }
            return i;
        }
        i += 1;
    }
    proof {
        lemma_lcp_from_scan(views_of(a@), views_of(b@), min as int);
    }
    min
}

/// The longest common unit suffix of the vectors' tails after dropping
/// the first `p` units of each.
fn unit_lcs(a: &Vec<String>, b: &Vec<String>, p: usize) -> (k: usize)
    requires
        p <= a@.len(),
        p <= b@.len(),
    ensures
        k == lcs_units(views_of(a@).skip(p as int), views_of(b@).skip(p as int)),
        k <= a@.len() - p,
        k <= b@.len() - p,
{
    let la = a.len();
    let lb = b.len();
    let min = if la - p < lb - p {
        la - p
    } else {
        lb - p
    };
    let ghost sa = views_of(a@).skip(p as int);
    let ghost sb = views_of(b@).skip(p as int);
    let mut t: usize = 0;
    while t < min
        invariant
            0 <= t <= min,
            p <= la == a@.len(),
            p <= lb == b@.len(),
            min == if la - p < lb - p { la - p } else { lb - p },
            sa == views_of(a@).skip(p as int),
            sb == views_of(b@).skip(p as int),
            forall|q: int| 0 <= q < t ==> #[trigger] sa[sa.len() - 1 - q] == sb[sb.len() - 1 - q],
        decreases min - t,
    {
        if !str_eq(a[la - 1 - t].as_str(), b[lb - 1 - t].as_str()) {
            proof {
                assert(sa[sa.len() - 1 - t] == views_of(a@)[la - 1 - t]);
                assert(sb[sb.len() - 1 - t] == views_of(b@)[lb - 1 - t]);
                lemma_lcs_from_scan(sa, sb, t as int);
            }
            return t;
        }
        proof {
            assert(sa[sa.len() - 1 - t] == views_of(a@)[la - 1 - t]);
            assert(sb[sb.len() - 1 - t] == views_of(b@)[lb - 1 - t]);
        }
        t += 1;
    }
    proof {
        lemma_lcs_from_scan(sa, sb, min as int);
    }
    min
}

/// Concatenate the units in `us[lo..hi)`.
fn concat_range(us: &Vec<String>, lo: usize, hi: usize) -> (r: String)
    requires
        lo <= hi <= us@.len(),
    ensures
        r@ == concat_all(views_of(us@).subrange(lo as int, hi as int)),
{
    let mut r = String::new();
    let mut t = lo;
    proof {
        assert(views_of(us@).subrange(lo as int, lo as int) =~= Seq::<Seq<char>>::empty());
    }
    while t < hi
        invariant
            lo <= t <= hi <= us@.len(),
            r@ == concat_all(views_of(us@).subrange(lo as int, t as int)),
        decreases hi - t,
    {
        r.append(us[t].as_str());
        t += 1;
        proof {
            lemma_concat_snoc(
                views_of(us@).subrange(lo as int, t - 1),
                views_of(us@)[t - 1],
            );
            assert(views_of(us@).subrange(lo as int, t as int) =~= views_of(us@).subrange(
                lo as int,
                t - 1,
            ).push(views_of(us@)[t - 1]));
        }
    }
    r
}

/// Compute the segments for one side.
fn word_diff_side(line: &str, other: &str, is_dest: bool) -> (r: Vec<(String, bool)>)
    ensures
        seg_views(r@) == word_diff_spec(line@, other@, is_dest),
{
    if norm_eq(line, other) {
        let mut r: Vec<(String, bool)> = Vec::new();
        r.push((line.to_owned(), false));
        proof {
            assert(seg_views(r@) =~= seq![(line@, false)]);
        }
        return r;
    }
    if !is_dest && str_is_prefix(line, other) {
        let mut r: Vec<(String, bool)> = Vec::new();
        r.push((line.to_owned(), false));
        proof {
            assert(seg_views(r@) =~= seq![(line@, false)]);
        }
        return r;
    }
    if is_dest && str_is_prefix(other, line) {
        let mut r: Vec<(String, bool)> = Vec::new();
        r.push((other.to_owned(), false));
        let tail = line.substring_char(other.unicode_len(), line.unicode_len()).to_owned();
        r.push((tail, true));
        proof {
            assert(line@.subrange(other@.len() as int, line@.len() as int) =~= line@.skip(
                other@.len() as int,
            ));
            assert(seg_views(r@) =~= seq![
                (other@, false),
                (line@.skip(other@.len() as int), true),
            ]);
        }
        return r;
    }
    let lu = split_word_units(line);
    let ou = split_word_units(other);
    let p = unit_lcp(&lu, &ou);
    let k = unit_lcs(&lu, &ou, p);
    let la = lu.len();
    let mut r: Vec<(String, bool)> = Vec::new();
    proof {
        assert(forall|t: int| 0 <= t < views_of(lu@).len() ==> (#[trigger] views_of(
            lu@,
        )[t]).len() > 0);
        lemma_unit_range_nonempty(views_of(lu@), 0, p as int);
        lemma_unit_range_nonempty(views_of(lu@), p as int, la - k);
        lemma_unit_range_nonempty(views_of(lu@), la - k, la as int);
        assert(views_of(lu@).take(p as int) =~= views_of(lu@).subrange(0, p as int));
        assert(views_of(lu@).skip(la - k) =~= views_of(lu@).subrange(la - k, la as int));
    }
    if p > 0 {
        r.push((concat_range(&lu, 0, p), false));
    }
    if p < la - k {
        r.push((concat_range(&lu, p, la - k), true));
    }
    if k > 0 {
        r.push((concat_range(&lu, la - k, la), false));
    }
    proof {
        assert(seg_views(r@) =~= word_diff_spec(line@, other@, is_dest));
    }
    r
}

/// Word-level diff of the source line against the destination line; a
/// `true` flag marks a removed or changed part. Concatenating the texts
/// reconstructs `line`, and at most three segments come out.
pub fn compute_word_diff_source(line: &str, other: &str) -> (r: Vec<(String, bool)>)
    ensures
        seg_views(r@) == word_diff_spec(line@, other@, false),
        segs_text(seg_views(r@)) == line@,
        r@.len() <= 3,
{
    proof {
        lemma_word_diff_reconstructs(line@, other@, false);
    }
    word_diff_side(line, other, false)
}

/// Word-level diff of the destination line against the source line; a
/// `true` flag marks an added or changed part. Concatenating the texts
/// reconstructs `line`, and at most three segments come out.
pub fn compute_word_diff_dest(line: &str, other: &str) -> (r: Vec<(String, bool)>)
    ensures
        seg_views(r@) == word_diff_spec(line@, other@, true),
        segs_text(seg_views(r@)) == line@,
        r@.len() <= 3,
{
    proof {
        lemma_word_diff_reconstructs(line@, other@, true);
    }
    word_diff_side(line, other, true)
}

} // verus!
