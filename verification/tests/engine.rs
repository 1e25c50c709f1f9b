//! Tests of the alignment, word-diff, wrap and format engine.

use sync_manager::diff::{align_lines, LineAlignment};
use sync_manager::worddiff::{compute_word_diff_source, compute_word_diff_dest};
use sync_manager::row::{create_wrapped_lines, DisplayRow};
use sync_manager::format::compute_render_data_static;

fn strings(v: &[&str]) -> Vec<String> {
    v.iter().map(|s| s.to_string()).collect()
}

fn src_indices(ops: &[LineAlignment]) -> Vec<usize> {
    let mut r = Vec::new();
    for op in ops {
        match op {
            LineAlignment::Both(s, _) => r.push(*s),
            LineAlignment::SourceOnly(s) => r.push(*s),
            LineAlignment::DestOnly(_) => {}
        }
    }
    r
}

fn dst_indices(ops: &[LineAlignment]) -> Vec<usize> {
    let mut r = Vec::new();
    for op in ops {
        match op {
            LineAlignment::Both(_, d) => r.push(*d),
            LineAlignment::SourceOnly(_) => {}
            LineAlignment::DestOnly(d) => r.push(*d),
        }
    }
    r
}

#[test]
fn test_alignment_covers_both_sides() {
    let cases: Vec<(Vec<String>, Vec<String>)> = vec![
        (strings(&["a", "b", "c"]), strings(&["a", "c"])),
        (strings(&[]), strings(&["x"])),
        (strings(&["only source"]), strings(&[])),
        (strings(&["a b c", "d e f"]), strings(&["a b x", "q"])),
        (strings(&["", "", "x"]), strings(&["", "y", ""])),
    ];
    for (source, dest) in cases {
        let ops = align_lines(&source, &dest);
        let si = src_indices(&ops);
        let di = dst_indices(&ops);
        assert_eq!(si, (0..source.len()).collect::<Vec<_>>());
        assert_eq!(di, (0..dest.len()).collect::<Vec<_>>());
    }
}

#[test]
fn test_blank_lines_at_same_position_stay_matched() {
    let source = strings(&["a", "", "b"]);
    let dest = strings(&["a", "", "c"]);
    let ops = align_lines(&source, &dest);
    assert!(ops.contains(&LineAlignment::Both(1, 1)));
}

#[test]
fn test_end_to_end_alignment_and_word_diff() {
    let source = strings(&["line1", "", "line2 old"]);
    let dest = strings(&["line1", "", "line2 new"]);
    let ops = align_lines(&source, &dest);
    assert_eq!(
        ops,
        vec![
            LineAlignment::Both(0, 0),
            LineAlignment::Both(1, 1),
            LineAlignment::Both(2, 2),
        ]
    );
    let src_segs = compute_word_diff_source("line2 old", "line2 new");
    assert_eq!(
        src_segs,
        vec![("line2 ".to_string(), false), ("old".to_string(), true)]
    );
    let dest_segs = compute_word_diff_dest("line2 new", "line2 old");
    assert_eq!(
        dest_segs,
        vec![("line2 ".to_string(), false), ("new".to_string(), true)]
    );
}

#[test]
fn test_prefix_extension_highlights_only_the_tail() {
    assert_eq!(
        compute_word_diff_source("foo", "foo bar"),
        vec![("foo".to_string(), false)]
    );
    assert_eq!(
        compute_word_diff_dest("foo bar", "foo"),
        vec![("foo".to_string(), false), (" bar".to_string(), true)]
    );
}

#[test]
fn test_segments_reconstruct_the_line() {
    let pairs = [
        ("alpha beta gamma", "alpha BETA gamma"),
        ("", "something"),
        ("   ", "\t"),
        ("left right", "totally different words"),
        ("a b c d", "a x c d"),
    ];
    for (line, other) in pairs {
        let src: String = compute_word_diff_source(line, other)
            .into_iter()
            .map(|(t, _)| t)
            .collect();
        assert_eq!(src, line);
        let dst: String = compute_word_diff_dest(line, other)
            .into_iter()
            .map(|(t, _)| t)
            .collect();
        assert_eq!(dst, line);
    }
}

#[test]
fn test_wrap_arithmetic_on_a_long_line() {
    let line: String = std::iter::repeat('x').take(250).collect();
    let rows = create_wrapped_lines(0, &line, Some(&line), false, 80, 2, 1);
    assert_eq!(rows.len(), 4);
    let expected_lens = [80usize, 80, 80, 10];
    for (k, row) in rows.iter().enumerate() {
        match row {
            DisplayRow::Content { gutter, spans, pad, width, .. } => {
                let content: usize = spans.iter().map(|(t, _)| t.chars().count()).sum();
                assert_eq!(content, expected_lens[k]);
                assert_eq!(*width, 80);
                // The row carries its own right padding out to the width.
                assert_eq!(pad.chars().count(), 80 - expected_lens[k]);
                assert!(pad.chars().all(|c| c == ' '));
                if k == 0 {
                    assert_eq!(gutter, "1 ");
                } else {
                    assert_eq!(gutter, "  ");
                }
            }
            DisplayRow::FoldMarker { .. } => panic!("no fold marker expected"),
        }
    }
}

#[test]
fn test_fold_arithmetic_with_three_context_lines() {
    let mut source = vec!["start old".to_string()];
    let mut dest = vec!["start new".to_string()];
    for _ in 0..10 {
        source.push("common".to_string());
        dest.push("common".to_string());
    }
    source.push("end old".to_string());
    dest.push("end new".to_string());
    let ops = align_lines(&source, &dest);
    let data = compute_render_data_static(&ops, &source, &dest, 100, 3, 2, true, 3, 0, 100);
    // One changed row, three context rows, the marker, three context
    // rows, one changed row.
    assert_eq!(data.source_rows.len(), 9);
    assert_eq!(data.dest_rows.len(), 9);
    match &data.source_rows[4] {
        DisplayRow::FoldMarker { hidden_count } => assert_eq!(*hidden_count, 4),
        _ => panic!("expected the fold marker in the middle"),
    }
    assert_eq!(data.source_rows[4], data.dest_rows[4]);
}

#[test]
fn test_columns_always_have_equal_length() {
    let source = strings(&["alpha beta", "", "gamma", "a very long line that wraps around"]);
    let dest = strings(&["alpha beta!", "delta", "", "gamma"]);
    let ops = align_lines(&source, &dest);
    for fold in [true, false] {
        for width in [0usize, 5, 80] {
            for scroll in [0usize, 3, 100] {
                for height in [0usize, 4, 50] {
                    let data = compute_render_data_static(
                        &ops, &source, &dest, width, 2, 1, fold, 3, scroll, height,
                    );
                    assert_eq!(data.source_rows.len(), data.dest_rows.len());
                    assert!(data.source_rows.len() <= height);
                }
            }
        }
    }
}

#[test]
fn test_format_is_deterministic() {
    let source = strings(&["one", "two words here", "", "three"]);
    let dest = strings(&["one", "two words there", "", "four"]);
    let ops1 = align_lines(&source, &dest);
    let ops2 = align_lines(&source, &dest);
    assert_eq!(ops1, ops2);
    let a = compute_render_data_static(&ops1, &source, &dest, 12, 2, 1, true, 3, 1, 40);
    let b = compute_render_data_static(&ops2, &source, &dest, 12, 2, 1, true, 3, 1, 40);
    assert_eq!(a.source_rows, b.source_rows);
    assert_eq!(a.dest_rows, b.dest_rows);
}

#[test]
fn test_blank_after_one_sided_run_is_reclassified() {
    // The blank pair at position two is forced to match, but it trails a
    // one-sided pair, so it is reclassified as an adjacent one-sided
    // pair of its own.
    let source = strings(&["x", "new", "", ""]);
    let dest = strings(&["x", "", ""]);
    let ops = align_lines(&source, &dest);
    assert_eq!(
        ops,
        vec![
            LineAlignment::Both(0, 0),
            LineAlignment::SourceOnly(1),
            LineAlignment::DestOnly(1),
            LineAlignment::DestOnly(2),
            LineAlignment::SourceOnly(2),
            LineAlignment::SourceOnly(3),
        ]
    );
}

#[test]
fn test_empty_inputs_align_to_nothing() {
    let ops = align_lines(&Vec::new(), &Vec::new());
    assert!(ops.is_empty());
}

#[test]
fn test_one_sided_lines_pad_the_other_column() {
    let source = strings(&["kept", "removed here"]);
    let dest = strings(&["kept"]);
    let ops = align_lines(&source, &dest);
    let data = compute_render_data_static(&ops, &source, &dest, 40, 2, 1, false, 3, 0, 10);
    assert_eq!(data.source_rows.len(), data.dest_rows.len());
    assert_eq!(data.source_rows.len(), 2);
    match &data.dest_rows[1] {
        DisplayRow::Content { spans, .. } => assert!(spans.is_empty()),
        _ => panic!("expected a blank padding row"),
    }
}
