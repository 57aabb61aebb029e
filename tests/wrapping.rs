use rust_text_breaker::pack::{pack, pack_lines, Line, MeasuredGrapheme};
use rust_text_breaker::plan::{measurement_plan, spread_widths};
use rust_text_breaker::scan::{lookup_kind, opportunities_from, scan, BreakKind, BreakOpportunity};
use rust_text_breaker::segment::{clusters_from_indices, segment, GraphemeCluster};
use rust_text_breaker::truncate::truncate;
use rust_text_breaker::wrap::{measure, total_width, wrap_clusters, wrap_text, WrapError};

/// Widths in 1/1024 px of the glyphs of "10px sans-serif".
fn glyph_width(g: &str) -> u64 {
    match g {
        "H" => 7395,
        "e" => 5695,
        "l" => 2275,
        "o" => 5695,
        " " => 2845,
        "W" => 9665,
        "r" => 3410,
        "d" => 5695,
        "!" => 2845,
        _ => 13312,
    }
}

fn widths_for(text: &str) -> Vec<Option<u64>> {
    segment(text).iter().map(|c| Some(glyph_width(&c.text))).collect()
}

fn line_text(l: &Line) -> String {
    l.graphemes.iter().map(|g| g.cluster.text.as_str()).collect()
}

fn texts(lines: &[Line]) -> Vec<String> {
    lines.iter().map(line_text).collect()
}

fn measured(items: &[(&str, u64)]) -> Vec<MeasuredGrapheme> {
    let mut start = 0;
    items
        .iter()
        .map(|(t, w)| {
            let end = start + t.len();
            let g = MeasuredGrapheme {
                cluster: GraphemeCluster { start, end, text: t.to_string() },
                width: *w,
            };
            start = end;
            g
        })
        .collect()
}

#[test]
fn segment_empty_text() {
    assert!(segment("").is_empty());
}

#[test]
fn segment_ascii_offsets() {
    let cs = segment("Hello World !");
    assert_eq!(cs.len(), 13);
    assert_eq!(cs[0], GraphemeCluster { start: 0, end: 1, text: "H".to_string() });
    assert_eq!(cs[12], GraphemeCluster { start: 12, end: 13, text: "!".to_string() });
}

#[test]
fn segment_keeps_clusters_whole() {
    let text = "e\u{301}\u{1F468}\u{200D}\u{1F469}\u{200D}\u{1F467}\u{1F1EB}\u{1F1F7}x";
    let cs = segment(text);
    let ts: Vec<&str> = cs.iter().map(|c| c.text.as_str()).collect();
    assert_eq!(
        ts,
        vec!["e\u{301}", "\u{1F468}\u{200D}\u{1F469}\u{200D}\u{1F467}", "\u{1F1EB}\u{1F1F7}", "x"]
    );
    assert_eq!(cs[0].start, 0);
    assert_eq!(cs[0].end, 3);
    assert_eq!(cs[3].end, text.len());
    assert_eq!(ts.concat(), text);
}

#[test]
fn scan_hello_world() {
    let bs = scan("Hello world!");
    assert_eq!(
        bs,
        vec![
            BreakOpportunity { position: 6, kind: BreakKind::Allowed },
            BreakOpportunity { position: 12, kind: BreakKind::Mandatory },
        ]
    );
}

#[test]
fn scan_newline_is_mandatory() {
    let bs = scan("ab\ncd");
    assert_eq!(bs[0], BreakOpportunity { position: 3, kind: BreakKind::Mandatory });
}

#[test]
fn lookup_kind_absent_is_no_break() {
    let bs = scan("Hello world!");
    assert_eq!(lookup_kind(&bs, 6), BreakKind::Allowed);
    assert_eq!(lookup_kind(&bs, 12), BreakKind::Mandatory);
    assert_eq!(lookup_kind(&bs, 3), BreakKind::NoBreak);
}

#[test]
fn hello_world_breaks_only_at_spaces() {
    let text = "Hello World !";
    // No break is allowed before "!", so "World !" stays whole.
    let r = wrap_text(text, &widths_for(text), 16 * 1024, 2).unwrap();
    assert_eq!(texts(&r.lines), vec!["Hello ", "World !"]);
    assert!(!r.truncated);
    assert_eq!(r.lines[0].width, 26180);
    assert_eq!(r.lines[1].width, 32430);
    assert_eq!((r.lines[0].start, r.lines[0].end), (0, 6));
    assert_eq!((r.lines[1].start, r.lines[1].end), (6, 13));
    assert!(!r.lines[0].mandatory);
    assert!(r.lines[1].mandatory);
    let ls = texts(&r.lines);
    assert!(ls.iter().all(|l| !l.ends_with('l') && !l.starts_with('l')));
}

#[test]
fn hello_world_truncated_to_one_line() {
    let text = "Hello World !";
    let r = wrap_text(text, &widths_for(text), 16 * 1024, 1).unwrap();
    assert_eq!(texts(&r.lines), vec!["Hello "]);
    assert!(r.truncated);
    let r = wrap_text(text, &widths_for(text), 40 * 1024, 5).unwrap();
    assert_eq!(texts(&r.lines), vec!["Hello ", "World !"]);
    assert_eq!(texts(&r.lines).concat(), text);
}

const EMOJI: &str = "\u{1F608}\u{1F47F}\u{1F479}\u{1F47A}\u{1F921}\u{1F4A9}\u{1F47B}\u{1F480}\u{1F47D}\u{1F47E}";

#[test]
fn ten_emoji_one_per_line() {
    let r = wrap_text(EMOJI, &widths_for(EMOJI), 16 * 1024, 10).unwrap();
    assert_eq!(r.lines.len(), 10);
    assert!(!r.truncated);
    for l in &r.lines {
        assert_eq!(l.graphemes.len(), 1);
        assert_eq!(l.width, 13312);
    }
    assert_eq!(texts(&r.lines).concat(), EMOJI);
}

#[test]
fn ten_emoji_truncated() {
    let r = wrap_text(EMOJI, &widths_for(EMOJI), 16 * 1024, 4).unwrap();
    assert_eq!(r.lines.len(), 4);
    assert!(r.truncated);
    assert_eq!(line_text(&r.lines[3]), "\u{1F47A}");
}

#[test]
fn too_wide_first_grapheme_still_placed() {
    let text = "Hello";
    let r = wrap_text(text, &widths_for(text), 1000, 10).unwrap();
    assert_eq!(r.lines.len(), 1);
    assert_eq!(line_text(&r.lines[0]), "Hello");
    let r = wrap_text("H", &widths_for("H"), 1000, 10).unwrap();
    assert_eq!(r.lines[0].graphemes.len(), 1);
    assert_eq!(r.lines[0].width, 7395);
}

#[test]
fn mandatory_break_splits_fitting_text() {
    let text = "ab\ncd";
    let widths = vec![Some(1); 5];
    let r = wrap_text(text, &widths, 100, 10).unwrap();
    assert_eq!(texts(&r.lines), vec!["ab\n", "cd"]);
    assert!(r.lines[0].mandatory);
    assert_eq!(r.lines[0].width, 3);
}

#[test]
fn greedy_uses_last_fitting_opportunity() {
    let text = "aa bb cc";
    let widths = vec![Some(1); 8];
    let r = wrap_text(text, &widths, 6, 10).unwrap();
    assert_eq!(texts(&r.lines), vec!["aa bb ", "cc"]);
    let r = wrap_text(text, &widths, 5, 10).unwrap();
    assert_eq!(texts(&r.lines), vec!["aa ", "bb cc"]);
    let r = wrap_text(text, &widths, 4, 10).unwrap();
    assert_eq!(texts(&r.lines), vec!["aa ", "bb ", "cc"]);
}

#[test]
fn empty_text_has_no_lines() {
    let r = wrap_text("", &vec![], 10, 3).unwrap();
    assert!(r.lines.is_empty());
    assert!(!r.truncated);
}

#[test]
fn zero_width_limit_rejected() {
    assert_eq!(wrap_text("ab", &vec![Some(1), Some(1)], 0, 3), Err(WrapError::InvalidWidthLimit));
}

#[test]
fn missing_width_is_measurement_failure() {
    assert_eq!(wrap_text("ab", &vec![Some(1), None], 10, 3), Err(WrapError::MeasurementFailure));
    assert_eq!(wrap_text("ab", &vec![Some(1)], 10, 3), Err(WrapError::MeasurementFailure));
}

#[test]
fn width_overflow_rejected() {
    assert_eq!(wrap_text("ab", &vec![Some(u64::MAX), Some(1)], 10, 3), Err(WrapError::WidthOverflow));
}

#[test]
fn zero_max_lines_truncates_everything() {
    let r = wrap_text("ab", &vec![Some(1), Some(1)], 10, 0).unwrap();
    assert!(r.lines.is_empty());
    assert!(r.truncated);
}

#[test]
fn pack_lines_respects_no_break() {
    let gs = measured(&[("a", 3), ("b", 3), ("c", 3), ("d", 3)]);
    let ks = vec![BreakKind::Allowed, BreakKind::NoBreak, BreakKind::NoBreak, BreakKind::Mandatory];
    let lines = pack_lines(&gs, &ks, 7);
    assert_eq!(texts(&lines), vec!["a", "bcd"]);
    assert_eq!(lines[1].width, 9);
    assert!(lines[1].mandatory);
}

#[test]
fn pack_looks_up_breaks_by_end_offset() {
    let gs = measured(&[("a", 2), ("b", 2), ("c", 2)]);
    let bs = vec![
        BreakOpportunity { position: 1, kind: BreakKind::Allowed },
        BreakOpportunity { position: 2, kind: BreakKind::Allowed },
    ];
    let lines = pack(&gs, &bs, 4);
    assert_eq!(texts(&lines), vec!["ab", "c"]);
    assert_eq!(pack(&gs, &vec![], 4).len(), 1);
}

#[test]
fn measure_pairs_widths() {
    let cs = segment("ab");
    let gs = measure(&cs, &vec![Some(4), Some(5)]).unwrap();
    assert_eq!(gs[1].width, 5);
    assert_eq!(gs[1].cluster.text, "b");
    assert_eq!(measure(&cs, &vec![None, Some(5)]), Err(WrapError::MeasurementFailure));
}

#[test]
fn total_width_sums_or_overflows() {
    assert_eq!(total_width(&measured(&[("a", 2), ("b", 5)])), Some(7));
    assert_eq!(total_width(&measured(&[("a", u64::MAX), ("b", 1)])), None);
}

#[test]
fn truncate_keeps_prefix() {
    let gs = measured(&[("a", 1), ("b", 1), ("c", 1)]);
    let ks = vec![BreakKind::Mandatory; 3];
    let lines = pack_lines(&gs, &ks, 10);
    assert_eq!(lines.len(), 3);
    let r = truncate(lines.clone(), 2);
    assert!(r.truncated);
    assert_eq!(texts(&r.lines), vec!["a", "b"]);
    let r = truncate(lines, 3);
    assert!(!r.truncated);
    assert_eq!(r.lines.len(), 3);
}

#[test]
fn plan_measures_each_text_once() {
    let cs = segment("abab");
    let plan = measurement_plan(&cs);
    assert_eq!(plan.texts, vec!["a".to_string(), "b".to_string()]);
    assert_eq!(plan.slots, vec![0, 1, 0, 1]);
    let ws = spread_widths(&plan, &vec![Some(3), None]);
    assert_eq!(ws, vec![Some(3), None, Some(3), None]);
    assert_eq!(spread_widths(&plan, &vec![Some(3)]), vec![Some(3), None, Some(3), None]);
}

#[test]
fn clusters_from_indices_sets_ends() {
    let parts = vec![(0, "ab".to_string()), (2, "c".to_string())];
    let cs = clusters_from_indices(&parts, 3);
    assert_eq!(
        cs,
        vec![
            GraphemeCluster { start: 0, end: 2, text: "ab".to_string() },
            GraphemeCluster { start: 2, end: 3, text: "c".to_string() },
        ]
    );
    assert!(clusters_from_indices(&vec![], 0).is_empty());
}

#[test]
fn opportunities_from_spells_out_kinds() {
    let bs = opportunities_from(&vec![(1, false), (3, true)]);
    assert_eq!(
        bs,
        vec![
            BreakOpportunity { position: 1, kind: BreakKind::Allowed },
            BreakOpportunity { position: 3, kind: BreakKind::Mandatory },
        ]
    );
}

#[test]
fn wrap_clusters_on_given_breaks() {
    let cs: Vec<GraphemeCluster> = measured(&[("a", 0), ("b", 0), ("c", 0), ("d", 0)])
        .into_iter()
        .map(|g| g.cluster)
        .collect();
    let bs = vec![
        BreakOpportunity { position: 2, kind: BreakKind::Mandatory },
        BreakOpportunity { position: 3, kind: BreakKind::Allowed },
    ];
    let widths = vec![Some(1), Some(1), Some(1), Some(1)];
    let r = wrap_clusters(&cs, &bs, &widths, 100, 5).unwrap();
    assert_eq!(texts(&r.lines), vec!["ab", "cd"]);
    assert!(r.lines[0].mandatory);
    let r = wrap_clusters(&cs, &bs, &widths, 1, 5).unwrap();
    assert_eq!(texts(&r.lines), vec!["ab", "c", "d"]);
    let r = wrap_clusters(&cs, &bs, &widths, 1, 2).unwrap();
    assert_eq!(texts(&r.lines), vec!["ab", "c"]);
    assert!(r.truncated);
    assert_eq!(wrap_clusters(&cs, &bs, &widths, 0, 2), Err(WrapError::InvalidWidthLimit));
    assert_eq!(wrap_clusters(&cs, &bs, &vec![Some(1)], 3, 2), Err(WrapError::MeasurementFailure));
}
