//! Greedy line packing of measured grapheme clusters.
use crate::scan::{kind_at, lookup_kind, BreakKind, BreakOpportunity};
use crate::segment::GraphemeCluster;
use vstd::prelude::*;

verus! {

/// A grapheme cluster with its rendered width, in the caller's width units.
#[derive(Clone, Debug, PartialEq, Eq)]
pub struct MeasuredGrapheme {
    pub cluster: GraphemeCluster,
    pub width: u64,
}

/// A closed line: the clusters `start..end` of the input, their summed width, and
/// whether the line ends on a mandatory break.
#[derive(Clone, Debug, PartialEq, Eq)]
pub struct Line {
    pub start: usize,
    pub end: usize,
    pub graphemes: Vec<MeasuredGrapheme>,
    pub width: u64,
    pub mandatory: bool,
}

/// The width of each cluster, in order.
pub open spec fn widths_of(gs: Seq<MeasuredGrapheme>) -> Seq<u64> {
    gs.map_values(|g: MeasuredGrapheme| g.width)
}

/// Sum of the widths `ws[s..e]`.
pub open spec fn width_sum(ws: Seq<u64>, s: int, e: int) -> int
    decreases e - s,
{
    if e <= s {
        0
    } else {
        width_sum(ws, s, e - 1) + ws[e - 1]
    }
}

/// `ks[i]` is the kind of break at the boundary after cluster `i`.
pub open spec fn boundary_kinds(gs: Seq<MeasuredGrapheme>, bs: Seq<BreakOpportunity>) -> Seq<BreakKind> {
    Seq::new(gs.len(), |i: int| kind_at(bs, gs[i].cluster.end as int))
}

/// A line may end at boundary `p` (after `p` clusters).
pub open spec fn is_opening(ks: Seq<BreakKind>, p: int) -> bool {
    1 <= p <= ks.len() && ks[p - 1] != BreakKind::NoBreak
}

/// A line must end at boundary `p`.
pub open spec fn is_mandatory(ks: Seq<BreakKind>, p: int) -> bool {
    1 <= p <= ks.len() && ks[p - 1] == BreakKind::Mandatory
}

/// No opportunity lies strictly between boundaries `a` and `b`.
pub open spec fn unbreakable(ks: Seq<BreakKind>, a: int, b: int) -> bool {
    forall|p: int| a < p < b ==> !#[trigger] is_opening(ks, p)
}

/// The clusters `s..e` fit in `max`, or cannot be broken anywhere inside.
pub open spec fn fits_or_unbreakable(ws: Seq<u64>, ks: Seq<BreakKind>, max: int, s: int, e: int) -> bool {
    width_sum(ws, s, e) <= max || unbreakable(ks, s, e)
}

/// Extending the line `s..e` to the next opportunity after `e` would exceed `max`.
pub open spec fn full_at(ws: Seq<u64>, ks: Seq<BreakKind>, max: int, s: int, e: int) -> bool {
    exists|j: int| e < j <= ws.len() && #[trigger] width_sum(ws, s, j) > max && unbreakable(ks, e, j)
}

/// One line of a greedy packing of `gs` with boundary kinds `ks`.
pub open spec fn line_ok(gs: Seq<MeasuredGrapheme>, ks: Seq<BreakKind>, max: int, l: Line) -> bool {
    let ws = widths_of(gs);
    let n = gs.len() as int;
    &&& 0 <= l.start < l.end <= n
    &&& l.graphemes@ == gs.subrange(l.start as int, l.end as int)
    &&& l.width == width_sum(ws, l.start as int, l.end as int)
    &&& l.mandatory == is_mandatory(ks, l.end as int)
    &&& (l.end == n || is_opening(ks, l.end as int))
    &&& forall|p: int| l.start < p < l.end ==> !#[trigger] is_mandatory(ks, p)
    &&& fits_or_unbreakable(ws, ks, max, l.start as int, l.end as int)
    &&& (l.end == n || is_mandatory(ks, l.end as int) || full_at(ws, ks, max, l.start as int, l.end as int))
}

/// The lines run from cluster 0 to `upto`, each starting where the one before it ended.
pub open spec fn covers(lines: Seq<Line>, upto: int) -> bool {
    &&& lines.len() == 0 ==> upto == 0
    &&& lines.len() > 0 ==> lines[0].start == 0 && lines.last().end == upto
    &&& forall|k: int| 0 <= k < lines.len() - 1 ==> (#[trigger] lines[k]).end == lines[k + 1].start
}

/// `lines` is the greedy packing of `gs` under boundary kinds `ks` and width limit `max`:
/// a line closes at a mandatory break, or at the last opportunity before the clusters
/// stop fitting; a run that cannot be broken stays whole even where it is too wide.
pub open spec fn packing_ok(gs: Seq<MeasuredGrapheme>, ks: Seq<BreakKind>, max: int, lines: Seq<Line>) -> bool {
    &&& covers(lines, gs.len() as int)
    &&& forall|k: int| 0 <= k < lines.len() ==> line_ok(gs, ks, max, #[trigger] lines[k])
}

/// A sum of widths splits at any point between its ends.
pub proof fn lemma_sum_split(ws: Seq<u64>, a: int, b: int, c: int)
    requires
        a <= b <= c,
    ensures
        width_sum(ws, a, c) == width_sum(ws, a, b) + width_sum(ws, b, c),
    decreases c - b,
{
    if c > b {
        lemma_sum_split(ws, a, b, c - 1);
    }
}

/// A sum of widths is never negative.
pub proof fn lemma_sum_nonneg(ws: Seq<u64>, a: int, b: int)
    ensures
        width_sum(ws, a, b) >= 0,
    decreases b - a,
{
    if b > a {
        lemma_sum_nonneg(ws, a, b - 1);
    }
}

/// A sum over part of the widths is at most the sum over all of them.
proof fn lemma_sum_within(ws: Seq<u64>, a: int, b: int, n: int)
    requires
        0 <= a <= b <= n,
    ensures
        width_sum(ws, a, b) <= width_sum(ws, 0, n),
{
    lemma_sum_split(ws, 0, a, n);
    lemma_sum_split(ws, a, b, n);
    lemma_sum_nonneg(ws, 0, a);
    lemma_sum_nonneg(ws, b, n);
}

/// A copy of `g`.
fn copy_grapheme(g: &MeasuredGrapheme) -> (r: MeasuredGrapheme)
    ensures
        r == *g,
{
    MeasuredGrapheme {
        cluster: GraphemeCluster { start: g.cluster.start, end: g.cluster.end, text: g.cluster.text.clone() },
        width: g.width,
    }
}

/// The line of clusters `start..end`, with the width summed by the caller.
fn close_line(gs: &Vec<MeasuredGrapheme>, ks: &Vec<BreakKind>, start: usize, end: usize, width: u64) -> (l: Line)
    requires
        start < end <= gs@.len(),
        ks@.len() == gs@.len(),
    ensures
        l.start == start,
        l.end == end,
        l.width == width,
        l.graphemes@ == gs@.subrange(start as int, end as int),
        l.mandatory == is_mandatory(ks@, end as int),
{
    let mut v: Vec<MeasuredGrapheme> = Vec::new();
    let mut i: usize = start;
    while i < end
        invariant
            start <= i <= end <= gs@.len(),
            v@ == gs@.subrange(start as int, i as int),
        decreases end - i,
    {
        v.push(copy_grapheme(&gs[i]));
        i = i + 1;
        assert(v@ =~= gs@.subrange(start as int, i as int));
    }
    let mandatory = ks[end - 1] == BreakKind::Mandatory;
    Line { start, end, graphemes: v, width, mandatory }
}

/// Packs `gs` into lines of width at most `max_width` where breaks allow, given the
/// kind of break after each cluster in `ks`.
pub fn pack_lines(gs: &Vec<MeasuredGrapheme>, ks: &Vec<BreakKind>, max_width: u64) -> (lines: Vec<Line>)
    requires
        ks@.len() == gs@.len(),
        width_sum(widths_of(gs@), 0, gs@.len() as int) <= u64::MAX,
    ensures
        packing_ok(gs@, ks@, max_width as int, lines@),
{
    let n = gs.len();
    let ghost ws = widths_of(gs@);
    let ghost max = max_width as int;
    let mut lines: Vec<Line> = Vec::new();
    let mut start: usize = 0;
    let mut acc: u64 = 0;
    let mut has_lb = false;
    let mut lb: usize = 0;
    let mut acc_lb: u64 = 0;
    let mut i: usize = 0;
    while i < n
        invariant
            n == gs@.len(),
            n == ks@.len(),
            ws == widths_of(gs@),
            max == max_width as int,
            width_sum(ws, 0, n as int) <= u64::MAX,
            start <= i <= n,
            acc == width_sum(ws, start as int, i as int),
            covers(lines@, start as int),
            forall|k: int| 0 <= k < lines@.len() ==> line_ok(gs@, ks@, max, #[trigger] lines@[k]),
            has_lb ==> start < lb <= i && ks@[lb - 1] == BreakKind::Allowed
                && acc_lb == width_sum(ws, start as int, lb as int)
                && fits_or_unbreakable(ws, ks@, max, start as int, lb as int),
            forall|p: int| start < p <= i && #[trigger] is_opening(ks@, p) ==> has_lb && p <= lb,
            forall|p: int| start < p <= i ==> !#[trigger] is_mandatory(ks@, p),
            fits_or_unbreakable(ws, ks@, max, start as int, i as int),
        decreases n - i,
    {
        let w = gs[i].width;
        proof {
            lemma_sum_within(ws, start as int, i + 1, n as int);
            assert(ws[i as int] == w);
        }
        if has_lb && acc + w > max_width {
            proof {
                lemma_sum_split(ws, start as int, lb as int, i as int);
                lemma_sum_nonneg(ws, lb as int, i as int);
                assert(width_sum(ws, start as int, i + 1) > max);
                assert(unbreakable(ks@, lb as int, i + 1));
            }
            let line = close_line(gs, ks, start, lb, acc_lb);
            proof {
                assert(full_at(ws, ks@, max, start as int, lb as int));
                assert(line_ok(gs@, ks@, max, line));
            }
            lines.push(line);
            acc = acc - acc_lb;
            start = lb;
            has_lb = false;
            proof {
                assert(covers(lines@, start as int));
            }
        }
        proof {
            assert(fits_or_unbreakable(ws, ks@, max, start as int, i + 1));
        }
        acc = acc + w;
        i = i + 1;
        match ks[i - 1] {
            BreakKind::Mandatory => {
                let line = close_line(gs, ks, start, i, acc);
                lines.push(line);
                start = i;
                acc = 0;
                has_lb = false;
                proof {
                    assert(covers(lines@, start as int));
                }
            },
            BreakKind::Allowed => {
                has_lb = true;
                lb = i;
                acc_lb = acc;
            },
            BreakKind::NoBreak => {},
        }
    }
    if start < n {
        let line = close_line(gs, ks, start, n, acc);
        lines.push(line);
        proof {
            assert(covers(lines@, n as int));
        }
    }
    lines
}

/// Packs `gs` into lines of width at most `max_width` where the break opportunities
/// `bs` allow, looking up the kind of break at the end offset of each cluster.
pub fn pack(gs: &Vec<MeasuredGrapheme>, bs: &Vec<BreakOpportunity>, max_width: u64) -> (lines: Vec<Line>)
    requires
        width_sum(widths_of(gs@), 0, gs@.len() as int) <= u64::MAX,
    ensures
        packing_ok(gs@, boundary_kinds(gs@, bs@), max_width as int, lines@),
{
    let mut ks: Vec<BreakKind> = Vec::new();
    let mut i: usize = 0;
    while i < gs.len()
        invariant
            0 <= i <= gs@.len(),
            ks@ == boundary_kinds(gs@, bs@).take(i as int),
        decreases gs@.len() - i,
    {
        let kind = lookup_kind(bs, gs[i].cluster.end);
        ks.push(kind);
        i = i + 1;
        assert(ks@ =~= boundary_kinds(gs@, bs@).take(i as int));
    }
    assert(ks@ =~= boundary_kinds(gs@, bs@));
    pack_lines(gs, &ks, max_width)
}

} // verus!
