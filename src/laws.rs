//! Properties of every greedy packing and of every wrap, proved from their definitions.
use crate::pack::{
    boundary_kinds, covers, is_mandatory, is_opening, lemma_sum_nonneg, lemma_sum_split, line_ok, packing_ok,
    unbreakable, width_sum, widths_of, Line, MeasuredGrapheme,
};
use crate::scan::{linebreaks_of, opportunities_of, BreakKind, BreakOpportunity};
use crate::segment::{cluster_texts, clusters_match, grapheme_indices_of, GraphemeCluster};
use crate::truncate::{kept, WrapResult};
use crate::wrap::{measured_match, wrapped, wrapped_clusters};
use vstd::seq_lib::lemma_flatten_concat;
use vstd::prelude::*;

verus! {

/// The clusters of each line, one sequence per line.
pub open spec fn line_contents(lines: Seq<Line>) -> Seq<Seq<MeasuredGrapheme>> {
    Seq::new(lines.len(), |k: int| lines[k].graphemes@)
}

/// The index of the first cluster after the last of `lines`.
pub open spec fn covered_end(lines: Seq<Line>) -> int {
    if lines.len() == 0 {
        0
    } else {
        lines.last().end as int
    }
}

proof fn lemma_prefix_covers(lines: Seq<Line>, m: int)
    requires
        covers(lines, covered_end(lines)),
        0 <= m <= lines.len(),
    ensures
        covers(lines.take(m), covered_end(lines.take(m))),
{
}

proof fn lemma_flatten_prefix(gs: Seq<MeasuredGrapheme>, ks: Seq<BreakKind>, max: int, lines: Seq<Line>)
    requires
        covers(lines, covered_end(lines)),
        forall|k: int| 0 <= k < lines.len() ==> line_ok(gs, ks, max, #[trigger] lines[k]),
    ensures
        0 <= covered_end(lines) <= gs.len(),
        line_contents(lines).flatten() == gs.take(covered_end(lines)),
    decreases lines.len(),
{
    if lines.len() == 0 {
        assert(line_contents(lines) =~= Seq::<Seq<MeasuredGrapheme>>::empty());
        assert(gs.take(0) =~= Seq::<MeasuredGrapheme>::empty());
    } else {
        let init = lines.drop_last();
        let last = lines.last();
        assert(line_ok(gs, ks, max, lines[lines.len() - 1]));
        assert(forall|k: int| 0 <= k < init.len() ==> init[k] == lines[k]);
        if init.len() > 0 {
            assert(lines[init.len() - 1].end == lines[init.len() as int].start);
        }
        lemma_flatten_prefix(gs, ks, max, init);
        assert(line_contents(lines) =~= line_contents(init).push(last.graphemes@));
        line_contents(init).lemma_flatten_push(last.graphemes@);
        assert(gs.take(last.end as int) =~= gs.take(last.start as int) + gs.subrange(last.start as int, last.end as int));
    }
}

/// Reading the lines in order gives back every cluster of the input, once each and in
/// order; after a cut to `max_lines` lines, what is read is a prefix of the input.
pub proof fn lemma_lines_reconstruct(gs: Seq<MeasuredGrapheme>, ks: Seq<BreakKind>, max: int, lines: Seq<Line>, max_lines: int)
    requires
        packing_ok(gs, ks, max, lines),
        0 <= max_lines,
    ensures
        line_contents(lines).flatten() == gs,
        line_contents(kept(lines, max_lines)).flatten() == gs.take(covered_end(kept(lines, max_lines))),
        lines.len() <= max_lines ==> line_contents(kept(lines, max_lines)).flatten() == gs,
{
    lemma_flatten_prefix(gs, ks, max, lines);
    assert(gs.take(gs.len() as int) =~= gs);
    if lines.len() > max_lines {
        lemma_prefix_covers(lines, max_lines);
        lemma_flatten_prefix(gs, ks, max, lines.take(max_lines));
    }
}

proof fn lemma_lines_ordered(gs: Seq<MeasuredGrapheme>, ks: Seq<BreakKind>, max: int, lines: Seq<Line>, k1: int, k2: int)
    requires
        packing_ok(gs, ks, max, lines),
        0 <= k1 < k2 < lines.len(),
    ensures
        lines[k1].end <= lines[k2].start,
    decreases k2 - k1,
{
    if k2 > k1 + 1 {
        lemma_lines_ordered(gs, ks, max, lines, k1, k2 - 1);
        assert(line_ok(gs, ks, max, lines[k2 - 1]));
    }
    assert(lines[k2 - 1].end == lines[k2].start);
}

proof fn lemma_locate(gs: Seq<MeasuredGrapheme>, ks: Seq<BreakKind>, max: int, lines: Seq<Line>, i: int) -> (k: int)
    requires
        packing_ok(gs, ks, max, lines),
        0 <= i < gs.len(),
    ensures
        0 <= k < lines.len(),
        lines[k].start <= i < lines[k].end,
{
    let k = choose|k: int| 0 <= k < lines.len() && (#[trigger] lines[k]).start <= i < lines[k].end;
    assert(exists|k: int| 0 <= k < lines.len() && (#[trigger] lines[k]).start <= i < lines[k].end) by {
        lemma_locate_in(gs, ks, max, lines, gs.len() as int, i);
    }
    k
}

proof fn lemma_locate_in(gs: Seq<MeasuredGrapheme>, ks: Seq<BreakKind>, max: int, lines: Seq<Line>, upto: int, i: int)
    requires
        covers(lines, upto),
        forall|k: int| 0 <= k < lines.len() ==> line_ok(gs, ks, max, #[trigger] lines[k]),
        0 <= i < upto,
    ensures
        exists|k: int| 0 <= k < lines.len() && (#[trigger] lines[k]).start <= i < lines[k].end,
    decreases lines.len(),
{
    let n = lines.len() as int;
    assert(line_ok(gs, ks, max, lines[n - 1]));
    if i >= lines[n - 1].start {
        assert(lines[n - 1].start <= i < lines[n - 1].end);
    } else {
        let init = lines.drop_last();
        assert(forall|k: int| 0 <= k < init.len() ==> init[k] == lines[k]);
        if n > 1 {
            assert(lines[n - 2].end == lines[n - 1].start);
        }
        lemma_locate_in(gs, ks, max, init, lines[n - 1].start as int, i);
        let k = choose|k: int| 0 <= k < init.len() && (#[trigger] init[k]).start <= i < init[k].end;
        assert(lines[k].start <= i < lines[k].end);
    }
}

/// No cluster is divided: each cluster of the input stands whole in exactly one line.
pub proof fn lemma_cluster_in_one_line(gs: Seq<MeasuredGrapheme>, ks: Seq<BreakKind>, max: int, lines: Seq<Line>, i: int)
    requires
        packing_ok(gs, ks, max, lines),
        0 <= i < gs.len(),
    ensures
        exists|k: int| 0 <= k < lines.len() && lines[k].start <= i < lines[k].end
            && #[trigger] lines[k].graphemes@[i - lines[k].start] == gs[i],
        forall|k1: int, k2: int| 0 <= k1 < lines.len() && 0 <= k2 < lines.len()
            && (#[trigger] lines[k1]).start <= i < lines[k1].end && (#[trigger] lines[k2]).start <= i < lines[k2].end ==> k1 == k2,
{
    let k = lemma_locate(gs, ks, max, lines, i);
    assert(line_ok(gs, ks, max, lines[k]));
    assert(lines[k].graphemes@[i - lines[k].start] == gs[i]);
    assert forall|k1: int, k2: int| 0 <= k1 < lines.len() && 0 <= k2 < lines.len()
        && (#[trigger] lines[k1]).start <= i < lines[k1].end && (#[trigger] lines[k2]).start <= i < lines[k2].end implies k1 == k2 by {
        if k1 < k2 {
            lemma_lines_ordered(gs, ks, max, lines, k1, k2);
        } else if k2 < k1 {
            lemma_lines_ordered(gs, ks, max, lines, k2, k1);
        }
    }
}

/// A line ends at every mandatory break, whatever width is left on it.
pub proof fn lemma_mandatory_break_ends_line(gs: Seq<MeasuredGrapheme>, ks: Seq<BreakKind>, max: int, lines: Seq<Line>, p: int)
    requires
        packing_ok(gs, ks, max, lines),
        is_mandatory(ks, p),
        ks.len() == gs.len(),
    ensures
        exists|k: int| 0 <= k < lines.len() && (#[trigger] lines[k]).end == p && lines[k].mandatory,
{
    let k = lemma_locate(gs, ks, max, lines, p - 1);
    assert(line_ok(gs, ks, max, lines[k]));
    assert(lines[k].end == p);
}

/// Where a line may end between any two clusters, every line fits in `max`, but a
/// line that holds a single cluster wider than `max`.
pub proof fn lemma_width_bound(gs: Seq<MeasuredGrapheme>, ks: Seq<BreakKind>, max: int, lines: Seq<Line>, k: int)
    requires
        packing_ok(gs, ks, max, lines),
        ks.len() == gs.len(),
        forall|p: int| 0 < p < gs.len() ==> #[trigger] is_opening(ks, p),
        0 <= k < lines.len(),
    ensures
        lines[k].width <= max || (lines[k].end == lines[k].start + 1 && gs[lines[k].start as int].width > max),
{
    let l = lines[k];
    assert(line_ok(gs, ks, max, l));
    if l.width > max {
        if l.end > l.start + 1 {
            assert(is_opening(ks, l.start + 1));
        }
        assert(widths_of(gs)[l.start as int] == gs[l.start as int].width);
        assert(width_sum(widths_of(gs), l.start as int, l.start + 1)
            == width_sum(widths_of(gs), l.start as int, l.start as int) + widths_of(gs)[l.start as int]);
    }
}

/// The texts of the clusters `gs`, one per cluster.
pub open spec fn grapheme_texts(gs: Seq<MeasuredGrapheme>) -> Seq<Seq<char>> {
    Seq::new(gs.len(), |i: int| gs[i].cluster.text@)
}

/// The text of a line: its clusters' texts, in order.
pub open spec fn line_text(l: Line) -> Seq<char> {
    grapheme_texts(l.graphemes@).flatten()
}

/// The texts of the lines, read one after the other.
pub open spec fn lines_text(lines: Seq<Line>) -> Seq<char> {
    Seq::new(lines.len(), |k: int| line_text(lines[k])).flatten()
}

proof fn lemma_text_prefix(gs: Seq<MeasuredGrapheme>, ks: Seq<BreakKind>, max: int, lines: Seq<Line>)
    requires
        covers(lines, covered_end(lines)),
        forall|k: int| 0 <= k < lines.len() ==> line_ok(gs, ks, max, #[trigger] lines[k]),
    ensures
        0 <= covered_end(lines) <= gs.len(),
        lines_text(lines) == grapheme_texts(gs.take(covered_end(lines))).flatten(),
    decreases lines.len(),
{
    lemma_flatten_prefix(gs, ks, max, lines);
    if lines.len() == 0 {
        assert(Seq::new(lines.len(), |k: int| line_text(lines[k])) =~= Seq::<Seq<char>>::empty());
        assert(grapheme_texts(gs.take(0)) =~= Seq::<Seq<char>>::empty());
    } else {
        let init = lines.drop_last();
        let last = lines.last();
        assert(line_ok(gs, ks, max, lines[lines.len() - 1]));
        assert(forall|k: int| 0 <= k < init.len() ==> init[k] == lines[k]);
        if init.len() > 0 {
            assert(lines[init.len() - 1].end == lines[init.len() as int].start);
        }
        lemma_text_prefix(gs, ks, max, init);
        let outer = Seq::new(lines.len(), |k: int| line_text(lines[k]));
        let outer_init = Seq::new(init.len(), |k: int| line_text(init[k]));
        assert(outer =~= outer_init.push(line_text(last)));
        outer_init.lemma_flatten_push(line_text(last));
        let a = grapheme_texts(gs.take(last.start as int));
        let b = grapheme_texts(gs.subrange(last.start as int, last.end as int));
        assert(grapheme_texts(gs.take(last.end as int)) =~= a + b);
        lemma_flatten_concat(a, b);
        assert(grapheme_texts(last.graphemes@) == b);
    }
}

proof fn lemma_wrap_clusters_prefix(cs: Seq<GraphemeCluster>, bs: Seq<BreakOpportunity>, widths: Seq<Option<u64>>, max_width: u64, max_lines: usize, r: WrapResult)
    requires
        wrapped_clusters(cs, bs, widths, max_width, max_lines, r),
    ensures
        0 <= covered_end(r.lines@) <= cs.len(),
        lines_text(r.lines@) == cluster_texts(cs.take(covered_end(r.lines@))).flatten(),
        !r.truncated ==> covered_end(r.lines@) == cs.len(),
{
    let (gs, lines) = choose|gs: Seq<MeasuredGrapheme>, lines: Seq<Line>| {
        &&& #[trigger] measured_match(gs, cs, widths)
        &&& #[trigger] packing_ok(gs, boundary_kinds(gs, bs), max_width as int, lines)
        &&& r.lines@ == kept(lines, max_lines as int)
        &&& r.truncated == (lines.len() > max_lines)
    };
    let ks = boundary_kinds(gs, bs);
    let max = max_width as int;
    let shown = kept(lines, max_lines as int);
    if lines.len() > max_lines {
        lemma_prefix_covers(lines, max_lines as int);
    }
    assert(forall|k: int| 0 <= k < shown.len() ==> shown[k] == lines[k]);
    lemma_text_prefix(gs, ks, max, shown);
    let e = covered_end(shown);
    assert(grapheme_texts(gs.take(e)) =~= cluster_texts(cs.take(e)));
}

/// Reading the lines of a wrap in order gives back the text: all of it where nothing
/// was cut, and a prefix of it where lines past the limit were discarded.
pub proof fn lemma_wrap_reconstructs_text(text: Seq<char>, byte_len: nat, widths: Seq<Option<u64>>, max_width: u64, max_lines: usize, r: WrapResult)
    requires
        wrapped(text, byte_len, widths, max_width, max_lines, r),
    ensures
        lines_text(r.lines@).len() <= text.len(),
        lines_text(r.lines@) == text.take(lines_text(r.lines@).len() as int),
        !r.truncated ==> lines_text(r.lines@) == text,
{
    let cs = choose|cs: Seq<GraphemeCluster>| {
        &&& #[trigger] clusters_match(cs, grapheme_indices_of(text), byte_len)
        &&& cluster_texts(cs).flatten() == text
        &&& wrapped_clusters(cs, opportunities_of(linebreaks_of(text)), widths, max_width, max_lines, r)
    };
    lemma_wrap_clusters_prefix(cs, opportunities_of(linebreaks_of(text)), widths, max_width, max_lines, r);
    let e = covered_end(r.lines@);
    let a = cluster_texts(cs.take(e));
    let b = cluster_texts(cs.skip(e));
    assert(cluster_texts(cs) =~= a + b);
    lemma_flatten_concat(a, b);
    assert(a.flatten() =~= text.take(a.flatten().len() as int));
    if !r.truncated {
        assert(cs.take(e) =~= cs);
    }
}

proof fn lemma_sum_monotone(ws: Seq<u64>, s: int, a: int, b: int)
    requires
        s <= a <= b,
    ensures
        width_sum(ws, s, a) <= width_sum(ws, s, b),
{
    lemma_sum_split(ws, s, a, b);
    lemma_sum_nonneg(ws, a, b);
}

proof fn lemma_same_start_no_longer(gs: Seq<MeasuredGrapheme>, ks: Seq<BreakKind>, max: int, l1: Line, l2: Line)
    requires
        ks.len() == gs.len(),
        line_ok(gs, ks, max, l1),
        line_ok(gs, ks, max, l2),
        l1.start == l2.start,
    ensures
        l1.end >= l2.end,
{
    let ws = widths_of(gs);
    let s = l1.start as int;
    let e1 = l1.end as int;
    let e2 = l2.end as int;
    if e1 < e2 {
        assert(!is_mandatory(ks, e1));
        assert(is_opening(ks, e1));
        assert(width_sum(ws, s, e2) <= max);
        let j = choose|j: int| e1 < j <= ws.len() && #[trigger] width_sum(ws, s, j) > max && unbreakable(ks, e1, j);
        if j <= e2 {
            lemma_sum_monotone(ws, s, j, e2);
        } else {
            assert(!is_opening(ks, e2));
        }
    }
}

/// A packing is determined by its input: two packings of the same clusters under the
/// same breaks and width limit have the same lines.
pub proof fn lemma_packing_unique(gs: Seq<MeasuredGrapheme>, ks: Seq<BreakKind>, max: int, l1: Seq<Line>, l2: Seq<Line>)
    requires
        ks.len() == gs.len(),
        packing_ok(gs, ks, max, l1),
        packing_ok(gs, ks, max, l2),
    ensures
        l1.len() == l2.len(),
        forall|k: int| 0 <= k < l1.len() ==> (#[trigger] l1[k]).start == l2[k].start && l1[k].end == l2[k].end
            && l1[k].graphemes@ == l2[k].graphemes@ && l1[k].width == l2[k].width && l1[k].mandatory == l2[k].mandatory,
{
    let m = if l1.len() < l2.len() { l1.len() as int } else { l2.len() as int };
    assert forall|k: int| 0 <= k < m implies (#[trigger] l1[k]).start == l2[k].start && l1[k].end == l2[k].end by {
        lemma_packing_agree_upto(gs, ks, max, l1, l2, k);
    }
    if l1.len() < l2.len() {
        let k = l1.len() as int;
        assert(line_ok(gs, ks, max, l2[k]));
        if k > 0 {
            assert(l2[k - 1].end == l2[k].start);
            assert(l1[k - 1].end == gs.len());
        }
    } else if l2.len() < l1.len() {
        let k = l2.len() as int;
        assert(line_ok(gs, ks, max, l1[k]));
        if k > 0 {
            assert(l1[k - 1].end == l1[k].start);
            assert(l2[k - 1].end == gs.len());
        }
    }
    assert forall|k: int| 0 <= k < l1.len() implies (#[trigger] l1[k]).start == l2[k].start && l1[k].end == l2[k].end
        && l1[k].graphemes@ == l2[k].graphemes@ && l1[k].width == l2[k].width && l1[k].mandatory == l2[k].mandatory by {
        assert(line_ok(gs, ks, max, l1[k]));
        assert(line_ok(gs, ks, max, l2[k]));
    }
}

proof fn lemma_packing_agree_upto(gs: Seq<MeasuredGrapheme>, ks: Seq<BreakKind>, max: int, l1: Seq<Line>, l2: Seq<Line>, k: int)
    requires
        ks.len() == gs.len(),
        packing_ok(gs, ks, max, l1),
        packing_ok(gs, ks, max, l2),
        0 <= k < l1.len(),
        k < l2.len(),
    ensures
        l1[k].start == l2[k].start,
        l1[k].end == l2[k].end,
    decreases k,
{
    if k > 0 {
        lemma_packing_agree_upto(gs, ks, max, l1, l2, k - 1);
        assert(l1[k - 1].end == l1[k].start);
        assert(l2[k - 1].end == l2[k].start);
    }
    assert(line_ok(gs, ks, max, l1[k]));
    assert(line_ok(gs, ks, max, l2[k]));
    lemma_same_start_no_longer(gs, ks, max, l1[k], l2[k]);
    lemma_same_start_no_longer(gs, ks, max, l2[k], l1[k]);
}

} // verus!
