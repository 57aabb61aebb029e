//! The wrapping operation: segmentation, break scan, packing and truncation over
//! widths measured by the caller.
use crate::pack::{boundary_kinds, lemma_sum_nonneg, lemma_sum_split, pack, packing_ok, width_sum, widths_of, Line, MeasuredGrapheme};
use crate::scan::{linebreaks_of, opportunities_of, scan, BreakOpportunity};
use crate::segment::{cluster_texts, clusters_match, grapheme_indices_of, segment, GraphemeCluster};
use crate::truncate::{kept, truncate, WrapResult};
use vstd::prelude::*;

verus! {

/// Why a text could not be wrapped.
#[derive(Clone, Copy, Debug, PartialEq, Eq, Structural)]
pub enum WrapError {
    /// The width limit is zero.
    InvalidWidthLimit,
    /// A cluster has no width, or the widths do not match the clusters one for one.
    MeasurementFailure,
    /// The widths of the whole text add up to more than a `u64` holds.
    WidthOverflow,
}

/// Every one of `n` clusters has a width.
pub open spec fn all_measured(widths: Seq<Option<u64>>, n: int) -> bool {
    widths.len() == n && forall|k: int| 0 <= k < n ==> (#[trigger] widths[k]) is Some
}

/// The widths, with a missing one read as zero.
pub open spec fn measured_widths(widths: Seq<Option<u64>>) -> Seq<u64> {
    Seq::new(widths.len(), |k: int| match widths[k] {
        Some(w) => w,
        None => 0,
    })
}

/// `gs` is the clusters `cs`, each with its width from `widths`.
pub open spec fn measured_match(gs: Seq<MeasuredGrapheme>, cs: Seq<GraphemeCluster>, widths: Seq<Option<u64>>) -> bool {
    &&& gs.len() == cs.len()
    &&& widths.len() == cs.len()
    &&& forall|k: int| 0 <= k < gs.len() ==> (#[trigger] gs[k]).cluster == cs[k] && widths[k] == Some(gs[k].width)
}

/// `r` is the wrap of the clusters `cs` with widths `widths` under the break
/// opportunities `bs`: packed greedily under `max_width`, cut to `max_lines`.
pub open spec fn wrapped_clusters(cs: Seq<GraphemeCluster>, bs: Seq<BreakOpportunity>, widths: Seq<Option<u64>>, max_width: u64, max_lines: usize, r: WrapResult) -> bool {
    exists|gs: Seq<MeasuredGrapheme>, lines: Seq<Line>| {
        &&& #[trigger] measured_match(gs, cs, widths)
        &&& #[trigger] packing_ok(gs, boundary_kinds(gs, bs), max_width as int, lines)
        &&& r.lines@ == kept(lines, max_lines as int)
        &&& r.truncated == (lines.len() > max_lines)
    }
}

/// `r` is the wrap of `text` (whose UTF-8 form has `byte_len` bytes) with the cluster
/// widths `widths`: its clusters, packed greedily under `max_width`, cut to `max_lines`.
pub open spec fn wrapped(text: Seq<char>, byte_len: nat, widths: Seq<Option<u64>>, max_width: u64, max_lines: usize, r: WrapResult) -> bool {
    exists|cs: Seq<GraphemeCluster>| {
        &&& #[trigger] clusters_match(cs, grapheme_indices_of(text), byte_len)
        &&& cluster_texts(cs).flatten() == text
        &&& wrapped_clusters(cs, opportunities_of(linebreaks_of(text)), widths, max_width, max_lines, r)
    }
}

/// Pairs each cluster with its width; fails where a width is missing.
pub fn measure(clusters: &Vec<GraphemeCluster>, widths: &Vec<Option<u64>>) -> (r: Result<Vec<MeasuredGrapheme>, WrapError>)
    ensures
        r is Ok <==> all_measured(widths@, clusters@.len() as int),
        r matches Ok(gs) ==> measured_match(gs@, clusters@, widths@),
        r matches Err(e) ==> e == WrapError::MeasurementFailure,
{
    if widths.len() != clusters.len() {
        return Err(WrapError::MeasurementFailure);
    }
    let mut gs: Vec<MeasuredGrapheme> = Vec::new();
    let mut k: usize = 0;
    while k < clusters.len()
        invariant
            widths@.len() == clusters@.len(),
            0 <= k <= clusters@.len(),
            gs@.len() == k,
            forall|j: int| 0 <= j < k ==> (#[trigger] gs@[j]).cluster == clusters@[j] && widths@[j] == Some(gs@[j].width),
            forall|j: int| 0 <= j < k ==> (#[trigger] widths@[j]) is Some,
        decreases clusters@.len() - k,
    {
        match widths[k] {
            Some(w) => {
                let c = &clusters[k];
                let cluster = GraphemeCluster { start: c.start, end: c.end, text: c.text.clone() };
                gs.push(MeasuredGrapheme { cluster, width: w });
            },
            None => {
                return Err(WrapError::MeasurementFailure);
            },
        }
        k = k + 1;
    }
    Ok(gs)
}

/// The summed width of `gs`, or `None` where it does not fit in a `u64`.
pub fn total_width(gs: &Vec<MeasuredGrapheme>) -> (r: Option<u64>)
    ensures
        r is Some <==> width_sum(widths_of(gs@), 0, gs@.len() as int) <= u64::MAX,
        r matches Some(t) ==> t == width_sum(widths_of(gs@), 0, gs@.len() as int),
{
    let ghost ws = widths_of(gs@);
    let mut total: u64 = 0;
    let mut k: usize = 0;
    while k < gs.len()
        invariant
            ws == widths_of(gs@),
            0 <= k <= gs@.len(),
            total == width_sum(ws, 0, k as int),
        decreases gs@.len() - k,
    {
        match total.checked_add(gs[k].width) {
            Some(t) => {
                total = t;
            },
            None => {
                proof {
                    lemma_sum_split(ws, 0, k + 1, gs@.len() as int);
                    lemma_sum_nonneg(ws, k + 1, gs@.len() as int);
                }
                return None;
            },
        }
        k = k + 1;
    }
    Some(total)
}

/// Wraps the clusters `clusters` into lines no wider than `max_width` where the break
/// opportunities `bs` allow, keeping at most `max_lines` lines. `widths[k]` is the
/// measured width of `clusters[k]`, `None` where measuring it failed.
pub fn wrap_clusters(
    clusters: &Vec<GraphemeCluster>,
    bs: &Vec<BreakOpportunity>,
    widths: &Vec<Option<u64>>,
    max_width: u64,
    max_lines: usize,
) -> (r: Result<WrapResult, WrapError>)
    ensures
        r == Err::<WrapResult, WrapError>(WrapError::InvalidWidthLimit) <==> max_width == 0,
        max_width > 0 ==> (r == Err::<WrapResult, WrapError>(WrapError::MeasurementFailure)
            <==> !all_measured(widths@, clusters@.len() as int)),
        r == Err::<WrapResult, WrapError>(WrapError::WidthOverflow) <==> max_width > 0
            && all_measured(widths@, clusters@.len() as int)
            && width_sum(measured_widths(widths@), 0, widths@.len() as int) > u64::MAX,
        r matches Ok(res) ==> wrapped_clusters(clusters@, bs@, widths@, max_width, max_lines, res),
{
    if max_width == 0 {
        return Err(WrapError::InvalidWidthLimit);
    }
    let gs = match measure(clusters, widths) {
        Ok(gs) => gs,
        Err(e) => {
            return Err(e);
        },
    };
    proof {
        assert(widths_of(gs@) =~= measured_widths(widths@));
    }
    match total_width(&gs) {
        Some(_) => {},
        None => {
            return Err(WrapError::WidthOverflow);
        },
    }
    let lines = pack(&gs, bs, max_width);
    let ghost packed = lines@;
    let res = truncate(lines, max_lines);
    proof {
        assert(measured_match(gs@, clusters@, widths@));
        assert(packing_ok(gs@, boundary_kinds(gs@, bs@), max_width as int, packed));
    }
    Ok(res)
}

/// Wraps `text` into lines no wider than `max_width` where its break opportunities
/// allow, keeping at most `max_lines` lines. `widths[k]` is the measured width of the
/// `k`-th grapheme cluster of `text`, `None` where measuring it failed.
pub fn wrap_text(text: &str, widths: &Vec<Option<u64>>, max_width: u64, max_lines: usize) -> (r: Result<WrapResult, WrapError>)
    ensures
        r == Err::<WrapResult, WrapError>(WrapError::InvalidWidthLimit) <==> max_width == 0,
        max_width > 0 ==> (r == Err::<WrapResult, WrapError>(WrapError::MeasurementFailure)
            <==> !all_measured(widths@, grapheme_indices_of(text@).len() as int)),
        r == Err::<WrapResult, WrapError>(WrapError::WidthOverflow) <==> max_width > 0
            && all_measured(widths@, grapheme_indices_of(text@).len() as int)
            && width_sum(measured_widths(widths@), 0, widths@.len() as int) > u64::MAX,
        r matches Ok(res) ==> wrapped(text@, text.len() as nat, widths@, max_width, max_lines, res),
{
    let clusters = segment(text);
    let bs = scan(text);
    let r = wrap_clusters(&clusters, &bs, widths, max_width, max_lines);
    proof {
        assert(clusters_match(clusters@, grapheme_indices_of(text@), text.len() as nat));
    }
    r
}

} // verus!
