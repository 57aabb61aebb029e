//! Measuring each distinct cluster text once, and handing its width to every
//! cluster with that text.
use crate::segment::GraphemeCluster;
use vstd::prelude::*;

verus! {

/// The distinct texts of a run of clusters, and for each cluster the slot of its text.
#[derive(Clone, Debug, PartialEq, Eq)]
pub struct MeasurePlan {
    pub texts: Vec<String>,
    pub slots: Vec<usize>,
}

/// `texts` are the distinct texts of `cs`, each needed by some cluster, in the order of
/// their first occurrence (a slot is new only after all smaller ones were used), and `slots[k]` is the slot of the text of `cs[k]`.
pub open spec fn plan_ok(cs: Seq<GraphemeCluster>, texts: Seq<String>, slots: Seq<usize>) -> bool {
    &&& slots.len() == cs.len()
    &&& forall|k: int| 0 <= k < cs.len() ==> (#[trigger] slots[k]) < texts.len() && texts[slots[k] as int]@ == cs[k].text@
    &&& forall|t1: int, t2: int| 0 <= t1 < t2 < texts.len() ==> (#[trigger] texts[t1])@ != (#[trigger] texts[t2])@
    &&& forall|t: int| 0 <= t < texts.len() ==> #[trigger] slot_used(slots, t)
    &&& forall|k: int, t: int| 0 <= k < cs.len() && 0 <= t < slots[k] ==> #[trigger] used_before(slots, k, t)
}

/// Some cluster before the `k`-th has its text in slot `t`.
pub open spec fn used_before(slots: Seq<usize>, k: int, t: int) -> bool {
    exists|j: int| 0 <= j < k && #[trigger] slots[j] == t
}

/// Some cluster has its text in slot `t`.
pub open spec fn slot_used(slots: Seq<usize>, t: int) -> bool {
    exists|k: int| 0 <= k < slots.len() && #[trigger] slots[k] == t
}

/// The widths of the clusters: the width of the text in each cluster's slot, `None`
/// where the slot has none.
pub open spec fn spread(slots: Seq<usize>, text_widths: Seq<Option<u64>>) -> Seq<Option<u64>> {
    Seq::new(slots.len(), |k: int| if slots[k] < text_widths.len() { text_widths[slots[k] as int] } else { None })
}

fn find_text(texts: &Vec<String>, t: &String) -> (r: Option<usize>)
    ensures
        r matches Some(j) ==> j < texts@.len() && texts@[j as int]@ == t@,
        r is None ==> forall|j: int| 0 <= j < texts@.len() ==> (#[trigger] texts@[j])@ != t@,
{
    let mut j: usize = 0;
    while j < texts.len()
        invariant
            0 <= j <= texts@.len(),
            forall|i: int| 0 <= i < j ==> (#[trigger] texts@[i])@ != t@,
        decreases texts@.len() - j,
    {
        if texts[j] == *t {
            return Some(j);
        }
        j = j + 1;
    }
    None
}

/// Plans the measurement of `clusters`: one text per distinct cluster text.
pub fn measurement_plan(clusters: &Vec<GraphemeCluster>) -> (r: MeasurePlan)
    ensures
        plan_ok(clusters@, r.texts@, r.slots@),
{
    let mut texts: Vec<String> = Vec::new();
    let mut slots: Vec<usize> = Vec::new();
    let mut k: usize = 0;
    while k < clusters.len()
        invariant
            0 <= k <= clusters@.len(),
            plan_ok(clusters@.take(k as int), texts@, slots@),
        decreases clusters@.len() - k,
    {
        let ghost old_texts = texts@;
        let ghost old_slots = slots@;
        match find_text(&texts, &clusters[k].text) {
            Some(j) => {
                slots.push(j);
            },
            None => {
                slots.push(texts.len());
                texts.push(clusters[k].text.clone());
            },
        }
        k = k + 1;
        proof {
            let cs = clusters@.take(k as int);
            assert(forall|i: int| 0 <= i < k - 1 ==> cs[i] == clusters@.take(k - 1)[i]);
            assert(forall|i: int| 0 <= i < k - 1 ==> slots@[i] == old_slots[i]);
            assert(forall|j: int| 0 <= j < old_texts.len() ==> texts@[j] == old_texts[j]);
            assert(forall|i: int| 0 <= i < k ==> (#[trigger] slots@[i]) < texts@.len() && texts@[slots@[i] as int]@ == cs[i].text@);
            assert forall|i: int, t: int| 0 <= i < cs.len() && 0 <= t < slots@[i] implies #[trigger] used_before(slots@, i, t) by {
                if i < k - 1 {
                    assert(used_before(old_slots, i, t));
                    let j = choose|j: int| 0 <= j < i && #[trigger] old_slots[j] == t;
                    assert(slots@[j] == t);
                } else if slots@[i] < old_texts.len() {
                    let s = slots@[i] as int;
                    assert(slot_used(old_slots, s));
                    let i0 = choose|i0: int| 0 <= i0 < old_slots.len() && #[trigger] old_slots[i0] == s;
                    assert(used_before(old_slots, i0, t));
                    let j = choose|j: int| 0 <= j < i0 && #[trigger] old_slots[j] == t;
                    assert(slots@[j] == t);
                } else {
                    assert(slot_used(old_slots, t));
                    let j = choose|j: int| 0 <= j < old_slots.len() && #[trigger] old_slots[j] == t;
                    assert(slots@[j] == t);
                }
            }
            assert forall|t: int| 0 <= t < texts@.len() implies #[trigger] slot_used(slots@, t) by {
                if t < old_texts.len() {
                    assert(slot_used(old_slots, t));
                    let i = choose|i: int| 0 <= i < old_slots.len() && #[trigger] old_slots[i] == t;
                    assert(slots@[i] == t);
                } else {
                    assert(slots@[k - 1] == t);
                }
            }
        }
    }
    assert(clusters@.take(clusters@.len() as int) =~= clusters@);
    MeasurePlan { texts, slots }
}

/// Hands each cluster the width measured for its text: `text_widths[t]` is the width
/// of `plan.texts[t]`, `None` where measuring it failed.
pub fn spread_widths(plan: &MeasurePlan, text_widths: &Vec<Option<u64>>) -> (r: Vec<Option<u64>>)
    ensures
        r@ == spread(plan.slots@, text_widths@),
{
    let mut r: Vec<Option<u64>> = Vec::new();
    let mut k: usize = 0;
    while k < plan.slots.len()
        invariant
            0 <= k <= plan.slots@.len(),
            r@ == spread(plan.slots@, text_widths@).take(k as int),
        decreases plan.slots@.len() - k,
    {
        let s = plan.slots[k];
        let w = if s < text_widths.len() { text_widths[s] } else { None };
        r.push(w);
        k = k + 1;
        assert(r@ =~= spread(plan.slots@, text_widths@).take(k as int));
    }
    assert(r@ =~= spread(plan.slots@, text_widths@));
    r
}

/// Clusters with the same text get the same width: the measurement of a text is
/// taken once and shared by all its clusters.
pub proof fn lemma_equal_texts_equal_widths(cs: Seq<GraphemeCluster>, texts: Seq<String>, slots: Seq<usize>, text_widths: Seq<Option<u64>>, k1: int, k2: int)
    requires
        plan_ok(cs, texts, slots),
        0 <= k1 < cs.len(),
        0 <= k2 < cs.len(),
        cs[k1].text@ == cs[k2].text@,
    ensures
        spread(slots, text_widths)[k1] == spread(slots, text_widths)[k2],
{
    assert(slots[k1] < texts.len() && slots[k2] < texts.len());
    if slots[k1] < slots[k2] {
        assert(texts[slots[k1] as int]@ != texts[slots[k2] as int]@);
    } else if slots[k2] < slots[k1] {
        assert(texts[slots[k2] as int]@ != texts[slots[k1] as int]@);
    }
}

} // verus!
