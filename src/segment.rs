//! Grapheme cluster segmentation of a text run.
use unicode_segmentation::UnicodeSegmentation;
use vstd::prelude::*;

verus! {

/// A contiguous span of a text forming one user-perceived character.
/// `start` and `end` are byte offsets into the text; `text` is the span itself.
#[derive(Clone, Debug, PartialEq, Eq)]
pub struct GraphemeCluster {
    pub start: usize,
    pub end: usize,
    pub text: String,
}

/// The extended grapheme clusters of a text with their byte offsets, in text order,
/// as `UnicodeSegmentation::grapheme_indices` yields them.
pub uninterp spec fn grapheme_indices_of(s: Seq<char>) -> Seq<(usize, Seq<char>)>;

/// The texts of a sequence of clusters, one per cluster.
pub open spec fn cluster_texts(cs: Seq<GraphemeCluster>) -> Seq<Seq<char>> {
    Seq::new(cs.len(), |k: int| cs[k].text@)
}

/// `cs` holds the clusters `gi` with byte offsets: each cluster ends where the
/// next one starts, and the last one ends at `byte_len`.
pub open spec fn clusters_match(cs: Seq<GraphemeCluster>, gi: Seq<(usize, Seq<char>)>, byte_len: nat) -> bool {
    &&& cs.len() == gi.len()
    &&& forall|k: int| 0 <= k < cs.len() ==> {
        &&& (#[trigger] cs[k]).start == gi[k].0
        &&& cs[k].text@ == gi[k].1
        &&& cs[k].end == (if k + 1 < cs.len() { gi[k + 1].0 as nat } else { byte_len })
    }
}

/// Relies on `UnicodeSegmentation::grapheme_indices` (extended clusters): it walks the
/// text with a boundary cursor and yields the consecutive, non-empty slices between
/// boundaries, the first one at offset 0.
#[verifier::external_body]
fn grapheme_indices(s: &str) -> (r: Vec<(usize, String)>)
    ensures
        r@.len() == grapheme_indices_of(s@).len(),
        forall|k: int| 0 <= k < r@.len() ==> (#[trigger] r@[k]).0 == grapheme_indices_of(s@)[k].0
            && r@[k].1@ == grapheme_indices_of(s@)[k].1,
        Seq::new(r@.len(), |k: int| r@[k].1@).flatten() == s@,
        forall|k: int| 0 <= k < r@.len() ==> (#[trigger] r@[k]).1@.len() > 0,
        r@.len() > 0 ==> r@[0].0 == 0,
{
    s.grapheme_indices(true).map(|(i, g)| (i, g.to_string())).collect()
}

/// The pairs of `parts` with each text taken as its characters.
pub open spec fn indices_view(parts: Seq<(usize, String)>) -> Seq<(usize, Seq<char>)> {
    Seq::new(parts.len(), |k: int| (parts[k].0, parts[k].1@))
}

/// Builds the clusters of a text of `byte_len` bytes from its cluster texts and their
/// start offsets: each cluster ends where the next one starts, the last at `byte_len`.
pub fn clusters_from_indices(parts: &Vec<(usize, String)>, byte_len: usize) -> (r: Vec<GraphemeCluster>)
    ensures
        clusters_match(r@, indices_view(parts@), byte_len as nat),
        cluster_texts(r@) == Seq::new(parts@.len(), |k: int| parts@[k].1@),
{
    let n = parts.len();
    let ghost gi = indices_view(parts@);
    let mut r: Vec<GraphemeCluster> = Vec::new();
    let mut k: usize = 0;
    while k < n
        invariant
            n == parts@.len(),
            gi == indices_view(parts@),
            0 <= k <= n,
            r@.len() == k,
            forall|j: int| 0 <= j < k ==> {
                &&& (#[trigger] r@[j]).start == parts@[j].0
                &&& r@[j].text@ == parts@[j].1@
                &&& r@[j].end == (if j + 1 < n { parts@[j + 1].0 as nat } else { byte_len as nat })
            },
        decreases n - k,
    {
        let end = if k + 1 < n { parts[k + 1].0 } else { byte_len };
        let c = GraphemeCluster { start: parts[k].0, end, text: parts[k].1.clone() };
        r.push(c);
        k = k + 1;
    }
    assert(cluster_texts(r@) =~= Seq::new(parts@.len(), |j: int| parts@[j].1@));
    r
}

/// Splits `text` into its grapheme clusters, in order, covering the text exactly once.
pub fn segment(text: &str) -> (r: Vec<GraphemeCluster>)
    ensures
        clusters_match(r@, grapheme_indices_of(text@), text.len() as nat),
        cluster_texts(r@).flatten() == text@,
        forall|k: int| 0 <= k < r@.len() ==> (#[trigger] r@[k]).text@.len() > 0,
        r@.len() > 0 ==> r@[0].start == 0,
{
    let parts = grapheme_indices(text);
    let r = clusters_from_indices(&parts, text.len());
    assert(indices_view(parts@) =~= grapheme_indices_of(text@));
    r
}

} // verus!
