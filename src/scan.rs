//! Line-break opportunities of a text run, and their lookup by byte offset.
use unicode_linebreak::BreakOpportunity as LinebreakKind;
use vstd::prelude::*;

verus! {

/// Whether a line may end at a position.
#[derive(Clone, Copy, Debug, PartialEq, Eq, Structural)]
pub enum BreakKind {
    /// No break is permitted here.
    NoBreak,
    /// A line may end here.
    Allowed,
    /// A line must end here.
    Mandatory,
}

/// A byte offset of the text paired with the kind of break permitted there.
#[derive(Clone, Copy, Debug, PartialEq, Eq, Structural)]
pub struct BreakOpportunity {
    pub position: usize,
    pub kind: BreakKind,
}

/// The break opportunities of a text as `unicode_linebreak::linebreaks` yields them:
/// the byte offset of the character after the break, and whether the break is mandatory.
pub uninterp spec fn linebreaks_of(s: Seq<char>) -> Seq<(usize, bool)>;

/// The opportunities of `lb`, with the kind spelled out.
pub open spec fn opportunities_of(lb: Seq<(usize, bool)>) -> Seq<BreakOpportunity> {
    Seq::new(lb.len(), |k: int| BreakOpportunity {
        position: lb[k].0,
        kind: if lb[k].1 { BreakKind::Mandatory } else { BreakKind::Allowed },
    })
}

/// The kind recorded for `pos`: that of the first opportunity at `pos`, or
/// `NoBreak` where none is recorded.
pub open spec fn kind_at(bs: Seq<BreakOpportunity>, pos: int) -> BreakKind
    decreases bs.len(),
{
    if bs.len() == 0 {
        BreakKind::NoBreak
    } else if bs[0].position == pos {
        bs[0].kind
    } else {
        kind_at(bs.drop_first(), pos)
    }
}

/// Relies on `unicode_linebreak::linebreaks`: its items, in order, with
/// `Mandatory` told apart from `Allowed`.
#[verifier::external_body]
fn linebreaks(s: &str) -> (r: Vec<(usize, bool)>)
    ensures
        r@ == linebreaks_of(s@),
{
    unicode_linebreak::linebreaks(s).map(|(i, b)| match b {
        LinebreakKind::Mandatory => (i, true),
        LinebreakKind::Allowed => (i, false),
    }).collect()
}

/// The opportunities of `lb`, each a byte offset and whether the break there is mandatory.
pub fn opportunities_from(lb: &Vec<(usize, bool)>) -> (r: Vec<BreakOpportunity>)
    ensures
        r@ == opportunities_of(lb@),
{
    let mut r: Vec<BreakOpportunity> = Vec::new();
    let mut k: usize = 0;
    while k < lb.len()
        invariant
            0 <= k <= lb@.len(),
            r@ == opportunities_of(lb@).take(k as int),
        decreases lb@.len() - k,
    {
        let kind = if lb[k].1 { BreakKind::Mandatory } else { BreakKind::Allowed };
        r.push(BreakOpportunity { position: lb[k].0, kind });
        k = k + 1;
        assert(r@ =~= opportunities_of(lb@).take(k as int));
    }
    assert(r@ =~= opportunities_of(lb@));
    r
}

/// The Unicode line-break opportunities of `text`, in text order.
pub fn scan(text: &str) -> (r: Vec<BreakOpportunity>)
    ensures
        r@ == opportunities_of(linebreaks_of(text@)),
{
    let lb = linebreaks(text);
    opportunities_from(&lb)
}

/// The kind of break at byte offset `pos`, looked up in `bs`.
pub fn lookup_kind(bs: &Vec<BreakOpportunity>, pos: usize) -> (r: BreakKind)
    ensures
        r == kind_at(bs@, pos as int),
{
    let mut k: usize = 0;
    assert(bs@.subrange(0, bs@.len() as int) =~= bs@);
    while k < bs.len()
        invariant
            0 <= k <= bs@.len(),
            kind_at(bs@, pos as int) == kind_at(bs@.subrange(k as int, bs@.len() as int), pos as int),
        decreases bs@.len() - k,
    {
        assert(bs@.subrange(k as int, bs@.len() as int).drop_first()
            =~= bs@.subrange(k + 1, bs@.len() as int));
        if bs[k].position == pos {
            return bs[k].kind;
        }
        k = k + 1;
    }
    BreakKind::NoBreak
}

} // verus!
