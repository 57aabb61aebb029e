//! Applying a maximum line count to packed lines.
use crate::pack::Line;
use vstd::prelude::*;

verus! {

/// The lines of a wrap, and whether lines past the line limit were discarded.
#[derive(Clone, Debug, PartialEq, Eq)]
pub struct WrapResult {
    pub lines: Vec<Line>,
    pub truncated: bool,
}

/// The lines that survive a limit of `max_lines`: the first `max_lines` of them.
pub open spec fn kept(lines: Seq<Line>, max_lines: int) -> Seq<Line> {
    if lines.len() > max_lines {
        lines.take(max_lines)
    } else {
        lines
    }
}

/// Keeps the first `max_lines` lines. The cut is hard: the last kept line is left
/// as it was, with no overflow marker.
pub fn truncate(lines: Vec<Line>, max_lines: usize) -> (r: WrapResult)
    ensures
        r.lines@ == kept(lines@, max_lines as int),
        r.lines@.len() <= max_lines,
        r.truncated == (lines@.len() > max_lines),
{
    let truncated = lines.len() > max_lines;
    let mut lines = lines;
    lines.truncate(max_lines);
    WrapResult { lines, truncated }
}

} // verus!
