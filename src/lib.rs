//! Unicode-aware line wrapping: grapheme segmentation, break opportunities,
//! greedy line packing over measured widths, and truncation to a line count.
pub mod segment;
pub mod scan;
pub mod pack;
pub mod truncate;
pub mod wrap;
pub mod laws;
pub mod plan;
