//! The segmenter's output, as the store takes it in.
use vstd::prelude::*;

verus! {

/// The version of the active segmenter, stamped onto every draft it produces.
pub const SEGMENTER_VERSION: u32 = 1;

/// A rally as the segmenter proposes it. Confidence is in billionths.
#[derive(Debug, Clone, Copy)]
pub struct Rally {
    pub start_ms: i64,
    pub end_ms: i64,
    pub confidence: i64,
}

} // verus!
