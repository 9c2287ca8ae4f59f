use vstd::prelude::*;

verus! {

/// Row counts of the three tables of the frame store.
#[derive(Debug, Clone, Copy, PartialEq, Eq)]
pub struct DatabaseStats {
    pub total_frames: i64,
    pub total_ocr_entries: i64,
    pub total_embeddings: i64,
}

} // verus!
