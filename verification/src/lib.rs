//! Relevance-ranking engine for tailoring a curriculum vitae to a target
//! text: a term-frequency model built from the target text, a phrase scorer
//! over that model, and an assembler that orders every section of a CV by
//! computed relevance.

pub mod resume;
pub mod sorting;
pub mod text;
pub mod word_cloud;

use vstd::prelude::*;

verus! {

/// Upper bound on the character length of any single reference text or
/// scored phrase; keeps every occurrence count and phrase weight well under
/// `i64::MAX`.
pub const MAX_TEXT_LEN: usize = 0x7fff_ffff;

} // verus!
