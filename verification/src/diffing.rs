//! The token-level text diff the word expander builds on.  The diff itself
//! is computed by an outside library; this module names its result and
//! converts the borrowed chunks into owned ones.

use vstd::prelude::*;

verus! {

/// One chunk of a token-level diff of two texts: text common to both, text
/// only in the first, or text only in the second.
pub enum Chunk {
    Equal(String),
    Delete(String),
    Insert(String),
}

/// The mathematical value of a chunk.
pub enum ChunkV {
    Equal(Seq<char>),
    Delete(Seq<char>),
    Insert(Seq<char>),
}

impl View for Chunk {
    type V = ChunkV;

    open spec fn view(&self) -> ChunkV {
        match self {
            Chunk::Equal(s) => ChunkV::Equal(s@),
            Chunk::Delete(s) => ChunkV::Delete(s@),
            Chunk::Insert(s) => ChunkV::Insert(s@),
        }
    }
}

/// The ordered chunk sequence that diffing text `a` against text `b`
/// yields.  It depends on the two texts alone.
pub uninterp spec fn diff_chunks(a: Seq<char>, b: Seq<char>) -> Seq<ChunkV>;

/// Relies on `dissimilar::diff`: a deterministic function of its two
/// arguments that returns an ordered chunk sequence (Myers diff with
/// semantic cleanup) over substrings of the inputs.
#[verifier::external_body]
pub(crate) fn diff(a: &str, b: &str) -> (r: Vec<Chunk>)
    ensures
        r@.map_values(|c: Chunk| c@) == diff_chunks(a@, b@),
{
    dissimilar::diff(a, b)
        .into_iter()
        .map(|c| match c {
            dissimilar::Chunk::Equal(s) => Chunk::Equal(s.to_string()),
            dissimilar::Chunk::Delete(s) => Chunk::Delete(s.to_string()),
            dissimilar::Chunk::Insert(s) => Chunk::Insert(s.to_string()),
        })
        .collect()
}

} // verus!
