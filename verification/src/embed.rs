use crate::error::AsimovError;
use vstd::prelude::*;

verus! {

/// The embedding capability: turns rendered text into a fixed-dimension
/// vector of fixed-point coordinates. The dimension is a constant of the
/// model, consumed when a new index collection is created.
///
/// Nothing is assumed of an implementation: the store checks every vector
/// it is handed and rejects one whose dimension does not match.
pub trait Embed {
    /// The fixed dimension of the vectors this model produces.
    fn dim(&self) -> usize;

    /// Embeds rendered text; may fail with a model or backend error.
    fn embed(&self, input: &str) -> Result<Vec<i32>, AsimovError>;
}

} // verus!
