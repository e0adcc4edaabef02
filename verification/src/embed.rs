//! The embedding model the vault is indexed with. Computing embeddings is
//! floating-point work done outside the library; what the library keeps is
//! the model's identity, persisted so that a change of model is noticed.
use vstd::prelude::*;

verus! {

/// Number of dimensions produced by the default model.
pub const DEFAULT_DIM: usize = 384;
/// Human-readable name of the default model.
pub const DEFAULT_MODEL: &'static str = "bge-small-en-v1.5";

/// The process-wide embedder.
#[derive(Debug)]
pub struct Embedder;

impl Embedder {
    pub fn model_name() -> (r: &'static str)
        ensures
            r@ == DEFAULT_MODEL@,
    {
        DEFAULT_MODEL
    }

    pub fn dim() -> (r: usize)
        ensures
            r == DEFAULT_DIM,
    {
        DEFAULT_DIM
    }
}

} // verus!
