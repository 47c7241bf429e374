//! Core of a retrieval-augmented question answering service: a word-window
//! chunker, an in-memory vector index with exact fixed-point similarity
//! scoring, a budgeted context builder, and the answer orchestrator that
//! drives query validation, retrieval, prompt construction and generator
//! retry policy.

pub mod chunker;
pub mod context;
pub mod extract;
pub mod ingest;
pub mod index;
pub mod orchestrator;
pub mod score;
pub mod strutil;

use vstd::prelude::*;

verus! {

/// Fixed body of the health endpoint.
pub fn health_message() -> (r: &'static str)
    ensures
        r@ == "OK"@,
{
    "OK"
}

} // verus!
