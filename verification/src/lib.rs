//! Trust core: the metadata format written by the Trust macros, the
//! front-end checks those macros perform on their input, the integer
//! predicate prover, and the token-level verifier for `trust::total!`
//! functions.

pub mod text;
pub mod metadata;
pub mod solver;
pub mod tokens;
pub mod semantics;
pub mod segments;
pub mod arith;
pub mod obligations;
pub mod discharge;
pub mod index;
pub mod calls;
pub mod loops;
pub mod postcond;
pub mod types;
pub mod pipeline;
pub mod frontend;
pub mod laws;
