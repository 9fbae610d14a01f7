//! Decomposition of goals over trait clauses into scoped where-clauses,
//! substitution of bound references, and the structural traversals that
//! both rest on.
pub mod term;
pub mod fold;
pub mod visit;
pub mod environment;
pub mod infer;
pub mod goal;
