//! Optimisations of the arithmetic-circuit representation.

pub mod canonicalizer;
pub mod duplicate;
pub mod equivalence;
