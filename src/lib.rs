//! The kernel of a small dependently typed language: terms with de Bruijn
//! variables, capture-free substitution, weak-head and full normalization,
//! definitional equality, and a bidirectional checker for inductive datatypes
//! with exhaustive, motive-directed case analysis.

pub mod term;
pub mod subst;
pub mod env;
pub mod error;
pub mod reduce;
pub mod check;
pub mod normal;
pub mod laws;
