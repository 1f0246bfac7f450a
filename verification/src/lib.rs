//! Extraction of structured documentation from annotated function
//! definitions in a Nix source file, and its rendering as a DocBook
//! document.
//!
//! The pipeline has two stages: a walk over a concrete-syntax-tree
//! arena that locates documented attribute-set entries and recovers
//! curried parameter names, and a line-oriented parser that turns one
//! freeform comment string into a structured record (description,
//! optional type signature, optional usage example).

pub mod comment;
pub mod manual;
pub mod render;
pub mod text;
pub mod tree;
