//! Semantic analysis of the first-generation syntax tree.

pub mod analysis;
