//! A coverage-guided fuzzing engine: the coverage bitmap and its merge,
//! the byte-level mutation engine, and the corpus and worker decisions.

pub mod coverage;
pub mod mutation;
pub mod corpus;
pub mod fuzzer;
