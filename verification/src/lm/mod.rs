//! Language-model building blocks: vocabulary counting and sentence
//! preprocessing for n-gram extraction.

pub mod mle;
pub mod preprocessing;
