//! A small text-processing toolkit: a fork-join batch pipeline for
//! line-oriented corpora (batching, a bounded worker-pool protocol, a single
//! merge/sink stage) together with the sequential building blocks that plug
//! into it: whitelist cleaning, character substitution, word counting,
//! Levenshtein distance tables, n-gram windowing and sparse matrices.

pub mod assoc;
pub mod batch;
pub mod edit_distance;
pub mod lm;
pub mod mat;
pub mod merge;
pub mod metrics;
pub mod ngrams;
pub mod pipelines;
pub mod segment;
pub mod subst;
pub mod tokens;
pub mod util;
pub mod views;
pub mod work;
pub mod worker;
