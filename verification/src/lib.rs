//! Extraction, merging and classification of comment regions in source text.
//!
//! The pipeline works on a source text held as a byte sequence: a syntax tree
//! is flattened into ordered comment byte-spans, runs of adjacent single-line
//! comment spans are merged into logical blocks, each block can be classified
//! as code-like or prose by a line heuristic, and byte offsets are translated
//! into line/column positions.

pub mod classify;
pub mod collect;
pub mod merge;
pub mod position;
pub mod reconstruct;
pub mod text;
