//! Execution core of a minimal vectorized query engine: a typed columnar
//! value model, record batches, a recursive expression evaluator, and a
//! tree of physical operators (scan, projection, selection) that produce
//! record batches on demand.

pub mod array;
pub mod batch;
pub mod error;
pub mod expr;
pub mod plan;
pub mod scalar;
