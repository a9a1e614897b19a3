//! A columnar expression engine: typed expressions bound against lexical scopes, arrays they are
//! lowered into, dictionary kernels, and the planning of repeated scans.

pub mod apply;
pub mod arrays;
pub mod display;
pub mod dtype;
pub mod error;
pub mod expr;
pub mod hashing;
pub mod laws;
pub mod scalar;
pub mod scalar_fn;
pub mod scan;
mod shared;
pub mod soundness;
pub mod text;
