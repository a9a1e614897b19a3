//! Arrays in canonical and encoded form, and the kernels over them.

pub mod array;
pub mod canonical;
pub mod compute;
pub mod dict;
pub mod evaluate;
pub mod laws;
