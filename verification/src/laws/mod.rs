//! What holds of types, scalar functions, patterns, bindings and figures, over all inputs.

pub mod binding;
pub mod figures;
pub mod functions;
pub mod order;
pub mod patterns;
pub mod texts;
pub mod trees;
pub mod types;
