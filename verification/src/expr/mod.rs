//! Expressions, the scopes they are bound against, and their bound form.

pub mod bound_expression;
pub mod display;
pub mod expression;
pub mod lambda;
pub mod laws;
pub mod scope;
pub mod validity;
pub mod variable;
