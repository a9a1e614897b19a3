//! Why operations are refused.

use vstd::prelude::*;

verus! {

/// Why an operation of this library was refused.
#[derive(Clone, Copy, Debug, PartialEq, Eq, Hash, Structural)]
pub enum Error {
    /// A scalar function was given a number of children that its arity does not match.
    ArityMismatch,
    /// A scalar function was given argument types that it is not defined on.
    TypeMismatch,
    /// A field was requested that the struct does not have.
    UnknownField,
    /// An expression refers to a variable that its scope does not bind.
    UnboundVariable,
    /// A lambda was bound outside the higher-order function that applies it.
    LambdaOutsideBinder,
    /// Two parameters of one lambda, or two slots of one frame, share a name.
    DuplicateParameter,
    /// A name was introduced that the scope already binds.
    AlreadyBound,
    /// A node that takes no children was given some.
    UnexpectedChildren,
    /// External arrays were resolved against a scope with more than one frame.
    TooManyFrames,
    /// An array was supplied for a variable that the scope does not bind.
    UnknownBinding,
    /// An array was supplied whose dtype is not the dtype that the scope binds.
    BindingType,
    /// Two arrays were supplied for one variable.
    DuplicateBinding,
    /// The root array does not have the dtype that the expression was bound against.
    RootType,
    /// An expression was applied without an array for one of its variables.
    MissingBinding,
    /// A bound array does not have as many rows as the root array.
    BindingLength,
    /// An array was built from parts that do not fit together.
    InvalidArray,
    /// An integer operation left the range of its primitive type.
    Overflow,
}

} // verus!
