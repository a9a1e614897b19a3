//! Names of bindings, and where they are bound.

use vstd::prelude::*;

verus! {

/// The name of a binding.
#[derive(Debug, Eq, Hash)]
pub struct Variable {
    name: String,
}

impl Variable {
    /// The characters of the name.
    pub closed spec fn view(&self) -> Seq<char> {
        self.name@
    }

    /// The variable called `name`.
    pub fn new(name: &str) -> (r: Variable)
        ensures
            r@ == name@,
    {
        Variable { name: name.to_owned() }
    }

    /// The name of this variable.
    pub fn name(&self) -> (r: &String)
        ensures
            r@ == self@,
    {
        &self.name
    }
}

impl PartialEq for Variable {
    fn eq(&self, other: &Variable) -> (r: bool) {
        self.name == other.name
    }
}

impl vstd::std_specs::cmp::PartialEqSpecImpl for Variable {
    open spec fn obeys_eq_spec() -> bool {
        true
    }

    open spec fn eq_spec(&self, other: &Variable) -> bool {
        self@ == other@
    }
}

impl Clone for Variable {
    fn clone(&self) -> (r: Variable)
        ensures
            r@ == self@,
    {
        Variable { name: self.name.clone() }
    }
}

/// The lexical location of a binding: a frame, counted from the outermost, and a slot in it.
#[derive(Clone, Copy, Debug, PartialEq, Eq, Hash, Structural)]
pub struct VariableRef {
    /// The frame.
    pub frame: usize,
    /// The slot in the frame.
    pub slot: usize,
}

impl VariableRef {
    /// The frame, counted from the outermost.
    pub fn frame(&self) -> (r: usize)
        ensures
            r == self.frame,
    {
        self.frame
    }

    /// The slot in the frame, in declaration order.
    pub fn slot(&self) -> (r: usize)
        ensures
            r == self.slot,
    {
        self.slot
    }
}

} // verus!
