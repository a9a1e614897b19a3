//! Lambdas.

use std::sync::Arc;
use vstd::prelude::*;
use vstd::string::StringExecFns;

use crate::error::Error;
use crate::expr::display::{branch_text, list_text, wrap};
use crate::expr::expression::{ExprModel, Expression};
use crate::expr::variable::Variable;
use crate::scalar_fn::ScalarFnVTable;
use crate::shared::{another, answers_unique, shares, unique_value};
use crate::text::{joined, texts_of};

verus! {

/// The names of a list of variables.
pub open spec fn names_of(variables: Seq<Variable>) -> Seq<Seq<char>> {
    Seq::new(variables.len(), |i: int| variables[i]@)
}

/// A body evaluated with named bindings for its parameters.
///
/// A lambda is not a value: the types of its parameters are set by whatever applies it, so it has
/// no type of its own, and cannot be bound by itself.
#[derive(Debug, PartialEq, Eq, Hash)]
pub struct Lambda {
    params: Arc<Vec<Variable>>,
    body: Arc<Expression>,
}

impl Lambda {
    #[verifier::type_invariant]
    spec fn inv(self) -> bool {
        self.param_names().no_duplicates()
    }

    /// The names of the parameters, in declaration order.
    pub closed spec fn param_names(&self) -> Seq<Seq<char>> {
        names_of(self.params@)
    }

    /// The model of the body.
    pub closed spec fn body_model(&self) -> ExprModel
        decreases self,
    {
        self.body.view()
    }

    /// The pointer to the body.
    pub closed spec fn body_pointer(&self) -> Arc<Expression> {
        self.body
    }

    /// The pointer to the parameters.
    pub closed spec fn params_pointer(&self) -> Arc<Vec<Variable>> {
        self.params
    }

    /// The lambda that binds `params` over `body`, refused when a parameter name is repeated.
    pub fn try_new(params: Vec<Variable>, body: Expression) -> (r: Result<Lambda, Error>)
        ensures
            r is Ok <==> names_of(params@).no_duplicates(),
            r matches Ok(lambda) ==> lambda.param_names() == names_of(params@)
                && lambda.body_model() == body@,
            r matches Err(error) ==> error == Error::DuplicateParameter,
    {
        let ghost names = names_of(params@);
        let mut i: usize = 0;
        while i < params.len()
            invariant
                i <= params@.len(),
                names == names_of(params@),
                forall|a: int, b: int| 0 <= a < b < i ==> names[a] != names[b],
            decreases params@.len() - i,
        {
            let mut j: usize = 0;
            while j < i
                invariant
                    j <= i < params@.len(),
                    names == names_of(params@),
                    forall|a: int| 0 <= a < j ==> names[a] != names[i as int],
                decreases i - j,
            {
                if params[j] == params[i] {
                    assert(names[j as int] == names[i as int]);
                    return Err(Error::DuplicateParameter);
                }
                j += 1;
            }
            i += 1;
        }
        Ok(Lambda { params: Arc::new(params), body: Arc::new(body) })
    }

    /// The variables this lambda binds, in declaration order.
    pub fn params(&self) -> (r: &[Variable])
        ensures
            names_of(r@) == self.param_names(),
    {
        self.params.as_slice()
    }

    /// The expression evaluated under the parameter bindings.
    pub fn body(&self) -> (r: &Expression)
        ensures
            r@ == self.body_model(),
    {
        &self.body
    }

    /// Takes the body, leaving the root in its place, if this lambda holds the only reference to
    /// it; otherwise changes nothing. How many references there are is known only when this runs.
    pub fn take_unique_body(&mut self) -> (r: Option<Expression>)
        ensures
            answers_unique(old(self).body_pointer(), r is Some),
            final(self).param_names() == old(self).param_names(),
            match r {
                Some(body) => body@ == old(self).body_model() && final(self).body_model()
                    == ExprModel::Root,
                None => final(self).body_model() == old(self).body_model(),
            },
    {
        proof {
            use_type_invariant(&*self);
        }
        let mut body = Arc::new(Expression::Root);
        std::mem::swap(&mut body, &mut self.body);
        let taken = Lambda::take_body(unique_value(&mut body));
        std::mem::swap(&mut body, &mut self.body);
        taken
    }

    /// Takes a body that nothing else refers to, leaving the root in its place. There is nothing to
    /// take where no such body is given.
    pub fn take_body(unique: Option<&mut Expression>) -> (r: Option<Expression>)
        ensures
            match unique {
                Some(body) => r == Some(*body) && *final(body) == Expression::Root,
                None => r is None,
            },
        opens_invariants none
        no_unwind
    {
        match unique {
            Some(body) => {
                let mut taken = Expression::Root;
                std::mem::swap(body, &mut taken);
                Some(taken)
            },
            None => None,
        }
    }
}

impl Lambda {
    /// The names of the parameters, with a comma between them.
    fn params_text(&self) -> (r: String)
        ensures
            r@ == joined(self.param_names(), ", "@),
    {
        let mut names: Vec<String> = Vec::new();
        let mut i: usize = 0;
        while i < self.params.len()
            invariant
                i <= self.params@.len(),
                names@.len() == i,
                forall|j: int| 0 <= j < i ==> (#[trigger] names@[j])@ == self.params@[j]@,
            decreases self.params@.len() - i,
        {
            names.push(self.params[i].name().clone());
            i += 1;
        }
        assert(texts_of(names@) =~= self.param_names());
        list_text(&names)
    }

    /// Whether some node of the body uses the scalar function `V`.
    pub closed spec fn body_uses<V: ScalarFnVTable>(self) -> bool
        decreases self,
    {
        (*self.body).uses::<V>()
    }

    /// Whether some node of the body applies the scalar function `V`.
    pub(crate) fn body_contains<V: ScalarFnVTable>(&self) -> (r: Result<bool, Error>)
        ensures
            r == Ok::<bool, Error>(self.body_uses::<V>()),
        decreases self,
    {
        self.body.contains::<V>()
    }

    /// This lambda as text.
    pub fn display(&self) -> (r: String)
        ensures
            r@ == ExprModel::Lambda(self.param_names(), Box::new(self.body_model())).text(),
        decreases self,
    {
        let mut r = wrap("(", &self.params_text(), ") -> ");
        r.append(&self.body.display());
        r
    }

    /// This lambda as a tree, each line behind the first starting with `indent`.
    pub(crate) fn tree(&self, indent: &String) -> (r: String)
        ensures
            r@ == ExprModel::Lambda(self.param_names(), Box::new(self.body_model())).tree(indent@),
        decreases self,
    {
        let (before, below) = branch_text(true);
        let mut inner = indent.clone();
        inner.append(below);
        let mut r = wrap("lambda(", &self.params_text(), ")\n");
        r.append(indent);
        r.append(before);
        r.append(&self.body.tree(&inner));
        r
    }
}

impl Clone for Lambda {
    fn clone(&self) -> (r: Lambda)
        ensures
            r.param_names() == self.param_names(),
            r.body_model() == self.body_model(),
            shares(self.params_pointer(), r.params_pointer()),
            shares(self.body_pointer(), r.body_pointer()),
    {
        proof {
            use_type_invariant(self);
        }
        Lambda { params: another(&self.params), body: another(&self.body) }
    }
}

} // verus!
