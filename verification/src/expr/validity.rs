//! Which rows of an expression are not null, as an expression.

use vstd::prelude::*;

use crate::apply::{row_value, row_values};
use crate::dtype::{Nullability, TypeModel};
use crate::error::Error;
use crate::expr::bound_expression::{bind_all, dtypes_of, BoundModel};
use crate::expr::expression::{and, exprs_of, is_not_null, lit, ExprModel, Expression};
use crate::expr::laws::law_bound_is_faithful;
use crate::expr::scope::ScopeModel;
use crate::expr::variable::VariableRef;
use crate::scalar::{Scalar, ScalarModel, ScalarValue, Value};
use crate::scalar_fn::{FnModel, Operator, ScalarFnRef, ScalarFnVTable};
use crate::soundness::{law_evaluation_is_sound, row_fits};

verus! {

/// A boolean constant.
pub open spec fn truth(b: bool) -> ExprModel {
    ExprModel::Scalar(
        FnModel::Literal(
            ScalarModel { dtype: TypeModel::Bool(Nullability::NonNullable), value: Value::Bool(b) },
        ),
        Seq::empty(),
    )
}

/// Whether the operation is null as soon as an operand is.
pub open spec fn is_strict(operator: Operator) -> bool {
    operator != Operator::And && operator != Operator::Or
}

impl ExprModel {
    /// The expression that is true where this one is not null.
    pub open spec fn validity(self) -> Result<ExprModel, Error>
        decreases self,
    {
        match self {
            ExprModel::Lambda(..) => Err(Error::LambdaOutsideBinder),
            ExprModel::Scalar(FnModel::Literal(scalar), _) => Ok(
                truth(scalar.value != Value::Null),
            ),
            ExprModel::Scalar(FnModel::IsNotNull, _) => Ok(truth(true)),
            ExprModel::Scalar(FnModel::Binary(operator), children) => if is_strict(operator)
                && children.len() == 2 {
                match children[0].validity() {
                    Ok(left) => match children[1].validity() {
                        Ok(right) => Ok(
                            ExprModel::Scalar(FnModel::Binary(Operator::And), seq![left, right]),
                        ),
                        Err(error) => Err(error),
                    },
                    Err(error) => Err(error),
                }
            } else {
                Ok(ExprModel::Scalar(FnModel::IsNotNull, seq![self]))
            },
            _ => Ok(ExprModel::Scalar(FnModel::IsNotNull, seq![self])),
        }
    }
}

impl Expression {
    /// Whether some node of this tree uses the scalar function `V`.
    pub open spec fn uses<V: ScalarFnVTable>(self) -> bool
        decreases self,
    {
        match self {
            Expression::Scalar { scalar_fn, children } => V::options(scalar_fn) is Some || exists|
                i: int,
            | 0 <= i < children@.len() && (#[trigger] children@[i]).uses::<V>(),
            Expression::Lambda(lambda) => lambda.body_uses::<V>(),
            _ => false,
        }
    }

    /// Whether some node of this tree applies the scalar function `V`.
    pub fn contains<V: ScalarFnVTable>(&self) -> (r: Result<bool, Error>)
        ensures
            r == Ok::<bool, Error>(self.uses::<V>()),
        decreases self,
    {
        match self {
            Expression::Scalar { scalar_fn, children } => {
                if scalar_fn.is::<V>() {
                    return Ok(true);
                }
                let mut i: usize = 0;
                while i < children.len()
                    invariant
                        i <= children@.len(),
                        self is Scalar,
                        self->children == *children,
                        forall|j: int| 0 <= j < i ==> !(#[trigger] children@[j]).uses::<V>(),
                    decreases children@.len() - i,
                {
                    assert(decreases_to!(self => children@[i as int]));
                    match children[i].contains::<V>() {
                        Ok(true) => {
                            return Ok(true);
                        },
                        _ => {},
                    }
                    i += 1;
                }
                Ok(false)
            },
            Expression::Lambda(lambda) => lambda.body_contains::<V>(),
            _ => Ok(false),
        }
    }

    /// The expression that is true where this one is not null. What is known only of the arrays
    /// that an expression is applied to is left to them. A lambda has no value that could be null.
    pub fn validity(&self) -> (r: Result<Expression, Error>)
        ensures
            match r {
                Ok(validity) => self@.validity() == Ok::<ExprModel, Error>(validity@),
                Err(error) => self@.validity() == Err::<ExprModel, Error>(error),
            },
        decreases self,
    {
        match self {
            Expression::Lambda(_) => Err(Error::LambdaOutsideBinder),
            Expression::Scalar { scalar_fn, children } => match scalar_fn {
                ScalarFnRef::Literal(scalar) => {
                    let valid = match scalar.value() {
                        ScalarValue::Null => false,
                        _ => true,
                    };
                    Ok(lit(Scalar::bool(valid, Nullability::NonNullable)))
                },
                ScalarFnRef::IsNotNull(_) => Ok(lit(Scalar::bool(true, Nullability::NonNullable))),
                ScalarFnRef::Binary(operator) => {
                    let strict = match operator {
                        Operator::And | Operator::Or => false,
                        _ => true,
                    };
                    if strict && children.len() == 2 {
                        proof {
                            assert(decreases_to!(self => children@[0]));
                            assert(decreases_to!(self => children@[1]));
                            assert(exprs_of(children@)[0] == children@[0]@);
                            assert(exprs_of(children@)[1] == children@[1]@);
                        }
                        match children[0].validity() {
                            Ok(left) => match children[1].validity() {
                                Ok(right) => Ok(and(left, right)),
                                Err(error) => Err(error),
                            },
                            Err(error) => Err(error),
                        }
                    } else {
                        Ok(is_not_null(self.clone()))
                    }
                },
                _ => Ok(is_not_null(self.clone())),
            },
            _ => Ok(is_not_null(self.clone())),
        }
    }
}

/// What a list of one or two expressions binds to.
proof fn lemma_bind_few(children: Seq<ExprModel>, scope: ScopeModel)
    ensures
        children.len() == 0 ==> bind_all(children, scope) == Ok::<Seq<BoundModel>, Error>(
            Seq::empty(),
        ),
        children.len() == 1 ==> bind_all(children, scope) == (match children[0].bind(scope) {
            Ok(bound) => Ok::<Seq<BoundModel>, Error>(seq![bound]),
            Err(error) => Err(error),
        }),
        children.len() == 2 ==> bind_all(children, scope) == (match (
            children[0].bind(scope),
            children[1].bind(scope),
        ) {
            (Ok(left), Ok(right)) => Ok::<Seq<BoundModel>, Error>(seq![left, right]),
            (Err(error), _) => Err(error),
            (_, Err(error)) => Err(error),
        }),
    decreases children.len(),
{
    if 0 < children.len() <= 2 {
        lemma_bind_few(children.drop_last(), scope);
        let first = children.drop_last();
        if children.len() == 1 {
            assert(first =~= Seq::empty());
            assert(Seq::<BoundModel>::empty().push(children[0].bind(scope)->Ok_0) =~= seq![
                children[0].bind(scope)->Ok_0,
            ]);
        } else {
            assert(first[0] == children[0]);
            assert(seq![children[0].bind(scope)->Ok_0].push(children[1].bind(scope)->Ok_0) =~= seq![
                children[0].bind(scope)->Ok_0,
                children[1].bind(scope)->Ok_0,
            ]);
        }
    }
}

/// The validity of an expression that binds binds too, to a boolean that is never null.
pub proof fn law_validity_is_boolean(expr: ExprModel, scope: ScopeModel)
    requires
        expr.bind(scope) is Ok,
    ensures
        expr.validity() is Ok,
        expr.validity()->Ok_0.bind(scope) is Ok,
        expr.validity()->Ok_0.bind(scope)->Ok_0.dtype() == TypeModel::Bool(
            Nullability::NonNullable,
        ),
    decreases expr,
{
    let validity = expr.validity();
    lemma_bind_few(seq![expr], scope);
    lemma_bind_few(Seq::empty(), scope);
    let itself = seq![expr.bind(scope)->Ok_0];
    assert(seq![expr][0] == expr);
    match expr {
        ExprModel::Scalar(FnModel::Binary(operator), children) => {
            if is_strict(operator) && children.len() == 2 {
                lemma_bind_few(children, scope);
                law_validity_is_boolean(children[0], scope);
                law_validity_is_boolean(children[1], scope);
                let parts = seq![children[0].validity()->Ok_0, children[1].validity()->Ok_0];
                lemma_bind_few(parts, scope);
                let bound = seq![
                    children[0].validity()->Ok_0.bind(scope)->Ok_0,
                    children[1].validity()->Ok_0.bind(scope)->Ok_0,
                ];
                assert(parts[0] == children[0].validity()->Ok_0);
                assert(parts[1] == children[1].validity()->Ok_0);
                assert(dtypes_of(bound)[0] == bound[0].dtype());
                assert(dtypes_of(bound)[1] == bound[1].dtype());
            }
        },
        _ => {},
    }
}

/// The validity of an expression is true exactly on the rows on which the expression is not null,
/// among the rows on which it does not overflow.
pub proof fn law_validity_says_what_is_null(
    expr: ExprModel,
    scope: ScopeModel,
    root: Seq<Value>,
    arrays: Map<VariableRef, Seq<Value>>,
    i: int,
)
    requires
        scope.fits(),
        expr.bind(scope) is Ok,
        row_fits(expr.bind(scope)->Ok_0, root, arrays, i),
        row_value(expr.bind(scope)->Ok_0, root, arrays, i) is Some,
    ensures
        ({
            let value = row_value(expr.bind(scope)->Ok_0, root, arrays, i)->0;
            let validity = expr.validity()->Ok_0.bind(scope)->Ok_0;
            row_value(validity, root, arrays, i) == Some(Value::Bool(value != Value::Null))
        }),
    decreases expr,
{
    law_validity_is_boolean(expr, scope);
    law_bound_is_faithful(expr, scope);
    let bound = expr.bind(scope)->Ok_0;
    let validity = expr.validity()->Ok_0.bind(scope)->Ok_0;
    lemma_bind_few(seq![expr], scope);
    lemma_bind_few(Seq::empty(), scope);
    assert(seq![expr][0] == expr);
    match expr {
        ExprModel::Scalar(FnModel::Binary(operator), children) => {
            if is_strict(operator) && children.len() == 2 {
                lemma_bind_few(children, scope);
                let left = children[0].bind(scope)->Ok_0;
                let right = children[1].bind(scope)->Ok_0;
                let both = seq![left, right];
                assert(bound->Scalar_2 == both);
                assert(both[0] == left && both[1] == right);
                assert(row_fits(both[0], root, arrays, i) && row_fits(both[1], root, arrays, i));
                assert(row_values(both, root, arrays, i) is Some);
                assert(row_value(both[0], root, arrays, i) is Some);
                assert(row_value(both[1], root, arrays, i) is Some);
                law_validity_says_what_is_null(children[0], scope, root, arrays, i);
                law_validity_says_what_is_null(children[1], scope, root, arrays, i);
                law_validity_is_boolean(children[0], scope);
                law_validity_is_boolean(children[1], scope);
                law_bound_is_faithful(children[0], scope);
                law_bound_is_faithful(children[1], scope);
                law_evaluation_is_sound(left, root, arrays, i);
                law_evaluation_is_sound(right, root, arrays, i);
                let parts = seq![children[0].validity()->Ok_0, children[1].validity()->Ok_0];
                lemma_bind_few(parts, scope);
                assert(parts[0] == children[0].validity()->Ok_0);
                assert(parts[1] == children[1].validity()->Ok_0);
                let halves = validity->Scalar_2;
                assert(halves.len() == 2);
                assert(row_value(halves[0], root, arrays, i) is Some);
                assert(row_value(halves[1], root, arrays, i) is Some);
                assert(row_values(halves, root, arrays, i) is Some);
                assert(dtypes_of(both)[0] == left.dtype());
                assert(dtypes_of(both)[1] == right.dtype());
            } else {
                lemma_not_null_row(bound, validity, root, arrays, i);
            }
        },
        ExprModel::Scalar(FnModel::Literal(_), _) => {
            assert(row_values(Seq::empty(), root, arrays, i) is Some);
        },
        ExprModel::Scalar(FnModel::IsNotNull, _) => {
            assert(row_values(Seq::empty(), root, arrays, i) is Some);
        },
        _ => {
            lemma_not_null_row(bound, validity, root, arrays, i);
        },
    }
}

/// The value of asking whether an expression is not null.
proof fn lemma_not_null_row(
    bound: BoundModel,
    asked: BoundModel,
    root: Seq<Value>,
    arrays: Map<VariableRef, Seq<Value>>,
    i: int,
)
    requires
        asked matches BoundModel::Scalar(_, FnModel::IsNotNull, children) && children == seq![
            bound,
        ],
        row_value(bound, root, arrays, i) is Some,
    ensures
        row_value(asked, root, arrays, i) == Some(
            Value::Bool(row_value(bound, root, arrays, i)->0 != Value::Null),
        ),
{
    let children = asked->Scalar_2;
    assert(children[0] == bound);
    assert(row_values(children, root, arrays, i) is Some);
}

} // verus!
