//! Expressions as they are written.

use vstd::prelude::*;

use crate::dtype::{DType, TypeModel};
use crate::error::Error;
use crate::expr::lambda::{names_of, Lambda};
use crate::expr::scope::{Scope, ScopeModel};
use crate::expr::variable::Variable;
use crate::scalar::Scalar;
use crate::scalar_fn::{types_of, EmptyOptions, FnModel, Operator, ScalarFnRef};

verus! {

/// An expression, as written: its types are not known yet.
#[derive(Debug, PartialEq, Eq, Hash)]
pub enum Expression {
    /// A scalar function applied to children.
    Scalar {
        /// The function.
        scalar_fn: ScalarFnRef,
        /// The children, in argument order.
        children: Vec<Expression>,
    },
    /// The scope itself.
    Root,
    /// A reference to a binding of the scope.
    Variable(Variable),
    /// A body with parameters, for a higher-order function to apply.
    Lambda(Lambda),
}

/// The mathematical model of an [`Expression`].
pub enum ExprModel {
    Scalar(FnModel, Seq<ExprModel>),
    Root,
    Variable(Seq<char>),
    Lambda(Seq<Seq<char>>, Box<ExprModel>),
}

/// The models of a list of expressions.
pub open spec fn exprs_of(children: Seq<Expression>) -> Seq<ExprModel>
    decreases children,
{
    Seq::new(
        children.len(),
        |i: int|
            if 0 <= i < children.len() {
                children[i].view()
            } else {
                arbitrary()
            },
    )
}

impl Expression {
    /// The model of this expression.
    pub open spec fn view(&self) -> ExprModel
        decreases self,
    {
        match self {
            Expression::Scalar { scalar_fn, children } => ExprModel::Scalar(
                scalar_fn@,
                exprs_of(children@),
            ),
            Expression::Root => ExprModel::Root,
            Expression::Variable(variable) => ExprModel::Variable(variable@),
            Expression::Lambda(lambda) => ExprModel::Lambda(
                lambda.param_names(),
                Box::new(lambda.body_model()),
            ),
        }
    }
}

impl ExprModel {
    /// The type of this expression in a scope, or the first error that a walk from left to right,
    /// children before parents, meets.
    pub open spec fn return_dtype(self, scope: ScopeModel) -> Result<TypeModel, Error>
        decreases self,
    {
        match self {
            ExprModel::Root => Ok(scope.root),
            ExprModel::Variable(name) => match scope.lookup(name) {
                Some(found) => Ok(found.0),
                None => Err(Error::UnboundVariable),
            },
            ExprModel::Lambda(..) => Err(Error::LambdaOutsideBinder),
            ExprModel::Scalar(f, children) => match return_dtypes(children, scope) {
                Ok(dtypes) => if dtypes.len() == f.arity() {
                    f.return_dtype(dtypes)
                } else {
                    Err(Error::ArityMismatch)
                },
                Err(error) => Err(error),
            },
        }
    }
}

/// The types of a list of expressions in a scope, or the first error.
pub open spec fn return_dtypes(children: Seq<ExprModel>, scope: ScopeModel) -> Result<
    Seq<TypeModel>,
    Error,
>
    decreases children,
{
    if children.len() == 0 {
        Ok(Seq::empty())
    } else {
        match return_dtypes(children.drop_last(), scope) {
            Ok(dtypes) => match children.last().return_dtype(scope) {
                Ok(dtype) => Ok(dtypes.push(dtype)),
                Err(error) => Err(error),
            },
            Err(error) => Err(error),
        }
    }
}

/// Types that were found for the first children stand in the list of all types.
pub proof fn lemma_return_dtypes_prefix(children: Seq<ExprModel>, scope: ScopeModel, n: int)
    requires
        0 <= n <= children.len(),
    ensures
        return_dtypes(children.take(n), scope) is Err ==> return_dtypes(children, scope)
            == return_dtypes(children.take(n), scope),
        return_dtypes(children, scope) is Ok ==> return_dtypes(children, scope)->Ok_0.len()
            == children.len(),
    decreases children.len(),
{
    if n == children.len() {
        assert(children.take(n) =~= children);
    }
    if children.len() > 0 {
        if n < children.len() {
            assert(children.drop_last().take(n) =~= children.take(n));
            lemma_return_dtypes_prefix(children.drop_last(), scope, n);
        } else {
            lemma_return_dtypes_prefix(children.drop_last(), scope, n - 1);
        }
    }
}

/// The scope itself.
pub fn root() -> (r: Expression)
    ensures
        r@ == ExprModel::Root,
{
    Expression::Root
}

/// A reference to the binding called `name`.
pub fn var(name: &str) -> (r: Expression)
    ensures
        r@ == ExprModel::Variable(name@),
{
    Expression::Variable(Variable::new(name))
}

/// A constant.
pub fn lit(scalar: Scalar) -> (r: Expression)
    ensures
        r@ == ExprModel::Scalar(FnModel::Literal(scalar@), Seq::empty()),
{
    let children: Vec<Expression> = Vec::new();
    assert(exprs_of(children@) =~= Seq::empty());
    Expression::Scalar { scalar_fn: ScalarFnRef::Literal(scalar), children }
}

/// A function of one child.
fn unary(scalar_fn: ScalarFnRef, child: Expression) -> (r: Expression)
    ensures
        r@ == ExprModel::Scalar(scalar_fn@, seq![child@]),
{
    let mut children: Vec<Expression> = Vec::new();
    children.push(child);
    assert(exprs_of(children@) =~= seq![child@]);
    Expression::Scalar { scalar_fn, children }
}

/// A function of two children.
fn binary(scalar_fn: ScalarFnRef, left: Expression, right: Expression) -> (r: Expression)
    ensures
        r@ == ExprModel::Scalar(scalar_fn@, seq![left@, right@]),
{
    let mut children: Vec<Expression> = Vec::new();
    children.push(left);
    children.push(right);
    assert(exprs_of(children@) =~= seq![left@, right@]);
    Expression::Scalar { scalar_fn, children }
}

/// The field of `child` called `name`.
pub fn get_item(name: &str, child: Expression) -> (r: Expression)
    ensures
        r@ == ExprModel::Scalar(FnModel::GetItem(name@), seq![child@]),
{
    unary(ScalarFnRef::GetItem(name.to_owned()), child)
}

/// The field of the root called `name`.
pub fn col(name: &str) -> (r: Expression)
    ensures
        r@ == ExprModel::Scalar(FnModel::GetItem(name@), seq![ExprModel::Root]),
{
    get_item(name, root())
}

/// Whether `child` is not null.
pub fn is_not_null(child: Expression) -> (r: Expression)
    ensures
        r@ == ExprModel::Scalar(FnModel::IsNotNull, seq![child@]),
{
    unary(ScalarFnRef::IsNotNull(EmptyOptions), child)
}

/// Whether two expressions are equal.
pub fn eq(left: Expression, right: Expression) -> (r: Expression)
    ensures
        r@ == ExprModel::Scalar(FnModel::Binary(Operator::Eq), seq![left@, right@]),
{
    binary(ScalarFnRef::Binary(Operator::Eq), left, right)
}

/// The conjunction of two expressions.
pub fn and(left: Expression, right: Expression) -> (r: Expression)
    ensures
        r@ == ExprModel::Scalar(FnModel::Binary(Operator::And), seq![left@, right@]),
{
    binary(ScalarFnRef::Binary(Operator::And), left, right)
}

/// The sum of two expressions, which fails on overflow.
pub fn checked_add(left: Expression, right: Expression) -> (r: Expression)
    ensures
        r@ == ExprModel::Scalar(FnModel::Binary(Operator::Add), seq![left@, right@]),
{
    binary(ScalarFnRef::Binary(Operator::Add), left, right)
}

/// A lambda over `body`, refused when a parameter name is repeated.
pub fn lambda(params: Vec<Variable>, body: Expression) -> (r: Result<Expression, Error>)
    ensures
        r is Ok <==> names_of(params@).no_duplicates(),
        r matches Ok(expr) ==> expr@ == ExprModel::Lambda(names_of(params@), Box::new(body@)),
        r matches Err(error) ==> error == Error::DuplicateParameter,
{
    match Lambda::try_new(params, body) {
        Ok(lambda) => Ok(Expression::Lambda(lambda)),
        Err(error) => Err(error),
    }
}

impl From<Lambda> for Expression {
    fn from(lambda: Lambda) -> (r: Expression) {
        Expression::Lambda(lambda)
    }
}

impl vstd::std_specs::convert::FromSpecImpl<Lambda> for Expression {
    open spec fn obeys_from_spec() -> bool {
        true
    }

    open spec fn from_spec(lambda: Lambda) -> Expression {
        Expression::Lambda(lambda)
    }
}

impl Clone for Expression {
    fn clone(&self) -> (r: Expression)
        ensures
            r@ == self@,
        decreases self,
    {
        match self {
            Expression::Scalar { scalar_fn, children } => {
                let mut copy: Vec<Expression> = Vec::new();
                let mut i: usize = 0;
                while i < children.len()
                    invariant
                        i <= children@.len(),
                        copy@.len() == i,
                        self is Scalar,
                        self->children == *children,
                        forall|j: int| 0 <= j < i ==> (#[trigger] copy@[j])@ == children@[j]@,
                    decreases children@.len() - i,
                {
                    assert(decreases_to!(self => children@[i as int]));
                    copy.push(children[i].clone());
                    i += 1;
                }
                assert(exprs_of(copy@) =~= exprs_of(children@));
                Expression::Scalar { scalar_fn: scalar_fn.clone(), children: copy }
            },
            Expression::Root => Expression::Root,
            Expression::Variable(variable) => Expression::Variable(variable.clone()),
            Expression::Lambda(lambda) => Expression::Lambda(lambda.clone()),
        }
    }
}

impl Expression {
    /// The type of this expression in a scope.
    fn dtype_in(&self, scope: &Scope) -> (r: Result<DType, Error>)
        ensures
            match r {
                Ok(dtype) => self@.return_dtype(scope@) == Ok::<TypeModel, Error>(dtype@),
                Err(error) => self@.return_dtype(scope@) == Err::<TypeModel, Error>(error),
            },
        decreases self,
    {
        match self {
            Expression::Root => Ok(scope.root().clone()),
            Expression::Variable(variable) => match scope.resolve(variable) {
                Some(dtype) => Ok(dtype.clone()),
                None => Err(Error::UnboundVariable),
            },
            Expression::Lambda(_) => Err(Error::LambdaOutsideBinder),
            Expression::Scalar { scalar_fn, children } => {
                let ghost models = exprs_of(children@);
                let mut dtypes: Vec<DType> = Vec::new();
                let mut i: usize = 0;
                assert(types_of(dtypes@) =~= Seq::empty());
                while i < children.len()
                    invariant
                        i <= children@.len(),
                        self is Scalar,
                        self->children == *children,
                        self->scalar_fn == *scalar_fn,
                        models == exprs_of(children@),
                        return_dtypes(models.take(i as int), scope@) == Ok::<
                            Seq<TypeModel>,
                            Error,
                        >(types_of(dtypes@)),
                    decreases children@.len() - i,
                {
                    proof {
                        assert(decreases_to!(self => children@[i as int]));
                        assert(models.take(i + 1).drop_last() =~= models.take(i as int));
                        assert(models.take(i + 1).last() == children@[i as int]@);
                        lemma_return_dtypes_prefix(models, scope@, i + 1);
                    }
                    match children[i].dtype_in(scope) {
                        Ok(dtype) => {
                            let ghost before = types_of(dtypes@);
                            dtypes.push(dtype);
                            assert(types_of(dtypes@) =~= before.push(dtype@));
                        },
                        Err(error) => {
                            return Err(error);
                        },
                    }
                    i += 1;
                }
                assert(models.take(models.len() as int) =~= models);
                if !scalar_fn.arity_matches(dtypes.len()) {
                    return Err(Error::ArityMismatch);
                }
                scalar_fn.return_dtype(&dtypes)
            },
        }
    }

    /// The type of this expression when the root has the given type.
    pub fn return_dtype(&self, dtype: &DType) -> (r: Result<DType, Error>)
        ensures
            ({
                let scope = ScopeModel { root: dtype@, frames: Seq::empty() };
                match r {
                    Ok(found) => self@.return_dtype(scope) == Ok::<TypeModel, Error>(found@),
                    Err(error) => self@.return_dtype(scope) == Err::<TypeModel, Error>(error),
                }
            }),
    {
        self.dtype_in(&Scope::new(dtype.clone()))
    }
}

} // verus!
