//! Which types fit together, and what type comes out.

use vstd::prelude::*;

use crate::dtype::{lemma_nullability, Nullability, TypeModel};
use crate::error::Error;
use crate::expr::bound_expression::{bind_all, dtypes_of, BoundModel};
use crate::expr::expression::ExprModel;
use crate::expr::laws::law_bound_is_faithful;
use crate::expr::scope::ScopeModel;
use crate::laws::functions::law_field_types;
use crate::scalar_fn::{FnModel, LikeOptions, Operator};

verus! {

/// Whether a type allows nulls.
pub open spec fn allows_null(dtype: TypeModel) -> bool {
    dtype.nullability() == Nullability::Nullable
}

/// Whether two types are the same flat type that has an order, up to nullability.
pub open spec fn alike(left: TypeModel, right: TypeModel) -> bool {
    match (left, right) {
        (TypeModel::Bool(_), TypeModel::Bool(_)) => true,
        (TypeModel::Primitive(p, _), TypeModel::Primitive(q, _)) => p == q,
        (TypeModel::Decimal(d, _), TypeModel::Decimal(e, _)) => d == e,
        (TypeModel::Utf8(_), TypeModel::Utf8(_)) => true,
        (TypeModel::Binary(_), TypeModel::Binary(_)) => true,
        _ => false,
    }
}

/// Whether the type of a result is `Ok` of a boolean that allows nulls exactly if a side does.
pub open spec fn is_boolean_of(
    found: Result<TypeModel, Error>,
    left: TypeModel,
    right: TypeModel,
) -> bool {
    &&& found matches Ok(dtype)
    &&& dtype is Bool
    &&& allows_null(dtype) <==> allows_null(left) || allows_null(right)
}

/// Whether an operation is a comparison.
pub open spec fn is_comparison(operator: Operator) -> bool {
    operator == Operator::Eq || operator == Operator::NotEq || operator == Operator::Lt || operator
        == Operator::Lte || operator == Operator::Gt || operator == Operator::Gte
}

/// A comparison takes two operands of one ordered type, up to nullability, and no others. It gives a
/// boolean that is nullable exactly if an operand is.
pub proof fn law_types_of_comparisons(operator: Operator, left: TypeModel, right: TypeModel)
    requires
        is_comparison(operator),
    ensures
        ({
            let found = FnModel::Binary(operator).return_dtype(seq![left, right]);
            if alike(left, right) {
                is_boolean_of(found, left, right) && left.as_nullable() == right.as_nullable()
            } else {
                found == Err::<TypeModel, Error>(Error::TypeMismatch)
            }
        }),
{
}

/// Arithmetic takes two integers of one type, up to nullability, and no others. It gives an integer of
/// that type, nullable exactly if an operand is.
pub proof fn law_types_of_arithmetic(operator: Operator, left: TypeModel, right: TypeModel)
    requires
        operator == Operator::Add || operator == Operator::Sub,
    ensures
        ({
            let found = FnModel::Binary(operator).return_dtype(seq![left, right]);
            let refused = Err::<TypeModel, Error>(Error::TypeMismatch);
            match (left, right) {
                (TypeModel::Primitive(p, _), TypeModel::Primitive(q, _)) => if p == q
                    && !p.spec_is_float() {
                    &&& found matches Ok(dtype)
                    &&& dtype matches TypeModel::Primitive(r, _)
                    &&& r == p
                    &&& allows_null(dtype) <==> allows_null(left) || allows_null(right)
                } else {
                    found == refused
                },
                _ => found == refused,
            }
        }),
{
}

/// A connective takes two booleans and gives one; a match takes two texts and gives a boolean. Each
/// takes nothing else, and gives a nullable result exactly if an operand is nullable.
pub proof fn law_types_of_operations(left: TypeModel, right: TypeModel, options: LikeOptions)
    ensures
        ({
            let and = FnModel::Binary(Operator::And).return_dtype(seq![left, right]);
            let or = FnModel::Binary(Operator::Or).return_dtype(seq![left, right]);
            let like = FnModel::Like(options).return_dtype(seq![left, right]);
            let refused = Err::<TypeModel, Error>(Error::TypeMismatch);
            &&& if left is Bool && right is Bool {
                is_boolean_of(and, left, right) && is_boolean_of(or, left, right)
            } else {
                and == refused && or == refused
            }
            &&& if left is Utf8 && right is Utf8 {
                is_boolean_of(like, left, right)
            } else {
                like == refused
            }
        }),
{
}

/// The field of a struct has the type of the first field of its name, nullable as soon as the struct
/// is. Only structs have fields, and asking for one that is not there is refused. Asking whether a
/// value is not null takes any type and gives a boolean that is never null.
pub proof fn law_types_of_fields(dtype: TypeModel, name: Seq<char>, n: Nullability)
    ensures
        match dtype {
            TypeModel::Struct(fields, m) => match FnModel::GetItem(name).return_dtype(seq![dtype]) {
                Ok(found) => exists|i: int|
                    {
                        &&& 0 <= i < fields.len()
                        &&& (#[trigger] fields[i]).0 == name
                        &&& forall|k: int| 0 <= k < i ==> (#[trigger] fields[k]).0 != name
                        &&& same_shape(found, fields[i].1)
                        &&& allows_null(found) <==> allows_null(fields[i].1) || m
                            == Nullability::Nullable
                    },
                Err(error) => {
                    &&& error == Error::UnknownField
                    &&& forall|i: int| 0 <= i < fields.len() ==> (#[trigger] fields[i]).0 != name
                },
            },
            _ => FnModel::GetItem(name).return_dtype(seq![dtype]) == Err::<TypeModel, Error>(
                Error::TypeMismatch,
            ),
        },
        FnModel::IsNotNull.return_dtype(seq![dtype]) == Ok::<TypeModel, Error>(
            TypeModel::Bool(Nullability::NonNullable),
        ),
{
    if let TypeModel::Struct(fields, m) = dtype {
        law_field_types(fields, name);
        if let Some(field) = crate::dtype::field_in(fields, name) {
            let i = choose|i: int|
                {
                    &&& 0 <= i < fields.len()
                    &&& #[trigger] fields[i] == (name, field)
                    &&& forall|k: int| 0 <= k < i ==> (#[trigger] fields[k]).0 != name
                };
            law_nullability_replaced(field, field.nullability().spec_union(m));
            assert(fields[i].0 == name);
        }
    }
}

/// The number of arguments of each function.
pub proof fn law_arities(f: FnModel)
    ensures
        f is Literal <==> f.arity() == 0,
        f is GetItem || f is IsNotNull <==> f.arity() == 1,
        f is Binary || f is Like <==> f.arity() == 2,
{
}

/// Whether two types differ in their outermost nullability at most.
pub open spec fn same_shape(left: TypeModel, right: TypeModel) -> bool
    decreases left,
{
    match (left, right) {
        (TypeModel::Null, TypeModel::Null) => true,
        (TypeModel::Bool(_), TypeModel::Bool(_)) => true,
        (TypeModel::Primitive(p, _), TypeModel::Primitive(q, _)) => p == q,
        (TypeModel::Decimal(d, _), TypeModel::Decimal(e, _)) => d == e,
        (TypeModel::Utf8(_), TypeModel::Utf8(_)) => true,
        (TypeModel::Binary(_), TypeModel::Binary(_)) => true,
        (TypeModel::List(a, _), TypeModel::List(b, _)) => a == b,
        (TypeModel::FixedSizeList(a, m, _), TypeModel::FixedSizeList(b, n, _)) => a == b && m == n,
        (TypeModel::Mapping(k, v, _), TypeModel::Mapping(l, w, _)) => k == l && v == w,
        (TypeModel::Struct(a, _), TypeModel::Struct(b, _)) => a == b,
        (TypeModel::Union(a, _), TypeModel::Union(b, _)) => a == b,
        (TypeModel::Extension(i, s), TypeModel::Extension(j, t)) => i == j && same_shape(*s, *t),
        (TypeModel::Variant(_), TypeModel::Variant(_)) => true,
        _ => false,
    }
}

/// Whether a type is that of nulls alone, under any names.
pub open spec fn is_nulls(dtype: TypeModel) -> bool
    decreases dtype,
{
    match dtype {
        TypeModel::Null => true,
        TypeModel::Extension(_, storage) => is_nulls(*storage),
        _ => false,
    }
}

/// Replacing the nullability of a type gives that nullability and changes nothing else. Only the type
/// of nulls alone allows nulls in any case.
pub proof fn law_nullability_replaced(dtype: TypeModel, n: Nullability)
    ensures
        same_shape(dtype.with_nullability(n), dtype),
        !is_nulls(dtype) ==> dtype.with_nullability(n).nullability() == n,
        is_nulls(dtype) ==> allows_null(dtype) && dtype.with_nullability(n) == dtype,
        allows_null(dtype.as_nullable()),
    decreases dtype,
{
    if let TypeModel::Extension(_, storage) = dtype {
        law_nullability_replaced(*storage, n);
    }
}

/// A union of nullabilities is nullable exactly if a side is, and so is a type united with one.
pub proof fn law_nullability_united(dtype: TypeModel, m: Nullability, n: Nullability)
    ensures
        m.spec_union(n) == Nullability::Nullable <==> m == Nullability::Nullable || n
            == Nullability::Nullable,
        same_shape(dtype.union_nullability(n), dtype),
        allows_null(dtype.union_nullability(n)) <==> allows_null(dtype) || n
            == Nullability::Nullable,
{
    law_nullability_replaced(dtype, dtype.nullability().spec_union(n));
    lemma_nullability(dtype, Nullability::Nullable, n);
}

/// Two types of one shape with one nullability are equal.
pub proof fn law_shape_and_nullability(left: TypeModel, right: TypeModel)
    requires
        same_shape(left, right),
        left.nullability() == right.nullability(),
    ensures
        left == right,
    decreases left,
{
    if let (TypeModel::Extension(_, s), TypeModel::Extension(_, t)) = (left, right) {
        law_shape_and_nullability(*s, *t);
    }
}

/// Whether the operands of every operation in an expression have types that go together: those of
/// comparisons one ordered type, those of connectives booleans, those of arithmetic one integer type,
/// and those of matches texts.
pub open spec fn operands_agree(bound: BoundModel) -> bool
    decreases bound,
{
    match bound {
        BoundModel::Scalar(_, f, children) => {
            &&& forall|i: int| 0 <= i < children.len() ==> operands_agree(#[trigger] children[i])
            &&& match f {
                FnModel::Binary(operator) => {
                    let (left, right) = (children[0].dtype(), children[1].dtype());
                    &&& children.len() == 2
                    &&& alike(left, right)
                    &&& left.as_nullable() == right.as_nullable()
                    &&& operator == Operator::And || operator == Operator::Or ==> left is Bool
                    &&& operator == Operator::Add || operator == Operator::Sub ==> (
                    left matches TypeModel::Primitive(p, _) && !p.spec_is_float())
                },
                FnModel::Like(_) => {
                    &&& children.len() == 2
                    &&& children[0].dtype() is Utf8 && children[1].dtype() is Utf8
                },
                FnModel::GetItem(_) => children.len() == 1 && children[0].dtype() is Struct,
                FnModel::IsNotNull => children.len() == 1,
                FnModel::Literal(_) => children.len() == 0,
            }
        },
        _ => true,
    }
}

/// The whole tree of a well-typed expression type-checks: the operands of every operation in it go
/// together.
pub proof fn law_operands_agree(bound: BoundModel)
    requires
        bound.well_typed(),
    ensures
        operands_agree(bound),
    decreases bound,
{
    if let BoundModel::Scalar(_, f, children) = bound {
        assert forall|i: int| 0 <= i < children.len() implies operands_agree(
            #[trigger] children[i],
        ) by {
            assert(children[i].well_typed());
            law_operands_agree(children[i]);
        }
        let types = dtypes_of(children);
        if children.len() == 2 {
            assert(types =~= seq![children[0].dtype(), children[1].dtype()]);
            if let FnModel::Binary(operator) = f {
                law_types_of_operations(types[0], types[1], LikeOptions {
                    negated: false,
                    case_insensitive: false,
                });
                if is_comparison(operator) {
                    law_types_of_comparisons(operator, types[0], types[1]);
                } else if operator == Operator::Add || operator == Operator::Sub {
                    law_types_of_arithmetic(operator, types[0], types[1]);
                }
            }
        }
    }
}

/// An expression binds only if the operands of every operation in it go together.
pub proof fn law_bound_operands_agree(expr: ExprModel, scope: ScopeModel)
    requires
        scope.fits(),
        expr.bind(scope) is Ok,
    ensures
        operands_agree(expr.bind(scope)->Ok_0),
{
    law_bound_is_faithful(expr, scope);
    law_operands_agree(expr.bind(scope)->Ok_0);
}

/// A comparison of two bound operands of different types, or of types without an order, is refused
/// with a type error; one of two operands of one ordered type is made.
pub proof fn law_mismatched_comparisons_are_refused(
    operator: Operator,
    left: BoundModel,
    right: BoundModel,
)
    requires
        is_comparison(operator),
    ensures
        ({
            let made = BoundModel::apply_fn(FnModel::Binary(operator), seq![left, right]);
            if alike(left.dtype(), right.dtype()) {
                &&& made matches Ok(bound)
                &&& bound.children() == seq![left, right]
                &&& is_boolean_of(
                    Ok::<TypeModel, Error>(bound.dtype()),
                    left.dtype(),
                    right.dtype(),
                )
            } else {
                made == Err::<BoundModel, Error>(Error::TypeMismatch)
            }
        }),
{
    law_types_of_comparisons(operator, left.dtype(), right.dtype());
    assert(dtypes_of(seq![left, right]) =~= seq![left.dtype(), right.dtype()]);
}

/// A comparison of two expressions that bind binds exactly if their types are one ordered type, up to
/// nullability, and is refused with a type error otherwise.
pub proof fn law_comparisons_bind(
    operator: Operator,
    left: ExprModel,
    right: ExprModel,
    scope: ScopeModel,
)
    requires
        is_comparison(operator),
        left.bind(scope) is Ok,
        right.bind(scope) is Ok,
    ensures
        ({
            let found = ExprModel::Scalar(FnModel::Binary(operator), seq![left, right]).bind(scope);
            if alike(left.bind(scope)->Ok_0.dtype(), right.bind(scope)->Ok_0.dtype()) {
                &&& found matches Ok(bound)
                &&& bound.children() == seq![left.bind(scope)->Ok_0, right.bind(scope)->Ok_0]
            } else {
                found == Err::<BoundModel, Error>(Error::TypeMismatch)
            }
        }),
{
    let (l, r) = (left.bind(scope)->Ok_0, right.bind(scope)->Ok_0);
    let both = seq![left, right];
    law_mismatched_comparisons_are_refused(operator, l, r);
    reveal_with_fuel(bind_all, 3);
    assert(both.drop_last().drop_last() =~= Seq::empty());
    assert(both.drop_last().last() == left);
    assert(both.last() == right);
    assert(bind_all(both.drop_last().drop_last(), scope) == Ok::<Seq<BoundModel>, Error>(
        Seq::empty(),
    ));
    assert(bind_all(both.drop_last(), scope) == Ok::<Seq<BoundModel>, Error>(
        Seq::<BoundModel>::empty().push(l),
    ));
    assert(Seq::<BoundModel>::empty().push(l).push(r) =~= seq![l, r]);
    assert(bind_all(both, scope) == Ok::<Seq<BoundModel>, Error>(seq![l, r]));
}

} // verus!
