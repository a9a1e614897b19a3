//! Values and their types.

use vstd::prelude::*;

use crate::apply::{row_value, row_values};
use crate::dtype::{field_in, lemma_nullability, Nullability, TypeModel};
use crate::error::Error;
use crate::expr::bound_expression::{dtypes_of, BoundModel};
use crate::expr::variable::VariableRef;
use crate::scalar::{value_in, Value};
use crate::scalar_fn::FnModel;

verus! {

/// Whether a value is one of a type.
pub open spec fn conforms(value: Value, dtype: TypeModel) -> bool
    decreases dtype,
{
    if value == Value::Null {
        dtype.nullability() == Nullability::Nullable
    } else {
        match dtype {
            TypeModel::Null => false,
            TypeModel::Bool(_) => value is Bool,
            TypeModel::Primitive(ptype, _) => match value {
                Value::Int(n) => !ptype.spec_is_float() && ptype.holds(n),
                Value::Float(p, bits) => ptype.spec_is_float() && p == ptype && ptype.holds(bits),
                _ => false,
            },
            TypeModel::Decimal(..) => value is Int,
            TypeModel::Utf8(_) => value is Text,
            TypeModel::Binary(_) => value is Bytes,
            TypeModel::List(element, _) => value matches Value::List(items) && forall|i: int|
                0 <= i < items.len() ==> conforms(#[trigger] items[i], *element),
            TypeModel::FixedSizeList(element, size, _) => value matches Value::List(items)
                && items.len() == size && forall|i: int|
                0 <= i < items.len() ==> conforms(#[trigger] items[i], *element),
            TypeModel::Mapping(..) => value is List,
            TypeModel::Struct(fields, _) => value matches Value::Struct(values) && values.len()
                == fields.len() && forall|i: int|
                0 <= i < fields.len() ==> {
                    &&& values[i].0 == (#[trigger] fields[i]).0
                    &&& conforms(values[i].1, fields[i].1)
                },
            TypeModel::Union(variants, _) => value matches Value::Union(tag, inner) && exists|
                i: int,
            |
                0 <= i < variants.len() && (#[trigger] variants[i]).0 == tag && conforms(
                    *inner,
                    variants[i].1,
                ),
            TypeModel::Extension(_, storage) => conforms(value, *storage),
            TypeModel::Variant(_) => value is Variant,
        }
    }
}

/// A value of a type is one of the type with another nullability, unless it is null and the
/// nullability does not allow that.
proof fn lemma_conforms(value: Value, dtype: TypeModel, n: Nullability)
    requires
        conforms(value, dtype),
        value == Value::Null ==> n == Nullability::Nullable,
    ensures
        conforms(value, dtype.with_nullability(n)),
    decreases dtype,
{
    lemma_nullability(dtype, n, n);
    if let TypeModel::Extension(_, storage) = dtype {
        if value != Value::Null {
            lemma_conforms(value, *storage, n);
        }
    }
}

/// The field of a struct has the type of the field.
proof fn lemma_field(
    values: Seq<(Seq<char>, Value)>,
    fields: Seq<(Seq<char>, TypeModel)>,
    name: Seq<char>,
)
    requires
        values.len() == fields.len(),
        forall|i: int|
            0 <= i < fields.len() ==> {
                &&& values[i].0 == (#[trigger] fields[i]).0
                &&& conforms(values[i].1, fields[i].1)
            },
        field_in(fields, name) is Some,
    ensures
        conforms(value_in(values, name), field_in(fields, name)->0),
    decreases fields.len(),
{
    assert(fields.len() > 0);
    assert(values[0].0 == fields[0].0);
    if fields[0].0 != name {
        let v = values.drop_first();
        let f = fields.drop_first();
        assert forall|i: int| 0 <= i < f.len() implies {
            &&& v[i].0 == (#[trigger] f[i]).0
            &&& conforms(v[i].1, f[i].1)
        } by {
            assert(f[i] == fields[i + 1] && v[i] == values[i + 1]);
        }
        lemma_field(v, f, name);
    }
}

/// A function of arguments of the types that it was checked with gives a value of its type.
pub proof fn law_function_is_sound(
    f: FnModel,
    types: Seq<TypeModel>,
    dtype: TypeModel,
    args: Seq<Value>,
)
    requires
        args.len() == types.len() == f.arity(),
        f.return_dtype(types) == Ok::<TypeModel, Error>(dtype),
        forall|k: int| 0 <= k < args.len() ==> conforms(#[trigger] args[k], types[k]),
        f matches FnModel::Literal(scalar) ==> scalar.wf(),
    ensures
        f.row(dtype, args) matches Some(value) ==> conforms(value, dtype),
{
    match f {
        FnModel::Literal(scalar) => {},
        FnModel::GetItem(name) => {
            assert(conforms(args[0], types[0]));
            if let TypeModel::Struct(fields, n) = types[0] {
                let field = field_in(fields, name)->0;
                let all = field.nullability().spec_union(n);
                lemma_nullability(field, all, all);
                if let Value::Struct(values) = args[0] {
                    lemma_field(values, fields, name);
                    lemma_conforms(value_in(values, name), field, all);
                }
            }
        },
        FnModel::Binary(_) => {
            assert(conforms(args[0], types[0]));
            assert(conforms(args[1], types[1]));
        },
        FnModel::IsNotNull => {},
        FnModel::Like(_) => {
            assert(conforms(args[0], types[0]));
            assert(conforms(args[1], types[1]));
        },
    }
}

/// Whether on row `i` the root and the variables of an expression have values of their types, and
/// so have its constants.
pub open spec fn row_fits(
    expr: BoundModel,
    root: Seq<Value>,
    arrays: Map<VariableRef, Seq<Value>>,
    i: int,
) -> bool
    decreases expr,
{
    match expr {
        BoundModel::Root(dtype) => conforms(root[i], dtype),
        BoundModel::Variable(dtype, _, reference) => conforms(arrays[reference][i], dtype),
        BoundModel::Scalar(_, f, children) => {
            &&& f matches FnModel::Literal(scalar) ==> scalar.wf()
            &&& forall|k: int|
                0 <= k < children.len() ==> row_fits(#[trigger] children[k], root, arrays, i)
        },
    }
}

/// Evaluation respects types: the value of a well-typed expression on a row has the type that
/// binding found for the expression. In particular it is null only if the type allows that.
pub proof fn law_evaluation_is_sound(
    expr: BoundModel,
    root: Seq<Value>,
    arrays: Map<VariableRef, Seq<Value>>,
    i: int,
)
    requires
        expr.well_typed(),
        row_fits(expr, root, arrays, i),
    ensures
        row_value(expr, root, arrays, i) matches Some(value) ==> conforms(value, expr.dtype()),
    decreases expr,
{
    if let BoundModel::Scalar(dtype, f, children) = expr {
        if let Some(args) = row_values(children, root, arrays, i) {
            let types = dtypes_of(children);
            assert forall|k: int| 0 <= k < args.len() implies conforms(
                #[trigger] args[k],
                types[k],
            ) by {
                assert(children[k].well_typed());
                assert(row_fits(children[k], root, arrays, i));
                assert(row_value(children[k], root, arrays, i) is Some);
                law_evaluation_is_sound(children[k], root, arrays, i);
            }
            law_function_is_sound(f, types, dtype, args);
        }
    }
}

} // verus!
