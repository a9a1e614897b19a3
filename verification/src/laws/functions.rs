//! What scalar functions compute on one row.

use vstd::arithmetic::power2::{lemma2_to64, lemma2_to64_rest, pow2};
use vstd::prelude::*;

use crate::dtype::{field_in, Nullability, PType, TypeModel};
use crate::scalar::{primitive_value, value_in, ScalarModel, Value};
use crate::scalar_fn::{FnModel, LikeOptions, Operator};
use crate::soundness::conforms;

verus! {

/// What a binary operation gives on one row.
pub open spec fn result(operator: Operator, dtype: TypeModel, a: Value, b: Value) -> Option<Value> {
    FnModel::Binary(operator).row(dtype, seq![a, b])
}

/// A sum has a value exactly if the numbers' sum is in the range of the type, and is then that sum.
/// The same holds of a difference.
pub proof fn law_sums_and_differences(ptype: PType, n: Nullability, a: int, b: int)
    ensures
        ({
            let dtype = TypeModel::Primitive(ptype, n);
            let (x, y) = (Value::Int(a), Value::Int(b));
            &&& result(Operator::Add, dtype, x, y) is Some <==> ptype.low() <= a + b
                <= ptype.high()
            &&& result(Operator::Add, dtype, x, y) matches Some(sum) ==> sum == Value::Int(a + b)
            &&& result(Operator::Sub, dtype, x, y) is Some <==> ptype.low() <= a - b
                <= ptype.high()
            &&& result(Operator::Sub, dtype, x, y) matches Some(rest) ==> rest == Value::Int(
                a - b,
            )
        }),
{
}

/// Addition is commutative, zero is its unit, and subtraction undoes it.
pub proof fn law_addition(ptype: PType, n: Nullability, a: int, b: int)
    requires
        ptype.holds(a),
        ptype.holds(b),
    ensures
        ({
            let dtype = TypeModel::Primitive(ptype, n);
            let (x, y) = (Value::Int(a), Value::Int(b));
            &&& result(Operator::Add, dtype, x, y) == result(Operator::Add, dtype, y, x)
            &&& result(Operator::Add, dtype, x, Value::Int(0)) == Some(x)
            &&& result(Operator::Sub, dtype, x, Value::Int(0)) == Some(x)
            &&& result(Operator::Sub, dtype, x, x) == Some(Value::Int(0))
            &&& result(Operator::Add, dtype, x, y) matches Some(sum) ==> result(
                Operator::Sub,
                dtype,
                sum,
                y,
            ) == Some(x)
            &&& result(Operator::Sub, dtype, x, y) matches Some(rest) ==> result(
                Operator::Add,
                dtype,
                rest,
                y,
            ) == Some(x)
        }),
{
}

/// A sum or a difference with a null is null, and never overflows.
pub proof fn law_arithmetic_with_nulls(dtype: TypeModel, value: Value)
    ensures
        result(Operator::Add, dtype, Value::Null, value) == Some(Value::Null),
        result(Operator::Add, dtype, value, Value::Null) == Some(Value::Null),
        result(Operator::Sub, dtype, Value::Null, value) == Some(Value::Null),
        result(Operator::Sub, dtype, value, Value::Null) == Some(Value::Null),
{
}

/// The number of bits of a primitive type.
pub open spec fn width(ptype: PType) -> nat {
    match ptype {
        PType::U8 | PType::I8 => 8,
        PType::U16 | PType::I16 | PType::F16 => 16,
        PType::U32 | PType::I32 | PType::F32 => 32,
        PType::U64 | PType::I64 | PType::F64 => 64,
    }
}

/// A primitive type has a stored value for every pattern of its bits. Signed integers are as many
/// below zero as not below it, and nothing else is below zero.
pub proof fn law_primitive_ranges(ptype: PType, value: int)
    ensures
        ptype.high() - ptype.low() + 1 == pow2(width(ptype)),
        ptype.low() == -(ptype.high() + 1) || ptype.low() == 0,
        ptype.low() == 0 <==> ptype.spec_is_unsigned() || ptype.spec_is_float(),
        ptype.holds(value) <==> ptype.low() <= value <= ptype.high(),
        !(ptype.spec_is_unsigned() && ptype.spec_is_float()),
{
    lemma2_to64();
    lemma2_to64_rest();
}

/// Whether a value can stand in a boolean column.
pub open spec fn is_truth(value: Value) -> bool {
    value == Value::Null || value is Bool
}

/// A conjunction is true exactly if both sides are, and false exactly if a side is; a disjunction
/// is true exactly if a side is, and false exactly if both sides are. Otherwise they are null.
pub proof fn law_connectives(dtype: TypeModel, a: Value, b: Value)
    requires
        is_truth(a),
        is_truth(b),
    ensures
        ({
            let yes = Value::Bool(true);
            let no = Value::Bool(false);
            let both = result(Operator::And, dtype, a, b);
            let either = result(Operator::Or, dtype, a, b);
            &&& both matches Some(value) && is_truth(value)
            &&& either matches Some(value) && is_truth(value)
            &&& both == Some(yes) <==> a == yes && b == yes
            &&& both == Some(no) <==> a == no || b == no
            &&& either == Some(yes) <==> a == yes || b == yes
            &&& either == Some(no) <==> a == no && b == no
        }),
{
}

/// Asking whether a value is not null never gives null, and gives true exactly if it is not.
pub proof fn law_is_not_null(dtype: TypeModel, value: Value)
    ensures
        FnModel::IsNotNull.row(dtype, seq![value]) == Some(Value::Bool(true)) <==> value
            != Value::Null,
        FnModel::IsNotNull.row(dtype, seq![value]) == Some(Value::Bool(false)) <==> value
            == Value::Null,
{
}

/// A constant gives its value, whatever the row.
pub proof fn law_literals_are_constant(scalar: ScalarModel, dtype: TypeModel, args: Seq<Value>)
    ensures
        FnModel::Literal(scalar).row(dtype, args) == Some(scalar.value),
        FnModel::Literal(scalar).return_dtype(Seq::empty()) == Ok::<TypeModel, crate::error::Error>(
            scalar.dtype,
        ),
{
}

/// A field of a struct is the value of the first field of that name, and the field of a null is
/// null.
pub proof fn law_fields(
    dtype: TypeModel,
    values: Seq<(Seq<char>, Value)>,
    name: Seq<char>,
    i: int,
)
    requires
        0 <= i < values.len(),
        values[i].0 == name,
        forall|k: int| 0 <= k < i ==> (#[trigger] values[k]).0 != name,
    ensures
        FnModel::GetItem(name).row(dtype, seq![Value::Struct(values)]) == Some(values[i].1),
        FnModel::GetItem(name).row(dtype, seq![Value::Null]) == Some(Value::Null),
{
    lemma_value_in(values, name, i);
}

proof fn lemma_value_in(values: Seq<(Seq<char>, Value)>, name: Seq<char>, i: int)
    requires
        0 <= i < values.len(),
        values[i].0 == name,
        forall|k: int| 0 <= k < i ==> (#[trigger] values[k]).0 != name,
    ensures
        value_in(values, name) == values[i].1,
    decreases i,
{
    if i > 0 {
        assert(values[0].0 != name);
        let rest = values.drop_first();
        assert forall|k: int| 0 <= k < i - 1 implies (#[trigger] rest[k]).0 != name by {
            assert(rest[k] == values[k + 1]);
        }
        lemma_value_in(rest, name, i - 1);
    }
}

/// The type of a field is that of the first field of that name, and there is none exactly if no
/// field has the name.
pub proof fn law_field_types(fields: Seq<(Seq<char>, TypeModel)>, name: Seq<char>)
    ensures
        match field_in(fields, name) {
            Some(found) => exists|i: int|
                {
                    &&& 0 <= i < fields.len()
                    &&& #[trigger] fields[i] == (name, found)
                    &&& forall|k: int| 0 <= k < i ==> (#[trigger] fields[k]).0 != name
                },
            None => forall|i: int| 0 <= i < fields.len() ==> (#[trigger] fields[i]).0 != name,
        },
    decreases fields.len(),
{
    if fields.len() > 0 {
        if fields[0].0 == name {
            assert(fields[0] == (name, field_in(fields, name)->0));
        } else {
            let rest = fields.drop_first();
            law_field_types(rest, name);
            match field_in(fields, name) {
                Some(found) => {
                    let i = choose|i: int|
                        {
                            &&& 0 <= i < rest.len()
                            &&& #[trigger] rest[i] == (name, found)
                            &&& forall|k: int| 0 <= k < i ==> (#[trigger] rest[k]).0 != name
                        };
                    assert(fields[i + 1] == (name, found));
                    assert forall|k: int| 0 <= k < i + 1 implies (#[trigger] fields[k]).0
                        != name by {
                        if k > 0 {
                            assert(rest[k - 1] == fields[k]);
                        }
                    }
                },
                None => {
                    assert forall|i: int| 0 <= i < fields.len() implies (#[trigger] fields[i]).0
                        != name by {
                        if i > 0 {
                            assert(rest[i - 1] == fields[i]);
                        }
                    }
                },
            }
        }
    }
}

/// A stored primitive is a floating-point number by its bits exactly if its type is a floating-point
/// type, and otherwise the integer that is stored.
pub proof fn law_primitive_values(ptype: PType, raw: int)
    ensures
        ptype == PType::F16 || ptype == PType::F32 || ptype == PType::F64 ==> primitive_value(
            ptype,
            raw,
        ) == Value::Float(ptype, raw),
        !(ptype == PType::F16 || ptype == PType::F32 || ptype == PType::F64) ==> primitive_value(
            ptype,
            raw,
        ) == Value::Int(raw),
{
}

/// A constant is well formed exactly if its value is one of its type, where the type is flat.
pub proof fn law_constants_conform(scalar: ScalarModel)
    requires
        match scalar.dtype {
            TypeModel::Bool(_) | TypeModel::Primitive(..) | TypeModel::Utf8(_)
            | TypeModel::Binary(_) => true,
            _ => false,
        },
    ensures
        scalar.wf() <==> conforms(scalar.value, scalar.dtype),
{
}

/// A match with a null on a side is null, and of two texts a boolean.
pub proof fn law_matches_of_nulls_are_null(
    options: LikeOptions,
    dtype: TypeModel,
    value: Value,
    text: Seq<char>,
    pattern: Seq<char>,
)
    ensures
        FnModel::Like(options).row(dtype, seq![Value::Null, value]) == Some(Value::Null),
        FnModel::Like(options).row(dtype, seq![value, Value::Null]) == Some(Value::Null),
        FnModel::Like(options).row(
            dtype,
            seq![Value::Text(text), Value::Text(pattern)],
        ) matches Some(found) && found is Bool,
{
}

} // verus!
