//! Scalar functions on canonical columns.

use std::sync::Arc;
use vstd::prelude::*;

use crate::arrays::array::{fn_rows, row_of};
use crate::arrays::canonical::{
    primitive_rows, ArrayModel, BoolArray, Canonical, PrimitiveArray,
    VarBinViewArray,
};
use crate::arrays::compute::{and_rows, bool_value, compare_rows, like_rows, or_rows};
use crate::dtype::{DType, Nullability, TypeModel};
use crate::error::Error;
use crate::scalar::Value;
use crate::scalar_fn::{
    and_values, binary_dtype, binary_row, compare_values, is_comparable, like_values, or_values,
    CompareOperator, LikeOptions, Operator, ScalarFnRef,
};

verus! {

/// The outcome of a comparison, row by row. It is nullable as soon as a side is.
pub fn compare_arrays(operator: CompareOperator, left: &Canonical, right: &Canonical) -> (r:
    BoolArray)
    requires
        left@.rows.len() == right@.rows.len(),
        is_comparable(left@.dtype),
        is_comparable(right@.dtype),
    ensures
        r@ == (ArrayModel {
            dtype: TypeModel::Bool(
                left@.dtype.nullability().spec_union(right@.dtype.nullability()),
            ),
            rows: Seq::new(
                left@.rows.len(),
                |i: int| compare_values(operator, left@.rows[i], right@.rows[i]),
            ),
        }),
{
    let nullability = left.dtype().nullability().union(right.dtype().nullability());
    let len = left.len();
    let mut rows: Vec<Option<bool>> = Vec::new();
    let mut i: usize = 0;
    while i < len
        invariant
            i <= len,
            len == left@.rows.len() == right@.rows.len(),
            is_comparable(left@.dtype),
            is_comparable(right@.dtype),
            nullability == left@.dtype.nullability().spec_union(right@.dtype.nullability()),
            rows@.len() == i,
            forall|j: int|
                #![trigger rows@[j]]
                0 <= j < i ==> bool_value(rows@[j]) == compare_values(
                    operator,
                    left@.rows[j],
                    right@.rows[j],
                ) && (nullability == Nullability::NonNullable ==> rows@[j] is Some),
        decreases len - i,
    {
        let a = left.leaf(i);
        let b = right.leaf(i);
        rows.push(compare_rows(operator, &a, &b));
        i += 1;
    }
    let r = BoolArray::from_options(&rows, nullability);
    assert(r@.rows =~= Seq::new(
        left@.rows.len(),
        |i: int| compare_values(operator, left@.rows[i], right@.rows[i]),
    ));
    r
}

/// The outcome of a pattern match, row by row. It is nullable as soon as a side is.
pub fn like_arrays(options: LikeOptions, texts: &VarBinViewArray, patterns: &VarBinViewArray) -> (r:
    BoolArray)
    requires
        texts@.rows.len() == patterns@.rows.len(),
        texts@.dtype is Utf8,
        patterns@.dtype is Utf8,
    ensures
        r@ == (ArrayModel {
            dtype: TypeModel::Bool(
                texts@.dtype.nullability().spec_union(patterns@.dtype.nullability()),
            ),
            rows: Seq::new(
                texts@.rows.len(),
                |i: int| like_values(options, texts@.rows[i], patterns@.rows[i]),
            ),
        }),
{
    let nullability = texts.dtype().nullability().union(patterns.dtype().nullability());
    let len = texts.len();
    let mut rows: Vec<Option<bool>> = Vec::new();
    let mut i: usize = 0;
    while i < len
        invariant
            i <= len,
            len == texts@.rows.len() == patterns@.rows.len(),
            texts@.dtype is Utf8,
            patterns@.dtype is Utf8,
            nullability == texts@.dtype.nullability().spec_union(patterns@.dtype.nullability()),
            rows@.len() == i,
            forall|j: int|
                #![trigger rows@[j]]
                0 <= j < i ==> bool_value(rows@[j]) == like_values(
                    options,
                    texts@.rows[j],
                    patterns@.rows[j],
                ) && (nullability == Nullability::NonNullable ==> rows@[j] is Some),
        decreases len - i,
    {
        let row = match (texts.text(i), patterns.text(i)) {
            (Some(text), Some(pattern)) => Some(like_rows(options, text, pattern)),
            _ => None,
        };
        rows.push(row);
        i += 1;
    }
    let r = BoolArray::from_options(&rows, nullability);
    assert(r@.rows =~= Seq::new(
        texts@.rows.len(),
        |i: int| like_values(options, texts@.rows[i], patterns@.rows[i]),
    ));
    r
}

/// A three-valued connective, row by row.
fn connect_arrays(conjunction: bool, left: &BoolArray, right: &BoolArray) -> (r: BoolArray)
    requires
        left@.rows.len() == right@.rows.len(),
    ensures
        r@ == (ArrayModel {
            dtype: TypeModel::Bool(
                left@.dtype.nullability().spec_union(right@.dtype.nullability()),
            ),
            rows: Seq::new(
                left@.rows.len(),
                |i: int|
                    if conjunction {
                        and_values(left@.rows[i], right@.rows[i])
                    } else {
                        or_values(left@.rows[i], right@.rows[i])
                    },
            ),
        }),
{
    let nullability = left.nullability().union(right.nullability());
    let len = left.len();
    let mut rows: Vec<Option<bool>> = Vec::new();
    let mut i: usize = 0;
    while i < len
        invariant
            i <= len,
            len == left@.rows.len() == right@.rows.len(),
            nullability == left@.dtype.nullability().spec_union(right@.dtype.nullability()),
            rows@.len() == i,
            forall|j: int|
                #![trigger rows@[j]]
                0 <= j < i ==> bool_value(rows@[j]) == (if conjunction {
                    and_values(left@.rows[j], right@.rows[j])
                } else {
                    or_values(left@.rows[j], right@.rows[j])
                }) && (nullability == Nullability::NonNullable ==> rows@[j] is Some),
        decreases len - i,
    {
        let a = left.get(i);
        let b = right.get(i);
        assert(left@.rows[i as int] == bool_value(a) && right@.rows[i as int] == bool_value(b));
        if conjunction {
            rows.push(and_rows(a, b));
        } else {
            rows.push(or_rows(a, b));
        }
        i += 1;
    }
    let r = BoolArray::from_options(&rows, nullability);
    assert(r@.rows =~= Seq::new(
        left@.rows.len(),
        |i: int|
            if conjunction {
                and_values(left@.rows[i], right@.rows[i])
            } else {
                or_values(left@.rows[i], right@.rows[i])
            },
    ));
    r
}

/// Whether a sum or a difference overflows on some row.
pub open spec fn overflows(
    operator: Operator,
    dtype: TypeModel,
    left: Seq<Value>,
    right: Seq<Value>,
) -> bool {
    exists|i: int|
        0 <= i < left.len() && binary_row(operator, dtype, #[trigger] left[i], right[i]) is None
}

/// A sum or a difference, row by row, refused as soon as a row overflows.
fn add_arrays(operator: Operator, left: &PrimitiveArray, right: &PrimitiveArray) -> (r: Result<
    PrimitiveArray,
    Error,
>)
    requires
        operator == Operator::Add || operator == Operator::Sub,
        left@.rows.len() == right@.rows.len(),
        left@.dtype.as_nullable() == right@.dtype.as_nullable(),
        left@.dtype matches TypeModel::Primitive(ptype, _) && !ptype.spec_is_float(),
    ensures
        ({
            let nullability = left@.dtype.nullability().spec_union(right@.dtype.nullability());
            let dtype = left@.dtype.with_nullability(nullability);
            match r {
                Ok(array) => !overflows(operator, dtype, left@.rows, right@.rows) && array@ == (
                ArrayModel {
                    dtype,
                    rows: Seq::new(
                        left@.rows.len(),
                        |i: int| binary_row(operator, dtype, left@.rows[i], right@.rows[i])->0,
                    ),
                }),
                Err(error) => overflows(operator, dtype, left@.rows, right@.rows) && error
                    == Error::Overflow,
            }
        }),
{
    let nullability = left.nullability().union(right.nullability());
    let ptype = left.ptype();
    let len = left.len();
    let ghost dtype = left@.dtype.with_nullability(nullability);
    let mut rows: Vec<Option<i128>> = Vec::new();
    let mut i: usize = 0;
    while i < len
        invariant
            i <= len,
            len == left@.rows.len() == right@.rows.len(),
            operator == Operator::Add || operator == Operator::Sub,
            left@.dtype == TypeModel::Primitive(ptype, left@.dtype.nullability()),
            right@.dtype == TypeModel::Primitive(ptype, right@.dtype.nullability()),
            !ptype.spec_is_float(),
            nullability == left@.dtype.nullability().spec_union(right@.dtype.nullability()),
            dtype == TypeModel::Primitive(ptype, nullability),
            dtype == left@.dtype.with_nullability(nullability),
            rows@.len() == i,
            forall|j: int|
                #![trigger rows@[j]]
                0 <= j < i ==> {
                    &&& binary_row(operator, dtype, left@.rows[j], right@.rows[j]) == Some(
                        primitive_rows(ptype, rows@)[j],
                    )
                    &&& nullability == Nullability::NonNullable ==> rows@[j] is Some
                    &&& rows@[j] matches Some(v) ==> ptype.holds(v as int)
                },
        decreases len - i,
    {
        let row = match (left.get(i), right.get(i)) {
            (Some(a), Some(b)) => {
                let value = if operator == Operator::Add {
                    a + b
                } else {
                    a - b
                };
                if !ptype.fits(value) {
                    assert(binary_row(operator, dtype, left@.rows[i as int], right@.rows[i as int])
                        is None);
                    return Err(Error::Overflow);
                }
                Some(value)
            },
            _ => None,
        };
        let ghost before = rows@;
        rows.push(row);
        proof {
            assert forall|j: int| 0 <= j < before.len() implies #[trigger] primitive_rows(
                ptype,
                rows@,
            )[j] == primitive_rows(ptype, before)[j] by {
                assert(rows@[j] == before[j]);
            }
        }
        i += 1;
    }
    let r = PrimitiveArray::from_options(ptype, &rows, nullability);
    proof {
        assert forall|j: int| 0 <= j < len implies binary_row(
            operator,
            dtype,
            #[trigger] left@.rows[j],
            right@.rows[j],
        ) == Some(r@.rows[j]) by {
            let row = rows@[j];
        }
        assert(r@.rows =~= Seq::new(
            left@.rows.len(),
            |i: int| binary_row(operator, dtype, left@.rows[i], right@.rows[i])->0,
        ));
    }
    Ok(r)
}

/// Whether each row is not null.
fn not_null_rows(array: &Canonical) -> (r: BoolArray)
    ensures
        r@ == (ArrayModel {
            dtype: TypeModel::Bool(Nullability::NonNullable),
            rows: Seq::new(
                array@.rows.len(),
                |i: int| Value::Bool(array@.rows[i] != Value::Null),
            ),
        }),
{
    let len = array.len();
    let mut rows: Vec<Option<bool>> = Vec::new();
    let mut i: usize = 0;
    while i < len
        invariant
            i <= len,
            len == array@.rows.len(),
            rows@.len() == i,
            forall|j: int|
                #![trigger rows@[j]]
                0 <= j < i ==> rows@[j] == Some(array@.rows[j] != Value::Null),
        decreases len - i,
    {
        rows.push(Some(!array.is_null(i)));
        i += 1;
    }
    let r = BoolArray::from_options(&rows, Nullability::NonNullable);
    assert(r@.rows =~= Seq::new(
        array@.rows.len(),
        |i: int| Value::Bool(array@.rows[i] != Value::Null),
    ));
    r
}

/// The rows of each of a list of columns.
pub open spec fn rows_of(columns: Seq<Arc<Canonical>>) -> Seq<Seq<Value>> {
    Seq::new(columns.len(), |k: int| columns[k]@.rows)
}

/// The types of a list of columns.
pub open spec fn column_dtypes(columns: Seq<Arc<Canonical>>) -> Seq<TypeModel> {
    Seq::new(columns.len(), |k: int| columns[k]@.dtype)
}

/// A binary operation on two columns of `len` rows.
fn evaluate_binary(operator: Operator, left: &Canonical, right: &Canonical, dtype: &DType) -> (r:
    Result<Canonical, Error>)
    requires
        left@.rows.len() == right@.rows.len(),
        binary_dtype(operator, left@.dtype, right@.dtype) == Ok::<TypeModel, Error>(dtype@),
    ensures
        match r {
            Ok(array) => {
                &&& !overflows(operator, dtype@, left@.rows, right@.rows)
                &&& array@ == (ArrayModel {
                    dtype: dtype@,
                    rows: Seq::new(
                        left@.rows.len(),
                        |i: int| binary_row(operator, dtype@, left@.rows[i], right@.rows[i])->0,
                    ),
                })
            },
            Err(error) => overflows(operator, dtype@, left@.rows, right@.rows) && error
                == Error::Overflow,
        },
{
    let ghost rows = Seq::new(
        left@.rows.len(),
        |i: int| binary_row(operator, dtype@, left@.rows[i], right@.rows[i])->0,
    );
    match operator.comparison() {
        Some(comparison) => {
            let array = compare_arrays(comparison, left, right);
            assert(array@.rows =~= rows);
            return Ok(Canonical::Bool(array));
        },
        None => {},
    }
    match operator {
        Operator::Add | Operator::Sub => match (left.as_primitive(), right.as_primitive()) {
            (Some(a), Some(b)) => match add_arrays(operator, a, b) {
                Ok(array) => {
                    assert(array@.rows =~= rows);
                    Ok(Canonical::Primitive(array))
                },
                Err(error) => Err(error),
            },
            _ => Err(Error::Overflow),
        },
        _ => match (left.as_bool(), right.as_bool()) {
            (Some(a), Some(b)) => {
                let array = connect_arrays(operator == Operator::And, a, b);
                assert(array@.rows =~= rows);
                Ok(Canonical::Bool(array))
            },
            _ => Err(Error::Overflow),
        },
    }
}

/// What a scalar function computes on columns of `len` rows.
pub fn evaluate(
    scalar_fn: &ScalarFnRef,
    dtype: &DType,
    columns: &Vec<Arc<Canonical>>,
    len: usize,
) -> (r: Result<Canonical, Error>)
    requires
        columns@.len() == scalar_fn@.arity(),
        scalar_fn@.return_dtype(column_dtypes(columns@)) == Ok::<TypeModel, Error>(dtype@),
        forall|k: int| 0 <= k < columns@.len() ==> (#[trigger] columns@[k])@.rows.len() == len,
    ensures
        ({
            let rows = fn_rows(scalar_fn@, dtype@, Some(rows_of(columns@)), len as nat);
            match r {
                Ok(array) => rows matches Some(rows) && array@ == (ArrayModel {
                    dtype: dtype@,
                    rows,
                }),
                Err(error) => rows is None && error == Error::Overflow,
            }
        }),
{
    let ghost cols = rows_of(columns@);
    let ghost expected = fn_rows(scalar_fn@, dtype@, Some(cols), len as nat);
    match scalar_fn {
        ScalarFnRef::Literal(scalar) => {
            let array = Canonical::constant(scalar, len);
            assert(expected is Some);
            assert(array@.rows =~= expected->0);
            Ok(array)
        },
        ScalarFnRef::GetItem(name) => {
            assert(column_dtypes(columns@)[0] == columns@[0]@.dtype);
            match columns[0].as_struct() {
                Some(array) => match array.get_item(name) {
                    Some(field) => {
                        assert(forall|i: int| #[trigger] row_of(cols, i)[0] == cols[0][i]);
                        assert(expected is Some);
                        assert(field@.rows =~= expected->0);
                        Ok(field)
                    },
                    None => Err(Error::Overflow),
                },
                None => Err(Error::Overflow),
            }
        },
        ScalarFnRef::Binary(operator) => {
            assert(column_dtypes(columns@)[0] == columns@[0]@.dtype);
            assert(column_dtypes(columns@)[1] == columns@[1]@.dtype);
            assert forall|i: int| #[trigger]
                row_of(cols, i)[0] == cols[0][i] && row_of(cols, i)[1] == cols[1][i] by {}
            match evaluate_binary(*operator, &columns[0], &columns[1], dtype) {
                Ok(array) => {
                    proof {
                        assert forall|i: int|
                            #![trigger row_of(cols, i)]
                            0 <= i < len implies scalar_fn@.row(
                            dtype@,
                            row_of(cols, i),
                        ) is Some by {
                            let value = cols[0][i];
                        }
                        assert(expected is Some);
                        assert(array@.rows =~= expected->0);
                    }
                    Ok(array)
                },
                Err(error) => {
                    proof {
                        let i = choose|i: int|
                            0 <= i < len && binary_row(
                                *operator,
                                dtype@,
                                #[trigger] cols[0][i],
                                cols[1][i],
                            ) is None;
                        assert(scalar_fn@.row(dtype@, row_of(cols, i)) is None);
                    }
                    Err(error)
                },
            }
        },
        ScalarFnRef::IsNotNull(_) => {
            let array = not_null_rows(&columns[0]);
            assert(forall|i: int| #[trigger] row_of(cols, i)[0] == cols[0][i]);
            assert(expected is Some);
            assert(array@.rows =~= expected->0);
            Ok(Canonical::Bool(array))
        },
        ScalarFnRef::Like(options) => {
            assert(column_dtypes(columns@)[0] == columns@[0]@.dtype);
            assert(column_dtypes(columns@)[1] == columns@[1]@.dtype);
            match (columns[0].as_varbinview(), columns[1].as_varbinview()) {
                (Some(texts), Some(patterns)) => {
                    let array = like_arrays(*options, texts, patterns);
                    assert forall|i: int| #[trigger]
                        row_of(cols, i)[0] == cols[0][i] && row_of(cols, i)[1] == cols[1][i] by {}
                    assert(expected is Some);
                    assert(array@.rows =~= expected->0);
                    Ok(Canonical::Bool(array))
                },
                _ => Err(Error::Overflow),
            }
        },
    }
}

} // verus!
