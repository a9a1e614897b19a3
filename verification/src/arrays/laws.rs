//! What holds of looking rows up by codes.

use vstd::prelude::*;

use crate::arrays::array::{
    all_rows, dict_model, fn_model, lazy_dtypes, row_of, ArrayRef, DictArray, LazyModel,
};
use crate::arrays::canonical::{
    columns_fit, constant_model, fixed_list_model, list_model, map_model, runs_fit, variant_model,
    ArrayModel, Canonical, Validity,
};
use crate::arrays::dict::{answers, law_dict_compare, law_dict_like, rowwise_model};
use crate::dtype::{lemma_nullability, Nullability, PType, TypeModel};
use crate::error::Error;
use crate::laws::types::{allows_null, law_nullability_united, same_shape};
use crate::scalar::{ScalarModel, Value};
use crate::scalar_fn::{FnModel, Operator};

verus! {

/// Looking up by codes and then by codes into the result is looking up once, by the codes that
/// the second codes select among the first. So nested dictionaries decode from either side.
pub proof fn law_take_composes(values: ArrayModel, first: ArrayModel, second: ArrayModel)
    requires
        first.dtype is Primitive,
        second.within(first.rows.len()),
    ensures
        values.take(first).take(second) == values.take(first.take(second)),
{
    let m = first.dtype.nullability();
    let n = second.dtype.nullability();
    let own = values.dtype.nullability();
    lemma_nullability(values.dtype, own.spec_union(m), own.spec_union(m).spec_union(n));
    let left = values.take(first).take(second);
    let right = values.take(first.take(second));
    assert forall|i: int| 0 <= i < second.rows.len() implies left.rows[i] == right.rows[i] by {
        assert(first.take(second).rows[i] == first.pick(second.rows[i]));
    }
    assert(left.rows =~= right.rows);
    assert(left.dtype == right.dtype);
}

/// Looking every row up by its own number changes nothing.
pub proof fn law_take_every_row(values: ArrayModel, codes: ArrayModel)
    requires
        codes.dtype.nullability() == Nullability::NonNullable,
        codes.rows == Seq::new(values.rows.len(), |i: int| Value::Int(i)),
    ensures
        values.take(codes) == values,
{
    lemma_nullability(values.dtype, Nullability::NonNullable, Nullability::NonNullable);
    assert(values.take(codes).rows =~= values.rows);
}

/// What is looked up has as many rows as there are codes, and is null exactly where the code is
/// null or selects a null.
pub proof fn law_take_nulls(values: ArrayModel, codes: ArrayModel, i: int)
    requires
        0 <= i < codes.rows.len(),
    ensures
        values.take(codes).rows.len() == codes.rows.len(),
        values.take(codes).rows[i] == Value::Null <==> match codes.rows[i] {
            Value::Int(c) => values.rows[c] == Value::Null,
            _ => true,
        },
{
}

/// Looking up by codes gives, for each code in turn, the row of that number, and null for a null. The
/// type is that of the values, nullable as soon as the values or the codes are.
pub proof fn law_take_looks_up(values: ArrayModel, codes: ArrayModel, i: int, c: int)
    requires
        0 <= i < codes.rows.len(),
    ensures
        values.take(codes).rows.len() == codes.rows.len(),
        codes.rows[i] == Value::Int(c) ==> values.take(codes).rows[i] == values.rows[c],
        codes.rows[i] == Value::Null ==> values.take(codes).rows[i] == Value::Null,
        same_shape(values.take(codes).dtype, values.dtype),
        allows_null(values.take(codes).dtype) <==> allows_null(values.dtype) || allows_null(
            codes.dtype,
        ),
{
    law_nullability_united(values.dtype, Nullability::Nullable, codes.dtype.nullability());
}

/// Whether every code that is not null is the number of a value.
pub open spec fn codes_select(codes: Seq<Value>, len: nat) -> bool {
    forall|i: int| 0 <= i < codes.len() ==> (#[trigger] codes[i] matches Value::Int(c) ==> 0 <= c
        < len)
}

/// Codes are within an array exactly if each that is not null is the number of one of its rows.
pub proof fn law_codes_within(codes: LazyModel, len: nat)
    requires
        codes.rows is Some,
    ensures
        codes.within(len) <==> codes_select(codes.rows->0, len),
{
}

/// The codes of a dictionary are unsigned integers of some width.
pub proof fn law_code_types(codes: LazyModel)
    ensures
        codes.is_unsigned() <==> (codes.dtype matches TypeModel::Primitive(ptype, _) && (ptype
            == PType::U8 || ptype == PType::U16 || ptype == PType::U32 || ptype == PType::U64)),
{
}

/// Columns fit exactly if each has a name and the given number of rows.
pub proof fn law_columns_fit(names: Seq<String>, columns: Seq<Canonical>, len: nat)
    ensures
        !columns_fit(names, columns, len) <==> names.len() != columns.len() || exists|k: int|
            0 <= k < columns.len() && (#[trigger] columns[k])@.rows.len() != len,
{
}

/// A dictionary has a row for each code: the value of that number, and null for a null code.
pub proof fn law_dictionary_rows(codes: LazyModel, values: LazyModel, i: int)
    requires
        codes.rows is Some,
        values.rows is Some,
        codes.rows->0.len() == codes.len,
        codes_select(codes.rows->0, values.len),
        forall|k: int|
            0 <= k < codes.len ==> (#[trigger] codes.rows->0[k] is Int || codes.rows->0[k]
                == Value::Null),
        0 <= i < codes.len,
    ensures
        ({
            let dict = dict_model(codes, values);
            &&& dict.len == codes.len
            &&& dict.rows matches Some(rows)
            &&& rows.len() == codes.len
            &&& codes.rows->0[i] matches Value::Int(c) ==> rows[i] == values.rows->0[c]
            &&& codes.rows->0[i] == Value::Null ==> rows[i] == Value::Null
            &&& same_shape(dict.dtype, values.dtype)
            &&& allows_null(dict.dtype) <==> allows_null(values.dtype) || allows_null(codes.dtype)
        }),
{
    law_nullability_united(values.dtype, Nullability::Nullable, codes.dtype.nullability());
}

/// A dictionary has no rows exactly if it has codes and they have none, or some code is not null and
/// the values have none: what no row is looked up in does not count.
pub proof fn law_dictionary_overflows(codes: LazyModel, values: LazyModel)
    requires
        codes.rows matches Some(c) ==> c.len() == codes.len,
    ensures
        dict_model(codes, values).rows is None <==> codes.len > 0 && match codes.rows {
            None => true,
            Some(c) => values.rows is None && exists|i: int|
                0 <= i < c.len() && #[trigger] c[i] != Value::Null,
        },
{
}

/// Whether row `i` holds a value, whether nulls are allowed at all, and how many rows are described, by
/// the kind of validity.
pub proof fn law_validity(validity: Validity, i: int, len: nat)
    ensures
        validity.covers(len) <==> (validity matches Validity::Mask(mask) ==> mask@.len() == len),
        validity == Validity::NonNullable || validity == Validity::AllValid ==> validity.valid(i),
        validity == Validity::AllInvalid ==> !validity.valid(i),
        validity matches Validity::Mask(mask) ==> validity.valid(i) == mask@[i],
        validity.spec_nullability() == Nullability::NonNullable <==> validity
            == Validity::NonNullable,
{
}

/// Runs fit an array exactly if there is an offset for each size, no run starts behind the end, and
/// every place of every run is a row.
pub proof fn law_runs_fit(offsets: Seq<usize>, sizes: Seq<usize>, len: nat)
    ensures
        runs_fit(offsets, sizes, len) <==> {
            &&& offsets.len() == sizes.len()
            &&& forall|i: int| 0 <= i < offsets.len() ==> #[trigger] offsets[i] <= len
            &&& forall|i: int, k: int|
                0 <= i < offsets.len() && 0 <= k < sizes[i] ==> #[trigger] (offsets[i] + k) < len
        },
{
    if offsets.len() == sizes.len() && (forall|i: int|
        0 <= i < offsets.len() ==> #[trigger] offsets[i] <= len) && (forall|i: int, k: int|
        0 <= i < offsets.len() && 0 <= k < sizes[i] ==> #[trigger] (offsets[i] + k) < len) {
        assert forall|i: int| 0 <= i < sizes.len() implies offsets[i] + #[trigger] sizes[i]
            <= len by {
            assert(offsets[i] <= len);
            if sizes[i] > 0 {
                assert(offsets[i] + (sizes[i] - 1) < len);
            }
        }
    }
    if runs_fit(offsets, sizes, len) {
        assert forall|i: int| 0 <= i < offsets.len() implies #[trigger] offsets[i] <= len by {
            assert(offsets[i] + sizes[i] <= len);
        }
        assert forall|i: int, k: int| 0 <= i < offsets.len() && 0 <= k < sizes[i] implies
            #[trigger] (offsets[i] + k) < len by {
            assert(offsets[i] + sizes[i] <= len);
        }
    }
}

/// Row `i` of a list array holds the elements from its offset on, as many as its size says, and is
/// null where it is not valid.
pub proof fn law_list_rows(
    elements: ArrayModel,
    offsets: Seq<usize>,
    sizes: Seq<usize>,
    validity: Validity,
    i: int,
    k: int,
)
    requires
        offsets.len() == sizes.len(),
        0 <= i < sizes.len(),
        offsets[i] + sizes[i] <= elements.rows.len(),
    ensures
        ({
            let array = list_model(elements, offsets, sizes, validity);
            &&& array.rows.len() == sizes.len()
            &&& array.dtype matches TypeModel::List(element, _) && *element == elements.dtype
            &&& allows_null(array.dtype) <==> validity != Validity::NonNullable
            &&& array.rows[i] == Value::Null <==> !validity.valid(i)
            &&& validity.valid(i) ==> {
                &&& array.rows[i] matches Value::List(items)
                &&& items.len() == sizes[i]
                &&& 0 <= k < sizes[i] ==> items[k] == elements.rows[offsets[i] + k]
            }
        }),
{
}

/// Row `i` of a map array holds an entry of a key and a value for each place from its offset on, as
/// many as its size says, and is null where it is not valid.
pub proof fn law_map_rows(
    keys: ArrayModel,
    values: ArrayModel,
    offsets: Seq<usize>,
    sizes: Seq<usize>,
    validity: Validity,
    i: int,
    k: int,
)
    requires
        offsets.len() == sizes.len(),
        0 <= i < sizes.len(),
        0 <= k < sizes[i],
    ensures
        ({
            let array = map_model(keys, values, offsets, sizes, validity);
            &&& array.rows.len() == sizes.len()
            &&& array.dtype matches TypeModel::Mapping(key, value, _) && *key == keys.dtype && *value
                == values.dtype
            &&& allows_null(array.dtype) <==> validity != Validity::NonNullable
            &&& array.rows[i] == Value::Null <==> !validity.valid(i)
            &&& validity.valid(i) ==> {
                &&& array.rows[i] matches Value::List(items)
                &&& items.len() == sizes[i]
                &&& items[k].field("key"@) == keys.rows[offsets[i] + k]
                &&& items[k].field("value"@) == values.rows[offsets[i] + k]
            }
        }),
{
    reveal_strlit("key");
    reveal_strlit("value");
    assert("key"@ != "value"@) by {
        assert("key"@.len() != "value"@.len());
    }
    let entry = crate::arrays::canonical::entry(
        keys.rows[offsets[i] + k],
        values.rows[offsets[i] + k],
    );
    let fields = entry->Struct_0;
    reveal_with_fuel(crate::scalar::value_in, 3);
    assert(fields.drop_first()[0] == fields[1]);
}

/// Row `i` of an array of lists of one length holds that many elements from its offset on, and is null
/// where it is not valid.
pub proof fn law_fixed_list_rows(
    elements: ArrayModel,
    size: nat,
    offsets: Seq<usize>,
    validity: Validity,
    i: int,
    k: int,
)
    requires
        0 <= i < offsets.len(),
        validity.valid(i) ==> offsets[i] + size <= elements.rows.len(),
    ensures
        ({
            let array = fixed_list_model(elements, size, offsets, validity);
            &&& array.rows.len() == offsets.len()
            &&& array.dtype matches TypeModel::FixedSizeList(element, n, _) && *element
                == elements.dtype && n == size
            &&& allows_null(array.dtype) <==> validity != Validity::NonNullable
            &&& array.rows[i] == Value::Null <==> !validity.valid(i)
            &&& validity.valid(i) ==> {
                &&& array.rows[i] matches Value::List(items)
                &&& items.len() == size
                &&& 0 <= k < size ==> items[k] == elements.rows[offsets[i] + k]
            }
        }),
{
}

/// A row of a variant array holds what its storages hold, and is null exactly if each of them is.
pub proof fn law_variant_rows(core: ArrayModel, shredded: Option<ArrayModel>, i: int)
    requires
        0 <= i < core.rows.len(),
    ensures
        ({
            let array = variant_model(core, shredded);
            let other = match shredded {
                Some(shredded) => Some(shredded.rows[i]),
                None => None,
            };
            &&& array.rows.len() == core.rows.len()
            &&& array.dtype is Variant
            &&& allows_null(array.dtype) <==> allows_null(core.dtype)
            &&& array.rows[i] == Value::Null <==> core.rows[i] == Value::Null && (
            other matches Some(value) ==> value == Value::Null)
            &&& array.rows[i] != Value::Null ==> {
                &&& array.rows[i] matches Value::Variant(found, found_other)
                &&& *found == core.rows[i]
                &&& found_other is Some <==> other is Some
                &&& found_other matches Some(value) ==> other == Some(*value)
            }
        }),
{
}

/// A constant array has the value in every row.
pub proof fn law_constant_rows(scalar: ScalarModel, len: nat, i: int)
    requires
        0 <= i < len,
    ensures
        constant_model(scalar, len).rows.len() == len,
        constant_model(scalar, len).rows[i] == scalar.value,
        constant_model(scalar, len).dtype == scalar.dtype,
{
}

/// A function applies to as many arrays as it takes, if each has the given number of rows and the
/// function takes their types. The result has the type that the function gives.
pub proof fn law_functions_apply(f: FnModel, children: Seq<LazyModel>, len: nat)
    ensures
        match fn_model(f, children, len) {
            Ok(array) => {
                &&& children.len() == f.arity()
                &&& forall|k: int| 0 <= k < children.len() ==> (#[trigger] children[k]).len == len
                &&& f.return_dtype(lazy_dtypes(children)) == Ok::<TypeModel, Error>(array.dtype)
                &&& array.len == len
            },
            Err(error) => if children.len() != f.arity() {
                error == Error::ArityMismatch
            } else if exists|k: int|
                0 <= k < children.len() && (#[trigger] children[k]).len != len {
                error == Error::InvalidArray
            } else {
                f.return_dtype(lazy_dtypes(children)) == Err::<TypeModel, Error>(error)
            },
        },
{
}

/// The rows of a function of two arrays are those of the function on the rows of the arrays side by
/// side. There are none exactly if an array has none or the function overflows on some row.
pub proof fn law_function_rows(
    f: FnModel,
    left: LazyModel,
    right: LazyModel,
    len: nat,
    i: int,
)
    requires
        fn_model(f, seq![left, right], len) is Ok,
        0 <= i < len,
    ensures
        ({
            let array = fn_model(f, seq![left, right], len)->Ok_0;
            let row = |k: int| f.row(array.dtype, seq![left.rows->0[k], right.rows->0[k]]);
            match array.rows {
                Some(rows) => {
                    &&& left.rows is Some && right.rows is Some
                    &&& rows.len() == len
                    &&& row(i) == Some(rows[i])
                },
                None => left.rows is None || right.rows is None || exists|k: int|
                    0 <= k < len && #[trigger] row(k) is None,
            }
        }),
{
    let children = seq![left, right];
    let array = fn_model(f, children, len)->Ok_0;
    let row = |k: int| f.row(array.dtype, seq![left.rows->0[k], right.rows->0[k]]);
    assert(children[0] == left && children[1] == right);
    if let Some(columns) = all_rows(children) {
        assert(left.rows is Some && right.rows is Some);
        assert forall|k: int| #[trigger] row_of(columns, k) =~= seq![
            left.rows->0[k],
            right.rows->0[k],
        ] by {}
        if array.rows is None {
            let k = choose|k: int|
                #![trigger row_of(columns, k)]
                0 <= k < len && f.row(array.dtype, row_of(columns, k)) is None;
            assert(row(k) is None);
        } else {
            assert(f.row(array.dtype, row_of(columns, i)) is Some);
        }
    } else {
        let k = choose|k: int| 0 <= k < children.len() && (#[trigger] children[k]).rows is None;
    }
}

/// The rows of a function of one array are those of the function on the rows of the array.
pub proof fn law_function_rows_of_one(f: FnModel, child: LazyModel, len: nat, i: int)
    requires
        fn_model(f, seq![child], len) is Ok,
        child.rows is Some,
        0 <= i < len,
    ensures
        ({
            let array = fn_model(f, seq![child], len)->Ok_0;
            &&& array.rows matches Some(rows)
            &&& rows.len() == len
            &&& f.row(array.dtype, seq![child.rows->0[i]]) == Some(rows[i])
        }),
{
    let children = seq![child];
    let array = fn_model(f, children, len)->Ok_0;
    assert(children[0] == child);
    let columns = all_rows(children)->0;
    assert forall|k: int| #[trigger] row_of(columns, k) =~= seq![child.rows->0[k]] by {}
    assert(f.row(array.dtype, row_of(columns, i)) is Some);
}

/// The number that a sum or a difference of two numbers is.
pub open spec fn exact(operator: Operator, a: int, b: int) -> int {
    if operator == Operator::Add {
        a + b
    } else {
        a - b
    }
}

/// Whether row `k` of two columns holds two numbers whose sum or difference is out of the range of a
/// type.
pub open spec fn overflows_at(
    operator: Operator,
    ptype: PType,
    left: Seq<Value>,
    right: Seq<Value>,
    k: int,
) -> bool {
    match (left[k], right[k]) {
        (Value::Int(a), Value::Int(b)) => exact(operator, a, b) < ptype.low() || exact(
            operator,
            a,
            b,
        ) > ptype.high(),
        _ => false,
    }
}

/// The sum of two integer columns has, where neither row is null, the sum of the numbers. It can be
/// computed exactly if every such sum is in the range of the type. The same holds of the difference.
pub proof fn law_column_arithmetic(
    operator: Operator,
    left: LazyModel,
    right: LazyModel,
    len: nat,
    i: int,
)
    requires
        operator == Operator::Add || operator == Operator::Sub,
        fn_model(FnModel::Binary(operator), seq![left, right], len) is Ok,
        left.rows is Some,
        right.rows is Some,
        0 <= i < len,
    ensures
        ({
            let array = fn_model(FnModel::Binary(operator), seq![left, right], len)->Ok_0;
            let (l, r) = (left.rows->0, right.rows->0);
            &&& array.dtype matches TypeModel::Primitive(ptype, _)
            &&& match array.rows {
                Some(rows) => {
                    &&& !overflows_at(operator, ptype, l, r, i)
                    &&& match (l[i], r[i]) {
                        (Value::Int(a), Value::Int(b)) => rows[i] == Value::Int(
                            exact(operator, a, b),
                        ),
                        _ => rows[i] == Value::Null,
                    }
                },
                None => exists|k: int|
                    0 <= k < len && #[trigger] overflows_at(operator, ptype, l, r, k),
            }
        }),
{
    let f = FnModel::Binary(operator);
    let array = fn_model(f, seq![left, right], len)->Ok_0;
    let (l, r) = (left.rows->0, right.rows->0);
    law_function_rows(f, left, right, len, i);
    assert(lazy_dtypes(seq![left, right]) =~= seq![left.dtype, right.dtype]);
    if array.rows is None {
        let row = |k: int| f.row(array.dtype, seq![left.rows->0[k], right.rows->0[k]]);
        let k = choose|k: int| 0 <= k < len && #[trigger] row(k) is None;
        assert(overflows_at(operator, array.dtype->Primitive_0, l, r, k));
    }
}

/// A dictionary answers a comparison or a match by its values exactly if the other side is a constant
/// and there are no more values than codes. What it answers is then in canonical form, and is what
/// the rows of the dictionary give with the constant.
pub proof fn law_dictionary_answers(
    r: Result<Option<ArrayRef>, Error>,
    f: FnModel,
    array: &DictArray,
    operand: &ArrayRef,
)
    requires
        answers(r, f, array, operand),
        f is Like || (f matches FnModel::Binary(operator) && operator.spec_comparison() is Some),
        array.codes_model().within(array.values_model().len),
        array.codes_model().rows matches Some(c) ==> c.len() == array.codes_model().len,
        array.values_model().rows matches Some(v) ==> v.len() == array.values_model().len,
    ensures
        r == Ok::<Option<ArrayRef>, Error>(None) <==> !operand.is_constant()
            || array.values_model().len > array.codes_model().len,
        r matches Ok(Some(answer)) ==> answer.is_canonical() && rowwise_model(
            f,
            array.codes_model(),
            array.values_model(),
            operand.constant_scalar(),
        ) == Ok::<LazyModel, Error>(answer@),
{
    let (codes, values) = (array.codes_model(), array.values_model());
    let constant = operand.constant_scalar();
    match f {
        FnModel::Like(options) => {
            law_dict_like(options, codes, values, constant);
        },
        FnModel::Binary(operator) => {
            let comparison = operator.spec_comparison()->0;
            assert(Operator::of(comparison) == operator);
            law_dict_compare(comparison, codes, values, constant);
        },
        _ => {},
    }
}

} // verus!
