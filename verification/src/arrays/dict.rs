//! Comparisons and matches of dictionaries against a constant, computed on the dictionary's values.

use vstd::prelude::*;

use crate::arrays::array::{
    all_null, all_rows, dict_model, fn_model, lazy_dtypes, lemma_rows_len, row_of, ArrayRef,
    DictArray, LazyModel,
};
use crate::arrays::canonical::{constant_model, take_canonical, ArrayModel};
use crate::dtype::{lemma_nullability, Nullability};
use crate::error::Error;
use crate::scalar::{ScalarModel, Value};
use crate::scalar_fn::{CompareOperator, FnModel, Like, LikeOptions, Operator};

verus! {

/// Whether it pays to compute on the values of a dictionary instead of decoding it: not if it has
/// more values than codes.
pub fn should_execute_dictionary_values(values_len: usize, codes_len: usize) -> (r: bool)
    ensures
        r == (values_len <= codes_len),
{
    values_len <= codes_len
}

/// What a binary function gives on the values of a dictionary and a constant, looked up by the
/// codes.
pub open spec fn kernel_model(
    f: FnModel,
    codes: LazyModel,
    values: LazyModel,
    constant: ScalarModel,
) -> Result<LazyModel, Error> {
    let constants = LazyModel::of(constant_model(constant, values.len));
    match fn_model(f, seq![values, constants], values.len) {
        Ok(result) => match (result.rows, codes.rows) {
            (Some(v), Some(c)) => {
                let taken = (ArrayModel { dtype: result.dtype, rows: v }).take(
                    ArrayModel { dtype: codes.dtype, rows: c },
                );
                Ok(LazyModel::of(taken))
            },
            _ => Err(Error::Overflow),
        },
        Err(error) => Err(error),
    }
}

/// Whether `r` is what a kernel answers for a dictionary and the other operand: nothing if it
/// does not pay or the operand is not a constant, and otherwise a canonical array.
pub open spec fn answers(
    r: Result<Option<ArrayRef>, Error>,
    f: FnModel,
    array: &DictArray,
    operand: &ArrayRef,
) -> bool {
    let pays = array.values_model().len <= array.codes_model().len;
    let result = kernel_model(
        f,
        array.codes_model(),
        array.values_model(),
        operand.constant_scalar(),
    );
    match r {
        Ok(None) => !(pays && operand.is_constant()),
        Ok(Some(array)) => {
            &&& pays && operand.is_constant()
            &&& array.is_canonical()
            &&& result == Ok::<LazyModel, Error>(array@)
        },
        Err(error) => {
            &&& pays && operand.is_constant()
            &&& result == Err::<LazyModel, Error>(error)
        },
    }
}

/// Computes what was computed on the values of a dictionary, and looks it up by the codes.
fn take_executed(result: &ArrayRef, array: &DictArray) -> (r: Result<ArrayRef, Error>)
    requires
        result@.len == array.values_model().len,
        result.size() <= array.size(),
    ensures
        match (result@.rows, array.codes_model().rows) {
            (Some(v), Some(c)) => r matches Ok(taken) && taken.is_canonical() && taken@
                == LazyModel::of(
                (ArrayModel { dtype: result@.dtype, rows: v }).take(
                    ArrayModel { dtype: array.codes_model().dtype, rows: c },
                ),
            ),
            _ => r matches Err(error) && error == Error::Overflow,
        },
    decreases array.size(), 4nat,
{
    proof {
        lemma_rows_len(result);
    }
    let values = match result.execute() {
        Ok(values) => values,
        Err(error) => {
            return Err(error);
        },
    };
    let codes = match array.codes().execute() {
        Ok(codes) => codes,
        Err(error) => {
            return Err(error);
        },
    };
    match codes.as_primitive() {
        Some(codes) => Ok(ArrayRef::canonical(take_canonical(&values, codes))),
        None => Err(Error::Overflow),
    }
}

/// The operations that dictionaries have a way of their own for.
pub struct Dict;

impl Dict {
    /// Compares a dictionary with a constant by comparing its values. The result is not a
    /// dictionary but canonical. There is none where it does not pay or `right` is no constant.
    pub fn compare(left: &DictArray, right: &ArrayRef, operator: CompareOperator) -> (r: Result<
        Option<ArrayRef>,
        Error,
    >)
        ensures
            answers(r, FnModel::Binary(Operator::of(operator)), left, right),
        decreases left.size(), 5nat,
    {
        let len = left.values().len();
        if !should_execute_dictionary_values(len, left.codes().len()) {
            return Ok(None);
        }
        match right.as_constant() {
            Some(constant) => {
                let constants = ArrayRef::constant(constant.clone(), len);
                match left.values().binary(constants, Operator::from(operator)) {
                    Ok(result) => match take_executed(&result, left) {
                        Ok(taken) => Ok(Some(taken)),
                        Err(error) => Err(error),
                    },
                    Err(error) => Err(error),
                }
            },
            None => Ok(None),
        }
    }

    /// Matches a dictionary against a constant pattern by matching its values. The result is not
    /// a dictionary but canonical. There is none where it does not pay or `pattern` is no
    /// constant.
    pub fn like(array: &DictArray, pattern: &ArrayRef, options: LikeOptions) -> (r: Result<
        Option<ArrayRef>,
        Error,
    >)
        ensures
            answers(r, FnModel::Like(options), array, pattern),
        decreases array.size(), 5nat,
    {
        let len = array.values().len();
        if !should_execute_dictionary_values(len, array.codes().len()) {
            return Ok(None);
        }
        match pattern.as_constant() {
            Some(constant) => {
                let patterns = ArrayRef::constant(constant.clone(), len);
                match Like::try_new(array.values().clone(), patterns, options) {
                    Ok(result) => match take_executed(&ArrayRef::scalar_fn(result), array) {
                        Ok(taken) => Ok(Some(taken)),
                        Err(error) => Err(error),
                    },
                    Err(error) => Err(error),
                }
            },
            None => Ok(None),
        }
    }
}

/// What a binary function gives on the rows of a dictionary and a constant.
pub open spec fn rowwise_model(
    f: FnModel,
    codes: LazyModel,
    values: LazyModel,
    constant: ScalarModel,
) -> Result<LazyModel, Error> {
    let dict = dict_model(codes, values);
    let constants = LazyModel::of(constant_model(constant, dict.len));
    fn_model(f, seq![dict, constants], dict.len)
}

/// Whether computing on the values of a dictionary agrees with computing on its rows: where the
/// former has a result, the latter has the same result, a type error of one is one of the other,
/// and where some row is looked up an overflow of one is one of the other.
pub open spec fn agree(
    f: FnModel,
    codes: LazyModel,
    values: LazyModel,
    constant: ScalarModel,
) -> bool {
    let rowwise = rowwise_model(f, codes, values, constant);
    match kernel_model(f, codes, values, constant) {
        Ok(result) => rowwise == Ok::<LazyModel, Error>(result),
        Err(Error::Overflow) => rowwise matches Ok(result) && (result.rows is None
            || codes.len == 0 || (codes.rows matches Some(c) && all_null(c))),
        Err(error) => rowwise == Err::<LazyModel, Error>(error),
    }
}

/// The proof of [`law_dict_compare`] and [`law_dict_like`]: they hold of every function of two
/// arguments that is null on a null first argument, never overflows, and whose type is a boolean,
/// nullable as soon as an argument is.
proof fn lemma_agree(f: FnModel, codes: LazyModel, values: LazyModel, constant: ScalarModel)
    requires
        f is Like || (f matches FnModel::Binary(operator) && operator.spec_comparison() is Some),
        codes.within(values.len),
        codes.rows matches Some(c) ==> c.len() == codes.len,
        values.rows matches Some(v) ==> v.len() == values.len,
    ensures
        agree(f, codes, values, constant),
{
    let dict = dict_model(codes, values);
    let on_values = seq![values, LazyModel::of(constant_model(constant, values.len))];
    let on_rows = seq![dict, LazyModel::of(constant_model(constant, dict.len))];
    lemma_nullability(
        values.dtype,
        values.dtype.nullability().spec_union(codes.dtype.nullability()),
        Nullability::Nullable,
    );
    assert(lazy_dtypes(on_values) =~= seq![values.dtype, constant.dtype]);
    assert(lazy_dtypes(on_rows) =~= seq![dict.dtype, constant.dtype]);
    assert(on_values[0] == values && on_rows[0] == dict);
    assert(on_values[1].len == values.len && on_rows[1].len == dict.len);
    if let Ok(v_dtype) = f.return_dtype(lazy_dtypes(on_values)) {
        let r_dtype = f.return_dtype(lazy_dtypes(on_rows))->Ok_0;
        assert(v_dtype is Bool);
        assert(r_dtype == v_dtype.union_nullability(codes.dtype.nullability()));
        if dict.rows is Some {
            assert(all_rows(on_rows) is Some);
            let columns = all_rows(on_rows)->0;
            assert forall|i: int| #![trigger row_of(columns, i)] 0 <= i < dict.len implies f.row(
                r_dtype,
                row_of(columns, i),
            ) is Some by {}
        }
        if values.rows is Some {
            assert(all_rows(on_values) is Some);
            let columns = all_rows(on_values)->0;
            assert forall|i: int| #![trigger row_of(columns, i)] 0 <= i < values.len implies f.row(
                v_dtype,
                row_of(columns, i),
            ) is Some by {}
            if codes.rows is Some {
                let kernel = kernel_model(f, codes, values, constant)->Ok_0;
                let rowwise = rowwise_model(f, codes, values, constant)->Ok_0;
                let codes_rows = codes.rows->0;
                assert(dict.rows is Some);
                assert(rowwise.rows is Some);
                assert forall|i: int| 0 <= i < codes.len implies kernel.rows->0[i]
                    == rowwise.rows->0[i] by {
                    let row = row_of(all_rows(on_rows)->0, i);
                    assert(row[0] == dict.rows->0[i]);
                    assert(row[1] == constant.value);
                    if let Value::Int(c) = codes_rows[i] {
                        let there = row_of(columns, c);
                        assert(there[0] == values.rows->0[c]);
                        assert(there[1] == constant.value);
                    }
                }
                assert(kernel.rows->0 =~= rowwise.rows->0);
            }
        } else {
            assert(on_values[0].rows is None);
        }
    }
}

/// Comparing the values of a dictionary with a constant and looking the outcome up by the codes
/// agrees with comparing the rows of the dictionary with the constant.
pub proof fn law_dict_compare(
    operator: CompareOperator,
    codes: LazyModel,
    values: LazyModel,
    constant: ScalarModel,
)
    requires
        codes.within(values.len),
        codes.rows matches Some(c) ==> c.len() == codes.len,
        values.rows matches Some(v) ==> v.len() == values.len,
    ensures
        agree(FnModel::Binary(Operator::of(operator)), codes, values, constant),
{
    lemma_agree(FnModel::Binary(Operator::of(operator)), codes, values, constant);
}

/// Matching the values of a dictionary against a constant pattern and looking the outcome up by
/// the codes agrees with matching the rows of the dictionary against the pattern.
pub proof fn law_dict_like(
    options: LikeOptions,
    codes: LazyModel,
    values: LazyModel,
    constant: ScalarModel,
)
    requires
        codes.within(values.len),
        codes.rows matches Some(c) ==> c.len() == codes.len,
        values.rows matches Some(v) ==> v.len() == values.len,
    ensures
        agree(FnModel::Like(options), codes, values, constant),
{
    lemma_agree(FnModel::Like(options), codes, values, constant);
}

} // verus!
