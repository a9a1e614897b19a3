//! Arrays in any encoding, and their execution into canonical form.

use std::sync::Arc;
use vstd::prelude::*;

use crate::arrays::canonical::{
    constant_model, nulls, take_canonical, ArrayModel, Canonical,
};
use crate::arrays::dict::{kernel_model, law_dict_compare, law_dict_like, Dict};
use crate::arrays::evaluate::{column_dtypes, evaluate, rows_of};
use crate::dtype::{lemma_nullability, DType, Nullability, TypeModel};
use crate::error::Error;
use crate::scalar::{Scalar, ScalarModel, Value};
use crate::scalar_fn::{types_of, FnModel, Like, LikeOptions, Operator, ScalarFnRef};
use crate::shared::share;

verus! {

/// The mathematical content of an array that may still have to be computed: its type, its number
/// of rows, and the rows, if computing them does not overflow.
#[verifier::ext_equal]
pub struct LazyModel {
    pub dtype: TypeModel,
    pub len: nat,
    pub rows: Option<Seq<Value>>,
}

impl LazyModel {
    /// The content of an array whose rows are there.
    pub open spec fn of(array: ArrayModel) -> LazyModel {
        LazyModel { dtype: array.dtype, len: array.rows.len(), rows: Some(array.rows) }
    }

    /// Whether these are unsigned integers.
    pub open spec fn is_unsigned(self) -> bool {
        match self.dtype {
            TypeModel::Primitive(ptype, _) => ptype.spec_is_unsigned(),
            _ => false,
        }
    }

    /// Whether every code that is not null selects a row of an array with `len` rows.
    pub open spec fn within(self, len: nat) -> bool {
        match self.rows {
            Some(rows) => (ArrayModel { dtype: self.dtype, rows }).within(len),
            None => true,
        }
    }
}

/// An array in some encoding, cheap to copy.
#[derive(Debug)]
pub struct ArrayRef {
    inner: Arc<Encoding>,
}

/// The encodings of an array.
#[derive(Debug)]
pub enum Encoding {
    /// The rows as they are.
    Canonical(Arc<Canonical>),
    /// One value for all rows.
    Constant(ConstantArray),
    /// Codes into a list of values.
    Dict(DictArray),
    /// A scalar function applied to other arrays row by row, when it is executed.
    ScalarFn(ScalarFnArray),
}

/// An array of one value.
#[derive(Debug)]
pub struct ConstantArray {
    scalar: Scalar,
    len: usize,
}

/// An array whose rows are looked up in a list of values by their codes.
#[derive(Debug)]
pub struct DictArray {
    codes: ArrayRef,
    values: ArrayRef,
}

/// A scalar function applied to arrays of one length.
#[derive(Debug)]
pub struct ScalarFnArray {
    scalar_fn: ScalarFnRef,
    children: Vec<ArrayRef>,
    dtype: DType,
    len: usize,
}

/// The content of a dictionary. The values count only where some code is not null.
pub open spec fn dict_model(codes: LazyModel, values: LazyModel) -> LazyModel {
    LazyModel {
        dtype: values.dtype.union_nullability(codes.dtype.nullability()),
        len: codes.len,
        rows: if codes.len == 0 {
            Some(Seq::empty())
        } else {
            match codes.rows {
                None => None,
                Some(c) => if all_null(c) {
                    Some(nulls(codes.len))
                } else {
                    match values.rows {
                        None => None,
                        Some(v) => Some(
                            ArrayModel { dtype: values.dtype, rows: v }.take(
                                ArrayModel { dtype: codes.dtype, rows: c },
                            ).rows,
                        ),
                    }
                },
            }
        },
    }
}

/// Whether every row is null.
pub open spec fn all_null(rows: Seq<Value>) -> bool {
    forall|i: int| 0 <= i < rows.len() ==> rows[i] == Value::Null
}

/// The rows of each of a list of arrays, if none overflows.
pub open spec fn all_rows(children: Seq<LazyModel>) -> Option<Seq<Seq<Value>>> {
    if forall|k: int| 0 <= k < children.len() ==> (#[trigger] children[k]).rows is Some {
        Some(Seq::new(children.len(), |k: int| children[k].rows->0))
    } else {
        None
    }
}

/// Row `i` of each of a list of columns.
pub open spec fn row_of(columns: Seq<Seq<Value>>, i: int) -> Seq<Value> {
    Seq::new(columns.len(), |k: int| columns[k][i])
}

/// What a scalar function computes on `len` rows of columns, if it overflows on none.
pub open spec fn fn_rows(
    f: FnModel,
    dtype: TypeModel,
    columns: Option<Seq<Seq<Value>>>,
    len: nat,
) -> Option<Seq<Value>> {
    match columns {
        None => None,
        Some(columns) => if forall|i: int|
            #![trigger row_of(columns, i)]
            0 <= i < len ==> f.row(dtype, row_of(columns, i)) is Some {
            Some(Seq::new(len, |i: int| f.row(dtype, row_of(columns, i))->0))
        } else {
            None
        },
    }
}

/// The content of a scalar function applied to arrays of `len` rows, or why it cannot be applied
/// to them.
pub open spec fn fn_model(f: FnModel, children: Seq<LazyModel>, len: nat) -> Result<
    LazyModel,
    Error,
> {
    if children.len() != f.arity() {
        Err(Error::ArityMismatch)
    } else if exists|k: int| 0 <= k < children.len() && (#[trigger] children[k]).len != len {
        Err(Error::InvalidArray)
    } else {
        match f.return_dtype(lazy_dtypes(children)) {
            Ok(dtype) => Ok(
                LazyModel { dtype, len, rows: fn_rows(f, dtype, all_rows(children), len) },
            ),
            Err(error) => Err(error),
        }
    }
}

/// The contents of a list of arrays.
pub open spec fn lazies_of(children: Seq<ArrayRef>) -> Seq<LazyModel>
    decreases children,
{
    Seq::new(
        children.len(),
        |k: int|
            if 0 <= k < children.len() {
                children[k].view()
            } else {
                arbitrary()
            },
    )
}

/// The types of a list of arrays.
pub open spec fn lazy_dtypes(children: Seq<LazyModel>) -> Seq<TypeModel> {
    Seq::new(children.len(), |k: int| children[k].dtype)
}

impl ArrayRef {
    /// The content of this array.
    pub closed spec fn view(&self) -> LazyModel
        decreases self,
    {
        self.inner.view()
    }
}

impl Encoding {
    /// The content of this array.
    pub open spec fn view(&self) -> LazyModel
        decreases self,
    {
        match self {
            Encoding::Canonical(array) => LazyModel::of(array@),
            Encoding::Constant(array) => array.view(),
            Encoding::Dict(array) => array.view(),
            Encoding::ScalarFn(array) => array.view(),
        }
    }
}

impl ConstantArray {
    /// The content of this array.
    pub closed spec fn view(&self) -> LazyModel {
        LazyModel::of(constant_model(self.scalar@, self.len as nat))
    }

    /// The array of `len` rows that are all `scalar`.
    pub fn new(scalar: Scalar, len: usize) -> (r: ConstantArray)
        ensures
            r@ == LazyModel::of(constant_model(scalar@, len as nat)),
    {
        ConstantArray { scalar, len }
    }

    /// The value of every row.
    pub fn scalar(&self) -> (r: &Scalar)
        ensures
            self@ == LazyModel::of(constant_model(r@, self@.len)),
    {
        &self.scalar
    }
}

impl DictArray {
    #[verifier::type_invariant]
    spec fn inv(self) -> bool {
        &&& self.codes.view().is_unsigned()
        &&& self.codes.view().within(self.values.view().len)
    }

    /// The content of the codes.
    pub closed spec fn codes_model(&self) -> LazyModel {
        self.codes.view()
    }

    /// The content of the values.
    pub closed spec fn values_model(&self) -> LazyModel {
        self.values.view()
    }

    /// The content of this array.
    pub closed spec fn view(&self) -> LazyModel
        decreases self,
    {
        dict_model(self.codes.view(), self.values.view())
    }
}

impl ScalarFnArray {
    #[verifier::type_invariant]
    spec fn inv(self) -> bool {
        &&& self.children@.len() == self.scalar_fn@.arity()
        &&& self.scalar_fn@.return_dtype(lazy_dtypes(lazies_of(self.children@))) == Ok::<
            TypeModel,
            Error,
        >(self.dtype@)
        &&& forall|k: int|
            0 <= k < self.children@.len() ==> (#[trigger] self.children@[k]).view().len == self.len
    }

    /// The content of this array.
    pub closed spec fn view(&self) -> LazyModel
        decreases self,
    {
        LazyModel {
            dtype: self.dtype@,
            len: self.len as nat,
            rows: fn_rows(
                self.scalar_fn@,
                self.dtype@,
                all_rows(lazies_of(self.children@)),
                self.len as nat,
            ),
        }
    }
}

impl ArrayRef {
    /// The number of encodings that this array is made of.
    pub closed spec fn size(&self) -> nat
        decreases self,
    {
        match *self.inner {
            Encoding::Dict(array) => array.size(),
            Encoding::ScalarFn(array) => array.size(),
            _ => 1,
        }
    }
}

impl DictArray {
    /// The number of encodings that this array is made of.
    pub closed spec fn size(&self) -> nat
        decreases self,
    {
        1 + self.codes.size() + self.values.size()
    }
}

impl ScalarFnArray {
    /// The number of encodings that this array is made of.
    pub closed spec fn size(&self) -> nat
        decreases self,
    {
        1 + sizes(self.children@)
    }
}

/// The number of encodings that a list of arrays is made of.
pub open spec fn sizes(children: Seq<ArrayRef>) -> nat
    decreases children,
{
    if children.len() == 0 {
        0
    } else {
        sizes(children.drop_last()) + children.last().size()
    }
}

/// Every array is made of one encoding at least.
proof fn lemma_size(array: &ArrayRef)
    ensures
        array.size() >= 1,
{
}

/// Two arrays are made of what each is made of.
proof fn lemma_sizes_of_two(children: Seq<ArrayRef>)
    requires
        children.len() == 2,
    ensures
        sizes(children) == children[0].size() + children[1].size(),
{
    reveal_with_fuel(sizes, 3);
    assert(children.drop_last().last() == children[0]);
}

/// No array of a list is made of more encodings than the list.
proof fn lemma_sizes(children: Seq<ArrayRef>, k: int)
    requires
        0 <= k < children.len(),
    ensures
        children[k].size() <= sizes(children),
    decreases children.len(),
{
    if k < children.len() - 1 {
        assert(children.drop_last()[k] == children[k]);
        lemma_sizes(children.drop_last(), k);
    }
}

/// An array has as many rows as it says.
pub proof fn lemma_rows_len(array: &ArrayRef)
    ensures
        array@.rows matches Some(rows) ==> rows.len() == array@.len,
    decreases array,
{
    match &*array.inner {
        Encoding::Dict(dict) => {
            lemma_rows_len(&dict.codes);
        },
        _ => {},
    }
}

impl ArrayRef {
    /// An array whose rows are there.
    pub fn canonical(array: Canonical) -> (r: ArrayRef)
        ensures
            r@ == LazyModel::of(array@),
            r.is_canonical(),
    {
        ArrayRef { inner: Arc::new(Encoding::Canonical(Arc::new(array))) }
    }

    /// An array of `len` rows that are all `scalar`.
    pub fn constant(scalar: Scalar, len: usize) -> (r: ArrayRef)
        ensures
            r@ == LazyModel::of(constant_model(scalar@, len as nat)),
            r.is_constant(),
            r.constant_scalar() == scalar@,
            r.size() == 1,
    {
        ArrayRef { inner: Arc::new(Encoding::Constant(ConstantArray { scalar, len })) }
    }

    /// A dictionary.
    pub fn dict(array: DictArray) -> (r: ArrayRef)
        ensures
            r@ == array@,
    {
        ArrayRef { inner: Arc::new(Encoding::Dict(array)) }
    }

    /// A scalar function applied to arrays.
    pub fn scalar_fn(array: ScalarFnArray) -> (r: ArrayRef)
        ensures
            r@ == array@,
            r.size() == array.size(),
    {
        ArrayRef { inner: Arc::new(Encoding::ScalarFn(array)) }
    }

    /// The encoding of this array.
    pub fn encoding(&self) -> (r: &Encoding)
        ensures
            r@ == self@,
    {
        &self.inner
    }

    /// The type of this array.
    pub fn dtype(&self) -> (r: DType)
        ensures
            r@ == self@.dtype,
        decreases self,
    {
        match &*self.inner {
            Encoding::Canonical(array) => array.dtype(),
            Encoding::Constant(array) => array.scalar.dtype().clone(),
            Encoding::Dict(array) => array.values.dtype().union_nullability(
                array.codes.dtype().nullability(),
            ),
            Encoding::ScalarFn(array) => array.dtype.clone(),
        }
    }

    /// The number of rows.
    pub fn len(&self) -> (r: usize)
        ensures
            r == self@.len,
        decreases self,
    {
        match &*self.inner {
            Encoding::Canonical(array) => array.len(),
            Encoding::Constant(array) => array.len,
            Encoding::Dict(array) => array.codes.len(),
            Encoding::ScalarFn(array) => array.len,
        }
    }

    /// The rows of this array, if it is in canonical form.
    pub fn as_canonical(&self) -> (r: Option<&Canonical>)
        ensures
            r is Some <==> self.is_canonical(),
            r matches Some(array) ==> self@ == LazyModel::of(array@),
    {
        match &*self.inner {
            Encoding::Canonical(array) => Some(array),
            _ => None,
        }
    }

    /// The shared rows of this array, if it is in canonical form.
    fn canonical_rows(&self) -> (r: Option<Arc<Canonical>>)
        ensures
            r is Some <==> self.is_canonical(),
            r matches Some(array) ==> self@ == LazyModel::of(array@),
    {
        match &*self.inner {
            Encoding::Canonical(array) => Some(share(array)),
            _ => None,
        }
    }

    /// Whether this array is in canonical form.
    pub closed spec fn is_canonical(&self) -> bool {
        *self.inner is Canonical
    }

    /// The value of every row, if this array is encoded as a constant.
    pub fn as_constant(&self) -> (r: Option<&Scalar>)
        ensures
            r is Some <==> self.is_constant(),
            r matches Some(scalar) ==> self@ == LazyModel::of(
                constant_model(scalar@, self@.len),
            ) && scalar@ == self.constant_scalar(),
    {
        match &*self.inner {
            Encoding::Constant(array) => Some(&array.scalar),
            _ => None,
        }
    }

    /// Whether this array is encoded as a constant.
    pub closed spec fn is_constant(&self) -> bool {
        *self.inner is Constant
    }

    /// The value of every row of an array encoded as a constant.
    pub closed spec fn constant_scalar(&self) -> ScalarModel {
        match *self.inner {
            Encoding::Constant(array) => array.scalar@,
            _ => arbitrary(),
        }
    }

    /// A binary operation on this array and `right`, to be computed when it is executed.
    pub fn binary(&self, right: ArrayRef, operator: Operator) -> (r: Result<ArrayRef, Error>)
        ensures
            match r {
                Ok(array) => fn_model(
                    FnModel::Binary(operator),
                    seq![self@, right@],
                    self@.len,
                ) == Ok::<LazyModel, Error>(array@),
                Err(error) => fn_model(
                    FnModel::Binary(operator),
                    seq![self@, right@],
                    self@.len,
                ) == Err::<LazyModel, Error>(error),
            },
            r matches Ok(array) ==> array.size() == 1 + self.size() + right.size(),
    {
        let children = vec![self.clone(), right];
        assert(lazies_of(children@) =~= seq![self@, right@]);
        proof {
            lemma_sizes_of_two(children@);
        }
        match ScalarFnArray::try_new_with_len(ScalarFnRef::Binary(operator), children, self.len()) {
            Ok(array) => Ok(ArrayRef::scalar_fn(array)),
            Err(error) => Err(error),
        }
    }

    /// Computes the rows of this array, unless an integer operation overflows.
    pub fn execute(&self) -> (r: Result<Arc<Canonical>, Error>)
        ensures
            match r {
                Ok(array) => self@ == LazyModel::of(array@),
                Err(error) => self@.rows is None && error == Error::Overflow,
            },
        decreases self.size(), 3nat,
    {
        match &*self.inner {
            Encoding::Canonical(array) => Ok(share(array)),
            Encoding::Constant(array) => {
                let rows = Canonical::constant(&array.scalar, array.len);
                Ok(Arc::new(rows))
            },
            Encoding::Dict(array) => match decode_dictionary(array) {
                Ok(rows) => Ok(Arc::new(rows)),
                Err(error) => Err(error),
            },
            Encoding::ScalarFn(array) => execute_scalar_fn(array),
        }
    }
}

impl Clone for ArrayRef {
    fn clone(&self) -> (r: ArrayRef)
        ensures
            r == *self,
    {
        ArrayRef { inner: share(&self.inner) }
    }
}

impl DictArray {
    /// The dictionary with the given codes and values, refused unless the codes are unsigned
    /// integers. Codes that are not null must lie within the values.
    pub fn try_new(codes: ArrayRef, values: ArrayRef) -> (r: Result<DictArray, Error>)
        requires
            codes@.within(values@.len),
        ensures
            r is Ok <==> codes@.is_unsigned(),
            r matches Ok(array) ==> array.codes_model() == codes@ && array.values_model()
                == values@ && array@ == dict_model(codes@, values@),
            r matches Err(error) ==> error == Error::InvalidArray,
    {
        match codes.dtype() {
            DType::Primitive(ptype, _) => if ptype.is_unsigned() {
                Ok(DictArray { codes, values })
            } else {
                Err(Error::InvalidArray)
            },
            _ => Err(Error::InvalidArray),
        }
    }

    /// The codes.
    pub fn codes(&self) -> (r: &ArrayRef)
        ensures
            r@ == self.codes_model(),
            r@.is_unsigned(),
            r@.within(self.values_model().len),
            self@ == dict_model(self.codes_model(), self.values_model()),
            r.size() < self.size(),
    {
        proof {
            use_type_invariant(self);
        }
        &self.codes
    }

    /// The values.
    pub fn values(&self) -> (r: &ArrayRef)
        ensures
            r@ == self.values_model(),
            self@ == dict_model(self.codes_model(), self.values_model()),
            r.size() + 2 <= self.size(),
    {
        proof {
            lemma_size(&self.codes);
        }
        &self.values
    }
}

impl ScalarFnArray {
    /// A scalar function applied to arrays of `len` rows, refused when the number of arrays does
    /// not match its arity, one of them does not have `len` rows, or their types do not fit.
    pub fn try_new_with_len(scalar_fn: ScalarFnRef, children: Vec<ArrayRef>, len: usize) -> (r:
        Result<ScalarFnArray, Error>)
        ensures
            match r {
                Ok(array) => fn_model(scalar_fn@, lazies_of(children@), len as nat) == Ok::<
                    LazyModel,
                    Error,
                >(array@),
                Err(error) => fn_model(scalar_fn@, lazies_of(children@), len as nat) == Err::<
                    LazyModel,
                    Error,
                >(error),
            },
            r matches Ok(array) ==> array.size() == 1 + sizes(children@),
    {
        let ghost models = lazies_of(children@);
        if !scalar_fn.arity_matches(children.len()) {
            return Err(Error::ArityMismatch);
        }
        let mut dtypes: Vec<DType> = Vec::new();
        let mut k: usize = 0;
        while k < children.len()
            invariant
                k <= children@.len() == models.len() == scalar_fn@.arity(),
                models == lazies_of(children@),
                dtypes@.len() == k,
                forall|j: int| 0 <= j < k ==> (#[trigger] dtypes@[j])@ == models[j].dtype,
                forall|j: int| 0 <= j < k ==> (#[trigger] models[j]).len == len,
            decreases children@.len() - k,
        {
            if children[k].len() != len {
                assert(models[k as int].len != len);
                return Err(Error::InvalidArray);
            }
            dtypes.push(children[k].dtype());
            k += 1;
        }
        assert(types_of(dtypes@) =~= lazy_dtypes(models));
        match scalar_fn.return_dtype(&dtypes) {
            Ok(dtype) => {
                proof {
                    assert forall|j: int| 0 <= j < children@.len() implies (
                    #[trigger] children@[j])@.len == len by {
                        assert(models[j].len == len);
                    }
                }
                Ok(ScalarFnArray { scalar_fn, children, dtype, len })
            },
            Err(error) => Err(error),
        }
    }
}

impl Like {
    /// The match of an array of texts against an array of patterns, to be computed when it is
    /// executed.
    pub fn try_new(array: ArrayRef, pattern: ArrayRef, options: LikeOptions) -> (r: Result<
        ScalarFnArray,
        Error,
    >)
        ensures
            match r {
                Ok(result) => fn_model(
                    FnModel::Like(options),
                    seq![array@, pattern@],
                    array@.len,
                ) == Ok::<LazyModel, Error>(result@),
                Err(error) => fn_model(
                    FnModel::Like(options),
                    seq![array@, pattern@],
                    array@.len,
                ) == Err::<LazyModel, Error>(error),
            },
            r matches Ok(result) ==> result.size() == 1 + array.size() + pattern.size(),
    {
        let len = array.len();
        let ghost models = seq![array@, pattern@];
        let children = vec![array, pattern];
        assert(lazies_of(children@) =~= models);
        proof {
            lemma_sizes_of_two(children@);
        }
        ScalarFnArray::try_new_with_len(ScalarFnRef::Like(options), children, len)
    }
}

/// Computes the rows of a scalar function applied to arrays.
fn execute_scalar_fn(array: &ScalarFnArray) -> (r: Result<Arc<Canonical>, Error>)
    ensures
        match r {
            Ok(rows) => array@ == LazyModel::of(rows@),
            Err(error) => array@.rows is None && error == Error::Overflow,
        },
    decreases array.size(), 2nat,
{
    if let Some(rows) = execute_dictionary(array) {
        return Ok(rows);
    }
    proof {
        use_type_invariant(array);
    }
    let ghost models = lazies_of(array.children@);
    let mut columns: Vec<Arc<Canonical>> = Vec::new();
    let mut k: usize = 0;
    while k < array.children.len()
        invariant
            k <= array.children@.len(),
            models == lazies_of(array.children@),
            columns@.len() == k,
            forall|j: int|
                0 <= j < k ==> models[j] == LazyModel::of((#[trigger] columns@[j])@),
        decreases array.children@.len() - k,
    {
        proof {
            lemma_sizes(array.children@, k as int);
        }
        match array.children[k].execute() {
            Ok(column) => {
                columns.push(column);
            },
            Err(error) => {
                assert(models[k as int].rows is None);
                return Err(error);
            },
        }
        k += 1;
    }
    proof {
        assert forall|j: int| 0 <= j < columns@.len() implies (#[trigger] columns@[j])@.rows.len()
            == array.len by {
            assert(array.children@[j]@.len == array.len);
        }
        assert(column_dtypes(columns@) =~= lazy_dtypes(models));
        assert(forall|j: int| 0 <= j < models.len() ==> (#[trigger] models[j]).rows is Some) by {
            assert forall|j: int| 0 <= j < models.len() implies (
            #[trigger] models[j]).rows is Some by {
                let column = columns@[j];
            }
        }
        assert(rows_of(columns@) =~= all_rows(models)->0);
    }
    match evaluate(&array.scalar_fn, &array.dtype, &columns, array.len) {
        Ok(rows) => Ok(Arc::new(rows)),
        Err(error) => Err(error),
    }
}

/// Whether a function is one that dictionaries have a kernel for: a comparison or a match.
spec fn has_dictionary_kernel(f: FnModel) -> bool {
    match f {
        FnModel::Binary(operator) => operator.spec_comparison() is Some,
        FnModel::Like(_) => true,
        _ => false,
    }
}

impl ScalarFnArray {
    /// Whether this is a comparison or a match of a dictionary with a constant that pays to compute
    /// on the dictionary's values, and that does not overflow there.
    spec fn is_answered_by_values(&self) -> bool {
        &&& self.children@.len() == 2
        &&& has_dictionary_kernel(self.scalar_fn@)
        &&& self.children@[1].is_constant()
        &&& *self.children@[0].inner matches Encoding::Dict(dict)
        &&& dict.values_model().len <= dict.codes_model().len
        &&& kernel_model(
            self.scalar_fn@,
            dict.codes_model(),
            dict.values_model(),
            self.children@[1].constant_scalar(),
        ) is Ok
    }
}

/// Computes a comparison or a match of a dictionary on the dictionary's values, if that pays.
/// There is nothing to gain from it in other cases, nor where it would fail.
fn execute_dictionary(array: &ScalarFnArray) -> (r: Option<Arc<Canonical>>)
    ensures
        r is Some <==> array.is_answered_by_values(),
        r matches Some(rows) ==> array@ == LazyModel::of(rows@),
    decreases array.size(), 1nat,
{
    if array.children.len() != 2 {
        return None;
    }
    proof {
        use_type_invariant(array);
        lemma_sizes(array.children@, 0);
        lemma_rows_len(&array.children@[0]);
    }
    let dict = match &*array.children[0].inner {
        Encoding::Dict(dict) => dict,
        _ => {
            return None;
        },
    };
    let operand = &array.children[1];
    let ghost codes = dict.codes_model();
    let ghost values = dict.values_model();
    proof {
        use_type_invariant(dict);
        lemma_rows_len(&dict.codes);
        lemma_rows_len(&dict.values);
        assert(array.children@[0]@.len == array.len && array.children@[1]@.len == array.len);
        assert(lazies_of(array.children@) =~= seq![array.children@[0]@, array.children@[1]@]);
    }
    let answer = match &array.scalar_fn {
        ScalarFnRef::Binary(operator) => match operator.comparison() {
            Some(comparison) => {
                proof {
                    law_dict_compare(comparison, codes, values, operand.constant_scalar());
                }
                Dict::compare(dict, operand, comparison)
            },
            None => Ok(None),
        },
        ScalarFnRef::Like(options) => {
            proof {
                law_dict_like(*options, codes, values, operand.constant_scalar());
            }
            Dict::like(dict, operand, *options)
        },
        _ => Ok(None),
    };
    match answer {
        Ok(Some(result)) => result.canonical_rows(),
        _ => None,
    }
}

/// Decodes a dictionary into the canonical array of its type.
///
/// The codes and the values are executed only as far as they count: neither for an empty
/// dictionary, and the values not where every code is null.
pub fn decode_dictionary(array: &DictArray) -> (r: Result<Canonical, Error>)
    ensures
        match r {
            Ok(rows) => array@ == LazyModel::of(rows@),
            Err(error) => array@.rows is None && error == Error::Overflow,
        },
    decreases array.size(), 2nat,
{
    proof {
        use_type_invariant(array);
        lemma_rows_len(&array.codes);
        lemma_rows_len(&array.values);
    }
    let nullability = array.codes.dtype().nullability();
    let dtype = array.values.dtype().union_nullability(nullability);
    if array.codes.len() == 0 {
        return Ok(Canonical::empty(&dtype));
    }
    let codes = match array.codes.execute() {
        Ok(codes) => codes,
        Err(error) => {
            return Err(error);
        },
    };
    match codes.as_primitive() {
        Some(codes) => {
            if codes.all_null() {
                let rows = Canonical::default_of(&dtype.as_nullable(), codes.len());
                proof {
                    let values = array.values.view().dtype;
                    lemma_nullability(values, Nullability::Nullable, Nullability::Nullable);
                    lemma_nullability(
                        values.as_nullable(),
                        Nullability::Nullable,
                        Nullability::Nullable,
                    );
                }
                return Ok(rows);
            }
            let values = match array.values.execute() {
                Ok(values) => values,
                Err(error) => {
                    return Err(error);
                },
            };
            Ok(take_canonical(&values, codes))
        },
        None => Err(Error::Overflow),
    }
}

} // verus!
