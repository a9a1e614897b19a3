//! Canonical arrays: one representation per logical type, with typed take kernels.

use std::sync::Arc;
use vstd::prelude::*;

use crate::arrays::compute::{bool_value, Leaf};
use crate::dtype::{
    field_in, lemma_nullability, named_types, DType, DecimalDType, Nullability, PType, TypeModel,
};
use crate::error::Error;
use crate::scalar::{
    clone_bytes, primitive_value, value_in, Scalar, ScalarModel, ScalarValue, Value,
};
use crate::scalar_fn::is_comparable;
use crate::shared::share;

verus! {

/// The mathematical content of an array: its type and the value of each row.
#[verifier::ext_equal]
pub struct ArrayModel {
    pub dtype: TypeModel,
    pub rows: Seq<Value>,
}

impl ArrayModel {
    /// The row of this array that code `code` selects: null for a null code.
    pub open spec fn pick(self, code: Value) -> Value {
        match code {
            Value::Int(c) => self.rows[c],
            _ => Value::Null,
        }
    }

    /// The array whose row `i` is the row that `codes` selects at `i`. It is nullable as soon as
    /// this array is or the codes are.
    pub open spec fn take(self, codes: ArrayModel) -> ArrayModel {
        ArrayModel {
            dtype: self.dtype.union_nullability(codes.dtype.nullability()),
            rows: Seq::new(codes.rows.len(), |i: int| self.pick(codes.rows[i])),
        }
    }

    /// Whether every code that is not null selects a row of an array with `len` rows.
    pub open spec fn within(self, len: nat) -> bool {
        forall|i: int|
            0 <= i < self.rows.len() ==> (#[trigger] self.rows[i] matches Value::Int(c) ==> 0 <= c
                < len)
    }
}

/// Which rows of an array are null.
#[derive(Debug, PartialEq, Eq)]
pub enum Validity {
    /// No row is null, and the type says so.
    NonNullable,
    /// No row is null.
    AllValid,
    /// Every row is null.
    AllInvalid,
    /// The rows marked `false` are null.
    Mask(Vec<bool>),
}

impl Validity {
    /// Whether row `i` holds a value.
    pub open spec fn valid(self, i: int) -> bool {
        match self {
            Validity::NonNullable | Validity::AllValid => true,
            Validity::AllInvalid => false,
            Validity::Mask(mask) => mask@[i],
        }
    }

    /// Whether this describes an array with `len` rows.
    pub open spec fn covers(self, len: nat) -> bool {
        match self {
            Validity::Mask(mask) => mask@.len() == len,
            _ => true,
        }
    }

    /// The nullability of an array with this validity.
    pub open spec fn spec_nullability(self) -> Nullability {
        match self {
            Validity::NonNullable => Nullability::NonNullable,
            _ => Nullability::Nullable,
        }
    }

    /// The nullability of an array with this validity.
    pub fn nullability(&self) -> (r: Nullability)
        ensures
            r == self.spec_nullability(),
    {
        match self {
            Validity::NonNullable => Nullability::NonNullable,
            _ => Nullability::Nullable,
        }
    }

    /// Whether row `i` holds a value.
    pub fn is_valid(&self, i: usize) -> (r: bool)
        requires
            self matches Validity::Mask(mask) ==> i < mask@.len(),
        ensures
            r == self.valid(i as int),
    {
        match self {
            Validity::NonNullable | Validity::AllValid => true,
            Validity::AllInvalid => false,
            Validity::Mask(mask) => mask[i],
        }
    }

    /// Whether all of the first `len` rows are null.
    pub fn all_null(&self, len: usize) -> (r: bool)
        requires
            self.covers(len as nat),
        ensures
            r == forall|i: int| 0 <= i < len ==> !self.valid(i),
    {
        match self {
            Validity::NonNullable | Validity::AllValid => {
                assert(len > 0 ==> self.valid(0));
                len == 0
            },
            Validity::AllInvalid => true,
            Validity::Mask(mask) => {
                let mut i: usize = 0;
                while i < len
                    invariant
                        i <= len,
                        mask@.len() == len,
                        *self == Validity::Mask(*mask),
                        forall|j: int| 0 <= j < i ==> !self.valid(j),
                    decreases len - i,
                {
                    if mask[i] {
                        assert(self.valid(i as int));
                        return false;
                    }
                    i += 1;
                }
                true
            },
        }
    }
}

/// An array of nulls.
#[derive(Debug, PartialEq, Eq)]
pub struct NullArray {
    len: usize,
}

impl NullArray {
    /// The content of this array.
    pub closed spec fn view(&self) -> ArrayModel {
        ArrayModel { dtype: TypeModel::Null, rows: Seq::new(self.len as nat, |i: int| Value::Null) }
    }

    /// An array of `len` nulls.
    pub fn new(len: usize) -> (r: NullArray)
        ensures
            r@ == (ArrayModel {
                dtype: TypeModel::Null,
                rows: Seq::new(len as nat, |i: int| Value::Null),
            }),
    {
        NullArray { len }
    }

    /// The number of rows.
    pub fn len(&self) -> (r: usize)
        ensures
            r == self@.rows.len(),
    {
        self.len
    }
}

/// An array of booleans.
#[derive(Debug, PartialEq, Eq)]
pub struct BoolArray {
    values: Vec<bool>,
    validity: Validity,
}

impl BoolArray {
    #[verifier::type_invariant]
    spec fn inv(self) -> bool {
        self.validity.covers(self.values@.len())
    }

    /// The content of this array.
    pub closed spec fn view(&self) -> ArrayModel {
        ArrayModel {
            dtype: TypeModel::Bool(self.validity.spec_nullability()),
            rows: Seq::new(
                self.values@.len(),
                |i: int|
                    if self.validity.valid(i) {
                        Value::Bool(self.values@[i])
                    } else {
                        Value::Null
                    },
            ),
        }
    }

    /// An array of booleans with the given validity.
    pub fn new(values: Vec<bool>, validity: Validity) -> (r: BoolArray)
        requires
            validity.covers(values@.len()),
        ensures
            r@ == (ArrayModel {
                dtype: TypeModel::Bool(validity.spec_nullability()),
                rows: Seq::new(
                    values@.len(),
                    |i: int|
                        if validity.valid(i) {
                            Value::Bool(values@[i])
                        } else {
                            Value::Null
                        },
                ),
            }),
    {
        BoolArray { values, validity }
    }

    /// The number of rows.
    pub fn len(&self) -> (r: usize)
        ensures
            r == self@.rows.len(),
    {
        self.values.len()
    }

    /// The nullability of this array.
    pub fn nullability(&self) -> (r: Nullability)
        ensures
            self@.dtype == TypeModel::Bool(r),
    {
        self.validity.nullability()
    }

    /// The value of row `i`, or nothing for a null.
    pub fn get(&self, i: usize) -> (r: Option<bool>)
        requires
            i < self@.rows.len(),
        ensures
            r matches Some(b) ==> self@.rows[i as int] == Value::Bool(b),
            r is None ==> self@.rows[i as int] == Value::Null && self@.dtype == TypeModel::Bool(
                Nullability::Nullable,
            ),
    {
        proof {
            use_type_invariant(self);
        }
        if self.validity.is_valid(i) {
            Some(self.values[i])
        } else {
            None
        }
    }
}

/// An array of primitives, each by its stored value.
#[derive(Debug, PartialEq, Eq)]
pub struct PrimitiveArray {
    ptype: PType,
    values: Vec<i128>,
    validity: Validity,
}

impl PrimitiveArray {
    #[verifier::type_invariant]
    spec fn inv(self) -> bool {
        &&& self.validity.covers(self.values@.len())
        &&& forall|i: int|
            0 <= i < self.values@.len() ==> self.ptype.holds(#[trigger] self.values@[i] as int)
    }

    /// The content of this array.
    pub closed spec fn view(&self) -> ArrayModel {
        ArrayModel {
            dtype: TypeModel::Primitive(self.ptype, self.validity.spec_nullability()),
            rows: Seq::new(
                self.values@.len(),
                |i: int|
                    if self.validity.valid(i) {
                        primitive_value(self.ptype, self.values@[i] as int)
                    } else {
                        Value::Null
                    },
            ),
        }
    }

    /// An array of primitives with the given validity.
    pub fn new(ptype: PType, values: Vec<i128>, validity: Validity) -> (r: PrimitiveArray)
        requires
            validity.covers(values@.len()),
            forall|i: int| 0 <= i < values@.len() ==> ptype.holds(#[trigger] values@[i] as int),
        ensures
            r@ == (ArrayModel {
                dtype: TypeModel::Primitive(ptype, validity.spec_nullability()),
                rows: Seq::new(
                    values@.len(),
                    |i: int|
                        if validity.valid(i) {
                            primitive_value(ptype, values@[i] as int)
                        } else {
                            Value::Null
                        },
                ),
            }),
    {
        PrimitiveArray { ptype, values, validity }
    }

    /// The number of rows.
    pub fn len(&self) -> (r: usize)
        ensures
            r == self@.rows.len(),
    {
        self.values.len()
    }

    /// The primitive type of this array.
    pub fn ptype(&self) -> (r: PType)
        ensures
            self@.dtype == TypeModel::Primitive(r, self@.dtype.nullability()),
    {
        self.ptype
    }

    /// The nullability of this array.
    pub fn nullability(&self) -> (r: Nullability)
        ensures
            r == self@.dtype.nullability(),
    {
        self.validity.nullability()
    }

    /// The stored value of row `i`, or nothing for a null.
    pub fn get(&self, i: usize) -> (r: Option<i128>)
        requires
            i < self@.rows.len(),
        ensures
            r matches Some(v) ==> {
                &&& self@.dtype matches TypeModel::Primitive(ptype, _)
                &&& ptype.holds(v as int)
                &&& self@.rows[i as int] == primitive_value(ptype, v as int)
            },
            r is None ==> self@.rows[i as int] == Value::Null && self@.dtype.nullability()
                == Nullability::Nullable,
    {
        proof {
            use_type_invariant(self);
        }
        if self.validity.is_valid(i) {
            Some(self.values[i])
        } else {
            None
        }
    }

    /// Whether these are codes into an array with `len` rows: integers, and in range where they
    /// are not null.
    pub open spec fn selects_from(&self, len: nat) -> bool {
        &&& self@.dtype matches TypeModel::Primitive(ptype, _)
        &&& !ptype.spec_is_float()
        &&& self@.within(len)
    }

    /// The row that code `i` selects out of `len`, or nothing for a null code.
    pub fn code(&self, i: usize, len: usize) -> (r: Option<usize>)
        requires
            i < self@.rows.len(),
            self.selects_from(len as nat),
        ensures
            r matches Some(c) ==> self@.rows[i as int] == Value::Int(c as int) && c < len,
            r is None ==> self@.rows[i as int] == Value::Null && self@.dtype.nullability()
                == Nullability::Nullable,
    {
        match self.get(i) {
            None => None,
            Some(v) => {
                assert(self@.rows[i as int] == Value::Int(v as int));
                Some(v as usize)
            },
        }
    }

    /// Whether every row is null.
    pub fn all_null(&self) -> (r: bool)
        ensures
            r == forall|i: int| 0 <= i < self@.rows.len() ==> self@.rows[i] == Value::Null,
            r && self@.rows.len() > 0 ==> self@.dtype.nullability() == Nullability::Nullable,
    {
        proof {
            use_type_invariant(self);
        }
        let r = self.validity.all_null(self.values.len());
        proof {
            if !r {
                let i = choose|i: int| 0 <= i < self.values@.len() && self.validity.valid(i);
                assert(self@.rows[i] != Value::Null);
            } else if self@.rows.len() > 0 {
                assert(!self.validity.valid(0));
            }
        }
        r
    }
}

/// The validity of what `codes` select out of an array with this validity.
fn take_validity(validity: &Validity, len: usize, codes: &PrimitiveArray) -> (r: Validity)
    requires
        validity.covers(len as nat),
        codes.selects_from(len as nat),
    ensures
        r.covers(codes@.rows.len()),
        r.spec_nullability() == validity.spec_nullability().spec_union(codes@.dtype.nullability()),
        forall|i: int|
            0 <= i < codes@.rows.len() ==> #[trigger] r.valid(i) == (
            codes@.rows[i] matches Value::Int(c) && validity.valid(c)),
{
    if validity.nullability().union(codes.nullability()) == Nullability::NonNullable {
        proof {
            use_type_invariant(codes);
        }
        return Validity::NonNullable;
    }
    let mut mask: Vec<bool> = Vec::new();
    let mut i: usize = 0;
    while i < codes.len()
        invariant
            i <= codes@.rows.len(),
            mask@.len() == i,
            validity.covers(len as nat),
            codes.selects_from(len as nat),
            forall|j: int|
                0 <= j < i ==> #[trigger] mask@[j] == (codes@.rows[j] matches Value::Int(c)
                    && validity.valid(c)),
        decreases codes@.rows.len() - i,
    {
        let valid = match codes.code(i, len) {
            None => false,
            Some(c) => validity.is_valid(c),
        };
        mask.push(valid);
        i += 1;
    }
    Validity::Mask(mask)
}

/// The stored integers that `codes` select; zero for a null code.
fn take_integers(values: &Vec<i128>, codes: &PrimitiveArray) -> (r: Vec<i128>)
    requires
        codes.selects_from(values@.len()),
    ensures
        r@.len() == codes@.rows.len(),
        forall|i: int|
            #![trigger r@[i]]
            0 <= i < r@.len() ==> match codes@.rows[i] {
                Value::Int(c) => r@[i] == values@[c],
                _ => r@[i] == 0,
            },
{
    let mut taken: Vec<i128> = Vec::new();
    let mut i: usize = 0;
    while i < codes.len()
        invariant
            i <= codes@.rows.len(),
            taken@.len() == i,
            codes.selects_from(values@.len()),
            forall|j: int|
                #![trigger taken@[j]]
                0 <= j < i ==> match codes@.rows[j] {
                    Value::Int(c) => taken@[j] == values@[c],
                    _ => taken@[j] == 0,
                },
        decreases codes@.rows.len() - i,
    {
        match codes.code(i, values.len()) {
            None => taken.push(0),
            Some(c) => taken.push(values[c]),
        }
        i += 1;
    }
    taken
}

/// Taking from an array of nulls gives as many nulls as there are codes.
pub fn take_null(array: &NullArray, codes: &PrimitiveArray) -> (r: NullArray)
    requires
        codes.selects_from(array@.rows.len()),
    ensures
        r@ == array@.take(codes@),
{
    let r = NullArray::new(codes.len());
    assert(r@ =~= array@.take(codes@));
    r
}

/// The booleans that `codes` select.
pub fn take_bool(array: &BoolArray, codes: &PrimitiveArray) -> (r: BoolArray)
    requires
        codes.selects_from(array@.rows.len()),
    ensures
        r@ == array@.take(codes@),
{
    proof {
        use_type_invariant(array);
    }
    let validity = take_validity(&array.validity, array.values.len(), codes);
    let mut values: Vec<bool> = Vec::new();
    let mut i: usize = 0;
    while i < codes.len()
        invariant
            i <= codes@.rows.len(),
            values@.len() == i,
            array@.rows.len() == array.values@.len(),
            codes.selects_from(array@.rows.len()),
            forall|j: int|
                #![trigger values@[j]]
                0 <= j < i ==> (codes@.rows[j] matches Value::Int(c) ==> values@[j]
                    == array.values@[c]),
        decreases codes@.rows.len() - i,
    {
        match codes.code(i, array.values.len()) {
            None => values.push(false),
            Some(c) => values.push(array.values[c]),
        }
        i += 1;
    }
    let r = BoolArray::new(values, validity);
    assert(r@ =~= array@.take(codes@));
    r
}

/// The primitives that `codes` select.
pub fn take_primitive(array: &PrimitiveArray, codes: &PrimitiveArray) -> (r: PrimitiveArray)
    requires
        codes.selects_from(array@.rows.len()),
    ensures
        r@ == array@.take(codes@),
{
    proof {
        use_type_invariant(array);
    }
    let validity = take_validity(&array.validity, array.values.len(), codes);
    let values = take_integers(&array.values, codes);
    let r = PrimitiveArray::new(array.ptype, values, validity);
    assert(r@ =~= array@.take(codes@));
    r
}

/// An array of decimals, each by its unscaled integer.
#[derive(Debug, PartialEq, Eq)]
pub struct DecimalArray {
    decimal: DecimalDType,
    values: Vec<i128>,
    validity: Validity,
}

impl DecimalArray {
    #[verifier::type_invariant]
    spec fn inv(self) -> bool {
        self.validity.covers(self.values@.len())
    }

    /// The content of this array.
    pub closed spec fn view(&self) -> ArrayModel {
        ArrayModel {
            dtype: TypeModel::Decimal(self.decimal, self.validity.spec_nullability()),
            rows: Seq::new(
                self.values@.len(),
                |i: int|
                    if self.validity.valid(i) {
                        Value::Int(self.values@[i] as int)
                    } else {
                        Value::Null
                    },
            ),
        }
    }

    /// An array of decimals with the given validity.
    pub fn new(decimal: DecimalDType, values: Vec<i128>, validity: Validity) -> (r: DecimalArray)
        requires
            validity.covers(values@.len()),
        ensures
            r@ == (ArrayModel {
                dtype: TypeModel::Decimal(decimal, validity.spec_nullability()),
                rows: Seq::new(
                    values@.len(),
                    |i: int|
                        if validity.valid(i) {
                            Value::Int(values@[i] as int)
                        } else {
                            Value::Null
                        },
                ),
            }),
    {
        DecimalArray { decimal, values, validity }
    }

    /// The number of rows.
    pub fn len(&self) -> (r: usize)
        ensures
            r == self@.rows.len(),
    {
        self.values.len()
    }

    /// The unscaled integer of row `i`, or nothing for a null.
    pub fn get(&self, i: usize) -> (r: Option<i128>)
        requires
            i < self@.rows.len(),
        ensures
            r matches Some(v) ==> self@.rows[i as int] == Value::Int(v as int),
            r is None ==> self@.rows[i as int] == Value::Null && self@.dtype.nullability()
                == Nullability::Nullable,
    {
        proof {
            use_type_invariant(self);
        }
        if self.validity.is_valid(i) {
            Some(self.values[i])
        } else {
            None
        }
    }
}

/// The decimals that `codes` select.
pub fn take_decimal(array: &DecimalArray, codes: &PrimitiveArray) -> (r: DecimalArray)
    requires
        codes.selects_from(array@.rows.len()),
    ensures
        r@ == array@.take(codes@),
{
    proof {
        use_type_invariant(array);
    }
    let validity = take_validity(&array.validity, array.values.len(), codes);
    let values = take_integers(&array.values, codes);
    let r = DecimalArray::new(array.decimal, values, validity);
    assert(r@ =~= array@.take(codes@));
    r
}

/// The rows of an array of variable-length values.
#[derive(Debug, PartialEq, Eq)]
pub enum VarBin {
    Text(Vec<String>),
    Bytes(Vec<Vec<u8>>),
}

impl VarBin {
    /// The number of rows.
    pub open spec fn rows(self) -> nat {
        match self {
            VarBin::Text(texts) => texts@.len(),
            VarBin::Bytes(strings) => strings@.len(),
        }
    }

    /// The value of row `i`.
    pub open spec fn row(self, i: int) -> Value {
        match self {
            VarBin::Text(texts) => Value::Text(texts@[i]@),
            VarBin::Bytes(strings) => Value::Bytes(strings@[i]@),
        }
    }

    /// The type of the rows.
    pub open spec fn dtype(self, nullability: Nullability) -> TypeModel {
        match self {
            VarBin::Text(_) => TypeModel::Utf8(nullability),
            VarBin::Bytes(_) => TypeModel::Binary(nullability),
        }
    }

    /// The number of rows.
    pub fn len(&self) -> (r: usize)
        ensures
            r == self.rows(),
    {
        match self {
            VarBin::Text(texts) => texts.len(),
            VarBin::Bytes(strings) => strings.len(),
        }
    }
}

/// An array of texts or of byte strings.
#[derive(Debug, PartialEq, Eq)]
pub struct VarBinViewArray {
    values: VarBin,
    validity: Validity,
}

impl VarBinViewArray {
    #[verifier::type_invariant]
    spec fn inv(self) -> bool {
        self.validity.covers(self.values.rows())
    }

    /// The content of this array.
    pub closed spec fn view(&self) -> ArrayModel {
        ArrayModel {
            dtype: self.values.dtype(self.validity.spec_nullability()),
            rows: Seq::new(
                self.values.rows(),
                |i: int|
                    if self.validity.valid(i) {
                        self.values.row(i)
                    } else {
                        Value::Null
                    },
            ),
        }
    }

    /// An array of texts or of byte strings with the given validity.
    pub fn new(values: VarBin, validity: Validity) -> (r: VarBinViewArray)
        requires
            validity.covers(values.rows()),
        ensures
            r@ == (ArrayModel {
                dtype: values.dtype(validity.spec_nullability()),
                rows: Seq::new(
                    values.rows(),
                    |i: int|
                        if validity.valid(i) {
                            values.row(i)
                        } else {
                            Value::Null
                        },
                ),
            }),
    {
        VarBinViewArray { values, validity }
    }

    /// The number of rows.
    pub fn len(&self) -> (r: usize)
        ensures
            r == self@.rows.len(),
    {
        self.values.len()
    }

    /// The text of row `i`, or nothing for a null.
    pub fn text(&self, i: usize) -> (r: Option<&String>)
        requires
            i < self@.rows.len(),
            self@.dtype is Utf8,
        ensures
            r matches Some(t) ==> self@.rows[i as int] == Value::Text(t@),
            r is None ==> self@.rows[i as int] == Value::Null && self@.dtype.nullability()
                == Nullability::Nullable,
    {
        proof {
            use_type_invariant(self);
        }
        if self.validity.is_valid(i) {
            match &self.values {
                VarBin::Text(texts) => Some(&texts[i]),
                VarBin::Bytes(_) => None,
            }
        } else {
            None
        }
    }

    /// The byte string of row `i`, or nothing for a null.
    pub fn bytes(&self, i: usize) -> (r: Option<&Vec<u8>>)
        requires
            i < self@.rows.len(),
            self@.dtype is Binary,
        ensures
            r matches Some(b) ==> self@.rows[i as int] == Value::Bytes(b@),
            r is None ==> self@.rows[i as int] == Value::Null && self@.dtype.nullability()
                == Nullability::Nullable,
    {
        proof {
            use_type_invariant(self);
        }
        if self.validity.is_valid(i) {
            match &self.values {
                VarBin::Bytes(strings) => Some(&strings[i]),
                VarBin::Text(_) => None,
            }
        } else {
            None
        }
    }
}

/// The texts that `codes` select; the empty text for a null code.
fn take_texts(texts: &Vec<String>, codes: &PrimitiveArray) -> (r: Vec<String>)
    requires
        codes.selects_from(texts@.len()),
    ensures
        r@.len() == codes@.rows.len(),
        forall|i: int|
            #![trigger r@[i]]
            0 <= i < r@.len() ==> (codes@.rows[i] matches Value::Int(c) ==> r@[i]@ == texts@[c]@),
{
    let mut taken: Vec<String> = Vec::new();
    let mut i: usize = 0;
    while i < codes.len()
        invariant
            i <= codes@.rows.len(),
            taken@.len() == i,
            codes.selects_from(texts@.len()),
            forall|j: int|
                #![trigger taken@[j]]
                0 <= j < i ==> (codes@.rows[j] matches Value::Int(c) ==> taken@[j]@
                    == texts@[c]@),
        decreases codes@.rows.len() - i,
    {
        match codes.code(i, texts.len()) {
            None => taken.push(String::new()),
            Some(c) => taken.push(texts[c].clone()),
        }
        i += 1;
    }
    taken
}

/// The byte strings that `codes` select; the empty one for a null code.
fn take_strings(strings: &Vec<Vec<u8>>, codes: &PrimitiveArray) -> (r: Vec<Vec<u8>>)
    requires
        codes.selects_from(strings@.len()),
    ensures
        r@.len() == codes@.rows.len(),
        forall|i: int|
            #![trigger r@[i]]
            0 <= i < r@.len() ==> (codes@.rows[i] matches Value::Int(c) ==> r@[i]@
                == strings@[c]@),
{
    let mut taken: Vec<Vec<u8>> = Vec::new();
    let mut i: usize = 0;
    while i < codes.len()
        invariant
            i <= codes@.rows.len(),
            taken@.len() == i,
            codes.selects_from(strings@.len()),
            forall|j: int|
                #![trigger taken@[j]]
                0 <= j < i ==> (codes@.rows[j] matches Value::Int(c) ==> taken@[j]@
                    == strings@[c]@),
        decreases codes@.rows.len() - i,
    {
        match codes.code(i, strings.len()) {
            None => taken.push(Vec::new()),
            Some(c) => taken.push(clone_bytes(&strings[c])),
        }
        i += 1;
    }
    taken
}

/// The texts or byte strings that `codes` select.
pub fn take_varbinview(array: &VarBinViewArray, codes: &PrimitiveArray) -> (r: VarBinViewArray)
    requires
        codes.selects_from(array@.rows.len()),
    ensures
        r@ == array@.take(codes@),
{
    proof {
        use_type_invariant(array);
    }
    let validity = take_validity(&array.validity, array.values.len(), codes);
    let values = match &array.values {
        VarBin::Text(texts) => VarBin::Text(take_texts(texts, codes)),
        VarBin::Bytes(strings) => VarBin::Bytes(take_strings(strings, codes)),
    };
    let r = VarBinViewArray::new(values, validity);
    assert(r@ =~= array@.take(codes@));
    r
}

/// An array of lists. Row `i` is the run of `sizes[i]` elements from `offsets[i]` on; runs may
/// overlap and need not be in order.
#[derive(Debug, PartialEq, Eq)]
pub struct ListViewArray {
    elements: Arc<Canonical>,
    offsets: Vec<usize>,
    sizes: Vec<usize>,
    validity: Validity,
}

/// An array of maps. Row `i` is the run of `sizes[i]` entries from `offsets[i]` on.
#[derive(Debug, PartialEq, Eq)]
pub struct MapArray {
    keys: Arc<Canonical>,
    values: Arc<Canonical>,
    offsets: Vec<usize>,
    sizes: Vec<usize>,
    validity: Validity,
}

/// An array of lists of one length. Row `i` is the run of `size` elements from `offsets[i]` on.
#[derive(Debug, PartialEq, Eq)]
pub struct FixedSizeListArray {
    elements: Arc<Canonical>,
    size: usize,
    offsets: Vec<usize>,
    validity: Validity,
}

/// An array of structs, stored field by field.
#[derive(Debug, PartialEq, Eq)]
pub struct StructArray {
    names: Vec<String>,
    fields: Vec<Canonical>,
    len: usize,
    validity: Validity,
}

/// An array of tagged values. Each variant has a row for every row of the union, and the tag says
/// which variant's row counts. A tag beyond the variants stands for a null.
#[derive(Debug, PartialEq, Eq)]
pub struct UnionArray {
    names: Vec<String>,
    variants: Vec<Canonical>,
    tags: Vec<usize>,
    validity: Validity,
}

/// An array of a named type, held as its storage type.
#[derive(Debug, PartialEq, Eq)]
pub struct ExtensionArray {
    id: String,
    storage: Box<Canonical>,
}

/// An array of values of any shape, in general storage and, in part, in shredded storage.
#[derive(Debug, PartialEq, Eq)]
pub struct VariantArray {
    core_storage: Box<Canonical>,
    shredded: Option<Box<Canonical>>,
}

/// An array in the canonical representation of its type.
#[derive(Debug, PartialEq, Eq)]
pub enum Canonical {
    Null(NullArray),
    Bool(BoolArray),
    Primitive(PrimitiveArray),
    Decimal(DecimalArray),
    VarBinView(VarBinViewArray),
    List(ListViewArray),
    Mapping(MapArray),
    FixedSizeList(FixedSizeListArray),
    Struct(StructArray),
    Union(UnionArray),
    Extension(ExtensionArray),
    Variant(VariantArray),
}

/// The value of one map entry.
pub open spec fn entry(key: Value, value: Value) -> Value {
    Value::Struct(seq![("key"@, key), ("value"@, value)])
}

/// The value of one variant row: null where every storage is null.
pub open spec fn variant_value(core: Value, shredded: Option<Value>) -> Value {
    match shredded {
        None => if core == Value::Null {
            Value::Null
        } else {
            Value::Variant(Box::new(core), None)
        },
        Some(value) => if core == Value::Null && value == Value::Null {
            Value::Null
        } else {
            Value::Variant(Box::new(core), Some(Box::new(value)))
        },
    }
}

/// The content of a list array.
pub open spec fn list_model(
    elements: ArrayModel,
    offsets: Seq<usize>,
    sizes: Seq<usize>,
    validity: Validity,
) -> ArrayModel {
    ArrayModel {
        dtype: TypeModel::List(Box::new(elements.dtype), validity.spec_nullability()),
        rows: Seq::new(
            sizes.len(),
            |i: int|
                if validity.valid(i) {
                    Value::List(elements.rows.subrange(offsets[i] as int, offsets[i] + sizes[i]))
                } else {
                    Value::Null
                },
        ),
    }
}

/// The content of a map array.
pub open spec fn map_model(
    keys: ArrayModel,
    values: ArrayModel,
    offsets: Seq<usize>,
    sizes: Seq<usize>,
    validity: Validity,
) -> ArrayModel {
    ArrayModel {
        dtype: TypeModel::Mapping(
            Box::new(keys.dtype),
            Box::new(values.dtype),
            validity.spec_nullability(),
        ),
        rows: Seq::new(
            sizes.len(),
            |i: int|
                if validity.valid(i) {
                    Value::List(
                        Seq::new(
                            sizes[i] as nat,
                            |k: int| entry(keys.rows[offsets[i] + k], values.rows[offsets[i] + k]),
                        ),
                    )
                } else {
                    Value::Null
                },
        ),
    }
}

/// The content of an array of lists of one length.
pub open spec fn fixed_list_model(
    elements: ArrayModel,
    size: nat,
    offsets: Seq<usize>,
    validity: Validity,
) -> ArrayModel {
    ArrayModel {
        dtype: TypeModel::FixedSizeList(
            Box::new(elements.dtype),
            size,
            validity.spec_nullability(),
        ),
        rows: Seq::new(
            offsets.len(),
            |i: int|
                if validity.valid(i) {
                    Value::List(elements.rows.subrange(offsets[i] as int, offsets[i] + size))
                } else {
                    Value::Null
                },
        ),
    }
}

/// The content of a variant array.
pub open spec fn variant_model(core: ArrayModel, shredded: Option<ArrayModel>) -> ArrayModel {
    ArrayModel {
        dtype: TypeModel::Variant(core.dtype.nullability()),
        rows: Seq::new(
            core.rows.len(),
            |i: int|
                variant_value(
                    core.rows[i],
                    match shredded {
                        None => None,
                        Some(other) => Some(other.rows[i]),
                    },
                ),
        ),
    }
}

/// Whether every run that the offsets and sizes describe lies within `len` elements.
pub open spec fn runs_fit(offsets: Seq<usize>, sizes: Seq<usize>, len: nat) -> bool {
    &&& offsets.len() == sizes.len()
    &&& forall|i: int| 0 <= i < sizes.len() ==> offsets[i] + #[trigger] sizes[i] <= len
}

impl ListViewArray {
    #[verifier::type_invariant]
    spec fn inv(self) -> bool {
        &&& self.validity.covers(self.sizes@.len())
        &&& runs_fit(self.offsets@, self.sizes@, self.elements.view().rows.len())
    }

    /// The content of this array.
    pub closed spec fn view(&self) -> ArrayModel
        decreases self,
    {
        list_model(self.elements.view(), self.offsets@, self.sizes@, self.validity)
    }
}

impl MapArray {
    #[verifier::type_invariant]
    spec fn inv(self) -> bool {
        &&& self.validity.covers(self.sizes@.len())
        &&& self.keys.view().rows.len() == self.values.view().rows.len()
        &&& runs_fit(self.offsets@, self.sizes@, self.keys.view().rows.len())
    }

    /// The content of this array.
    pub closed spec fn view(&self) -> ArrayModel
        decreases self,
    {
        map_model(
            self.keys.view(),
            self.values.view(),
            self.offsets@,
            self.sizes@,
            self.validity,
        )
    }
}

impl FixedSizeListArray {
    #[verifier::type_invariant]
    spec fn inv(self) -> bool {
        &&& self.validity.covers(self.offsets@.len())
        &&& forall|i: int|
            0 <= i < self.offsets@.len() && self.validity.valid(i) ==> #[trigger] self.offsets@[i]
                + self.size <= self.elements.view().rows.len()
    }

    /// The content of this array.
    pub closed spec fn view(&self) -> ArrayModel
        decreases self,
    {
        fixed_list_model(self.elements.view(), self.size as nat, self.offsets@, self.validity)
    }
}

/// The names and types of a list of named arrays.
pub open spec fn column_types(names: Seq<String>, columns: Seq<Canonical>) -> Seq<
    (Seq<char>, TypeModel),
>
    decreases columns,
{
    Seq::new(
        columns.len(),
        |k: int|
            if 0 <= k < columns.len() {
                (names[k]@, columns[k].view().dtype)
            } else {
                arbitrary()
            },
    )
}

/// Row `i` of each of a list of named arrays.
pub open spec fn column_values(names: Seq<String>, columns: Seq<Canonical>, i: int) -> Seq<
    (Seq<char>, Value),
>
    decreases columns,
{
    Seq::new(
        columns.len(),
        |k: int|
            if 0 <= k < columns.len() {
                (names[k]@, columns[k].view().rows[i])
            } else {
                arbitrary()
            },
    )
}

impl StructArray {
    #[verifier::type_invariant]
    spec fn inv(self) -> bool {
        &&& self.names@.len() == self.fields@.len()
        &&& self.validity.covers(self.len as nat)
        &&& forall|k: int|
            0 <= k < self.fields@.len() ==> (#[trigger] self.fields@[k]).view().rows.len()
                == self.len
    }

    /// The content of this array.
    pub closed spec fn view(&self) -> ArrayModel
        decreases self,
    {
        ArrayModel {
            dtype: TypeModel::Struct(
                column_types(self.names@, self.fields@),
                self.validity.spec_nullability(),
            ),
            rows: Seq::new(
                self.len as nat,
                |i: int|
                    if self.validity.valid(i) {
                        Value::Struct(column_values(self.names@, self.fields@, i))
                    } else {
                        Value::Null
                    },
            ),
        }
    }
}

impl UnionArray {
    #[verifier::type_invariant]
    spec fn inv(self) -> bool {
        &&& self.names@.len() == self.variants@.len()
        &&& self.validity.covers(self.tags@.len())
        &&& forall|k: int|
            0 <= k < self.variants@.len() ==> (#[trigger] self.variants@[k]).view().rows.len()
                == self.tags@.len()
    }

    /// The content of this array.
    pub closed spec fn view(&self) -> ArrayModel
        decreases self,
    {
        ArrayModel {
            dtype: TypeModel::Union(
                column_types(self.names@, self.variants@),
                self.validity.spec_nullability(),
            ),
            rows: Seq::new(
                self.tags@.len(),
                |i: int|
                    if self.validity.valid(i) && self.tags@[i] < self.variants@.len() {
                        let chosen = column_values(
                            self.names@,
                            self.variants@,
                            i,
                        )[self.tags@[i] as int];
                        Value::Union(chosen.0, Box::new(chosen.1))
                    } else {
                        Value::Null
                    },
            ),
        }
    }
}

impl ExtensionArray {
    /// The content of this array.
    pub closed spec fn view(&self) -> ArrayModel
        decreases self,
    {
        let storage = self.storage.view();
        ArrayModel {
            dtype: TypeModel::Extension(self.id@, Box::new(storage.dtype)),
            rows: storage.rows,
        }
    }
}

impl VariantArray {
    #[verifier::type_invariant]
    spec fn inv(self) -> bool {
        self.shredded matches Some(shredded) ==> shredded.view().rows.len()
            == self.core_storage.view().rows.len()
    }

    /// The content of this array.
    pub closed spec fn view(&self) -> ArrayModel
        decreases self,
    {
        match self.shredded {
            None => variant_model(self.core_storage.view(), None),
            Some(shredded) => variant_model(self.core_storage.view(), Some(shredded.view())),
        }
    }
}

impl Canonical {
    /// The content of this array.
    pub open spec fn view(&self) -> ArrayModel
        decreases self,
    {
        match self {
            Canonical::Null(array) => array.view(),
            Canonical::Bool(array) => array.view(),
            Canonical::Primitive(array) => array.view(),
            Canonical::Decimal(array) => array.view(),
            Canonical::VarBinView(array) => array.view(),
            Canonical::List(array) => array.view(),
            Canonical::Mapping(array) => array.view(),
            Canonical::FixedSizeList(array) => array.view(),
            Canonical::Struct(array) => array.view(),
            Canonical::Union(array) => array.view(),
            Canonical::Extension(array) => array.view(),
            Canonical::Variant(array) => array.view(),
        }
    }
}

/// Whether every run that the offsets and sizes describe lies within `len` elements.
fn check_runs(offsets: &Vec<usize>, sizes: &Vec<usize>, len: usize) -> (r: bool)
    ensures
        r == runs_fit(offsets@, sizes@, len as nat),
{
    if offsets.len() != sizes.len() {
        return false;
    }
    let mut i: usize = 0;
    while i < sizes.len()
        invariant
            i <= sizes@.len(),
            offsets@.len() == sizes@.len(),
            forall|j: int| 0 <= j < i ==> offsets@[j] + #[trigger] sizes@[j] <= len,
        decreases sizes@.len() - i,
    {
        if sizes[i] > len || offsets[i] > len - sizes[i] {
            assert(offsets@[i as int] + sizes@[i as int] > len);
            return false;
        }
        i += 1;
    }
    true
}

impl Validity {
    /// Whether this describes an array with `len` rows.
    pub fn check(&self, len: usize) -> (r: bool)
        ensures
            r == self.covers(len as nat),
    {
        match self {
            Validity::Mask(mask) => mask.len() == len,
            _ => true,
        }
    }
}

impl ListViewArray {
    /// An array of lists, refused unless every run lies within the elements and the validity
    /// describes every row.
    pub fn try_new(
        elements: Canonical,
        offsets: Vec<usize>,
        sizes: Vec<usize>,
        validity: Validity,
    ) -> (r: Result<ListViewArray, Error>)
        ensures
            r is Ok <==> runs_fit(offsets@, sizes@, elements@.rows.len()) && validity.covers(
                sizes@.len(),
            ),
            r matches Ok(array) ==> array@ == list_model(elements@, offsets@, sizes@, validity),
            r matches Err(error) ==> error == Error::InvalidArray,
    {
        if !check_runs(&offsets, &sizes, elements.len()) || !validity.check(sizes.len()) {
            return Err(Error::InvalidArray);
        }
        Ok(ListViewArray { elements: Arc::new(elements), offsets, sizes, validity })
    }

    /// The number of rows.
    pub fn len(&self) -> (r: usize)
        ensures
            r == self@.rows.len(),
    {
        self.sizes.len()
    }
}

impl MapArray {
    /// An array of maps, refused unless there are as many keys as values, every run lies within
    /// them, and the validity describes every row.
    pub fn try_new(
        keys: Canonical,
        values: Canonical,
        offsets: Vec<usize>,
        sizes: Vec<usize>,
        validity: Validity,
    ) -> (r: Result<MapArray, Error>)
        ensures
            r is Ok <==> keys@.rows.len() == values@.rows.len() && runs_fit(
                offsets@,
                sizes@,
                keys@.rows.len(),
            ) && validity.covers(sizes@.len()),
            r matches Ok(array) ==> array@ == map_model(
                keys@,
                values@,
                offsets@,
                sizes@,
                validity,
            ),
            r matches Err(error) ==> error == Error::InvalidArray,
    {
        if keys.len() != values.len() || !check_runs(&offsets, &sizes, keys.len())
            || !validity.check(sizes.len()) {
            return Err(Error::InvalidArray);
        }
        Ok(
            MapArray {
                keys: Arc::new(keys),
                values: Arc::new(values),
                offsets,
                sizes,
                validity,
            },
        )
    }

    /// The number of rows.
    pub fn len(&self) -> (r: usize)
        ensures
            r == self@.rows.len(),
    {
        self.sizes.len()
    }
}

impl FixedSizeListArray {
    /// An array of lists of `size` elements, refused unless every run lies within the elements
    /// and the validity describes every row.
    pub fn try_new(
        elements: Canonical,
        size: usize,
        offsets: Vec<usize>,
        validity: Validity,
    ) -> (r: Result<FixedSizeListArray, Error>)
        ensures
            r is Ok <==> (forall|i: int|
                0 <= i < offsets@.len() ==> #[trigger] offsets@[i] + size <= elements@.rows.len())
                && validity.covers(offsets@.len()),
            r matches Ok(array) ==> array@ == fixed_list_model(
                elements@,
                size as nat,
                offsets@,
                validity,
            ),
            r matches Err(error) ==> error == Error::InvalidArray,
    {
        if !validity.check(offsets.len()) {
            return Err(Error::InvalidArray);
        }
        let len = elements.len();
        let mut i: usize = 0;
        while i < offsets.len()
            invariant
                i <= offsets@.len(),
                len == elements@.rows.len(),
                forall|j: int| 0 <= j < i ==> #[trigger] offsets@[j] + size <= len,
            decreases offsets@.len() - i,
        {
            if size > len || offsets[i] > len - size {
                assert(offsets@[i as int] + size > len);
                return Err(Error::InvalidArray);
            }
            i += 1;
        }
        Ok(FixedSizeListArray { elements: Arc::new(elements), size, offsets, validity })
    }

    /// The number of rows.
    pub fn len(&self) -> (r: usize)
        ensures
            r == self@.rows.len(),
    {
        self.offsets.len()
    }
}

/// Whether there is one name per column, and every column has `len` rows.
pub open spec fn columns_fit(names: Seq<String>, columns: Seq<Canonical>, len: nat) -> bool {
    &&& names.len() == columns.len()
    &&& forall|k: int| 0 <= k < columns.len() ==> (#[trigger] columns[k])@.rows.len() == len
}

/// Whether there is one name per column, and every column has `len` rows.
fn check_columns(names: &Vec<String>, columns: &Vec<Canonical>, len: usize) -> (r: bool)
    ensures
        r == columns_fit(names@, columns@, len as nat),
{
    if names.len() != columns.len() {
        return false;
    }
    let mut k: usize = 0;
    while k < columns.len()
        invariant
            k <= columns@.len(),
            names@.len() == columns@.len(),
            forall|j: int| 0 <= j < k ==> (#[trigger] columns@[j])@.rows.len() == len,
        decreases columns@.len() - k,
    {
        if columns[k].len() != len {
            assert(columns@[k as int]@.rows.len() != len);
            return false;
        }
        k += 1;
    }
    true
}

impl StructArray {
    /// An array of `len` structs, refused unless there is one name per field, every field has
    /// `len` rows, and the validity describes every row.
    pub fn try_new(
        names: Vec<String>,
        fields: Vec<Canonical>,
        len: usize,
        validity: Validity,
    ) -> (r: Result<StructArray, Error>)
        ensures
            r is Ok <==> columns_fit(names@, fields@, len as nat) && validity.covers(len as nat),
            r matches Ok(array) ==> {
                &&& array@.dtype == TypeModel::Struct(
                    column_types(names@, fields@),
                    validity.spec_nullability(),
                )
                &&& array@.rows == Seq::new(
                    len as nat,
                    |i: int|
                        if validity.valid(i) {
                            Value::Struct(column_values(names@, fields@, i))
                        } else {
                            Value::Null
                        },
                )
            },
            r matches Err(error) ==> error == Error::InvalidArray,
    {
        if !check_columns(&names, &fields, len) || !validity.check(len) {
            return Err(Error::InvalidArray);
        }
        Ok(StructArray { names, fields, len, validity })
    }

    /// The number of rows.
    pub fn len(&self) -> (r: usize)
        ensures
            r == self@.rows.len(),
    {
        self.len
    }
}

impl UnionArray {
    /// An array of tagged values, refused unless there is one name per variant, every variant has
    /// a row per tag, and the validity describes every row.
    pub fn try_new(
        names: Vec<String>,
        variants: Vec<Canonical>,
        tags: Vec<usize>,
        validity: Validity,
    ) -> (r: Result<UnionArray, Error>)
        ensures
            r is Ok <==> columns_fit(names@, variants@, tags@.len()) && validity.covers(
                tags@.len(),
            ),
            r matches Ok(array) ==> {
                &&& array@.dtype == TypeModel::Union(
                    column_types(names@, variants@),
                    validity.spec_nullability(),
                )
                &&& array@.rows == Seq::new(
                    tags@.len(),
                    |i: int|
                        if validity.valid(i) && tags@[i] < variants@.len() {
                            let chosen = column_values(names@, variants@, i)[tags@[i] as int];
                            Value::Union(chosen.0, Box::new(chosen.1))
                        } else {
                            Value::Null
                        },
                )
            },
            r matches Err(error) ==> error == Error::InvalidArray,
    {
        if !check_columns(&names, &variants, tags.len()) || !validity.check(tags.len()) {
            return Err(Error::InvalidArray);
        }
        Ok(UnionArray { names, variants, tags, validity })
    }

    /// The number of rows.
    pub fn len(&self) -> (r: usize)
        ensures
            r == self@.rows.len(),
    {
        self.tags.len()
    }
}

impl ExtensionArray {
    /// An array of the type called `id`, held in `storage`.
    pub fn new(id: String, storage: Canonical) -> (r: ExtensionArray)
        ensures
            r@ == (ArrayModel {
                dtype: TypeModel::Extension(id@, Box::new(storage@.dtype)),
                rows: storage@.rows,
            }),
    {
        ExtensionArray { id, storage: Box::new(storage) }
    }

    /// The number of rows.
    pub fn len(&self) -> (r: usize)
        ensures
            r == self@.rows.len(),
        decreases self,
    {
        self.storage.len()
    }
}

impl VariantArray {
    /// An array of values of any shape, refused unless the shredded storage has as many rows as
    /// the general storage.
    pub fn try_new(core_storage: Canonical, shredded: Option<Canonical>) -> (r: Result<
        VariantArray,
        Error,
    >)
        ensures
            r is Ok <==> (shredded matches Some(other) ==> other@.rows.len()
                == core_storage@.rows.len()),
            r matches Ok(array) ==> array@ == variant_model(
                core_storage@,
                match shredded {
                    None => None,
                    Some(other) => Some(other@),
                },
            ),
            r matches Err(error) ==> error == Error::InvalidArray,
    {
        match shredded {
            None => Ok(VariantArray { core_storage: Box::new(core_storage), shredded: None }),
            Some(other) => {
                if other.len() != core_storage.len() {
                    return Err(Error::InvalidArray);
                }
                Ok(
                    VariantArray {
                        core_storage: Box::new(core_storage),
                        shredded: Some(Box::new(other)),
                    },
                )
            },
        }
    }

    /// The number of rows.
    pub fn len(&self) -> (r: usize)
        ensures
            r == self@.rows.len(),
        decreases self,
    {
        self.core_storage.len()
    }
}

impl Canonical {
    /// The number of rows.
    pub fn len(&self) -> (r: usize)
        ensures
            r == self@.rows.len(),
        decreases self,
    {
        match self {
            Canonical::Null(array) => array.len(),
            Canonical::Bool(array) => array.len(),
            Canonical::Primitive(array) => array.len(),
            Canonical::Decimal(array) => array.len(),
            Canonical::VarBinView(array) => array.len(),
            Canonical::List(array) => array.len(),
            Canonical::Mapping(array) => array.len(),
            Canonical::FixedSizeList(array) => array.len(),
            Canonical::Struct(array) => array.len(),
            Canonical::Union(array) => array.len(),
            Canonical::Extension(array) => array.len(),
            Canonical::Variant(array) => array.len(),
        }
    }
}

/// The names and types of a list of named arrays.
fn named_dtypes(names: &Vec<String>, columns: &Vec<Canonical>) -> (r: Vec<(String, DType)>)
    requires
        names@.len() == columns@.len(),
    ensures
        named_types(r@) == column_types(names@, columns@),
    decreases columns@,
{
    let mut fields: Vec<(String, DType)> = Vec::new();
    let mut k: usize = 0;
    while k < columns.len()
        invariant
            k <= columns@.len(),
            fields@.len() == k,
            names@.len() == columns@.len(),
            forall|j: int|
                0 <= j < k ==> (#[trigger] fields@[j]).0@ == names@[j]@ && fields@[j].1@
                    == columns@[j]@.dtype,
        decreases columns@.len() - k,
    {
        assert(decreases_to!(columns@ => columns@[k as int]));
        fields.push((names[k].clone(), columns[k].dtype()));
        k += 1;
    }
    assert(named_types(fields@) =~= column_types(names@, columns@));
    fields
}

impl VarBinViewArray {
    /// The type of this array.
    pub fn dtype(&self) -> (r: DType)
        ensures
            r@ == self@.dtype,
    {
        match &self.values {
            VarBin::Text(_) => DType::Utf8(self.validity.nullability()),
            VarBin::Bytes(_) => DType::Binary(self.validity.nullability()),
        }
    }
}

impl StructArray {
    /// The type of this array.
    pub fn dtype(&self) -> (r: DType)
        ensures
            r@ == self@.dtype,
        decreases self,
    {
        proof {
            use_type_invariant(self);
        }
        DType::Struct(named_dtypes(&self.names, &self.fields), self.validity.nullability())
    }
}

impl UnionArray {
    /// The type of this array.
    pub fn dtype(&self) -> (r: DType)
        ensures
            r@ == self@.dtype,
        decreases self,
    {
        proof {
            use_type_invariant(self);
        }
        DType::Union(named_dtypes(&self.names, &self.variants), self.validity.nullability())
    }
}

impl Canonical {
    /// The type of this array.
    pub fn dtype(&self) -> (r: DType)
        ensures
            r@ == self@.dtype,
        decreases self,
    {
        match self {
            Canonical::Null(_) => DType::Null,
            Canonical::Bool(array) => DType::Bool(array.validity.nullability()),
            Canonical::Primitive(array) => DType::Primitive(
                array.ptype,
                array.validity.nullability(),
            ),
            Canonical::Decimal(array) => DType::Decimal(
                array.decimal,
                array.validity.nullability(),
            ),
            Canonical::VarBinView(array) => array.dtype(),
            Canonical::List(array) => DType::List(
                Box::new(array.elements.dtype()),
                array.validity.nullability(),
            ),
            Canonical::Mapping(array) => DType::Mapping(
                Box::new(array.keys.dtype()),
                Box::new(array.values.dtype()),
                array.validity.nullability(),
            ),
            Canonical::FixedSizeList(array) => DType::FixedSizeList(
                Box::new(array.elements.dtype()),
                array.size,
                array.validity.nullability(),
            ),
            Canonical::Struct(array) => array.dtype(),
            Canonical::Union(array) => array.dtype(),
            Canonical::Extension(array) => DType::Extension(
                array.id.clone(),
                Box::new(array.storage.dtype()),
            ),
            Canonical::Variant(array) => DType::Variant(array.core_storage.dtype().nullability()),
        }
    }
}

/// The positions that `codes` select; zero for a null code.
fn take_positions(positions: &Vec<usize>, codes: &PrimitiveArray) -> (r: Vec<usize>)
    requires
        codes.selects_from(positions@.len()),
    ensures
        r@.len() == codes@.rows.len(),
        forall|i: int|
            #![trigger r@[i]]
            0 <= i < r@.len() ==> match codes@.rows[i] {
                Value::Int(c) => r@[i] == positions@[c],
                _ => r@[i] == 0,
            },
{
    let mut taken: Vec<usize> = Vec::new();
    let mut i: usize = 0;
    while i < codes.len()
        invariant
            i <= codes@.rows.len(),
            taken@.len() == i,
            codes.selects_from(positions@.len()),
            forall|j: int|
                #![trigger taken@[j]]
                0 <= j < i ==> match codes@.rows[j] {
                    Value::Int(c) => taken@[j] == positions@[c],
                    _ => taken@[j] == 0,
                },
        decreases codes@.rows.len() - i,
    {
        match codes.code(i, positions.len()) {
            None => taken.push(0),
            Some(c) => taken.push(positions[c]),
        }
        i += 1;
    }
    taken
}

/// The lists that `codes` select. The elements stay where they are.
pub fn take_listview(array: &ListViewArray, codes: &PrimitiveArray) -> (r: ListViewArray)
    requires
        codes.selects_from(array@.rows.len()),
    ensures
        r@ == array@.take(codes@),
{
    proof {
        use_type_invariant(array);
    }
    let validity = take_validity(&array.validity, array.sizes.len(), codes);
    let offsets = take_positions(&array.offsets, codes);
    let sizes = take_positions(&array.sizes, codes);
    let r = ListViewArray { elements: share(&array.elements), offsets, sizes, validity };
    assert(r@ =~= array@.take(codes@));
    r
}

/// The maps that `codes` select. The entries stay where they are.
pub fn take_map(array: &MapArray, codes: &PrimitiveArray) -> (r: MapArray)
    requires
        codes.selects_from(array@.rows.len()),
    ensures
        r@ == array@.take(codes@),
{
    proof {
        use_type_invariant(array);
    }
    let validity = take_validity(&array.validity, array.sizes.len(), codes);
    let offsets = take_positions(&array.offsets, codes);
    let sizes = take_positions(&array.sizes, codes);
    let r = MapArray {
        keys: share(&array.keys),
        values: share(&array.values),
        offsets,
        sizes,
        validity,
    };
    assert(r@ =~= array@.take(codes@));
    r
}

/// The fixed-size lists that `codes` select. The elements stay where they are.
pub fn take_fixed_size_list(array: &FixedSizeListArray, codes: &PrimitiveArray) -> (r:
    FixedSizeListArray)
    requires
        codes.selects_from(array@.rows.len()),
    ensures
        r@ == array@.take(codes@),
{
    proof {
        use_type_invariant(array);
    }
    let validity = take_validity(&array.validity, array.offsets.len(), codes);
    let offsets = take_positions(&array.offsets, codes);
    let r = FixedSizeListArray {
        elements: share(&array.elements),
        size: array.size,
        offsets,
        validity,
    };
    assert(r@ =~= array@.take(codes@));
    r
}

/// The validity of an array that has no values of its own: all null where that is allowed.
fn default_validity(nullability: Nullability) -> (r: Validity)
    ensures
        r.spec_nullability() == nullability,
        nullability == Nullability::Nullable ==> r == Validity::AllInvalid,
        nullability == Nullability::NonNullable ==> r == Validity::NonNullable,
{
    match nullability {
        Nullability::Nullable => Validity::AllInvalid,
        Nullability::NonNullable => Validity::NonNullable,
    }
}

/// A list of `len` zeros.
fn zero_positions(len: usize) -> (r: Vec<usize>)
    ensures
        r@ == Seq::new(len as nat, |i: int| 0usize),
{
    let mut zeros: Vec<usize> = Vec::new();
    let mut i: usize = 0;
    while i < len
        invariant
            i <= len,
            zeros@ == Seq::new(i as nat, |j: int| 0usize),
        decreases len - i,
    {
        zeros.push(0);
        i += 1;
        assert(zeros@ =~= Seq::new(i as nat, |j: int| 0usize));
    }
    zeros
}

/// A list of `len` zeros.
fn zero_integers(len: usize) -> (r: Vec<i128>)
    ensures
        r@ == Seq::new(len as nat, |i: int| 0i128),
{
    let mut zeros: Vec<i128> = Vec::new();
    let mut i: usize = 0;
    while i < len
        invariant
            i <= len,
            zeros@ == Seq::new(i as nat, |j: int| 0i128),
        decreases len - i,
    {
        zeros.push(0);
        i += 1;
        assert(zeros@ =~= Seq::new(i as nat, |j: int| 0i128));
    }
    zeros
}

/// A list of `len` times `false`.
fn all_false(len: usize) -> (r: Vec<bool>)
    ensures
        r@ == Seq::new(len as nat, |i: int| false),
{
    let mut values: Vec<bool> = Vec::new();
    let mut i: usize = 0;
    while i < len
        invariant
            i <= len,
            values@ == Seq::new(i as nat, |j: int| false),
        decreases len - i,
    {
        values.push(false);
        i += 1;
        assert(values@ =~= Seq::new(i as nat, |j: int| false));
    }
    values
}

/// The names of a list of named types.
fn field_names(fields: &Vec<(String, DType)>) -> (r: Vec<String>)
    ensures
        r@.len() == fields@.len(),
        forall|k: int| 0 <= k < r@.len() ==> (#[trigger] r@[k])@ == fields@[k].0@,
{
    let mut names: Vec<String> = Vec::new();
    let mut k: usize = 0;
    while k < fields.len()
        invariant
            k <= fields@.len(),
            names@.len() == k,
            forall|j: int| 0 <= j < k ==> (#[trigger] names@[j])@ == fields@[j].0@,
        decreases fields@.len() - k,
    {
        names.push(fields[k].0.clone());
        k += 1;
    }
    names
}

/// One default array per named type.
fn default_columns(fields: &Vec<(String, DType)>, len: usize) -> (r: Vec<Canonical>)
    ensures
        r@.len() == fields@.len(),
        forall|k: int|
            0 <= k < r@.len() ==> (#[trigger] r@[k])@.dtype == fields@[k].1@ && r@[k]@.rows.len()
                == len,
    decreases fields@, 0nat,
{
    let mut columns: Vec<Canonical> = Vec::new();
    let mut k: usize = 0;
    while k < fields.len()
        invariant
            k <= fields@.len(),
            columns@.len() == k,
            forall|j: int|
                0 <= j < k ==> (#[trigger] columns@[j])@.dtype == fields@[j].1@
                    && columns@[j]@.rows.len() == len,
        decreases fields@.len() - k,
    {
        assert(decreases_to!(fields@ => fields@[k as int]));
        columns.push(Canonical::default_of(&fields[k].1, len));
        k += 1;
    }
    columns
}

/// The content of an array of `len` nulls.
pub open spec fn nulls(len: nat) -> Seq<Value> {
    Seq::new(len, |i: int| Value::Null)
}

/// Whether `r` can stand for an array of `len` rows of type `dtype` of which only the type is
/// known: the nulls where the type allows them.
pub open spec fn is_default(r: ArrayModel, dtype: TypeModel, len: nat) -> bool {
    &&& r.dtype == dtype
    &&& r.rows.len() == len
    &&& dtype.nullability() == Nullability::Nullable ==> r.rows == nulls(len)
}

/// Default rows of a type that holds no other types.
fn default_flat(dtype: &DType, len: usize) -> (r: Canonical)
    requires
        dtype.is_flat(),
    ensures
        is_default(r@, dtype@, len as nat),
{
    let r = match dtype {
        DType::Bool(n) => Canonical::Bool(BoolArray::new(all_false(len), default_validity(*n))),
        DType::Primitive(ptype, n) => Canonical::Primitive(
            PrimitiveArray::new(*ptype, zero_integers(len), default_validity(*n)),
        ),
        DType::Decimal(decimal, n) => Canonical::Decimal(
            DecimalArray::new(*decimal, zero_integers(len), default_validity(*n)),
        ),
        DType::Utf8(n) => Canonical::VarBinView(
            VarBinViewArray::new(VarBin::Text(empty_texts(len)), default_validity(*n)),
        ),
        DType::Binary(n) => Canonical::VarBinView(
            VarBinViewArray::new(VarBin::Bytes(empty_strings(len)), default_validity(*n)),
        ),
        DType::Variant(Nullability::Nullable) => Canonical::Variant(
            VariantArray {
                core_storage: Box::new(Canonical::Null(NullArray::new(len))),
                shredded: None,
            },
        ),
        DType::Variant(Nullability::NonNullable) => Canonical::Variant(
            VariantArray {
                core_storage: Box::new(
                    Canonical::Bool(BoolArray::new(all_false(len), Validity::NonNullable)),
                ),
                shredded: None,
            },
        ),
        _ => Canonical::Null(NullArray::new(len)),
    };
    assert(dtype@.nullability() == Nullability::Nullable ==> r@.rows =~= nulls(len as nat));
    r
}

/// A list of `len` empty texts.
fn empty_texts(len: usize) -> (r: Vec<String>)
    ensures
        r@.len() == len,
{
    let mut texts: Vec<String> = Vec::new();
    let mut i: usize = 0;
    while i < len
        invariant
            i <= len,
            texts@.len() == i,
        decreases len - i,
    {
        texts.push(String::new());
        i += 1;
    }
    texts
}

/// A list of `len` empty byte strings.
fn empty_strings(len: usize) -> (r: Vec<Vec<u8>>)
    ensures
        r@.len() == len,
{
    let mut strings: Vec<Vec<u8>> = Vec::new();
    let mut i: usize = 0;
    while i < len
        invariant
            i <= len,
            strings@.len() == i,
        decreases len - i,
    {
        strings.push(Vec::new());
        i += 1;
    }
    strings
}

/// Default rows of a list type.
fn default_lists(elements: Canonical, nullability: Nullability, len: usize) -> (r: ListViewArray)
    ensures
        is_default(
            r@,
            TypeModel::List(Box::new(elements@.dtype), nullability),
            len as nat,
        ),
{
    let r = ListViewArray {
        elements: Arc::new(elements),
        offsets: zero_positions(len),
        sizes: zero_positions(len),
        validity: default_validity(nullability),
    };
    assert(nullability == Nullability::Nullable ==> r@.rows =~= nulls(len as nat));
    r
}

/// Default rows of a map type.
fn default_maps(
    keys: Canonical,
    values: Canonical,
    nullability: Nullability,
    len: usize,
) -> (r: MapArray)
    requires
        keys@.rows.len() == values@.rows.len(),
    ensures
        is_default(
            r@,
            TypeModel::Mapping(Box::new(keys@.dtype), Box::new(values@.dtype), nullability),
            len as nat,
        ),
{
    let r = MapArray {
        keys: Arc::new(keys),
        values: Arc::new(values),
        offsets: zero_positions(len),
        sizes: zero_positions(len),
        validity: default_validity(nullability),
    };
    assert(nullability == Nullability::Nullable ==> r@.rows =~= nulls(len as nat));
    r
}

/// Default rows of a fixed-size list type.
fn default_fixed_size_lists(
    elements: Canonical,
    size: usize,
    nullability: Nullability,
    len: usize,
) -> (r: FixedSizeListArray)
    requires
        elements@.rows.len() == size,
    ensures
        is_default(
            r@,
            TypeModel::FixedSizeList(Box::new(elements@.dtype), size as nat, nullability),
            len as nat,
        ),
{
    let r = FixedSizeListArray {
        elements: Arc::new(elements),
        size,
        offsets: zero_positions(len),
        validity: default_validity(nullability),
    };
    assert(nullability == Nullability::Nullable ==> r@.rows =~= nulls(len as nat));
    r
}

/// Default rows of a struct type.
fn default_structs(fields: &Vec<(String, DType)>, nullability: Nullability, len: usize) -> (r:
    StructArray)
    ensures
        is_default(r@, TypeModel::Struct(named_types(fields@), nullability), len as nat),
    decreases fields@, 1nat,
{
    let r = StructArray {
        names: field_names(fields),
        fields: default_columns(fields, len),
        len,
        validity: default_validity(nullability),
    };
    assert(column_types(r.names@, r.fields@) =~= named_types(fields@));
    assert(nullability == Nullability::Nullable ==> r@.rows =~= nulls(len as nat));
    r
}

/// Default rows of a union type.
fn default_unions(variants: &Vec<(String, DType)>, nullability: Nullability, len: usize) -> (r:
    UnionArray)
    ensures
        is_default(r@, TypeModel::Union(named_types(variants@), nullability), len as nat),
    decreases variants@, 1nat,
{
    let r = UnionArray {
        names: field_names(variants),
        variants: default_columns(variants, len),
        tags: zero_positions(len),
        validity: default_validity(nullability),
    };
    assert(column_types(r.names@, r.variants@) =~= named_types(variants@));
    assert(nullability == Nullability::Nullable ==> r@.rows =~= nulls(len as nat));
    r
}

impl Canonical {
    /// An array of `len` rows of the given type: nulls where the type allows them, and values
    /// that nothing is promised of where it does not.
    pub fn default_of(dtype: &DType, len: usize) -> (r: Canonical)
        ensures
            is_default(r@, dtype@, len as nat),
        decreases dtype, 0nat,
    {
        match dtype {
            DType::List(element, n) => Canonical::List(
                default_lists(Canonical::default_of(element, 0), *n, len),
            ),
            DType::FixedSizeList(element, size, n) => Canonical::FixedSizeList(
                default_fixed_size_lists(Canonical::default_of(element, *size), *size, *n, len),
            ),
            DType::Mapping(key, value, n) => Canonical::Mapping(
                default_maps(
                    Canonical::default_of(key, 0),
                    Canonical::default_of(value, 0),
                    *n,
                    len,
                ),
            ),
            DType::Struct(fields, n) => Canonical::Struct(default_structs(fields, *n, len)),
            DType::Union(variants, n) => Canonical::Union(default_unions(variants, *n, len)),
            DType::Extension(id, storage) => Canonical::Extension(
                ExtensionArray::new(id.clone(), Canonical::default_of(storage, len)),
            ),
            _ => default_flat(dtype, len),
        }
    }

    /// The array of the given type that has no rows.
    pub fn empty(dtype: &DType) -> (r: Canonical)
        ensures
            r@.dtype == dtype@,
            r@.rows == Seq::<Value>::empty(),
    {
        let r = Canonical::default_of(dtype, 0);
        assert(r@.rows =~= Seq::<Value>::empty());
        r
    }
}

/// The codes with every null replaced by zero.
fn fill_codes(codes: &PrimitiveArray, len: usize) -> (r: PrimitiveArray)
    requires
        codes.selects_from(len as nat),
        len > 0,
    ensures
        r.selects_from(len as nat),
        r@.dtype == TypeModel::Primitive(PType::U64, Nullability::NonNullable),
        r@.rows.len() == codes@.rows.len(),
        forall|i: int|
            #![trigger r@.rows[i]]
            0 <= i < r@.rows.len() ==> match codes@.rows[i] {
                Value::Int(c) => r@.rows[i] == Value::Int(c),
                _ => r@.rows[i] == Value::Int(0),
            },
{
    let mut values: Vec<i128> = Vec::new();
    let mut i: usize = 0;
    while i < codes.len()
        invariant
            i <= codes@.rows.len(),
            values@.len() == i,
            codes.selects_from(len as nat),
            len > 0,
            forall|j: int|
                #![trigger values@[j]]
                0 <= j < i ==> 0 <= values@[j] < len && match codes@.rows[j] {
                    Value::Int(c) => values@[j] == c,
                    _ => values@[j] == 0,
                },
        decreases codes@.rows.len() - i,
    {
        match codes.code(i, len) {
            None => values.push(0),
            Some(c) => values.push(c as i128),
        }
        i += 1;
    }
    PrimitiveArray::new(PType::U64, values, Validity::NonNullable)
}

/// What `codes` select out of each of a list of arrays with `len` rows.
fn take_columns(columns: &Vec<Canonical>, codes: &PrimitiveArray, len: usize) -> (r: Vec<Canonical>)
    requires
        codes.selects_from(len as nat),
        forall|k: int| 0 <= k < columns@.len() ==> (#[trigger] columns@[k])@.rows.len() == len,
    ensures
        r@.len() == columns@.len(),
        forall|k: int|
            0 <= k < r@.len() ==> (#[trigger] r@[k])@ == columns@[k]@.take(codes@),
    decreases columns@, 0nat,
{
    let mut taken: Vec<Canonical> = Vec::new();
    let mut k: usize = 0;
    while k < columns.len()
        invariant
            k <= columns@.len(),
            taken@.len() == k,
            codes.selects_from(len as nat),
            forall|j: int| 0 <= j < columns@.len() ==> (#[trigger] columns@[j])@.rows.len() == len,
            forall|j: int|
                0 <= j < k ==> (#[trigger] taken@[j])@ == columns@[j]@.take(codes@),
        decreases columns@.len() - k,
    {
        assert(decreases_to!(columns@ => columns@[k as int]));
        taken.push(take_canonical(&columns[k], codes));
        k += 1;
    }
    taken
}

/// A copy of a list of names.
fn clone_names(names: &Vec<String>) -> (r: Vec<String>)
    ensures
        r@ == names@,
{
    let mut copy: Vec<String> = Vec::new();
    let mut k: usize = 0;
    while k < names.len()
        invariant
            k <= names@.len(),
            copy@ == names@.take(k as int),
        decreases names@.len() - k,
    {
        copy.push(names[k].clone());
        assert(names@.take(k + 1) =~= names@.take(k as int).push(names@[k as int]));
        k += 1;
    }
    assert(names@.take(names@.len() as int) =~= names@);
    copy
}

/// What `codes` select out of the parts of an array with `len` rows. Each part keeps its type, so
/// nothing is promised of the rows that a null code selects.
fn take_parts(
    names: &Vec<String>,
    columns: &Vec<Canonical>,
    codes: &PrimitiveArray,
    len: usize,
) -> (r: Vec<Canonical>)
    requires
        codes.selects_from(len as nat),
        columns_fit(names@, columns@, len as nat),
    ensures
        r@.len() == columns@.len(),
        forall|k: int|
            0 <= k < r@.len() ==> (#[trigger] r@[k])@.dtype == columns@[k]@.dtype
                && r@[k]@.rows.len() == codes@.rows.len(),
        forall|k: int, i: int|
            #![trigger r@[k]@.rows[i]]
            0 <= k < r@.len() && 0 <= i < codes@.rows.len() ==> (
            codes@.rows[i] matches Value::Int(c) ==> r@[k]@.rows[i] == columns@[k]@.rows[c]),
    decreases columns@, 1nat,
{
    if len == 0 {
        let dtypes = named_dtypes(names, columns);
        let r = default_columns(&dtypes, codes.len());
        proof {
            assert(named_types(dtypes@).len() == column_types(names@, columns@).len());
            assert forall|k: int| 0 <= k < r@.len() implies (#[trigger] r@[k])@.dtype
                == columns@[k]@.dtype by {
                assert(named_types(dtypes@)[k] == column_types(names@, columns@)[k]);
            }
        }
        r
    } else {
        let filled = fill_codes(codes, len);
        let r = take_columns(columns, &filled, len);
        proof {
            assert forall|k: int| 0 <= k < r@.len() implies (#[trigger] r@[k])@.dtype
                == columns@[k]@.dtype by {
                lemma_nullability(
                    columns@[k]@.dtype,
                    Nullability::NonNullable,
                    Nullability::NonNullable,
                );
            }
        }
        r
    }
}

/// The structs that `codes` select. Each field keeps its type: a null code leaves a null struct
/// behind, not null fields.
pub fn take_struct(array: &StructArray, codes: &PrimitiveArray) -> (r: StructArray)
    requires
        codes.selects_from(array@.rows.len()),
    ensures
        r@ == array@.take(codes@),
    decreases array, 2nat,
{
    proof {
        use_type_invariant(array);
    }
    let validity = take_validity(&array.validity, array.len, codes);
    let fields = take_parts(&array.names, &array.fields, codes, array.len);
    let r = StructArray { names: clone_names(&array.names), fields, len: codes.len(), validity };
    proof {
        assert(column_types(r.names@, r.fields@) =~= column_types(array.names@, array.fields@));
        assert forall|i: int| 0 <= i < codes@.rows.len() implies #[trigger] r@.rows[i]
            == array@.pick(codes@.rows[i]) by {
            if let Value::Int(c) = codes@.rows[i] {
                assert(column_values(r.names@, r.fields@, i) =~= column_values(
                    array.names@,
                    array.fields@,
                    c,
                ));
            }
        }
        assert(r@ =~= array@.take(codes@));
    }
    r
}

/// The tagged values that `codes` select.
pub fn take_union(array: &UnionArray, codes: &PrimitiveArray) -> (r: UnionArray)
    requires
        codes.selects_from(array@.rows.len()),
    ensures
        r@ == array@.take(codes@),
    decreases array, 2nat,
{
    proof {
        use_type_invariant(array);
    }
    let len = array.tags.len();
    let validity = take_validity(&array.validity, len, codes);
    let tags = take_positions(&array.tags, codes);
    let variants = take_parts(&array.names, &array.variants, codes, len);
    let r = UnionArray { names: clone_names(&array.names), variants, tags, validity };
    proof {
        assert(column_types(r.names@, r.variants@) =~= column_types(
            array.names@,
            array.variants@,
        ));
        assert forall|i: int| 0 <= i < codes@.rows.len() implies #[trigger] r@.rows[i]
            == array@.pick(codes@.rows[i]) by {
            if let Value::Int(c) = codes@.rows[i] {
                assert(column_values(r.names@, r.variants@, i) =~= column_values(
                    array.names@,
                    array.variants@,
                    c,
                ));
            }
        }
        assert(r@ =~= array@.take(codes@));
    }
    r
}

/// The extension values that `codes` select: what they select out of the storage.
pub fn take_extension(array: &ExtensionArray, codes: &PrimitiveArray) -> (r: ExtensionArray)
    requires
        codes.selects_from(array@.rows.len()),
    ensures
        r@ == array@.take(codes@),
    decreases array, 2nat,
{
    let storage = take_canonical(&array.storage, codes);
    let r = ExtensionArray::new(array.id.clone(), storage);
    assert(r@ =~= array@.take(codes@));
    r
}

/// The variant values that `codes` select: what they select out of each storage.
fn take_variant(array: &VariantArray, codes: &PrimitiveArray) -> (r: VariantArray)
    requires
        codes.selects_from(array@.rows.len()),
    ensures
        r@ == array@.take(codes@),
    decreases array, 2nat,
{
    proof {
        use_type_invariant(array);
    }
    let core_storage = take_canonical(&array.core_storage, codes);
    let shredded = match &array.shredded {
        None => None,
        Some(shredded) => Some(Box::new(take_canonical(shredded, codes))),
    };
    let r = VariantArray { core_storage: Box::new(core_storage), shredded };
    proof {
        lemma_nullability(
            array.core_storage@.dtype,
            array.core_storage@.dtype.nullability().spec_union(codes@.dtype.nullability()),
            Nullability::NonNullable,
        );
        assert(r@ =~= array@.take(codes@));
    }
    r
}

/// What `codes` select out of a canonical array: a new canonical array of the same kind.
///
/// This is the core of dictionary decoding, which looks every code up in the values.
pub fn take_canonical(values: &Canonical, codes: &PrimitiveArray) -> (r: Canonical)
    requires
        codes.selects_from(values@.rows.len()),
    ensures
        r@ == values@.take(codes@),
    decreases values, 3nat,
{
    match values {
        Canonical::Null(array) => Canonical::Null(take_null(array, codes)),
        Canonical::Bool(array) => Canonical::Bool(take_bool(array, codes)),
        Canonical::Primitive(array) => Canonical::Primitive(take_primitive(array, codes)),
        Canonical::Decimal(array) => Canonical::Decimal(take_decimal(array, codes)),
        Canonical::VarBinView(array) => Canonical::VarBinView(take_varbinview(array, codes)),
        Canonical::List(array) => Canonical::List(take_listview(array, codes)),
        Canonical::Mapping(array) => Canonical::Mapping(take_map(array, codes)),
        Canonical::FixedSizeList(array) => Canonical::FixedSizeList(
            take_fixed_size_list(array, codes),
        ),
        Canonical::Struct(array) => Canonical::Struct(take_struct(array, codes)),
        Canonical::Union(array) => Canonical::Union(take_union(array, codes)),
        Canonical::Extension(array) => Canonical::Extension(take_extension(array, codes)),
        Canonical::Variant(array) => Canonical::Variant(take_variant(array, codes)),
    }
}

/// The rows of a list of optional booleans.
pub open spec fn bool_rows(values: Seq<Option<bool>>) -> Seq<Value> {
    Seq::new(values.len(), |i: int| bool_value(values[i]))
}

/// The rows of a list of optional primitives.
pub open spec fn primitive_rows(ptype: PType, values: Seq<Option<i128>>) -> Seq<Value> {
    Seq::new(
        values.len(),
        |i: int|
            match values[i] {
                Some(v) => primitive_value(ptype, v as int),
                None => Value::Null,
            },
    )
}

impl BoolArray {
    /// The array with the given rows.
    pub fn from_options(rows: &Vec<Option<bool>>, nullability: Nullability) -> (r: BoolArray)
        requires
            nullability == Nullability::NonNullable ==> forall|i: int|
                0 <= i < rows@.len() ==> #[trigger] rows@[i] is Some,
        ensures
            r@ == (ArrayModel { dtype: TypeModel::Bool(nullability), rows: bool_rows(rows@) }),
    {
        let mut values: Vec<bool> = Vec::new();
        let mut mask: Vec<bool> = Vec::new();
        let mut i: usize = 0;
        while i < rows.len()
            invariant
                i <= rows@.len(),
                values@.len() == i,
                mask@.len() == i,
                forall|j: int| 0 <= j < i ==> #[trigger] mask@[j] == rows@[j] is Some,
                forall|j: int|
                    #![trigger values@[j]]
                    0 <= j < i ==> (rows@[j] matches Some(b) ==> values@[j] == b),
            decreases rows@.len() - i,
        {
            match rows[i] {
                Some(b) => {
                    values.push(b);
                    mask.push(true);
                },
                None => {
                    values.push(false);
                    mask.push(false);
                },
            }
            i += 1;
        }
        let r = match nullability {
            Nullability::NonNullable => BoolArray { values, validity: Validity::NonNullable },
            Nullability::Nullable => BoolArray { values, validity: Validity::Mask(mask) },
        };
        assert(r@.rows =~= bool_rows(rows@));
        r
    }
}

impl PrimitiveArray {
    /// The array with the given rows.
    pub fn from_options(ptype: PType, rows: &Vec<Option<i128>>, nullability: Nullability) -> (r:
        PrimitiveArray)
        requires
            nullability == Nullability::NonNullable ==> forall|i: int|
                0 <= i < rows@.len() ==> #[trigger] rows@[i] is Some,
            forall|i: int|
                0 <= i < rows@.len() ==> (#[trigger] rows@[i] matches Some(v) ==> ptype.holds(
                    v as int,
                )),
        ensures
            r@ == (ArrayModel {
                dtype: TypeModel::Primitive(ptype, nullability),
                rows: primitive_rows(ptype, rows@),
            }),
    {
        let mut values: Vec<i128> = Vec::new();
        let mut mask: Vec<bool> = Vec::new();
        let mut i: usize = 0;
        while i < rows.len()
            invariant
                i <= rows@.len(),
                values@.len() == i,
                mask@.len() == i,
                forall|j: int|
                    0 <= j < rows@.len() ==> (#[trigger] rows@[j] matches Some(v) ==> ptype.holds(
                        v as int,
                    )),
                forall|j: int| 0 <= j < i ==> #[trigger] mask@[j] == rows@[j] is Some,
                forall|j: int|
                    #![trigger values@[j]]
                    0 <= j < i ==> ptype.holds(values@[j] as int) && (rows@[j] matches Some(v)
                        ==> values@[j] == v),
            decreases rows@.len() - i,
        {
            match rows[i] {
                Some(v) => {
                    values.push(v);
                    mask.push(true);
                },
                None => {
                    values.push(0);
                    mask.push(false);
                },
            }
            i += 1;
        }
        let r = match nullability {
            Nullability::NonNullable => PrimitiveArray {
                ptype,
                values,
                validity: Validity::NonNullable,
            },
            Nullability::Nullable => PrimitiveArray {
                ptype,
                values,
                validity: Validity::Mask(mask),
            },
        };
        assert(r@.rows =~= primitive_rows(ptype, rows@));
        r
    }
}

impl Canonical {
    /// The value of row `i` of an array of a flat, comparable type.
    pub fn leaf(&self, i: usize) -> (r: Leaf<'_>)
        requires
            i < self@.rows.len(),
            is_comparable(self@.dtype),
        ensures
            r@ == self@.rows[i as int],
            r.wf(),
            r is Null ==> self@.dtype.nullability() == Nullability::Nullable,
    {
        match self {
            Canonical::Bool(array) => match array.get(i) {
                Some(b) => Leaf::Bool(b),
                None => Leaf::Null,
            },
            Canonical::Primitive(array) => match array.get(i) {
                Some(v) => if array.ptype.is_float() {
                    Leaf::Float(array.ptype, v)
                } else {
                    Leaf::Int(v)
                },
                None => Leaf::Null,
            },
            Canonical::Decimal(array) => match array.get(i) {
                Some(v) => Leaf::Int(v),
                None => Leaf::Null,
            },
            Canonical::VarBinView(array) => match &array.values {
                VarBin::Text(_) => match array.text(i) {
                    Some(text) => Leaf::Text(text),
                    None => Leaf::Null,
                },
                VarBin::Bytes(_) => match array.bytes(i) {
                    Some(bytes) => Leaf::Bytes(bytes),
                    None => Leaf::Null,
                },
            },
            _ => Leaf::Null,
        }
    }

    /// Whether row `i` is null.
    pub fn is_null(&self, i: usize) -> (r: bool)
        requires
            i < self@.rows.len(),
        ensures
            r == (self@.rows[i as int] == Value::Null),
        decreases self,
    {
        match self {
            Canonical::Null(_) => true,
            Canonical::Bool(array) => array.get(i).is_none(),
            Canonical::Primitive(array) => array.get(i).is_none(),
            Canonical::Decimal(array) => array.get(i).is_none(),
            Canonical::VarBinView(array) => {
                proof {
                    use_type_invariant(array);
                }
                !array.validity.is_valid(i)
            },
            Canonical::List(array) => {
                proof {
                    use_type_invariant(array);
                }
                !array.validity.is_valid(i)
            },
            Canonical::Mapping(array) => {
                proof {
                    use_type_invariant(array);
                }
                !array.validity.is_valid(i)
            },
            Canonical::FixedSizeList(array) => {
                proof {
                    use_type_invariant(array);
                }
                !array.validity.is_valid(i)
            },
            Canonical::Struct(array) => {
                proof {
                    use_type_invariant(array);
                }
                !array.validity.is_valid(i)
            },
            Canonical::Union(array) => {
                proof {
                    use_type_invariant(array);
                }
                !array.validity.is_valid(i) || array.tags[i] >= array.variants.len()
            },
            Canonical::Extension(array) => array.storage.is_null(i),
            Canonical::Variant(array) => {
                proof {
                    use_type_invariant(array);
                }
                array.core_storage.is_null(i) && match &array.shredded {
                    None => true,
                    Some(shredded) => shredded.is_null(i),
                }
            },
        }
    }
}

/// The codes of all rows in order, null where the validity says so.
fn row_codes(len: usize, validity: &Validity) -> (r: PrimitiveArray)
    requires
        validity.covers(len as nat),
    ensures
        r.selects_from(len as nat),
        r@.dtype.nullability() == validity.spec_nullability(),
        r@.rows.len() == len,
        forall|i: int|
            #![trigger r@.rows[i]]
            0 <= i < len ==> r@.rows[i] == (if validity.valid(i) {
                Value::Int(i)
            } else {
                Value::Null
            }),
{
    let mut codes: Vec<Option<i128>> = Vec::new();
    let mut i: usize = 0;
    while i < len
        invariant
            i <= len,
            validity.covers(len as nat),
            codes@.len() == i,
            forall|j: int|
                #![trigger codes@[j]]
                0 <= j < i ==> codes@[j] == (if validity.valid(j) {
                    Some(j as i128)
                } else {
                    None
                }),
        decreases len - i,
    {
        if validity.is_valid(i) {
            codes.push(Some(i as i128));
        } else {
            codes.push(None);
        }
        i += 1;
    }
    PrimitiveArray::from_options(PType::U64, &codes, validity.nullability())
}

impl StructArray {
    /// The field called `name`, null where the struct is; the first, if there are several.
    pub fn get_item(&self, name: &String) -> (r: Option<Canonical>)
        ensures
            match r {
                Some(field) => {
                    &&& self@.dtype.field(name@) matches Some(dtype)
                    &&& field@ == (ArrayModel {
                        dtype: dtype.union_nullability(self@.dtype.nullability()),
                        rows: Seq::new(
                            self@.rows.len(),
                            |i: int| self@.rows[i].field(name@),
                        ),
                    })
                },
                None => self@.dtype.field(name@) is None,
            },
    {
        proof {
            use_type_invariant(self);
        }
        let ghost types = column_types(self.names@, self.fields@);
        let mut k: usize = 0;
        assert(types.skip(0) =~= types);
        while k < self.names.len()
            invariant
                k <= self.names@.len() == self.fields@.len(),
                types == column_types(self.names@, self.fields@),
                field_in(types, name@) == field_in(types.skip(k as int), name@),
                forall|j: int| 0 <= j < k ==> (#[trigger] self.names@[j])@ != name@,
                self.validity.covers(self.len as nat),
                forall|j: int|
                    0 <= j < self.fields@.len() ==> (#[trigger] self.fields@[j])@.rows.len()
                        == self.len,
            decreases self.names@.len() - k,
        {
            assert(types.skip(k as int)[0] == types[k as int]);
            assert(types.skip(k as int).drop_first() =~= types.skip(k + 1));
            if self.names[k] == *name {
                let codes = row_codes(self.len, &self.validity);
                let field = take_canonical(&self.fields[k], &codes);
                proof {
                    assert forall|i: int| 0 <= i < self.len implies #[trigger] field@.rows[i]
                        == self@.rows[i].field(name@) by {
                        if self.validity.valid(i) {
                            lemma_value_in(self.names@, self.fields@, i, name@, k as int);
                        }
                    }
                    assert(field@.rows =~= Seq::new(
                        self@.rows.len(),
                        |i: int| self@.rows[i].field(name@),
                    ));
                }
                return Some(field);
            }
            k += 1;
        }
        assert(types.skip(k as int).len() == 0);
        None
    }
}

/// The first field called `name` is the one found by that name.
proof fn lemma_value_in(
    names: Seq<String>,
    columns: Seq<Canonical>,
    i: int,
    name: Seq<char>,
    k: int,
)
    requires
        0 <= k < columns.len() == names.len(),
        names[k]@ == name,
        forall|j: int| 0 <= j < k ==> (#[trigger] names[j])@ != name,
    ensures
        value_in(column_values(names, columns, i), name) == columns[k]@.rows[i],
    decreases k,
{
    let all = column_values(names, columns, i);
    assert(all[0] == (names[0]@, columns[0]@.rows[i]));
    if k > 0 {
        assert(names[0]@ != name);
        assert(all.drop_first() =~= column_values(names.drop_first(), columns.drop_first(), i));
        lemma_value_in(names.drop_first(), columns.drop_first(), i, name, k - 1);
    }
}

/// The validity of an array without nulls.
fn valid_validity(nullability: Nullability) -> (r: Validity)
    ensures
        r.spec_nullability() == nullability,
        forall|i: int| r.valid(i),
        forall|len: nat| r.covers(len),
{
    match nullability {
        Nullability::Nullable => Validity::AllValid,
        Nullability::NonNullable => Validity::NonNullable,
    }
}

/// The content of an array of `len` rows that are all `scalar`.
pub open spec fn constant_model(scalar: ScalarModel, len: nat) -> ArrayModel {
    ArrayModel { dtype: scalar.dtype, rows: Seq::new(len, |i: int| scalar.value) }
}

impl Canonical {
    /// An array of `len` rows that are all `scalar`.
    pub fn constant(scalar: &Scalar, len: usize) -> (r: Canonical)
        ensures
            r@ == constant_model(scalar@, len as nat),
    {
        let value = scalar.value();
        let dtype = scalar.dtype();
        let validity = valid_validity(dtype.nullability());
        let r = match value {
            ScalarValue::Null => Canonical::default_of(dtype, len),
            ScalarValue::Bool(b) => {
                let mut values: Vec<bool> = Vec::new();
                let mut i: usize = 0;
                while i < len
                    invariant
                        i <= len,
                        values@.len() == i,
                        forall|j: int| 0 <= j < i ==> values@[j] == *b,
                    decreases len - i,
                {
                    values.push(*b);
                    i += 1;
                }
                Canonical::Bool(BoolArray::new(values, validity))
            },
            ScalarValue::Int(v) => {
                let mut values: Vec<i128> = Vec::new();
                let mut i: usize = 0;
                while i < len
                    invariant
                        i <= len,
                        values@.len() == i,
                        forall|j: int| 0 <= j < i ==> values@[j] == *v,
                    decreases len - i,
                {
                    values.push(*v);
                    i += 1;
                }
                match dtype {
                    DType::Primitive(ptype, _) => Canonical::Primitive(
                        PrimitiveArray::new(*ptype, values, validity),
                    ),
                    DType::Decimal(decimal, _) => Canonical::Decimal(
                        DecimalArray::new(*decimal, values, validity),
                    ),
                    _ => Canonical::default_of(dtype, len),
                }
            },
            ScalarValue::Text(text) => {
                let mut values: Vec<String> = Vec::new();
                let mut i: usize = 0;
                while i < len
                    invariant
                        i <= len,
                        values@.len() == i,
                        forall|j: int| 0 <= j < i ==> (#[trigger] values@[j])@ == text@,
                    decreases len - i,
                {
                    values.push(text.clone());
                    i += 1;
                }
                Canonical::VarBinView(VarBinViewArray::new(VarBin::Text(values), validity))
            },
            ScalarValue::Bytes(bytes) => {
                let mut values: Vec<Vec<u8>> = Vec::new();
                let mut i: usize = 0;
                while i < len
                    invariant
                        i <= len,
                        values@.len() == i,
                        forall|j: int| 0 <= j < i ==> (#[trigger] values@[j])@ == bytes@,
                    decreases len - i,
                {
                    values.push(clone_bytes(bytes));
                    i += 1;
                }
                Canonical::VarBinView(VarBinViewArray::new(VarBin::Bytes(values), validity))
            },
        };
        assert(r@.rows =~= constant_model(scalar@, len as nat).rows);
        r
    }
}

impl Canonical {
    /// This array as an array of booleans, if it is one.
    pub fn as_bool(&self) -> (r: Option<&BoolArray>)
        ensures
            r is Some <==> self@.dtype is Bool,
            r matches Some(array) ==> array@ == self@,
    {
        match self {
            Canonical::Bool(array) => Some(array),
            _ => None,
        }
    }

    /// This array as an array of primitives, if it is one.
    pub fn as_primitive(&self) -> (r: Option<&PrimitiveArray>)
        ensures
            r is Some <==> self@.dtype is Primitive,
            r matches Some(array) ==> array@ == self@,
    {
        match self {
            Canonical::Primitive(array) => Some(array),
            _ => None,
        }
    }

    /// This array as an array of texts or of byte strings, if it is one.
    pub fn as_varbinview(&self) -> (r: Option<&VarBinViewArray>)
        ensures
            r is Some <==> self@.dtype is Utf8 || self@.dtype is Binary,
            r matches Some(array) ==> array@ == self@,
    {
        match self {
            Canonical::VarBinView(array) => Some(array),
            _ => None,
        }
    }

    /// This array as an array of structs, if it is one.
    pub fn as_struct(&self) -> (r: Option<&StructArray>)
        ensures
            r is Some <==> self@.dtype is Struct,
            r matches Some(array) ==> array@ == self@,
    {
        match self {
            Canonical::Struct(array) => Some(array),
            _ => None,
        }
    }
}

} // verus!
