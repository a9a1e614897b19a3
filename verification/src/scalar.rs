//! Single values, and what they mean.

use vstd::prelude::*;

use crate::dtype::{DType, DecimalDType, Nullability, PType, TypeModel};

verus! {

/// The mathematical value of one row.
pub enum Value {
    Null,
    Bool(bool),
    /// An integer, or the unscaled integer of a decimal.
    Int(int),
    /// A floating-point number, by its type and bit pattern.
    Float(PType, int),
    Text(Seq<char>),
    Bytes(Seq<u8>),
    List(Seq<Value>),
    Struct(Seq<(Seq<char>, Value)>),
    Union(Seq<char>, Box<Value>),
    /// The value in general storage, and in shredded storage where there is any.
    Variant(Box<Value>, Option<Box<Value>>),
}

/// The value of a stored primitive.
pub open spec fn primitive_value(ptype: PType, raw: int) -> Value {
    if ptype.spec_is_float() {
        Value::Float(ptype, raw)
    } else {
        Value::Int(raw)
    }
}

/// Whether `left` comes before `right` when both are compared number by number.
pub open spec fn lexicographic(left: Seq<int>, right: Seq<int>) -> bool
    decreases left.len(),
{
    if right.len() == 0 {
        false
    } else if left.len() == 0 {
        true
    } else if left[0] != right[0] {
        left[0] < right[0]
    } else {
        lexicographic(left.drop_first(), right.drop_first())
    }
}

/// The code points of a text.
pub open spec fn code_points(text: Seq<char>) -> Seq<int> {
    Seq::new(text.len(), |i: int| text[i] as int)
}

/// The numbers of a byte string.
pub open spec fn byte_values(bytes: Seq<u8>) -> Seq<int> {
    Seq::new(bytes.len(), |i: int| bytes[i] as int)
}

impl Value {
    /// Whether this value comes before `other`. Only two values of one flat kind are ordered.
    pub open spec fn before(self, other: Value) -> bool {
        match (self, other) {
            (Value::Bool(a), Value::Bool(b)) => !a && b,
            (Value::Int(a), Value::Int(b)) => a < b,
            (Value::Float(p, a), Value::Float(q, b)) => p.float_key(a) < q.float_key(b),
            (Value::Text(a), Value::Text(b)) => lexicographic(code_points(a), code_points(b)),
            (Value::Bytes(a), Value::Bytes(b)) => lexicographic(byte_values(a), byte_values(b)),
            _ => false,
        }
    }

    /// The value of the first field called `name`. A null struct has null fields.
    pub open spec fn field(self, name: Seq<char>) -> Value {
        match self {
            Value::Struct(fields) => value_in(fields, name),
            _ => Value::Null,
        }
    }
}

/// The value of the first field called `name`.
pub open spec fn value_in(fields: Seq<(Seq<char>, Value)>, name: Seq<char>) -> Value
    decreases fields.len(),
{
    if fields.len() == 0 {
        Value::Null
    } else if fields[0].0 == name {
        fields[0].1
    } else {
        value_in(fields.drop_first(), name)
    }
}

/// The representation of a single value.
#[derive(Debug, PartialEq, Eq, Hash)]
pub enum ScalarValue {
    Null,
    Bool(bool),
    /// An integer, an unscaled decimal, or the bit pattern of a floating-point number.
    Int(i128),
    Text(String),
    Bytes(Vec<u8>),
}

/// A single value of a known type.
#[derive(Debug, Eq, Hash)]
pub struct Scalar {
    dtype: DType,
    value: ScalarValue,
}

/// The mathematical model of a [`Scalar`].
pub struct ScalarModel {
    pub dtype: TypeModel,
    pub value: Value,
}

/// The value that a representation stands for at type `dtype`.
pub open spec fn scalar_value(dtype: TypeModel, value: ScalarValue) -> Value {
    match value {
        ScalarValue::Null => Value::Null,
        ScalarValue::Bool(b) => Value::Bool(b),
        ScalarValue::Int(raw) => match dtype {
            TypeModel::Primitive(ptype, _) => primitive_value(ptype, raw as int),
            _ => Value::Int(raw as int),
        },
        ScalarValue::Text(text) => Value::Text(text@),
        ScalarValue::Bytes(bytes) => Value::Bytes(bytes@),
    }
}

impl ScalarModel {
    /// Whether the value is one of its type: null only where the type allows it, and of one of the
    /// flat kinds otherwise.
    pub open spec fn wf(self) -> bool {
        match self.value {
            Value::Null => self.dtype.nullability() == Nullability::Nullable,
            Value::Bool(_) => self.dtype is Bool,
            Value::Int(v) => match self.dtype {
                TypeModel::Primitive(ptype, _) => !ptype.spec_is_float() && ptype.holds(v),
                TypeModel::Decimal(..) => i128::MIN <= v <= i128::MAX,
                _ => false,
            },
            Value::Float(p, bits) => match self.dtype {
                TypeModel::Primitive(ptype, _) => p == ptype && ptype.spec_is_float()
                    && ptype.holds(bits),
                _ => false,
            },
            Value::Text(_) => self.dtype is Utf8,
            Value::Bytes(_) => self.dtype is Binary,
            _ => false,
        }
    }
}

impl Scalar {
    #[verifier::type_invariant]
    spec fn inv(self) -> bool {
        self@.wf()
    }

    /// The model of this scalar.
    pub closed spec fn view(&self) -> ScalarModel {
        ScalarModel { dtype: self.dtype@, value: scalar_value(self.dtype@, self.value) }
    }

    /// The null of a nullable type.
    pub fn null(dtype: DType) -> (r: Scalar)
        requires
            dtype@.nullability() == Nullability::Nullable,
        ensures
            r@ == (ScalarModel { dtype: dtype@, value: Value::Null }),
            r@.wf(),
    {
        Scalar { dtype, value: ScalarValue::Null }
    }

    /// A boolean.
    pub fn bool(value: bool, nullability: Nullability) -> (r: Scalar)
        ensures
            r@ == (ScalarModel { dtype: TypeModel::Bool(nullability), value: Value::Bool(value) }),
            r@.wf(),
    {
        Scalar { dtype: DType::Bool(nullability), value: ScalarValue::Bool(value) }
    }

    /// A primitive, by its stored value.
    pub fn primitive(ptype: PType, value: i128, nullability: Nullability) -> (r: Scalar)
        requires
            ptype.holds(value as int),
        ensures
            r@ == (ScalarModel {
                dtype: TypeModel::Primitive(ptype, nullability),
                value: primitive_value(ptype, value as int),
            }),
            r@.wf(),
    {
        Scalar { dtype: DType::Primitive(ptype, nullability), value: ScalarValue::Int(value) }
    }

    /// A decimal, by its unscaled integer.
    pub fn decimal(dtype: DecimalDType, value: i128, nullability: Nullability) -> (r: Scalar)
        ensures
            r@ == (ScalarModel {
                dtype: TypeModel::Decimal(dtype, nullability),
                value: Value::Int(value as int),
            }),
            r@.wf(),
    {
        Scalar { dtype: DType::Decimal(dtype, nullability), value: ScalarValue::Int(value) }
    }

    /// A text.
    pub fn utf8(value: String, nullability: Nullability) -> (r: Scalar)
        ensures
            r@ == (ScalarModel { dtype: TypeModel::Utf8(nullability), value: Value::Text(value@) }),
            r@.wf(),
    {
        Scalar { dtype: DType::Utf8(nullability), value: ScalarValue::Text(value) }
    }

    /// A byte string.
    pub fn binary(value: Vec<u8>, nullability: Nullability) -> (r: Scalar)
        ensures
            r@ == (ScalarModel {
                dtype: TypeModel::Binary(nullability),
                value: Value::Bytes(value@),
            }),
            r@.wf(),
    {
        Scalar { dtype: DType::Binary(nullability), value: ScalarValue::Bytes(value) }
    }

    /// The type of this scalar.
    pub fn dtype(&self) -> (r: &DType)
        ensures
            r@ == self@.dtype,
    {
        &self.dtype
    }

    /// The representation of this scalar's value.
    pub fn value(&self) -> (r: &ScalarValue)
        ensures
            scalar_value(self@.dtype, *r) == self@.value,
            self@.wf(),
    {
        proof {
            use_type_invariant(self);
        }
        &self.value
    }
}

/// A copy of a byte string.
pub fn clone_bytes(bytes: &Vec<u8>) -> (r: Vec<u8>)
    ensures
        r@ == bytes@,
{
    let mut copy: Vec<u8> = Vec::new();
    let mut i: usize = 0;
    while i < bytes.len()
        invariant
            i <= bytes.len(),
            copy@ == bytes@.take(i as int),
        decreases bytes.len() - i,
    {
        copy.push(bytes[i]);
        assert(bytes@.take(i + 1) =~= bytes@.take(i as int).push(bytes@[i as int]));
        i += 1;
    }
    assert(bytes@.take(bytes@.len() as int) =~= bytes@);
    copy
}

impl Clone for Scalar {
    fn clone(&self) -> (r: Scalar)
        ensures
            r@ == self@,
    {
        proof {
            use_type_invariant(self);
        }
        let value = match &self.value {
            ScalarValue::Null => ScalarValue::Null,
            ScalarValue::Bool(b) => ScalarValue::Bool(*b),
            ScalarValue::Int(raw) => ScalarValue::Int(*raw),
            ScalarValue::Text(text) => ScalarValue::Text(text.clone()),
            ScalarValue::Bytes(bytes) => ScalarValue::Bytes(clone_bytes(bytes)),
        };
        Scalar { dtype: self.dtype.clone(), value }
    }
}

/// Whether two byte strings are the same.
pub fn same_bytes(left: &Vec<u8>, right: &Vec<u8>) -> (r: bool)
    ensures
        r == (left@ == right@),
{
    if left.len() != right.len() {
        return false;
    }
    let mut i: usize = 0;
    while i < left.len()
        invariant
            i <= left.len(),
            left.len() == right.len(),
            forall|j: int| 0 <= j < i ==> left@[j] == right@[j],
        decreases left.len() - i,
    {
        if left[i] != right[i] {
            return false;
        }
        i += 1;
    }
    assert(left@ =~= right@);
    true
}

impl PartialEq for Scalar {
    fn eq(&self, other: &Scalar) -> (r: bool) {
        self.dtype == other.dtype && match (&self.value, &other.value) {
            (ScalarValue::Null, ScalarValue::Null) => true,
            (ScalarValue::Bool(a), ScalarValue::Bool(b)) => *a == *b,
            (ScalarValue::Int(a), ScalarValue::Int(b)) => *a == *b,
            (ScalarValue::Text(a), ScalarValue::Text(b)) => *a == *b,
            (ScalarValue::Bytes(a), ScalarValue::Bytes(b)) => same_bytes(a, b),
            _ => false,
        }
    }
}

impl vstd::std_specs::cmp::PartialEqSpecImpl for Scalar {
    open spec fn obeys_eq_spec() -> bool {
        true
    }

    open spec fn eq_spec(&self, other: &Scalar) -> bool {
        self@ == other@
    }
}

} // verus!
