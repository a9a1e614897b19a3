//! Scalar functions: their types, and what they compute row by row.

use vstd::prelude::*;

use crate::dtype::{field_in, named_types, DType, Nullability, TypeModel};
use crate::error::Error;
use crate::scalar::{Scalar, ScalarModel, Value};

verus! {

/// A comparison.
#[derive(Clone, Copy, Debug, PartialEq, Eq, Hash, Structural)]
pub enum CompareOperator {
    Eq,
    NotEq,
    Gt,
    Gte,
    Lt,
    Lte,
}

/// A binary operation.
#[derive(Clone, Copy, Debug, PartialEq, Eq, Hash, Structural)]
pub enum Operator {
    Eq,
    NotEq,
    Gt,
    Gte,
    Lt,
    Lte,
    /// Three-valued conjunction.
    And,
    /// Three-valued disjunction.
    Or,
    /// Addition that fails on overflow.
    Add,
    /// Subtraction that fails on overflow.
    Sub,
}

impl Operator {
    /// The operation that a comparison is.
    pub open spec fn of(operator: CompareOperator) -> Operator {
        match operator {
            CompareOperator::Eq => Operator::Eq,
            CompareOperator::NotEq => Operator::NotEq,
            CompareOperator::Gt => Operator::Gt,
            CompareOperator::Gte => Operator::Gte,
            CompareOperator::Lt => Operator::Lt,
            CompareOperator::Lte => Operator::Lte,
        }
    }

    /// The comparison that this operation is, if it is one.
    pub open spec fn spec_comparison(self) -> Option<CompareOperator> {
        match self {
            Operator::Eq => Some(CompareOperator::Eq),
            Operator::NotEq => Some(CompareOperator::NotEq),
            Operator::Gt => Some(CompareOperator::Gt),
            Operator::Gte => Some(CompareOperator::Gte),
            Operator::Lt => Some(CompareOperator::Lt),
            Operator::Lte => Some(CompareOperator::Lte),
            _ => None,
        }
    }

    /// The comparison that this operation is, if it is one.
    pub fn comparison(self) -> (r: Option<CompareOperator>)
        ensures
            r == self.spec_comparison(),
    {
        match self {
            Operator::Eq => Some(CompareOperator::Eq),
            Operator::NotEq => Some(CompareOperator::NotEq),
            Operator::Gt => Some(CompareOperator::Gt),
            Operator::Gte => Some(CompareOperator::Gte),
            Operator::Lt => Some(CompareOperator::Lt),
            Operator::Lte => Some(CompareOperator::Lte),
            _ => None,
        }
    }
}

impl From<CompareOperator> for Operator {
    fn from(operator: CompareOperator) -> (r: Operator) {
        match operator {
            CompareOperator::Eq => Operator::Eq,
            CompareOperator::NotEq => Operator::NotEq,
            CompareOperator::Gt => Operator::Gt,
            CompareOperator::Gte => Operator::Gte,
            CompareOperator::Lt => Operator::Lt,
            CompareOperator::Lte => Operator::Lte,
        }
    }
}

impl vstd::std_specs::convert::FromSpecImpl<CompareOperator> for Operator {
    open spec fn obeys_from_spec() -> bool {
        true
    }

    open spec fn from_spec(operator: CompareOperator) -> Operator {
        Operator::of(operator)
    }
}

/// How a pattern is matched.
#[derive(Clone, Copy, Debug, PartialEq, Eq, Hash, Structural)]
pub struct LikeOptions {
    /// Whether a text matches when it does not fit the pattern.
    pub negated: bool,
    /// Whether ASCII letters match in either case.
    pub case_insensitive: bool,
}

impl Default for LikeOptions {
    fn default() -> (r: LikeOptions)
        ensures
            r == (LikeOptions { negated: false, case_insensitive: false }),
    {
        LikeOptions { negated: false, case_insensitive: false }
    }
}

/// The options of a function that has none.
#[derive(Clone, Copy, Debug, PartialEq, Eq, Hash, Structural)]
pub struct EmptyOptions;

/// A scalar function together with its options.
#[derive(Debug, Eq, Hash)]
pub enum ScalarFnRef {
    /// A constant.
    Literal(Scalar),
    /// A field of a struct.
    GetItem(String),
    /// A binary operation.
    Binary(Operator),
    /// Whether a value is not null.
    IsNotNull(EmptyOptions),
    /// Whether a text fits a pattern.
    Like(LikeOptions),
}

/// The mathematical model of a [`ScalarFnRef`].
pub enum FnModel {
    Literal(ScalarModel),
    GetItem(Seq<char>),
    Binary(Operator),
    IsNotNull,
    Like(LikeOptions),
}

impl FnModel {
    /// The number of children.
    pub open spec fn arity(self) -> nat {
        match self {
            FnModel::Literal(_) => 0,
            FnModel::GetItem(_) => 1,
            FnModel::Binary(_) => 2,
            FnModel::IsNotNull => 1,
            FnModel::Like(_) => 2,
        }
    }

    /// The type of the result for children of the given types.
    pub open spec fn return_dtype(self, args: Seq<TypeModel>) -> Result<TypeModel, Error> {
        match self {
            FnModel::Literal(scalar) => Ok(scalar.dtype),
            FnModel::GetItem(name) => match args[0] {
                TypeModel::Struct(..) => match args[0].field(name) {
                    Some(field) => Ok(field.union_nullability(args[0].nullability())),
                    None => Err(Error::UnknownField),
                },
                _ => Err(Error::TypeMismatch),
            },
            FnModel::Binary(operator) => binary_dtype(operator, args[0], args[1]),
            FnModel::IsNotNull => Ok(TypeModel::Bool(Nullability::NonNullable)),
            FnModel::Like(_) => match (args[0], args[1]) {
                (TypeModel::Utf8(m), TypeModel::Utf8(n)) => Ok(TypeModel::Bool(m.spec_union(n))),
                _ => Err(Error::TypeMismatch),
            },
        }
    }

    /// What the function computes on one row, where `dtype` is the type of the result. There is
    /// no result where an integer operation overflows.
    pub open spec fn row(self, dtype: TypeModel, args: Seq<Value>) -> Option<Value> {
        match self {
            FnModel::Literal(scalar) => Some(scalar.value),
            FnModel::GetItem(name) => Some(args[0].field(name)),
            FnModel::Binary(operator) => binary_row(operator, dtype, args[0], args[1]),
            FnModel::IsNotNull => Some(Value::Bool(args[0] != Value::Null)),
            FnModel::Like(options) => Some(like_values(options, args[0], args[1])),
        }
    }
}

/// Whether values of this type can be compared.
pub open spec fn is_comparable(dtype: TypeModel) -> bool {
    match dtype {
        TypeModel::Bool(_) | TypeModel::Primitive(..) | TypeModel::Decimal(..)
        | TypeModel::Utf8(_) | TypeModel::Binary(_) => true,
        _ => false,
    }
}

/// The type of a binary operation: booleans for comparisons of one comparable type and for
/// connectives of booleans, and the operand type for arithmetic on one integer type. The result
/// is nullable as soon as an operand is.
pub open spec fn binary_dtype(operator: Operator, left: TypeModel, right: TypeModel) -> Result<
    TypeModel,
    Error,
> {
    let nullability = left.nullability().spec_union(right.nullability());
    let alike = left.as_nullable() == right.as_nullable();
    match operator {
        Operator::And | Operator::Or => if left is Bool && alike {
            Ok(TypeModel::Bool(nullability))
        } else {
            Err(Error::TypeMismatch)
        },
        Operator::Add | Operator::Sub => match left {
            TypeModel::Primitive(ptype, _) => if alike && !ptype.spec_is_float() {
                Ok(TypeModel::Primitive(ptype, nullability))
            } else {
                Err(Error::TypeMismatch)
            },
            _ => Err(Error::TypeMismatch),
        },
        _ => if is_comparable(left) && alike {
            Ok(TypeModel::Bool(nullability))
        } else {
            Err(Error::TypeMismatch)
        },
    }
}

/// The outcome of a comparison: null as soon as a side is null.
pub open spec fn compare_values(operator: CompareOperator, left: Value, right: Value) -> Value {
    if left == Value::Null || right == Value::Null {
        Value::Null
    } else {
        Value::Bool(
            match operator {
                CompareOperator::Eq => left == right,
                CompareOperator::NotEq => left != right,
                CompareOperator::Gt => right.before(left),
                CompareOperator::Gte => !left.before(right),
                CompareOperator::Lt => left.before(right),
                CompareOperator::Lte => !right.before(left),
            },
        )
    }
}

/// Three-valued conjunction: false as soon as a side is false.
pub open spec fn and_values(left: Value, right: Value) -> Value {
    if left == Value::Bool(false) || right == Value::Bool(false) {
        Value::Bool(false)
    } else if left == Value::Null || right == Value::Null {
        Value::Null
    } else {
        Value::Bool(true)
    }
}

/// Three-valued disjunction: true as soon as a side is true.
pub open spec fn or_values(left: Value, right: Value) -> Value {
    if left == Value::Bool(true) || right == Value::Bool(true) {
        Value::Bool(true)
    } else if left == Value::Null || right == Value::Null {
        Value::Null
    } else {
        Value::Bool(false)
    }
}

/// An integer as a value of type `dtype`, if it is one.
pub open spec fn checked_value(dtype: TypeModel, value: int) -> Option<Value> {
    match dtype {
        TypeModel::Primitive(ptype, _) => if ptype.holds(value) {
            Some(Value::Int(value))
        } else {
            None
        },
        _ => None,
    }
}

/// What a binary operation computes on one row.
pub open spec fn binary_row(
    operator: Operator,
    dtype: TypeModel,
    left: Value,
    right: Value,
) -> Option<Value> {
    match operator {
        Operator::And => Some(and_values(left, right)),
        Operator::Or => Some(or_values(left, right)),
        Operator::Add => match (left, right) {
            (Value::Int(a), Value::Int(b)) => checked_value(dtype, a + b),
            _ => Some(Value::Null),
        },
        Operator::Sub => match (left, right) {
            (Value::Int(a), Value::Int(b)) => checked_value(dtype, a - b),
            _ => Some(Value::Null),
        },
        _ => Some(compare_values(operator.spec_comparison()->0, left, right)),
    }
}

/// Whether a text fits a pattern: `%` stands for any characters, `_` for any one character, a
/// backslash for the character behind it, and any other character for itself.
pub open spec fn fits_pattern(pattern: Seq<char>, text: Seq<char>) -> bool
    decreases pattern.len(), text.len(),
{
    if pattern.len() == 0 {
        text.len() == 0
    } else if pattern[0] == '%' {
        fits_pattern(pattern.skip(1), text) || (text.len() > 0 && fits_pattern(
            pattern,
            text.skip(1),
        ))
    } else if text.len() == 0 {
        false
    } else if pattern[0] == '\\' && pattern.len() > 1 {
        text[0] == pattern[1] && fits_pattern(pattern.skip(2), text.skip(1))
    } else {
        (pattern[0] == '_' || text[0] == pattern[0]) && fits_pattern(
            pattern.skip(1),
            text.skip(1),
        )
    }
}

/// A character with ASCII capitals replaced by small letters.
pub open spec fn small(c: char) -> char {
    if 'A' <= c && c <= 'Z' {
        ((c as u32) + 32) as char
    } else {
        c
    }
}

/// A text with ASCII capitals replaced by small letters.
pub open spec fn small_text(text: Seq<char>) -> Seq<char> {
    text.map_values(|c: char| small(c))
}

/// Whether a text matches a pattern under the given options.
pub open spec fn like_text(options: LikeOptions, text: Seq<char>, pattern: Seq<char>) -> bool {
    let fits = if options.case_insensitive {
        fits_pattern(small_text(pattern), small_text(text))
    } else {
        fits_pattern(pattern, text)
    };
    fits != options.negated
}

/// The outcome of a match: null as soon as a side is null.
pub open spec fn like_values(options: LikeOptions, text: Value, pattern: Value) -> Value {
    match (text, pattern) {
        (Value::Text(t), Value::Text(p)) => Value::Bool(like_text(options, t, p)),
        _ => Value::Null,
    }
}

impl ScalarFnRef {
    /// The model of this function.
    pub open spec fn view(&self) -> FnModel {
        match self {
            ScalarFnRef::Literal(scalar) => FnModel::Literal(scalar@),
            ScalarFnRef::GetItem(name) => FnModel::GetItem(name@),
            ScalarFnRef::Binary(operator) => FnModel::Binary(*operator),
            ScalarFnRef::IsNotNull(_) => FnModel::IsNotNull,
            ScalarFnRef::Like(options) => FnModel::Like(*options),
        }
    }

    /// Whether this function takes `n` children.
    pub fn arity_matches(&self, n: usize) -> (r: bool)
        ensures
            r == (n == self@.arity()),
    {
        let arity: usize = match self {
            ScalarFnRef::Literal(_) => 0,
            ScalarFnRef::GetItem(_) => 1,
            ScalarFnRef::Binary(_) => 2,
            ScalarFnRef::IsNotNull(_) => 1,
            ScalarFnRef::Like(_) => 2,
        };
        n == arity
    }
}

/// The models of a list of types.
pub open spec fn types_of(args: Seq<DType>) -> Seq<TypeModel> {
    Seq::new(args.len(), |i: int| args[i]@)
}

/// The field of `fields` called `name`, if there is one; the first, if there are several.
fn find_field<'a>(fields: &'a Vec<(String, DType)>, name: &String) -> (r: Option<&'a DType>)
    ensures
        match r {
            Some(dtype) => field_in(named_types(fields@), name@) == Some(dtype@),
            None => field_in(named_types(fields@), name@) is None,
        },
{
    let ghost all = named_types(fields@);
    let mut i: usize = 0;
    assert(all.skip(0) =~= all);
    while i < fields.len()
        invariant
            i <= fields@.len(),
            all == named_types(fields@),
            field_in(all, name@) == field_in(all.skip(i as int), name@),
        decreases fields@.len() - i,
    {
        assert(all.skip(i as int)[0] == all[i as int]);
        assert(all.skip(i as int).drop_first() =~= all.skip(i + 1));
        if fields[i].0 == *name {
            return Some(&fields[i].1);
        }
        i += 1;
    }
    assert(all.skip(i as int).len() == 0);
    None
}

/// The type of a binary operation.
fn binary_type(operator: Operator, left: &DType, right: &DType) -> (r: Result<DType, Error>)
    ensures
        match r {
            Ok(dtype) => binary_dtype(operator, left@, right@) == Ok::<TypeModel, Error>(dtype@),
            Err(error) => binary_dtype(operator, left@, right@) == Err::<TypeModel, Error>(error),
        },
{
    let nullability = left.nullability().union(right.nullability());
    if left.as_nullable() != right.as_nullable() {
        return Err(Error::TypeMismatch);
    }
    match operator {
        Operator::And | Operator::Or => match left {
            DType::Bool(_) => Ok(DType::Bool(nullability)),
            _ => Err(Error::TypeMismatch),
        },
        Operator::Add | Operator::Sub => match left {
            DType::Primitive(ptype, _) => if ptype.is_float() {
                Err(Error::TypeMismatch)
            } else {
                Ok(DType::Primitive(*ptype, nullability))
            },
            _ => Err(Error::TypeMismatch),
        },
        _ => match left {
            DType::Bool(_) | DType::Primitive(..) | DType::Decimal(..) | DType::Utf8(_)
            | DType::Binary(_) => Ok(DType::Bool(nullability)),
            _ => Err(Error::TypeMismatch),
        },
    }
}

impl ScalarFnRef {
    /// The type of the result for children of the given types.
    pub fn return_dtype(&self, args: &Vec<DType>) -> (r: Result<DType, Error>)
        requires
            args@.len() == self@.arity(),
        ensures
            match r {
                Ok(dtype) => self@.return_dtype(types_of(args@)) == Ok::<TypeModel, Error>(dtype@),
                Err(error) => self@.return_dtype(types_of(args@)) == Err::<TypeModel, Error>(error),
            },
    {
        match self {
            ScalarFnRef::Literal(scalar) => Ok(scalar.dtype().clone()),
            ScalarFnRef::GetItem(name) => match &args[0] {
                DType::Struct(fields, nullability) => match find_field(fields, name) {
                    Some(field) => Ok(field.union_nullability(*nullability)),
                    None => Err(Error::UnknownField),
                },
                _ => Err(Error::TypeMismatch),
            },
            ScalarFnRef::Binary(operator) => binary_type(*operator, &args[0], &args[1]),
            ScalarFnRef::IsNotNull(_) => Ok(DType::Bool(Nullability::NonNullable)),
            ScalarFnRef::Like(_) => match (&args[0], &args[1]) {
                (DType::Utf8(m), DType::Utf8(n)) => Ok(DType::Bool(m.union(*n))),
                _ => Err(Error::TypeMismatch),
            },
        }
    }

    /// Whether this is the function `V`, whatever its options.
    pub fn is<V: ScalarFnVTable>(&self) -> (r: bool)
        ensures
            r == V::options(*self) is Some,
    {
        V::downcast(self).is_some()
    }

    /// The options of this function, if it is the function `V`.
    pub fn as_opt<V: ScalarFnVTable>(&self) -> (r: Option<&V::Options>)
        ensures
            match r {
                Some(options) => V::options(*self) == Some(*options),
                None => V::options(*self) is None,
            },
    {
        V::downcast(self)
    }
}

impl PartialEq for ScalarFnRef {
    fn eq(&self, other: &ScalarFnRef) -> (r: bool) {
        match (self, other) {
            (ScalarFnRef::Literal(a), ScalarFnRef::Literal(b)) => *a == *b,
            (ScalarFnRef::GetItem(a), ScalarFnRef::GetItem(b)) => *a == *b,
            (ScalarFnRef::Binary(a), ScalarFnRef::Binary(b)) => *a == *b,
            (ScalarFnRef::IsNotNull(_), ScalarFnRef::IsNotNull(_)) => true,
            (ScalarFnRef::Like(a), ScalarFnRef::Like(b)) => *a == *b,
            _ => false,
        }
    }
}

impl vstd::std_specs::cmp::PartialEqSpecImpl for ScalarFnRef {
    open spec fn obeys_eq_spec() -> bool {
        true
    }

    open spec fn eq_spec(&self, other: &ScalarFnRef) -> bool {
        self@ == other@
    }
}

impl Clone for ScalarFnRef {
    fn clone(&self) -> (r: ScalarFnRef)
        ensures
            r@ == self@,
    {
        match self {
            ScalarFnRef::Literal(scalar) => ScalarFnRef::Literal(scalar.clone()),
            ScalarFnRef::GetItem(name) => ScalarFnRef::GetItem(name.clone()),
            ScalarFnRef::Binary(operator) => ScalarFnRef::Binary(*operator),
            ScalarFnRef::IsNotNull(options) => ScalarFnRef::IsNotNull(*options),
            ScalarFnRef::Like(options) => ScalarFnRef::Like(*options),
        }
    }
}

/// One scalar function, whatever its options.
pub trait ScalarFnVTable: Sized {
    /// What tells one use of the function from another.
    type Options;

    /// The options of `f`, if it is this function.
    spec fn options(f: ScalarFnRef) -> Option<Self::Options>;

    /// The options of `f`, if it is this function.
    fn downcast(f: &ScalarFnRef) -> (r: Option<&Self::Options>)
        ensures
            match r {
                Some(options) => Self::options(*f) == Some(*options),
                None => Self::options(*f) is None,
            },
    ;
}

/// The constants.
pub struct Literal;

impl ScalarFnVTable for Literal {
    type Options = Scalar;

    open spec fn options(f: ScalarFnRef) -> Option<Scalar> {
        match f {
            ScalarFnRef::Literal(scalar) => Some(scalar),
            _ => None,
        }
    }

    fn downcast(f: &ScalarFnRef) -> (r: Option<&Scalar>) {
        match f {
            ScalarFnRef::Literal(scalar) => Some(scalar),
            _ => None,
        }
    }
}

/// The fields of structs.
pub struct GetItem;

impl ScalarFnVTable for GetItem {
    type Options = String;

    open spec fn options(f: ScalarFnRef) -> Option<String> {
        match f {
            ScalarFnRef::GetItem(name) => Some(name),
            _ => None,
        }
    }

    fn downcast(f: &ScalarFnRef) -> (r: Option<&String>) {
        match f {
            ScalarFnRef::GetItem(name) => Some(name),
            _ => None,
        }
    }
}

/// The binary operations.
pub struct Binary;

impl ScalarFnVTable for Binary {
    type Options = Operator;

    open spec fn options(f: ScalarFnRef) -> Option<Operator> {
        match f {
            ScalarFnRef::Binary(operator) => Some(operator),
            _ => None,
        }
    }

    fn downcast(f: &ScalarFnRef) -> (r: Option<&Operator>) {
        match f {
            ScalarFnRef::Binary(operator) => Some(operator),
            _ => None,
        }
    }
}

/// The test for values that are not null.
pub struct IsNotNull;

impl ScalarFnVTable for IsNotNull {
    type Options = EmptyOptions;

    open spec fn options(f: ScalarFnRef) -> Option<EmptyOptions> {
        match f {
            ScalarFnRef::IsNotNull(options) => Some(options),
            _ => None,
        }
    }

    fn downcast(f: &ScalarFnRef) -> (r: Option<&EmptyOptions>) {
        match f {
            ScalarFnRef::IsNotNull(options) => Some(options),
            _ => None,
        }
    }
}

/// The pattern matches.
pub struct Like;

impl ScalarFnVTable for Like {
    type Options = LikeOptions;

    open spec fn options(f: ScalarFnRef) -> Option<LikeOptions> {
        match f {
            ScalarFnRef::Like(options) => Some(options),
            _ => None,
        }
    }

    fn downcast(f: &ScalarFnRef) -> (r: Option<&LikeOptions>) {
        match f {
            ScalarFnRef::Like(options) => Some(options),
            _ => None,
        }
    }
}

} // verus!
