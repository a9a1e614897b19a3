//! Logical types.

use vstd::prelude::*;

verus! {

/// Whether the rows of an array may be null.
#[derive(Clone, Copy, Debug, PartialEq, Eq, Hash, Structural)]
pub enum Nullability {
    /// No row is null.
    NonNullable,
    /// Rows may be null.
    Nullable,
}

impl Nullability {
    /// Nullable as soon as either side is.
    pub open spec fn spec_union(self, other: Nullability) -> Nullability {
        if self == Nullability::Nullable || other == Nullability::Nullable {
            Nullability::Nullable
        } else {
            Nullability::NonNullable
        }
    }

    /// Nullable as soon as either side is.
    pub fn union(self, other: Nullability) -> (r: Nullability)
        ensures
            r == self.spec_union(other),
    {
        if self == Nullability::Nullable || other == Nullability::Nullable {
            Nullability::Nullable
        } else {
            Nullability::NonNullable
        }
    }
}

/// The primitive types.
#[derive(Clone, Copy, Debug, PartialEq, Eq, Hash, Structural)]
pub enum PType {
    U8,
    U16,
    U32,
    U64,
    I8,
    I16,
    I32,
    I64,
    F16,
    F32,
    F64,
}

impl PType {
    /// Whether values of this type are floating-point numbers.
    pub open spec fn spec_is_float(self) -> bool {
        self == PType::F16 || self == PType::F32 || self == PType::F64
    }

    /// Whether this type holds non-negative integers only, and so can index a dictionary.
    pub open spec fn spec_is_unsigned(self) -> bool {
        self == PType::U8 || self == PType::U16 || self == PType::U32 || self == PType::U64
    }

    /// The least stored value. Floating-point numbers are stored as their bit patterns.
    pub open spec fn low(self) -> int {
        match self {
            PType::I8 => -0x80,
            PType::I16 => -0x8000,
            PType::I32 => -0x8000_0000,
            PType::I64 => -0x8000_0000_0000_0000,
            _ => 0,
        }
    }

    /// The greatest stored value.
    pub open spec fn high(self) -> int {
        match self {
            PType::U8 => 0xff,
            PType::U16 | PType::F16 => 0xffff,
            PType::U32 | PType::F32 => 0xffff_ffff,
            PType::U64 | PType::F64 => 0xffff_ffff_ffff_ffff,
            PType::I8 => 0x7f,
            PType::I16 => 0x7fff,
            PType::I32 => 0x7fff_ffff,
            PType::I64 => 0x7fff_ffff_ffff_ffff,
        }
    }

    /// Whether `value` is a stored value of this type.
    pub open spec fn holds(self, value: int) -> bool {
        self.low() <= value <= self.high()
    }

    /// The place of a floating-point bit pattern in the IEEE total order: patterns with the sign
    /// bit come first, by falling magnitude, then the others by rising magnitude.
    pub open spec fn float_key(self, bits: int) -> int {
        let half = (self.high() + 1) / 2;
        if bits < half {
            bits
        } else {
            half - bits - 1
        }
    }

    /// Whether values of this type are floating-point numbers.
    pub fn is_float(self) -> (r: bool)
        ensures
            r == self.spec_is_float(),
    {
        self == PType::F16 || self == PType::F32 || self == PType::F64
    }

    /// Whether this type holds non-negative integers only.
    pub fn is_unsigned(self) -> (r: bool)
        ensures
            r == self.spec_is_unsigned(),
    {
        self == PType::U8 || self == PType::U16 || self == PType::U32 || self == PType::U64
    }

    /// The least stored value.
    pub fn min_value(self) -> (r: i128)
        ensures
            r == self.low(),
    {
        match self {
            PType::I8 => -0x80,
            PType::I16 => -0x8000,
            PType::I32 => -0x8000_0000,
            PType::I64 => -0x8000_0000_0000_0000,
            _ => 0,
        }
    }

    /// The greatest stored value.
    pub fn max_value(self) -> (r: i128)
        ensures
            r == self.high(),
    {
        match self {
            PType::U8 => 0xff,
            PType::U16 | PType::F16 => 0xffff,
            PType::U32 | PType::F32 => 0xffff_ffff,
            PType::U64 | PType::F64 => 0xffff_ffff_ffff_ffff,
            PType::I8 => 0x7f,
            PType::I16 => 0x7fff,
            PType::I32 => 0x7fff_ffff,
            PType::I64 => 0x7fff_ffff_ffff_ffff,
        }
    }

    /// Whether `value` is a stored value of this type.
    pub fn fits(self, value: i128) -> (r: bool)
        ensures
            r == self.holds(value as int),
    {
        self.min_value() <= value && value <= self.max_value()
    }
}

/// The precision and scale of a decimal type.
#[derive(Clone, Copy, Debug, PartialEq, Eq, Hash, Structural)]
pub struct DecimalDType {
    /// The number of significant digits.
    pub precision: u8,
    /// The number of digits behind the point.
    pub scale: i8,
}

/// A logical type.
#[derive(Debug, Eq, Hash)]
pub enum DType {
    /// Every row is null.
    Null,
    Bool(Nullability),
    Primitive(PType, Nullability),
    Decimal(DecimalDType, Nullability),
    Utf8(Nullability),
    Binary(Nullability),
    /// Lists of any length.
    List(Box<DType>, Nullability),
    /// Lists of one length.
    FixedSizeList(Box<DType>, usize, Nullability),
    /// Lists of key and value pairs.
    Mapping(Box<DType>, Box<DType>, Nullability),
    /// Named fields.
    Struct(Vec<(String, DType)>, Nullability),
    /// One of several named variants.
    Union(Vec<(String, DType)>, Nullability),
    /// A named type stored as another, whose nullability it shares.
    Extension(String, Box<DType>),
    /// Values of any shape.
    Variant(Nullability),
}

/// The mathematical model of a [`DType`].
pub enum TypeModel {
    Null,
    Bool(Nullability),
    Primitive(PType, Nullability),
    Decimal(DecimalDType, Nullability),
    Utf8(Nullability),
    Binary(Nullability),
    List(Box<TypeModel>, Nullability),
    FixedSizeList(Box<TypeModel>, nat, Nullability),
    Mapping(Box<TypeModel>, Box<TypeModel>, Nullability),
    Struct(Seq<(Seq<char>, TypeModel)>, Nullability),
    Union(Seq<(Seq<char>, TypeModel)>, Nullability),
    Extension(Seq<char>, Box<TypeModel>),
    Variant(Nullability),
}

impl TypeModel {
    /// Whether rows of this type may be null.
    pub open spec fn nullability(self) -> Nullability
        decreases self,
    {
        match self {
            TypeModel::Null => Nullability::Nullable,
            TypeModel::Bool(n) => n,
            TypeModel::Primitive(_, n) => n,
            TypeModel::Decimal(_, n) => n,
            TypeModel::Utf8(n) => n,
            TypeModel::Binary(n) => n,
            TypeModel::List(_, n) => n,
            TypeModel::FixedSizeList(_, _, n) => n,
            TypeModel::Mapping(_, _, n) => n,
            TypeModel::Struct(_, n) => n,
            TypeModel::Union(_, n) => n,
            TypeModel::Extension(_, storage) => storage.nullability(),
            TypeModel::Variant(n) => n,
        }
    }

    /// This type with its outermost nullability replaced. The null type stays as it is.
    pub open spec fn with_nullability(self, n: Nullability) -> TypeModel
        decreases self,
    {
        match self {
            TypeModel::Null => TypeModel::Null,
            TypeModel::Bool(_) => TypeModel::Bool(n),
            TypeModel::Primitive(p, _) => TypeModel::Primitive(p, n),
            TypeModel::Decimal(d, _) => TypeModel::Decimal(d, n),
            TypeModel::Utf8(_) => TypeModel::Utf8(n),
            TypeModel::Binary(_) => TypeModel::Binary(n),
            TypeModel::List(e, _) => TypeModel::List(e, n),
            TypeModel::FixedSizeList(e, size, _) => TypeModel::FixedSizeList(e, size, n),
            TypeModel::Mapping(k, v, _) => TypeModel::Mapping(k, v, n),
            TypeModel::Struct(fields, _) => TypeModel::Struct(fields, n),
            TypeModel::Union(variants, _) => TypeModel::Union(variants, n),
            TypeModel::Extension(id, storage) => TypeModel::Extension(
                id,
                Box::new(storage.with_nullability(n)),
            ),
            TypeModel::Variant(_) => TypeModel::Variant(n),
        }
    }

    /// This type, nullable as soon as it is or `n` is.
    pub open spec fn union_nullability(self, n: Nullability) -> TypeModel {
        self.with_nullability(self.nullability().spec_union(n))
    }

    /// This type, nullable.
    pub open spec fn as_nullable(self) -> TypeModel {
        self.with_nullability(Nullability::Nullable)
    }

    /// The type of the first field called `name`, if this is a struct that has one.
    pub open spec fn field(self, name: Seq<char>) -> Option<TypeModel> {
        match self {
            TypeModel::Struct(fields, _) => field_in(fields, name),
            _ => None,
        }
    }
}

/// Replacing a type's nullability by its own changes nothing, and replacing it twice is replacing
/// it once. So a union with the non-nullable side changes nothing either.
pub proof fn lemma_nullability(t: TypeModel, m: Nullability, n: Nullability)
    ensures
        t.with_nullability(t.nullability()) == t,
        t.with_nullability(m).with_nullability(n) == t.with_nullability(n),
        t.union_nullability(Nullability::NonNullable) == t,
        m == Nullability::Nullable ==> t.with_nullability(m).nullability() == m,
        t.nullability() == Nullability::NonNullable ==> t.with_nullability(m).nullability() == m,
    decreases t,
{
    if let TypeModel::Extension(_, storage) = t {
        lemma_nullability(*storage, m, n);
    }
}

/// The type of the first field called `name`.
pub open spec fn field_in(fields: Seq<(Seq<char>, TypeModel)>, name: Seq<char>) -> Option<
    TypeModel,
>
    decreases fields.len(),
{
    if fields.len() == 0 {
        None
    } else if fields[0].0 == name {
        Some(fields[0].1)
    } else {
        field_in(fields.drop_first(), name)
    }
}

/// The model of a list of named types.
pub open spec fn named_types(fields: Seq<(String, DType)>) -> Seq<(Seq<char>, TypeModel)>
    decreases fields,
{
    Seq::new(
        fields.len(),
        |i: int|
            if 0 <= i < fields.len() {
                (fields[i].0@, fields[i].1@)
            } else {
                arbitrary()
            },
    )
}

impl DType {
    /// The model of this type.
    pub open spec fn view(&self) -> TypeModel
        decreases self,
    {
        match self {
            DType::Null => TypeModel::Null,
            DType::Bool(n) => TypeModel::Bool(*n),
            DType::Primitive(p, n) => TypeModel::Primitive(*p, *n),
            DType::Decimal(d, n) => TypeModel::Decimal(*d, *n),
            DType::Utf8(n) => TypeModel::Utf8(*n),
            DType::Binary(n) => TypeModel::Binary(*n),
            DType::List(e, n) => TypeModel::List(Box::new(e.view()), *n),
            DType::FixedSizeList(e, size, n) => TypeModel::FixedSizeList(
                Box::new(e.view()),
                *size as nat,
                *n,
            ),
            DType::Mapping(k, v, n) => TypeModel::Mapping(
                Box::new(k.view()),
                Box::new(v.view()),
                *n,
            ),
            DType::Struct(fields, n) => TypeModel::Struct(named_types(fields@), *n),
            DType::Union(variants, n) => TypeModel::Union(named_types(variants@), *n),
            DType::Extension(id, storage) => TypeModel::Extension(id@, Box::new(storage.view())),
            DType::Variant(n) => TypeModel::Variant(*n),
        }
    }
}

/// Whether two lists of named types agree, name by name and type by type.
fn same_named(left: &Vec<(String, DType)>, right: &Vec<(String, DType)>) -> (r: bool)
    ensures
        r == (named_types(left@) == named_types(right@)),
    decreases left@,
{
    if left.len() != right.len() {
        assert(named_types(left@).len() != named_types(right@).len());
        return false;
    }
    let mut i: usize = 0;
    while i < left.len()
        invariant
            i <= left.len(),
            left.len() == right.len(),
            forall|j: int|
                0 <= j < i ==> (#[trigger] left@[j]).0@ == right@[j].0@ && left@[j].1@
                    == right@[j].1@,
        decreases left.len() - i,
    {
        assert(decreases_to!(left@ => left@[i as int]));
        if left[i].0 != right[i].0 || !left[i].1.same(&right[i].1) {
            assert(named_types(left@)[i as int] != named_types(right@)[i as int]);
            return false;
        }
        i += 1;
    }
    assert(named_types(left@) =~= named_types(right@));
    true
}

/// A copy of a list of named types.
fn clone_named(fields: &Vec<(String, DType)>) -> (r: Vec<(String, DType)>)
    ensures
        named_types(r@) == named_types(fields@),
    decreases fields@,
{
    let mut copy: Vec<(String, DType)> = Vec::new();
    let mut i: usize = 0;
    while i < fields.len()
        invariant
            i <= fields.len(),
            copy.len() == i,
            forall|j: int|
                0 <= j < i ==> (#[trigger] copy@[j]).0@ == fields@[j].0@ && copy@[j].1@
                    == fields@[j].1@,
        decreases fields.len() - i,
    {
        assert(decreases_to!(fields@ => fields@[i as int]));
        copy.push((fields[i].0.clone(), fields[i].1.clone()));
        i += 1;
    }
    assert(named_types(copy@) =~= named_types(fields@));
    copy
}

impl DType {
    /// Whether this type holds no other types.
    pub open spec fn is_flat(&self) -> bool {
        match self {
            DType::List(..) | DType::FixedSizeList(..) | DType::Mapping(..) | DType::Struct(..)
            | DType::Union(..) | DType::Extension(..) => false,
            _ => true,
        }
    }

    /// Whether two types are the same, where the first holds no other types.
    fn same_flat(&self, other: &DType) -> (r: bool)
        requires
            self.is_flat(),
        ensures
            r == (self@ == other@),
    {
        match self {
            DType::Bool(m) => match other {
                DType::Bool(n) => *m == *n,
                _ => false,
            },
            DType::Primitive(p, m) => match other {
                DType::Primitive(q, n) => *p == *q && *m == *n,
                _ => false,
            },
            DType::Decimal(d, m) => match other {
                DType::Decimal(e, n) => *d == *e && *m == *n,
                _ => false,
            },
            DType::Utf8(m) => match other {
                DType::Utf8(n) => *m == *n,
                _ => false,
            },
            DType::Binary(m) => match other {
                DType::Binary(n) => *m == *n,
                _ => false,
            },
            DType::Variant(m) => match other {
                DType::Variant(n) => *m == *n,
                _ => false,
            },
            _ => match other {
                DType::Null => true,
                _ => false,
            },
        }
    }

    /// Whether two types are the same.
    fn same(&self, other: &DType) -> (r: bool)
        ensures
            r == (self@ == other@),
        decreases self,
    {
        match self {
            DType::List(d, m) => match other {
                DType::List(e, n) => *m == *n && d.same(e),
                _ => false,
            },
            DType::FixedSizeList(d, j, m) => match other {
                DType::FixedSizeList(e, k, n) => *j == *k && *m == *n && d.same(e),
                _ => false,
            },
            DType::Mapping(j, d, m) => match other {
                DType::Mapping(k, e, n) => *m == *n && j.same(k) && d.same(e),
                _ => false,
            },
            DType::Struct(f, m) => match other {
                DType::Struct(g, n) => *m == *n && same_named(f, g),
                _ => false,
            },
            DType::Union(f, m) => match other {
                DType::Union(g, n) => *m == *n && same_named(f, g),
                _ => false,
            },
            DType::Extension(i, d) => match other {
                DType::Extension(j, e) => *i == *j && d.same(e),
                _ => false,
            },
            _ => self.same_flat(other),
        }
    }

    /// Whether rows of this type may be null.
    pub fn nullability(&self) -> (r: Nullability)
        ensures
            r == self@.nullability(),
        decreases self,
    {
        match self {
            DType::Null => Nullability::Nullable,
            DType::Bool(n) => *n,
            DType::Primitive(_, n) => *n,
            DType::Decimal(_, n) => *n,
            DType::Utf8(n) => *n,
            DType::Binary(n) => *n,
            DType::List(_, n) => *n,
            DType::FixedSizeList(_, _, n) => *n,
            DType::Mapping(_, _, n) => *n,
            DType::Struct(_, n) => *n,
            DType::Union(_, n) => *n,
            DType::Extension(_, storage) => storage.nullability(),
            DType::Variant(n) => *n,
        }
    }

    /// This type with its outermost nullability replaced.
    pub fn with_nullability(&self, n: Nullability) -> (r: DType)
        ensures
            r@ == self@.with_nullability(n),
        decreases self,
    {
        match self {
            DType::Null => DType::Null,
            DType::Bool(_) => DType::Bool(n),
            DType::Primitive(p, _) => DType::Primitive(*p, n),
            DType::Decimal(d, _) => DType::Decimal(*d, n),
            DType::Utf8(_) => DType::Utf8(n),
            DType::Binary(_) => DType::Binary(n),
            DType::List(e, _) => DType::List(Box::new((&**e).clone()), n),
            DType::FixedSizeList(e, size, _) => DType::FixedSizeList(
                Box::new((&**e).clone()),
                *size,
                n,
            ),
            DType::Mapping(k, v, _) => DType::Mapping(
                Box::new((&**k).clone()),
                Box::new((&**v).clone()),
                n,
            ),
            DType::Struct(fields, _) => DType::Struct(clone_named(fields), n),
            DType::Union(variants, _) => DType::Union(clone_named(variants), n),
            DType::Extension(id, storage) => DType::Extension(
                id.clone(),
                Box::new(storage.with_nullability(n)),
            ),
            DType::Variant(_) => DType::Variant(n),
        }
    }

    /// This type, nullable as soon as it is or `n` is.
    pub fn union_nullability(&self, n: Nullability) -> (r: DType)
        ensures
            r@ == self@.union_nullability(n),
    {
        self.with_nullability(self.nullability().union(n))
    }

    /// This type, nullable.
    pub fn as_nullable(&self) -> (r: DType)
        ensures
            r@ == self@.as_nullable(),
    {
        self.with_nullability(Nullability::Nullable)
    }
}

impl PartialEq for DType {
    fn eq(&self, other: &DType) -> (r: bool) {
        self.same(other)
    }
}

impl vstd::std_specs::cmp::PartialEqSpecImpl for DType {
    open spec fn obeys_eq_spec() -> bool {
        true
    }

    open spec fn eq_spec(&self, other: &DType) -> bool {
        self@ == other@
    }
}

impl Clone for DType {
    fn clone(&self) -> (r: DType)
        ensures
            r@ == self@,
        decreases self,
    {
        match self {
            DType::Null => DType::Null,
            DType::Bool(n) => DType::Bool(*n),
            DType::Primitive(p, n) => DType::Primitive(*p, *n),
            DType::Decimal(d, n) => DType::Decimal(*d, *n),
            DType::Utf8(n) => DType::Utf8(*n),
            DType::Binary(n) => DType::Binary(*n),
            DType::List(e, n) => DType::List(Box::new((&**e).clone()), *n),
            DType::FixedSizeList(e, size, n) => DType::FixedSizeList(
                Box::new((&**e).clone()),
                *size,
                *n,
            ),
            DType::Mapping(k, v, n) => DType::Mapping(
                Box::new((&**k).clone()),
                Box::new((&**v).clone()),
                *n,
            ),
            DType::Struct(fields, n) => DType::Struct(clone_named(fields), *n),
            DType::Union(variants, n) => DType::Union(clone_named(variants), *n),
            DType::Extension(id, storage) => DType::Extension(
                id.clone(),
                Box::new((&**storage).clone()),
            ),
            DType::Variant(n) => DType::Variant(*n),
        }
    }
}

} // verus!
