//! How values compare.

use vstd::prelude::*;

use crate::dtype::{PType, TypeModel};
use crate::scalar::{byte_values, code_points, lexicographic, Value};
use crate::scalar_fn::{CompareOperator, FnModel, Operator};

verus! {

/// What a comparison gives on one row.
pub open spec fn outcome(operator: CompareOperator, dtype: TypeModel, a: Value, b: Value) -> Option<
    Value,
> {
    FnModel::Binary(Operator::of(operator)).row(dtype, seq![a, b])
}

/// Whether a comparison holds on one row.
pub open spec fn holds(operator: CompareOperator, dtype: TypeModel, a: Value, b: Value) -> bool {
    outcome(operator, dtype, a, b) == Some(Value::Bool(true))
}

/// Whether two values are not null and of one type that has an order.
pub open spec fn ordered_pair(a: Value, b: Value) -> bool {
    match (a, b) {
        (Value::Bool(_), Value::Bool(_)) => true,
        (Value::Int(_), Value::Int(_)) => true,
        (Value::Text(_), Value::Text(_)) => true,
        (Value::Bytes(_), Value::Bytes(_)) => true,
        (Value::Float(p, x), Value::Float(q, y)) => p == q && p.spec_is_float() && p.holds(x)
            && p.holds(y),
        _ => false,
    }
}

/// Whether `a` and `b` agree before place `i`, and `a` ends there or has the smaller number.
pub open spec fn first_smaller(a: Seq<int>, b: Seq<int>, i: int) -> bool {
    &&& 0 <= i <= a.len()
    &&& i < b.len()
    &&& forall|k: int| 0 <= k < i ==> a[k] == b[k]
    &&& i == a.len() || a[i] < b[i]
}

/// The lexicographic order is decided at the first place where two sequences differ.
proof fn lemma_lexicographic(a: Seq<int>, b: Seq<int>)
    ensures
        lexicographic(a, b) <==> exists|i: int| first_smaller(a, b, i),
    decreases a.len(),
{
    if a.len() == 0 || b.len() == 0 {
        if b.len() > 0 {
            assert(first_smaller(a, b, 0));
        }
    } else if a[0] != b[0] {
        if a[0] < b[0] {
            assert(first_smaller(a, b, 0));
        } else {
            assert forall|i: int| !first_smaller(a, b, i) by {
                if first_smaller(a, b, i) && i > 0 {
                    assert(a[0] == b[0]);
                }
            }
        }
    } else {
        let x = a.drop_first();
        let y = b.drop_first();
        lemma_lexicographic(x, y);
        if exists|i: int| first_smaller(x, y, i) {
            let i = choose|i: int| first_smaller(x, y, i);
            assert forall|k: int| 0 <= k < i + 1 implies a[k] == b[k] by {
                if k > 0 {
                    assert(x[k - 1] == y[k - 1]);
                }
            }
            assert(first_smaller(a, b, i + 1));
        }
        if exists|i: int| first_smaller(a, b, i) {
            let i = choose|i: int| first_smaller(a, b, i);
            assert(i > 0);
            assert forall|k: int| 0 <= k < i - 1 implies x[k] == y[k] by {
                assert(a[k + 1] == b[k + 1]);
            }
            assert(first_smaller(x, y, i - 1));
        }
    }
}

/// The lexicographic order is total and strict.
proof fn lemma_total(a: Seq<int>, b: Seq<int>)
    ensures
        lexicographic(a, b) || lexicographic(b, a) || a == b,
        !(lexicographic(a, b) && lexicographic(b, a)),
        !lexicographic(a, a),
    decreases a.len(),
{
    if a.len() > 0 && b.len() > 0 {
        lemma_total(a.drop_first(), b.drop_first());
        if a[0] == b[0] && a.drop_first() == b.drop_first() {
            assert(a =~= seq![a[0]] + a.drop_first());
            assert(b =~= seq![b[0]] + b.drop_first());
        }
    } else if a.len() == 0 && b.len() == 0 {
        assert(a =~= b);
    }
    if a.len() > 0 {
        lemma_irreflexive(a);
    }
}

proof fn lemma_irreflexive(a: Seq<int>)
    ensures
        !lexicographic(a, a),
    decreases a.len(),
{
    if a.len() > 0 {
        lemma_irreflexive(a.drop_first());
    }
}

proof fn lemma_transitive(a: Seq<int>, b: Seq<int>, c: Seq<int>)
    requires
        lexicographic(a, b),
        lexicographic(b, c),
    ensures
        lexicographic(a, c),
    decreases a.len(),
{
    if a.len() > 0 && a[0] == b[0] && b[0] == c[0] {
        lemma_transitive(a.drop_first(), b.drop_first(), c.drop_first());
    }
}

/// Texts are equal if their code points are, and byte strings if their numbers are.
proof fn lemma_same_numbers(s: Seq<char>, t: Seq<char>, x: Seq<u8>, y: Seq<u8>)
    ensures
        code_points(s) == code_points(t) ==> s == t,
        byte_values(x) == byte_values(y) ==> x == y,
{
    if code_points(s) == code_points(t) {
        assert(code_points(s).len() == code_points(t).len());
        assert forall|i: int| 0 <= i < s.len() implies s[i] == t[i] by {
            assert(code_points(s)[i] == code_points(t)[i]);
        }
        assert(s =~= t);
    }
    if byte_values(x) == byte_values(y) {
        assert(byte_values(x).len() == byte_values(y).len());
        assert forall|i: int| 0 <= i < x.len() implies x[i] == y[i] by {
            assert(byte_values(x)[i] == byte_values(y)[i]);
        }
        assert(x =~= y);
    }
}

/// Of two values of one ordered type, exactly one comes first or they are equal. The other
/// comparisons follow: each way round, and each negation.
pub proof fn law_exactly_one_comparison_holds(dtype: TypeModel, a: Value, b: Value)
    requires
        ordered_pair(a, b),
    ensures
        ({
            let lt = holds(CompareOperator::Lt, dtype, a, b);
            let eq = holds(CompareOperator::Eq, dtype, a, b);
            let gt = holds(CompareOperator::Gt, dtype, a, b);
            &&& lt || eq || gt
            &&& !(lt && eq) && !(lt && gt) && !(eq && gt)
            &&& eq <==> a == b
            &&& gt == holds(CompareOperator::Lt, dtype, b, a)
            &&& holds(CompareOperator::Gte, dtype, a, b) == !lt
            &&& holds(CompareOperator::Lte, dtype, a, b) == !gt
            &&& holds(CompareOperator::NotEq, dtype, a, b) == !eq
        }),
{
    match (a, b) {
        (Value::Text(s), Value::Text(t)) => {
            lemma_total(code_points(s), code_points(t));
            lemma_same_numbers(s, t, Seq::empty(), Seq::empty());
        },
        (Value::Bytes(x), Value::Bytes(y)) => {
            lemma_total(byte_values(x), byte_values(y));
            lemma_same_numbers(Seq::empty(), Seq::empty(), x, y);
        },
        _ => {},
    }
}

/// A comparison of values gives a boolean where neither is null, and null where one is.
pub proof fn law_comparisons_of_nulls_are_null(
    operator: CompareOperator,
    dtype: TypeModel,
    a: Value,
    b: Value,
)
    ensures
        a == Value::Null || b == Value::Null ==> outcome(operator, dtype, a, b) == Some(
            Value::Null,
        ),
        a != Value::Null && b != Value::Null ==> (outcome(operator, dtype, a, b) matches Some(
            value,
        ) && value is Bool),
{
}

/// Coming first is transitive.
pub proof fn law_order_is_transitive(dtype: TypeModel, a: Value, b: Value, c: Value)
    requires
        ordered_pair(a, b),
        ordered_pair(b, c),
        holds(CompareOperator::Lt, dtype, a, b),
        holds(CompareOperator::Lt, dtype, b, c),
    ensures
        holds(CompareOperator::Lt, dtype, a, c),
{
    match (a, b, c) {
        (Value::Text(s), Value::Text(t), Value::Text(u)) => {
            lemma_transitive(code_points(s), code_points(t), code_points(u));
        },
        (Value::Bytes(s), Value::Bytes(t), Value::Bytes(u)) => {
            lemma_transitive(byte_values(s), byte_values(t), byte_values(u));
        },
        _ => {},
    }
}

/// Integers come in the order of the numbers, and false comes before true.
pub proof fn law_integers_and_booleans_in_order(
    dtype: TypeModel,
    a: int,
    b: int,
    p: bool,
    q: bool,
)
    ensures
        holds(CompareOperator::Lt, dtype, Value::Int(a), Value::Int(b)) <==> a < b,
        holds(CompareOperator::Gt, dtype, Value::Int(a), Value::Int(b)) <==> a > b,
        holds(CompareOperator::Lte, dtype, Value::Int(a), Value::Int(b)) <==> a <= b,
        holds(CompareOperator::Gte, dtype, Value::Int(a), Value::Int(b)) <==> a >= b,
        holds(CompareOperator::Eq, dtype, Value::Int(a), Value::Int(b)) <==> a == b,
        holds(CompareOperator::NotEq, dtype, Value::Int(a), Value::Int(b)) <==> a != b,
        holds(CompareOperator::Lt, dtype, Value::Bool(p), Value::Bool(q)) <==> !p && q,
{
}

/// Texts come in the order of their code points, and byte strings in that of their bytes: what
/// counts is the first place where they differ, and a text comes before its own extensions.
pub proof fn law_texts_in_order(
    dtype: TypeModel,
    s: Seq<char>,
    t: Seq<char>,
    x: Seq<u8>,
    y: Seq<u8>,
)
    ensures
        holds(CompareOperator::Lt, dtype, Value::Text(s), Value::Text(t)) <==> exists|i: int|
            {
                &&& 0 <= i <= s.len() && i < t.len()
                &&& #[trigger] s.take(i) == t.take(i)
                &&& i == s.len() || (s[i] as int) < (t[i] as int)
            },
        holds(CompareOperator::Lt, dtype, Value::Bytes(x), Value::Bytes(y)) <==> exists|i: int|
            {
                &&& 0 <= i <= x.len() && i < y.len()
                &&& #[trigger] x.take(i) == y.take(i)
                &&& i == x.len() || x[i] < y[i]
            },
{
    let (a, b) = (code_points(s), code_points(t));
    lemma_lexicographic(a, b);
    if exists|i: int| first_smaller(a, b, i) {
        let i = choose|i: int| first_smaller(a, b, i);
        assert forall|k: int| 0 <= k < i implies s[k] == t[k] by {
            assert(a[k] == b[k]);
        }
        assert(s.take(i) =~= t.take(i));
        assert(i == s.len() || (s[i] as int) < (t[i] as int));
    }
    assert forall|i: int|
        0 <= i <= s.len() && i < t.len() && #[trigger] s.take(i) == t.take(i) && (i == s.len() || (
        s[i] as int) < (t[i] as int)) implies first_smaller(a, b, i) by {
        assert forall|k: int| 0 <= k < i implies a[k] == b[k] by {
            assert(s.take(i)[k] == t.take(i)[k]);
        }
    }
    let (c, d) = (byte_values(x), byte_values(y));
    lemma_lexicographic(c, d);
    if exists|i: int| first_smaller(c, d, i) {
        let i = choose|i: int| first_smaller(c, d, i);
        assert forall|k: int| 0 <= k < i implies x[k] == y[k] by {
            assert(c[k] == d[k]);
        }
        assert(x.take(i) =~= y.take(i));
        assert(i == x.len() || x[i] < y[i]);
    }
    assert forall|i: int|
        0 <= i <= x.len() && i < y.len() && #[trigger] x.take(i) == y.take(i) && (i == x.len()
            || x[i] < y[i]) implies first_smaller(c, d, i) by {
        assert forall|k: int| 0 <= k < i implies c[k] == d[k] by {
            assert(x.take(i)[k] == y.take(i)[k]);
        }
    }
}

/// How many bit patterns of a floating-point type are without the sign bit.
pub open spec fn unsigned_patterns(ptype: PType) -> int {
    match ptype {
        PType::F16 => 0x8000,
        PType::F32 => 0x8000_0000,
        _ => 0x8000_0000_0000_0000,
    }
}

/// Floating-point numbers come by sign and then by magnitude: those with the sign bit first, the
/// larger magnitude before the smaller, and then the others by rising magnitude.
pub proof fn law_floats_in_order(dtype: TypeModel, ptype: PType, x: int, y: int)
    requires
        ptype.spec_is_float(),
        ptype.holds(x),
        ptype.holds(y),
    ensures
        ({
            let sign = unsigned_patterns(ptype);
            holds(CompareOperator::Lt, dtype, Value::Float(ptype, x), Value::Float(ptype, y)) <==> (
            if x >= sign {
                y < sign || x > y
            } else {
                y < sign && x < y
            })
        }),
{
}

/// A comparison is the operation of the same name, and no other operation is a comparison.
pub proof fn law_comparisons_by_name(operator: CompareOperator, other: Operator)
    ensures
        Operator::of(CompareOperator::Eq) == Operator::Eq,
        Operator::of(CompareOperator::NotEq) == Operator::NotEq,
        Operator::of(CompareOperator::Lt) == Operator::Lt,
        Operator::of(CompareOperator::Lte) == Operator::Lte,
        Operator::of(CompareOperator::Gt) == Operator::Gt,
        Operator::of(CompareOperator::Gte) == Operator::Gte,
        Operator::of(operator).spec_comparison() == Some(operator),
        other.spec_comparison() matches Some(found) ==> Operator::of(found) == other,
        other.spec_comparison() is None <==> (other == Operator::And || other == Operator::Or
            || other == Operator::Add || other == Operator::Sub),
{
}

} // verus!
