//! What scalar functions compute on single rows.

use vstd::prelude::*;

use crate::dtype::PType;
use crate::scalar::{byte_values, code_points, lexicographic, same_bytes, Value};
use crate::scalar_fn::{
    and_values, compare_values, fits_pattern, like_text, or_values, small, small_text,
    CompareOperator, LikeOptions,
};

verus! {

/// One row of a flat type.
pub enum Leaf<'a> {
    Null,
    Bool(bool),
    Int(i128),
    Float(PType, i128),
    Text(&'a String),
    Bytes(&'a Vec<u8>),
}

impl<'a> Leaf<'a> {
    /// The value of this row.
    pub open spec fn view(&self) -> Value {
        match self {
            Leaf::Null => Value::Null,
            Leaf::Bool(b) => Value::Bool(*b),
            Leaf::Int(v) => Value::Int(*v as int),
            Leaf::Float(ptype, bits) => Value::Float(*ptype, *bits as int),
            Leaf::Text(text) => Value::Text(text@),
            Leaf::Bytes(bytes) => Value::Bytes(bytes@),
        }
    }

    /// Whether this row can be represented: a floating-point row holds a bit pattern.
    pub open spec fn wf(&self) -> bool {
        self matches Leaf::Float(ptype, bits) ==> ptype.holds(*bits as int)
    }
}

/// The characters of a text.
pub fn to_chars(text: &str) -> (r: Vec<char>)
    ensures
        r@ == text@,
{
    let mut chars: Vec<char> = Vec::new();
    for c in iter: text.chars()
        invariant
            iter.seq() == text@,
            chars@ == text@.take(iter.index()),
    {
        let ghost i = iter.index();
        chars.push(c);
        assert(text@.take(i + 1) =~= text@.take(i).push(text@[i]));
    }
    assert(text@.take(text@.len() as int) =~= text@);
    chars
}

/// Whether one list of characters comes before another by code points.
fn chars_before(left: &Vec<char>, right: &Vec<char>) -> (r: bool)
    ensures
        r == lexicographic(code_points(left@), code_points(right@)),
{
    let ghost a = code_points(left@);
    let ghost b = code_points(right@);
    assert(a.skip(0) =~= a && b.skip(0) =~= b);
    let mut i: usize = 0;
    while i < left.len() && i < right.len()
        invariant
            i <= left@.len(),
            i <= right@.len(),
            a == code_points(left@),
            b == code_points(right@),
            lexicographic(a, b) == lexicographic(a.skip(i as int), b.skip(i as int)),
        decreases left@.len() - i,
    {
        let c = left[i];
        let d = right[i];
        proof {
            assert(a.skip(i as int)[0] == c as int && b.skip(i as int)[0] == d as int);
            assert(a.skip(i as int).drop_first() =~= a.skip(i + 1));
            assert(b.skip(i as int).drop_first() =~= b.skip(i + 1));
        }
        if c != d {
            return c < d;
        }
        i += 1;
    }
    i < right.len()
}

/// Whether one byte string comes before another.
fn bytes_before(left: &Vec<u8>, right: &Vec<u8>) -> (r: bool)
    ensures
        r == lexicographic(byte_values(left@), byte_values(right@)),
{
    let ghost a = byte_values(left@);
    let ghost b = byte_values(right@);
    assert(a.skip(0) =~= a && b.skip(0) =~= b);
    let mut i: usize = 0;
    while i < left.len() && i < right.len()
        invariant
            i <= left@.len(),
            i <= right@.len(),
            a == byte_values(left@),
            b == byte_values(right@),
            lexicographic(a, b) == lexicographic(a.skip(i as int), b.skip(i as int)),
        decreases left@.len() - i,
    {
        let c = left[i];
        let d = right[i];
        proof {
            assert(a.skip(i as int)[0] == c && b.skip(i as int)[0] == d);
            assert(a.skip(i as int).drop_first() =~= a.skip(i + 1));
            assert(b.skip(i as int).drop_first() =~= b.skip(i + 1));
        }
        if c != d {
            return c < d;
        }
        i += 1;
    }
    i < right.len()
}

/// The place of a floating-point bit pattern in the IEEE total order.
fn float_key(ptype: PType, bits: i128) -> (r: i128)
    requires
        ptype.holds(bits as int),
    ensures
        r == ptype.float_key(bits as int),
{
    let half = (ptype.max_value() + 1) / 2;
    if bits < half {
        bits
    } else {
        half - bits - 1
    }
}

impl<'a> Leaf<'a> {
    /// Whether this row is null.
    pub fn is_null(&self) -> (r: bool)
        ensures
            r == (self@ == Value::Null),
    {
        match self {
            Leaf::Null => true,
            _ => false,
        }
    }

    /// Whether two rows hold the same value.
    pub fn same(&self, other: &Leaf) -> (r: bool)
        ensures
            r == (self@ == other@),
    {
        match (self, other) {
            (Leaf::Null, Leaf::Null) => true,
            (Leaf::Bool(a), Leaf::Bool(b)) => *a == *b,
            (Leaf::Int(a), Leaf::Int(b)) => *a == *b,
            (Leaf::Float(p, a), Leaf::Float(q, b)) => *p == *q && *a == *b,
            (Leaf::Text(a), Leaf::Text(b)) => **a == **b,
            (Leaf::Bytes(a), Leaf::Bytes(b)) => same_bytes(a, b),
            _ => false,
        }
    }

    /// Whether this row comes before another.
    pub fn before(&self, other: &Leaf) -> (r: bool)
        requires
            self.wf(),
            other.wf(),
        ensures
            r == self@.before(other@),
    {
        match (self, other) {
            (Leaf::Bool(a), Leaf::Bool(b)) => !*a && *b,
            (Leaf::Int(a), Leaf::Int(b)) => *a < *b,
            (Leaf::Float(p, a), Leaf::Float(q, b)) => float_key(*p, *a) < float_key(*q, *b),
            (Leaf::Text(a), Leaf::Text(b)) => chars_before(
                &to_chars(a.as_str()),
                &to_chars(b.as_str()),
            ),
            (Leaf::Bytes(a), Leaf::Bytes(b)) => bytes_before(a, b),
            _ => false,
        }
    }
}

/// The outcome of a comparison, or nothing where it is null.
pub fn compare_rows(operator: CompareOperator, left: &Leaf, right: &Leaf) -> (r: Option<bool>)
    requires
        left.wf(),
        right.wf(),
    ensures
        compare_values(operator, left@, right@) == (match r {
            Some(b) => Value::Bool(b),
            None => Value::Null,
        }),
        r is None <==> left@ == Value::Null || right@ == Value::Null,
{
    if left.is_null() || right.is_null() {
        return None;
    }
    Some(
        match operator {
            CompareOperator::Eq => left.same(right),
            CompareOperator::NotEq => !left.same(right),
            CompareOperator::Gt => right.before(left),
            CompareOperator::Gte => !left.before(right),
            CompareOperator::Lt => left.before(right),
            CompareOperator::Lte => !right.before(left),
        },
    )
}

/// The value of an optional boolean.
pub open spec fn bool_value(b: Option<bool>) -> Value {
    match b {
        Some(b) => Value::Bool(b),
        None => Value::Null,
    }
}

/// Three-valued conjunction.
pub fn and_rows(left: Option<bool>, right: Option<bool>) -> (r: Option<bool>)
    ensures
        bool_value(r) == and_values(bool_value(left), bool_value(right)),
        r is None ==> left is None || right is None,
{
    match (left, right) {
        (Some(false), _) | (_, Some(false)) => Some(false),
        (Some(true), Some(true)) => Some(true),
        _ => None,
    }
}

/// Three-valued disjunction.
pub fn or_rows(left: Option<bool>, right: Option<bool>) -> (r: Option<bool>)
    ensures
        bool_value(r) == or_values(bool_value(left), bool_value(right)),
        r is None ==> left is None || right is None,
{
    match (left, right) {
        (Some(true), _) | (_, Some(true)) => Some(true),
        (Some(false), Some(false)) => Some(false),
        _ => None,
    }
}

/// Whether `row[j]` says, for every `j`, whether the text from `j` on fits the pattern from `i`
/// on, and `end` says it of the empty text.
spec fn row_fits(row: Seq<bool>, end: bool, pattern: Seq<char>, text: Seq<char>, i: int) -> bool {
    &&& row.len() == text.len()
    &&& end == fits_pattern(pattern.skip(i), Seq::empty())
    &&& forall|j: int|
        0 <= j < text.len() ==> #[trigger] row[j] == fits_pattern(pattern.skip(i), text.skip(j))
}

/// The outcome at `j`, which may be the end of the row.
fn look(row: &Vec<bool>, end: bool, j: usize) -> (r: bool)
    requires
        j <= row@.len(),
    ensures
        r == (if j < row@.len() {
            row@[j as int]
        } else {
            end
        }),
{
    if j < row.len() {
        row[j]
    } else {
        end
    }
}

/// A row of `n` outcomes, all false.
fn blank_row(n: usize) -> (r: Vec<bool>)
    ensures
        r@.len() == n,
        forall|j: int| 0 <= j < n ==> !r@[j],
{
    let mut row: Vec<bool> = Vec::new();
    let mut j: usize = 0;
    while j < n
        invariant
            j <= n,
            row@.len() == j,
            forall|k: int| 0 <= k < j ==> !row@[k],
        decreases n - j,
    {
        row.push(false);
        j += 1;
    }
    row
}

/// Whether a text fits a pattern, by filling a table from the ends of both.
fn matches_pattern(pattern: &Vec<char>, text: &Vec<char>) -> (r: bool)
    ensures
        r == fits_pattern(pattern@, text@),
{
    let n = text.len();
    let mut next = blank_row(n);
    let mut next_end = true;
    let mut after = blank_row(n);
    let mut after_end = false;
    let mut i = pattern.len();
    assert(row_fits(next@, next_end, pattern@, text@, i as int));
    while i > 0
        invariant
            0 <= i <= pattern@.len(),
            n == text@.len(),
            after@.len() == n,
            row_fits(next@, next_end, pattern@, text@, i as int),
            i < pattern@.len() ==> row_fits(after@, after_end, pattern@, text@, i + 1),
        decreases i,
    {
        let p = i - 1;
        let c = pattern[p];
        let escapes = c == '\\' && i < pattern.len();
        let end = c == '%' && next_end;
        let ghost rest = pattern@.skip(p as int);
        proof {
            assert(rest[0] == c);
            assert(rest.skip(1) =~= pattern@.skip(i as int));
            if i < pattern@.len() {
                assert(rest[1] == pattern@[i as int]);
                assert(rest.skip(2) =~= pattern@.skip(i + 1));
            }
            assert(end == fits_pattern(rest, Seq::empty()));
        }
        let mut row = blank_row(n);
        let mut j = n;
        while j > 0
            invariant
                0 <= j <= n,
                0 < i <= pattern@.len(),
                p == i - 1,
                c == pattern@[p as int],
                rest == pattern@.skip(p as int),
                rest.len() > 0,
                rest[0] == c,
                rest.skip(1) == pattern@.skip(i as int),
                i < pattern@.len() ==> rest[1] == pattern@[i as int],
                i < pattern@.len() ==> rest.skip(2) == pattern@.skip(i + 1),
                rest.len() > 1 <==> i < pattern@.len(),
                escapes == (c == '\\' && i < pattern@.len()),
                n == text@.len(),
                row@.len() == n,
                after@.len() == n,
                end == fits_pattern(rest, Seq::empty()),
                row_fits(next@, next_end, pattern@, text@, i as int),
                i < pattern@.len() ==> row_fits(after@, after_end, pattern@, text@, i + 1),
                forall|k: int|
                    j <= k < n ==> #[trigger] row@[k] == fits_pattern(rest, text@.skip(k)),
            decreases j,
        {
            let t = j - 1;
            let ghost tail = text@.skip(t as int);
            proof {
                assert(tail[0] == text@[t as int]);
                assert(tail.skip(1) =~= text@.skip(t + 1));
                if t + 1 == n {
                    assert(tail.skip(1) =~= Seq::empty());
                }
                assert(next@[t as int] == fits_pattern(rest.skip(1), tail));
            }
            let fits = if c == '%' {
                next[t] || look(&row, end, t + 1)
            } else if escapes {
                text[t] == pattern[i] && look(&after, after_end, t + 1)
            } else {
                (c == '_' || text[t] == c) && look(&next, next_end, t + 1)
            };
            assert(fits == fits_pattern(rest, tail));
            row.set(t, fits);
            j = t;
        }
        assert(row_fits(row@, end, pattern@, text@, p as int));
        after = next;
        after_end = next_end;
        next = row;
        next_end = end;
        i = p;
    }
    assert(pattern@.skip(0) =~= pattern@);
    assert(text@.skip(0) =~= text@);
    if n == 0 {
        assert(text@ =~= Seq::empty());
    }
    look(&next, next_end, 0)
}

/// The characters of a text with ASCII capitals replaced by small letters.
fn to_small(text: &Vec<char>) -> (r: Vec<char>)
    ensures
        r@ == small_text(text@),
{
    let mut folded: Vec<char> = Vec::new();
    let mut i: usize = 0;
    while i < text.len()
        invariant
            i <= text@.len(),
            folded@.len() == i,
            forall|j: int| 0 <= j < i ==> folded@[j] == small(text@[j]),
        decreases text@.len() - i,
    {
        let c = text[i];
        if 'A' <= c && c <= 'Z' {
            let lower: u8 = c as u8 + 32;
            folded.push(lower as char);
        } else {
            folded.push(c);
        }
        i += 1;
    }
    assert(folded@ =~= small_text(text@));
    folded
}

/// Whether a text matches a pattern under the given options.
pub fn like_rows(options: LikeOptions, text: &String, pattern: &String) -> (r: bool)
    ensures
        r == like_text(options, text@, pattern@),
{
    let mut t = to_chars(text.as_str());
    let mut p = to_chars(pattern.as_str());
    if options.case_insensitive {
        t = to_small(&t);
        p = to_small(&p);
    }
    matches_pattern(&p, &t) != options.negated
}

} // verus!
