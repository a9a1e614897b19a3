//! What is found in a tree, and what tells trees apart.

use vstd::prelude::*;
use vstd::utf8::{encode_utf8, encode_utf8_decode_utf8};

use crate::dtype::TypeModel;
use crate::expr::bound_expression::{
    fn_bytes, identity_feed, operator_byte, same_tree, BoundExpression, BoundModel,
};
use crate::expr::expression::Expression;
use crate::scalar_fn::{
    Binary, FnModel, GetItem, IsNotNull, Like, Literal, Operator, ScalarFnRef, ScalarFnVTable,
};

verus! {

/// The node that a path of child numbers leads to from a tree, if there is one.
pub open spec fn node_at(tree: BoundExpression, path: Seq<int>) -> Option<BoundExpression>
    decreases path.len(),
{
    if path.len() == 0 {
        Some(tree)
    } else {
        match tree {
            BoundExpression::Scalar { children, .. } => if 0 <= path[0] < children@.len() {
                node_at(children@[path[0]], path.drop_first())
            } else {
                None
            },
            _ => None,
        }
    }
}

/// Whether the node at a path applies the scalar function `V`.
pub open spec fn applies_at<V: ScalarFnVTable>(tree: BoundExpression, path: Seq<int>) -> bool {
    node_at(tree, path) matches Some(BoundExpression::Scalar { scalar_fn, .. }) && V::options(
        scalar_fn,
    ) is Some
}

/// A tree uses a scalar function exactly if some path leads to a node that applies it.
pub proof fn law_uses<V: ScalarFnVTable>(tree: BoundExpression)
    ensures
        tree.uses::<V>() <==> exists|path: Seq<int>| applies_at::<V>(tree, path),
    decreases tree,
{
    if tree.uses::<V>() {
        if let BoundExpression::Scalar { scalar_fn, children, .. } = tree {
            if V::options(scalar_fn) is Some {
                assert(applies_at::<V>(tree, Seq::empty()));
            } else {
                let i = choose|i: int|
                    0 <= i < children@.len() && (#[trigger] children@[i]).uses::<V>();
                law_uses::<V>(children@[i]);
                let path = choose|path: Seq<int>| applies_at::<V>(children@[i], path);
                let whole = seq![i] + path;
                assert(whole.drop_first() =~= path);
                assert(applies_at::<V>(tree, whole));
            }
        }
    }
    if exists|path: Seq<int>| applies_at::<V>(tree, path) {
        let path = choose|path: Seq<int>| applies_at::<V>(tree, path);
        if path.len() > 0 {
            if let BoundExpression::Scalar { children, .. } = tree {
                law_uses::<V>(children@[path[0]]);
                assert(applies_at::<V>(children@[path[0]], path.drop_first()));
                assert(children@[path[0]].uses::<V>());
            }
        }
    }
}

/// The node that a path of child numbers leads to from an expression, if there is one. A lambda has
/// no children.
pub open spec fn part_at(tree: Expression, path: Seq<int>) -> Option<Expression>
    decreases path.len(),
{
    if path.len() == 0 {
        Some(tree)
    } else {
        match tree {
            Expression::Scalar { children, .. } => if 0 <= path[0] < children@.len() {
                part_at(children@[path[0]], path.drop_first())
            } else {
                None
            },
            _ => None,
        }
    }
}

/// Whether the node at a path applies the scalar function `V`, or is a lambda whose body uses it.
pub open spec fn part_applies_at<V: ScalarFnVTable>(tree: Expression, path: Seq<int>) -> bool {
    match part_at(tree, path) {
        Some(Expression::Scalar { scalar_fn, .. }) => V::options(scalar_fn) is Some,
        Some(Expression::Lambda(lambda)) => lambda.body_uses::<V>(),
        _ => false,
    }
}

/// An expression uses a scalar function exactly if some path leads to a node that applies it, or to a
/// lambda whose body uses it.
pub proof fn law_expression_uses<V: ScalarFnVTable>(tree: Expression)
    ensures
        tree.uses::<V>() <==> exists|path: Seq<int>| part_applies_at::<V>(tree, path),
    decreases tree,
{
    if tree.uses::<V>() {
        match tree {
            Expression::Scalar { scalar_fn, children } => {
                if V::options(scalar_fn) is Some {
                    assert(part_applies_at::<V>(tree, Seq::empty()));
                } else {
                    let i = choose|i: int|
                        0 <= i < children@.len() && (#[trigger] children@[i]).uses::<V>();
                    law_expression_uses::<V>(children@[i]);
                    let path = choose|path: Seq<int>| part_applies_at::<V>(children@[i], path);
                    let whole = seq![i] + path;
                    assert(whole.drop_first() =~= path);
                    assert(part_applies_at::<V>(tree, whole));
                }
            },
            _ => {
                assert(part_applies_at::<V>(tree, Seq::empty()));
            },
        }
    }
    if exists|path: Seq<int>| part_applies_at::<V>(tree, path) {
        let path = choose|path: Seq<int>| part_applies_at::<V>(tree, path);
        if path.len() > 0 {
            if let Expression::Scalar { children, .. } = tree {
                law_expression_uses::<V>(children@[path[0]]);
                assert(part_applies_at::<V>(children@[path[0]], path.drop_first()));
                assert(children@[path[0]].uses::<V>());
            }
        }
    }
}

/// Every function is of exactly one kind, and its options are what it was made with.
pub proof fn law_options(f: ScalarFnRef)
    ensures
        match f {
            ScalarFnRef::Literal(scalar) => Literal::options(f) == Some(scalar),
            _ => Literal::options(f) is None,
        },
        match f {
            ScalarFnRef::GetItem(name) => GetItem::options(f) == Some(name),
            _ => GetItem::options(f) is None,
        },
        match f {
            ScalarFnRef::Binary(operator) => Binary::options(f) == Some(operator),
            _ => Binary::options(f) is None,
        },
        match f {
            ScalarFnRef::IsNotNull(options) => IsNotNull::options(f) == Some(options),
            _ => IsNotNull::options(f) is None,
        },
        match f {
            ScalarFnRef::Like(options) => Like::options(f) == Some(options),
            _ => Like::options(f) is None,
        },
{
}

/// Whether a root with another type than `dtype` is at a path.
pub open spec fn other_root_at(tree: BoundExpression, dtype: TypeModel, path: Seq<int>) -> bool {
    node_at(tree, path) matches Some(BoundExpression::Root { dtype: found }) && found@ != dtype
}

/// An expression is bound to a root type exactly if no path leads to a root of another type.
pub proof fn law_roots(tree: BoundExpression, dtype: TypeModel)
    ensures
        tree@.roots_have(dtype) <==> forall|path: Seq<int>| !other_root_at(tree, dtype, path),
    decreases tree,
{
    if !tree@.roots_have(dtype) {
        if let BoundExpression::Scalar { children, .. } = tree {
            let i = choose|i: int|
                0 <= i < tree@.children().len() && !(#[trigger] tree@.children()[i]).roots_have(
                    dtype,
                );
            law_roots(children@[i], dtype);
            let path = choose|path: Seq<int>| other_root_at(children@[i], dtype, path);
            let whole = seq![i] + path;
            assert(whole.drop_first() =~= path);
            assert(other_root_at(tree, dtype, whole));
        } else {
            assert(other_root_at(tree, dtype, Seq::empty()));
        }
    } else {
        assert forall|path: Seq<int>| !other_root_at(tree, dtype, path) by {
            if other_root_at(tree, dtype, path) && path.len() > 0 {
                if let BoundExpression::Scalar { children, .. } = tree {
                    let child = children@[path[0]];
                    assert(tree@.children()[path[0]] == child@);
                    law_roots(child, dtype);
                    assert(other_root_at(child, dtype, path.drop_first()));
                }
            }
        }
    }
}

/// Identity is reflexive where the children are the same, and symmetric. Without shared children no
/// two functions are the same tree, and trees of different kinds never are.
pub proof fn law_same_trees(left: BoundModel, right: BoundModel, same_children: bool)
    ensures
        same_tree(left, left, true),
        same_tree(left, right, same_children) == same_tree(right, left, same_children),
        left is Scalar ==> !same_tree(left, right, false),
        !(left is Scalar) ==> (same_tree(left, right, same_children) <==> left == right),
        same_tree(left, right, same_children) ==> left.dtype() == right.dtype(),
{
}

/// What is handed to a hasher tells apart nodes of different kinds, variables of different names or
/// places, and functions of different kinds, options or places of their children.
pub proof fn law_feeds_differ(left: BoundModel, right: BoundModel, here: usize, there: usize)
    requires
        identity_feed(left, here) == identity_feed(right, there),
    ensures
        left is Root <==> right is Root,
        left is Scalar <==> right is Scalar,
        left is Scalar ==> here == there && fn_bytes(left->Scalar_1) == fn_bytes(
            right->Scalar_1,
        ),
        left is Variable ==> left->Variable_1 == right->Variable_1 && left->Variable_2
            == right->Variable_2,
{
    let (a, b) = (identity_feed(left, here), identity_feed(right, there));
    assert(a[0] == b[0]);
    match (left, right) {
        (BoundModel::Scalar(..), BoundModel::Scalar(..)) => {
            assert(a[1] == b[1] && a[2] == b[2]);
        },
        (BoundModel::Variable(_, v, l), BoundModel::Variable(_, w, m)) => {
            assert(a[1] == b[1] && a[3] == b[3] && a[4] == b[4]);
            encode_utf8_decode_utf8(v);
            encode_utf8_decode_utf8(w);
        },
        _ => {},
    }
}

/// The bytes of a function tell apart functions of different kinds, fields of different names,
/// different operations and different options.
pub proof fn law_function_bytes_differ(left: FnModel, right: FnModel)
    requires
        fn_bytes(left) == fn_bytes(right),
    ensures
        left is Literal <==> right is Literal,
        !(left is Literal) ==> left == right,
{
    let (a, b) = (fn_bytes(left), fn_bytes(right));
    assert(a[0] == b[0]);
    match (left, right) {
        (FnModel::GetItem(v), FnModel::GetItem(w)) => {
            assert(a.skip(1) =~= encode_utf8(v));
            assert(b.skip(1) =~= encode_utf8(w));
            encode_utf8_decode_utf8(v);
            encode_utf8_decode_utf8(w);
        },
        (FnModel::Binary(f), FnModel::Binary(g)) => {
            assert(a[1] == b[1]);
            law_operator_bytes_differ(f, g);
        },
        (FnModel::Like(_), FnModel::Like(_)) => {
            assert(a[1] == b[1] && a[2] == b[2]);
        },
        _ => {},
    }
}

/// No two operations have the same number.
pub proof fn law_operator_bytes_differ(left: Operator, right: Operator)
    requires
        operator_byte(left) == operator_byte(right),
    ensures
        left == right,
{
}

/// A retyped node has the new type and is otherwise unchanged: retyping it back gives the node again.
pub proof fn law_retyped(bound: BoundModel, dtype: TypeModel)
    ensures
        bound.retyped(dtype).dtype() == dtype,
        bound.retyped(dtype).children() == bound.children(),
        bound.retyped(dtype).unbound() == bound.unbound(),
        bound.retyped(dtype).retyped(bound.dtype()) == bound,
{
}

} // verus!
