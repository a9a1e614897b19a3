//! What holds of binding and of scopes as a whole.

use vstd::prelude::*;

use crate::dtype::TypeModel;
use crate::error::Error;
use crate::expr::bound_expression::{bind_all, dtypes_of, BoundModel};
use crate::expr::expression::{return_dtypes, ExprModel};
use crate::expr::scope::{
    lemma_bind_unique, lemma_extended_at, lemma_lookup, lemma_nest_unique, names_distinct,
    ScopeModel,
};
use crate::scalar_fn::FnModel;

verus! {

/// The expressions that a list of bound expressions came from.
pub open spec fn unbounds(children: Seq<BoundModel>) -> Seq<ExprModel>
    decreases children,
{
    Seq::new(
        children.len(),
        |i: int|
            if 0 <= i < children.len() {
                children[i].unbound()
            } else {
                arbitrary()
            },
    )
}

impl BoundModel {
    /// The expression that this bound expression came from: what is left without the types and the
    /// locations.
    pub open spec fn unbound(self) -> ExprModel
        decreases self,
    {
        match self {
            BoundModel::Scalar(_, f, children) => ExprModel::Scalar(f, unbounds(children)),
            BoundModel::Root(_) => ExprModel::Root,
            BoundModel::Variable(_, name, _) => ExprModel::Variable(name),
        }
    }

    /// Whether every variable in this expression has the type and the location that the scope
    /// gives its name.
    pub open spec fn located_in(self, scope: ScopeModel) -> bool
        decreases self,
    {
        match self {
            BoundModel::Scalar(_, _, children) => forall|i: int|
                0 <= i < children.len() ==> (#[trigger] children[i]).located_in(scope),
            BoundModel::Root(_) => true,
            BoundModel::Variable(dtype, name, reference) => scope.lookup(name) == Some(
                (dtype, reference.frame as int, reference.slot as int),
            ),
        }
    }
}

impl ScopeModel {
    /// Whether every location in this scope fits a machine word, as in every scope that exists.
    pub open spec fn fits(self) -> bool {
        &&& self.frames.len() <= usize::MAX
        &&& forall|f: int|
            0 <= f < self.frames.len() ==> (#[trigger] self.frames[f]).len() <= usize::MAX
    }
}

/// Whether `b` is a faithful bound form of `expr`.
pub open spec fn binds_to(expr: ExprModel, scope: ScopeModel, b: BoundModel) -> bool {
    &&& b.well_typed()
    &&& b.roots_have(scope.root)
    &&& b.located_in(scope)
    &&& b.unbound() == expr
}

proof fn lemma_bind(expr: ExprModel, scope: ScopeModel)
    requires
        scope.fits(),
    ensures
        match expr.bind(scope) {
            Ok(b) => {
                &&& expr.return_dtype(scope) == Ok::<TypeModel, Error>(b.dtype())
                &&& binds_to(expr, scope, b)
            },
            Err(error) => expr.return_dtype(scope) == Err::<TypeModel, Error>(error),
        },
    decreases expr,
{
    match expr {
        ExprModel::Scalar(f, children) => {
            lemma_bind_all(children, scope);
            if let Ok(bound) = bind_all(children, scope) {
                assert(unbounds(bound) =~= children);
            }
        },
        ExprModel::Variable(name) => {
            if scope.bound(name) {
                let (frame, slot) = choose|frame: int, slot: int| scope.at(name, frame, slot);
                assert(scope.at(name, frame, slot));
                assert(scope.frames[frame].len() <= usize::MAX);
            }
        },
        _ => {},
    }
}

proof fn lemma_bind_all(children: Seq<ExprModel>, scope: ScopeModel)
    requires
        scope.fits(),
    ensures
        match bind_all(children, scope) {
            Ok(bound) => {
                &&& bound.len() == children.len()
                &&& return_dtypes(children, scope) == Ok::<Seq<TypeModel>, Error>(dtypes_of(bound))
                &&& forall|i: int|
                    0 <= i < bound.len() ==> binds_to(children[i], scope, #[trigger] bound[i])
            },
            Err(error) => return_dtypes(children, scope) == Err::<Seq<TypeModel>, Error>(error),
        },
    decreases children,
{
    if children.len() > 0 {
        lemma_bind_all(children.drop_last(), scope);
        lemma_bind(children.last(), scope);
        if let Ok(bound) = bind_all(children, scope) {
            let first = bind_all(children.drop_last(), scope)->Ok_0;
            assert(dtypes_of(first).push(bound.last().dtype()) =~= dtypes_of(bound));
            assert forall|i: int| 0 <= i < bound.len() implies binds_to(
                children[i],
                scope,
                #[trigger] bound[i],
            ) by {
                if i < first.len() {
                    assert(bound[i] == first[i]);
                    assert(children.drop_last()[i] == children[i]);
                }
            }
        }
    } else {
        assert(dtypes_of(Seq::<BoundModel>::empty()) =~= Seq::empty());
    }
}

/// Binding an expression and computing its type agree: they give the same type, or are refused
/// for the same reason.
pub proof fn law_bind_agrees_with_return_dtype(expr: ExprModel, scope: ScopeModel)
    requires
        scope.fits(),
    ensures
        match expr.bind(scope) {
            Ok(bound) => expr.return_dtype(scope) == Ok::<TypeModel, Error>(bound.dtype()),
            Err(error) => expr.return_dtype(scope) == Err::<TypeModel, Error>(error),
        },
{
    lemma_bind(expr, scope);
}

/// A bound expression is the expression it came from with types and locations added: every node
/// carries the type that its function gives its children, every root has the type of the scope's
/// root, and every variable is where the scope has it.
pub proof fn law_bound_is_faithful(expr: ExprModel, scope: ScopeModel)
    requires
        scope.fits(),
        expr.bind(scope) is Ok,
    ensures
        expr.bind(scope)->Ok_0.well_typed(),
        expr.bind(scope)->Ok_0.roots_have(scope.root),
        expr.bind(scope)->Ok_0.located_in(scope),
        expr.bind(scope)->Ok_0.unbound() == expr,
{
    lemma_bind(expr, scope);
}

/// Whether a lambda is part of an expression, other than in the body of another.
pub open spec fn has_lambda(expr: ExprModel) -> bool
    decreases expr,
{
    match expr {
        ExprModel::Lambda(..) => true,
        ExprModel::Scalar(_, children) => exists|i: int|
            0 <= i < children.len() && has_lambda(#[trigger] children[i]),
        _ => false,
    }
}

/// A lambda is not a value: no expression with a lambda in it can be bound.
pub proof fn law_lambdas_do_not_bind(expr: ExprModel, scope: ScopeModel)
    requires
        scope.fits(),
        has_lambda(expr),
    ensures
        expr.bind(scope) is Err,
{
    if expr.bind(scope) is Ok {
        law_bound_is_faithful(expr, scope);
        lemma_unbound_has_no_lambda(expr.bind(scope)->Ok_0);
    }
}

proof fn lemma_unbound_has_no_lambda(bound: BoundModel)
    ensures
        !has_lambda(bound.unbound()),
    decreases bound,
{
    if let BoundModel::Scalar(_, _, children) = bound {
        let exprs = unbounds(children);
        assert forall|i: int| 0 <= i < exprs.len() implies !has_lambda(#[trigger] exprs[i]) by {
            lemma_unbound_has_no_lambda(children[i]);
        }
    }
}

/// A node that was made of well-typed children is well typed. So is every tree that was made node
/// by node.
pub proof fn law_nodes_are_well_typed(f: FnModel, children: Seq<BoundModel>)
    requires
        BoundModel::apply_fn(f, children) is Ok,
        forall|i: int| 0 <= i < children.len() ==> (#[trigger] children[i]).well_typed(),
    ensures
        BoundModel::apply_fn(f, children)->Ok_0.well_typed(),
{
}

/// Whether the scope root is part of an expression.
pub open spec fn has_root(bound: BoundModel) -> bool
    decreases bound,
{
    match bound {
        BoundModel::Root(_) => true,
        BoundModel::Scalar(_, _, children) => exists|i: int|
            0 <= i < children.len() && has_root(#[trigger] children[i]),
        BoundModel::Variable(..) => false,
    }
}

/// An expression without a scope root is bound to every root type, and one with a root to at most
/// one.
pub proof fn law_root_types(bound: BoundModel, first: TypeModel, second: TypeModel)
    ensures
        !has_root(bound) ==> bound.roots_have(first),
        has_root(bound) && bound.roots_have(first) && bound.roots_have(second) ==> first == second,
    decreases bound,
{
    if let BoundModel::Scalar(_, _, children) = bound {
        assert forall|i: int| 0 <= i < children.len() implies {
            &&& !has_root(#[trigger] children[i]) ==> children[i].roots_have(first)
            &&& has_root(children[i]) && children[i].roots_have(first) && children[i].roots_have(
                second,
            ) ==> first == second
        } by {
            law_root_types(children[i], first, second);
        }
    }
}

/// Whether `inner` has the root of `outer`, and every binding of `outer` at its location.
pub open spec fn contains_scope(inner: ScopeModel, outer: ScopeModel) -> bool {
    &&& inner.root == outer.root
    &&& forall|name: Seq<char>| #[trigger]
        outer.bound(name) ==> inner.lookup(name) == outer.lookup(name)
}

/// An expression that binds in a scope binds to the same in every scope that contains it.
pub proof fn law_bind_in_larger_scope(expr: ExprModel, outer: ScopeModel, inner: ScopeModel)
    requires
        contains_scope(inner, outer),
        expr.bind(outer) is Ok,
    ensures
        expr.bind(inner) == expr.bind(outer),
    decreases expr,
{
    match expr {
        ExprModel::Scalar(f, children) => {
            lemma_bind_all_in_larger_scope(children, outer, inner);
        },
        ExprModel::Variable(name) => {
            assert(outer.bound(name));
        },
        _ => {},
    }
}

proof fn lemma_bind_all_in_larger_scope(
    children: Seq<ExprModel>,
    outer: ScopeModel,
    inner: ScopeModel,
)
    requires
        contains_scope(inner, outer),
        bind_all(children, outer) is Ok,
    ensures
        bind_all(children, inner) == bind_all(children, outer),
    decreases children,
{
    if children.len() > 0 {
        lemma_bind_all_in_larger_scope(children.drop_last(), outer, inner);
        law_bind_in_larger_scope(children.last(), outer, inner);
    }
}

/// A new name resolves to the type it was bound to, every other name resolves as before, and the
/// root stays.
pub proof fn law_bind_then_resolve(
    scope: ScopeModel,
    name: Seq<char>,
    dtype: TypeModel,
    other: Seq<char>,
)
    requires
        scope.unique(),
        !scope.bound(name),
    ensures
        ({
            let extended = scope.extended(seq![(name, dtype)]);
            &&& extended.unique()
            &&& extended.root == scope.root
            &&& extended.lookup(name) matches Some(found) && found.0 == dtype
            &&& other != name ==> extended.lookup(other) == scope.lookup(other)
            &&& contains_scope(extended, scope)
        }),
{
    let one = seq![(name, dtype)];
    let extended = scope.extended(one);
    let frame = if scope.frames.len() == 0 {
        0
    } else {
        scope.frames.len() - 1
    };
    let slot = if scope.frames.len() == 0 {
        0
    } else {
        scope.frames.last().len() as int
    };
    lemma_bind_unique(scope, name, dtype);
    lemma_extended_at(scope, one, name, frame, slot);
    lemma_lookup(extended, name, frame, slot);
    assert(extended.frames[frame][slot] == (name, dtype));
    assert forall|n: Seq<char>| n != name implies #[trigger] extended.lookup(n) == scope.lookup(
        n,
    ) by {
        assert forall|f: int, s: int| extended.at(n, f, s) <==> #[trigger] scope.at(n, f, s) by {
            lemma_extended_at(scope, one, n, f, s);
        }
        if scope.bound(n) {
            let (f, s) = choose|f: int, s: int| scope.at(n, f, s);
            assert(extended.at(n, f, s));
            lemma_lookup(scope, n, f, s);
            lemma_lookup(extended, n, f, s);
            lemma_extended_same(scope, one, n, f, s);
        } else if extended.bound(n) {
            let (f, s) = choose|f: int, s: int| extended.at(n, f, s);
            assert(scope.at(n, f, s));
        }
    }
    assert forall|n: Seq<char>| #[trigger] scope.bound(n) implies extended.lookup(n)
        == scope.lookup(n) by {
        assert(n != name);
    }
}

/// Extending a scope keeps what is bound at every location.
proof fn lemma_extended_same(
    scope: ScopeModel,
    bindings: Seq<(Seq<char>, TypeModel)>,
    name: Seq<char>,
    f: int,
    s: int,
)
    requires
        scope.at(name, f, s),
    ensures
        scope.extended(bindings).frames[f][s] == scope.frames[f][s],
{
    if bindings.len() > 0 && scope.frames.len() > 0 {
        let last = scope.frames.len() - 1;
        if f < last {
            assert(scope.extended(bindings).frames[f] == scope.frames[f]);
        } else {
            assert(scope.extended(bindings).frames[f] == scope.frames[f] + bindings);
        }
    }
}

/// The names of a frame, in declaration order.
pub open spec fn frame_names(frame: Seq<(Seq<char>, TypeModel)>) -> Seq<Seq<char>> {
    Seq::new(frame.len(), |i: int| frame[i].0)
}

/// The types of a frame, in declaration order.
pub open spec fn frame_types(frame: Seq<(Seq<char>, TypeModel)>) -> Seq<TypeModel> {
    Seq::new(frame.len(), |i: int| frame[i].1)
}

/// The parameters of a lambda and their types are as many as its bindings, and side by side they are
/// its bindings, in declaration order. No parameter occurs twice.
pub proof fn law_parameters_are_bindings(frame: Seq<(Seq<char>, TypeModel)>)
    requires
        names_distinct(frame),
    ensures
        frame_names(frame).len() == frame.len(),
        frame_types(frame).len() == frame.len(),
        frame_names(frame).zip_with(frame_types(frame)) == frame,
        frame_names(frame).no_duplicates(),
{
    let names = frame_names(frame);
    assert(names.zip_with(frame_types(frame)) =~= frame);
    assert forall|i: int, j: int|
        0 <= i < names.len() && 0 <= j < names.len() && i != j implies names[i] != names[j] by {
        if i < j {
            assert(frame[i].0 != frame[j].0);
        } else {
            assert(frame[j].0 != frame[i].0);
        }
    }
}

/// Names are never shadowed: a name of a further frame is new to the scope, resolves to that
/// frame, and every name that was bound before resolves as before.
pub proof fn law_nested_frame_resolves(
    scope: ScopeModel,
    frame: Seq<(Seq<char>, TypeModel)>,
    slot: int,
)
    requires
        scope.unique(),
        names_distinct(frame),
        forall|i: int| 0 <= i < frame.len() ==> !scope.bound(#[trigger] frame[i].0),
        0 <= slot < frame.len(),
    ensures
        scope.nested(frame).unique(),
        scope.nested(frame).lookup(frame[slot].0) == Some(
            (frame[slot].1, scope.frames.len() as int, slot),
        ),
        contains_scope(scope.nested(frame), scope),
{
    let nested = scope.nested(frame);
    let depth = scope.frames.len() as int;
    lemma_nest_unique(scope, frame);
    assert(nested.frames[depth] == frame);
    assert(nested.at(frame[slot].0, depth, slot));
    lemma_lookup(nested, frame[slot].0, depth, slot);
    assert forall|n: Seq<char>| #[trigger] scope.bound(n) implies nested.lookup(n)
        == scope.lookup(n) by {
        let (f, s) = choose|f: int, s: int| scope.at(n, f, s);
        assert(nested.frames[f] == scope.frames[f]);
        assert(nested.at(n, f, s));
        lemma_lookup(scope, n, f, s);
        lemma_lookup(nested, n, f, s);
    }
}

} // verus!
