//! What binding and applying expressions make of the parts of an expression.

use vstd::prelude::*;

use crate::apply::{apply_all, apply_model, location, resolve_all, BindingsModel};
use crate::arrays::array::{fn_model, LazyModel};
use crate::dtype::TypeModel;
use crate::error::Error;
use crate::expr::bound_expression::{bind_all, dtypes_of, BoundModel};
use crate::expr::expression::ExprModel;
use crate::expr::scope::{lemma_extended_at, lemma_lookup, ScopeModel};
use crate::expr::variable::VariableRef;
use crate::scalar::ScalarModel;
use crate::scalar_fn::FnModel;

verus! {

/// The root of a scope binds to the type of the root, and a name to the type that the scope gives it
/// and to its place. A name that the scope does not bind is refused, and so is a lambda.
pub proof fn law_leaves_bind(
    scope: ScopeModel,
    name: Seq<char>,
    frame: int,
    slot: int,
    params: Seq<Seq<char>>,
    body: ExprModel,
)
    requires
        scope.unique(),
    ensures
        ExprModel::Root.bind(scope) == Ok::<BoundModel, Error>(BoundModel::Root(scope.root)),
        ExprModel::Lambda(params, Box::new(body)).bind(scope) == Err::<BoundModel, Error>(
            Error::LambdaOutsideBinder,
        ),
        (0 <= frame < scope.frames.len() && 0 <= slot < scope.frames[frame].len()
            && scope.frames[frame][slot].0 == name && frame <= usize::MAX && slot <= usize::MAX)
            ==> (ExprModel::Variable(name).bind(scope) matches Ok(bound) && bound
            == BoundModel::Variable(
            scope.frames[frame][slot].1,
            name,
            VariableRef { frame: frame as usize, slot: slot as usize },
        )),
        (forall|f: int, s: int|
            0 <= f < scope.frames.len() && 0 <= s < scope.frames[f].len()
                ==> (#[trigger] scope.frames[f][s]).0 != name) ==> ExprModel::Variable(name).bind(
            scope,
        ) == Err::<BoundModel, Error>(Error::UnboundVariable),
{
    if scope.at(name, frame, slot) {
        lemma_lookup(scope, name, frame, slot);
    }
    if forall|f: int, s: int|
        0 <= f < scope.frames.len() && 0 <= s < scope.frames[f].len() ==> (
        #[trigger] scope.frames[f][s]).0 != name {
        assert forall|f: int, s: int| !scope.at(name, f, s) by {
            if scope.at(name, f, s) {
                assert(scope.frames[f][s].0 == name);
            }
        }
    }
}

/// A list of expressions binds exactly if each of them does, to what each binds to, in order.
/// Otherwise it is refused for the reason that the first one that does not bind is.
pub proof fn law_lists_bind(children: Seq<ExprModel>, scope: ScopeModel)
    ensures
        match bind_all(children, scope) {
            Ok(bound) => {
                &&& bound.len() == children.len()
                &&& forall|i: int|
                    0 <= i < children.len() ==> (#[trigger] children[i]).bind(scope) == Ok::<
                        BoundModel,
                        Error,
                    >(bound[i])
            },
            Err(error) => exists|i: int|
                {
                    &&& 0 <= i < children.len()
                    &&& (#[trigger] children[i]).bind(scope) == Err::<BoundModel, Error>(error)
                    &&& forall|k: int|
                        0 <= k < i ==> (#[trigger] children[k]).bind(scope) is Ok
                },
        },
    decreases children.len(),
{
    if children.len() > 0 {
        let rest = children.drop_last();
        let n = children.len() - 1;
        law_lists_bind(rest, scope);
        match bind_all(rest, scope) {
            Ok(bound) => {
                assert forall|i: int| 0 <= i < n implies (#[trigger] children[i]).bind(scope)
                    == Ok::<BoundModel, Error>(bound[i]) by {
                    assert(rest[i] == children[i]);
                }
                if let Err(error) = children[n].bind(scope) {
                    assert(children[n].bind(scope) == Err::<BoundModel, Error>(error));
                }
            },
            Err(error) => {
                let i = choose|i: int|
                    {
                        &&& 0 <= i < rest.len()
                        &&& (#[trigger] rest[i]).bind(scope) == Err::<BoundModel, Error>(error)
                        &&& forall|k: int| 0 <= k < i ==> (#[trigger] rest[k]).bind(scope) is Ok
                    };
                assert(children[i] == rest[i]);
                assert forall|k: int| 0 <= k < i implies (#[trigger] children[k]).bind(
                    scope,
                ) is Ok by {
                    assert(rest[k] == children[k]);
                }
            },
        }
    }
}

/// A function of expressions binds exactly if each of them binds, they are as many as the function
/// takes, and it takes their types. The node has the function, what the expressions bind to, and the
/// type that the function gives.
pub proof fn law_functions_bind(f: FnModel, children: Seq<ExprModel>, scope: ScopeModel)
    ensures
        match ExprModel::Scalar(f, children).bind(scope) {
            Ok(bound) => {
                &&& bound matches BoundModel::Scalar(dtype, g, parts)
                &&& g == f
                &&& parts.len() == children.len() == f.arity()
                &&& forall|i: int|
                    0 <= i < children.len() ==> (#[trigger] children[i]).bind(scope) == Ok::<
                        BoundModel,
                        Error,
                    >(parts[i])
                &&& f.return_dtype(dtypes_of(parts)) == Ok::<TypeModel, Error>(dtype)
            },
            Err(error) => {
                ||| exists|i: int|
                    0 <= i < children.len() && (#[trigger] children[i]).bind(scope) == Err::<
                        BoundModel,
                        Error,
                    >(error)
                ||| children.len() != f.arity() && error == Error::ArityMismatch
                ||| exists|parts: Seq<BoundModel>|
                    {
                        &&& parts.len() == children.len()
                        &&& forall|i: int|
                            0 <= i < children.len() ==> (#[trigger] children[i]).bind(scope)
                                == Ok::<BoundModel, Error>(parts[i])
                        &&& f.return_dtype(#[trigger] dtypes_of(parts)) == Err::<TypeModel, Error>(
                            error,
                        )
                    }
            },
        },
{
    law_lists_bind(children, scope);
    if let Ok(parts) = bind_all(children, scope) {
        assert(dtypes_of(parts).len() == parts.len());
    }
}

/// The types of a list of bound expressions are theirs, in order.
pub proof fn law_types_of_children(children: Seq<BoundModel>, i: int)
    requires
        0 <= i < children.len(),
    ensures
        dtypes_of(children).len() == children.len(),
        dtypes_of(children)[i] == children[i].dtype(),
{
}

/// More bindings stand behind the others in the innermost frame, in their order, and in a first frame
/// where there is none.
pub proof fn law_new_bindings_are_last(
    scope: ScopeModel,
    bindings: Seq<(Seq<char>, TypeModel)>,
    i: int,
)
    requires
        0 <= i < bindings.len(),
        scope.extended(bindings).unique(),
    ensures
        ({
            let extended = scope.extended(bindings);
            let frame = if scope.frames.len() == 0 {
                0
            } else {
                scope.frames.len() - 1
            };
            let before = if scope.frames.len() == 0 {
                0
            } else {
                scope.frames.last().len() as int
            };
            &&& extended.root == scope.root
            &&& extended.frames.len() == frame + 1
            &&& extended.frames.last().len() == before + bindings.len()
            &&& extended.lookup(bindings[i].0) == Some((bindings[i].1, frame, before + i))
        }),
{
    let frame = if scope.frames.len() == 0 {
        0
    } else {
        scope.frames.len() - 1
    };
    let before = if scope.frames.len() == 0 {
        0
    } else {
        scope.frames.last().len() as int
    };
    let extended = scope.extended(bindings);
    lemma_extended_at(scope, bindings, bindings[i].0, frame, before + i);
    assert(extended.at(bindings[i].0, frame, before + i));
    lemma_lookup(extended, bindings[i].0, frame, before + i);
    assert(extended.frames[frame][before + i] == bindings[i]);
}

/// Names stay unique with more bindings exactly if none of them is bound already and they differ from
/// each other.
pub proof fn law_new_names_are_accepted(
    scope: ScopeModel,
    bindings: Seq<(Seq<char>, TypeModel)>,
)
    requires
        scope.unique(),
    ensures
        scope.extended(bindings).unique() <==> {
            &&& forall|i: int| 0 <= i < bindings.len() ==> !scope.bound(#[trigger] bindings[i].0)
            &&& forall|i: int, j: int|
                #![trigger bindings[i], bindings[j]]
                0 <= i < j < bindings.len() ==> bindings[i].0 != bindings[j].0
        },
{
    let extended = scope.extended(bindings);
    let frame = if scope.frames.len() == 0 {
        0
    } else {
        scope.frames.len() - 1
    };
    let before = if scope.frames.len() == 0 {
        0
    } else {
        scope.frames.last().len() as int
    };
    let all_new = forall|i: int| 0 <= i < bindings.len() ==> !scope.bound(#[trigger] bindings[i].0);
    let all_differ = forall|i: int, j: int|
        #![trigger bindings[i], bindings[j]]
        0 <= i < j < bindings.len() ==> bindings[i].0 != bindings[j].0;
    if extended.unique() {
        assert forall|i: int| 0 <= i < bindings.len() implies !scope.bound(
            #[trigger] bindings[i].0,
        ) by {
            let name = bindings[i].0;
            if scope.bound(name) {
                let (f, s) = choose|f: int, s: int| scope.at(name, f, s);
                lemma_extended_at(scope, bindings, name, f, s);
                lemma_extended_at(scope, bindings, name, frame, before + i);
                assert(extended.at(name, f, s) && extended.at(name, frame, before + i));
                assert(s < before + i);
            }
        }
        assert forall|i: int, j: int|
            #![trigger bindings[i], bindings[j]]
            0 <= i < j < bindings.len() implies bindings[i].0 != bindings[j].0 by {
            if bindings[i].0 == bindings[j].0 {
                let name = bindings[i].0;
                lemma_extended_at(scope, bindings, name, frame, before + i);
                lemma_extended_at(scope, bindings, name, frame, before + j);
                assert(extended.at(name, frame, before + i) && extended.at(
                    name,
                    frame,
                    before + j,
                ));
            }
        }
    }
    if all_new && all_differ {
        assert forall|name: Seq<char>, f: int, s: int, g: int, t: int|
            #![trigger extended.at(name, f, s), extended.at(name, g, t)]
            extended.at(name, f, s) && extended.at(name, g, t) implies f == g && s == t by {
            lemma_extended_at(scope, bindings, name, f, s);
            lemma_extended_at(scope, bindings, name, g, t);
            if scope.at(name, f, s) {
                assert(scope.bound(name));
                if !scope.at(name, g, t) {
                    assert(bindings[t - before].0 == name);
                }
            } else {
                assert(bindings[s - before].0 == name);
                if scope.at(name, g, t) {
                    assert(scope.bound(name));
                } else {
                    assert(bindings[t - before].0 == name);
                    if s < t {
                        assert(bindings[s - before].0 != bindings[t - before].0);
                    } else if t < s {
                        assert(bindings[t - before].0 != bindings[s - before].0);
                    }
                }
            }
        }
    }
}

/// Two scopes are the same exactly if they have the root type in common and bind the same names to
/// the same types, wherever they bind them. A scope includes another exactly if it binds every name
/// of the other to the same type.
pub proof fn law_scopes_by_names(left: ScopeModel, right: ScopeModel)
    ensures
        left.same(right) <==> left.root == right.root && left.includes(right) && right.includes(
            left,
        ),
        left.same(left) && left.includes(left),
        left.same(right) ==> right.same(left),
{
    if left.includes(right) && right.includes(left) {
        assert forall|name: Seq<char>| #[trigger] left.type_of(name) == right.type_of(name) by {
            assert(left.bound(name) || !left.bound(name));
            assert(right.bound(name) || !right.bound(name));
        }
    }
    if left.same(right) {
        assert forall|name: Seq<char>| #[trigger] right.bound(name) implies left.type_of(name)
            == right.type_of(name) by {}
        assert forall|name: Seq<char>| #[trigger] left.bound(name) implies right.type_of(name)
            == left.type_of(name) by {
            assert(left.type_of(name) == right.type_of(name));
        }
        assert forall|name: Seq<char>| #[trigger] right.type_of(name) == left.type_of(name) by {
            assert(left.type_of(name) == right.type_of(name));
        }
    }
}

/// The name at a place of a scope has the type that stands at the place, and a name that stands
/// nowhere has none.
pub proof fn law_names_have_types(scope: ScopeModel, name: Seq<char>, frame: int, slot: int)
    requires
        scope.unique(),
    ensures
        (0 <= frame < scope.frames.len() && 0 <= slot < scope.frames[frame].len()
            && scope.frames[frame][slot].0 == name) ==> scope.type_of(name) == Some(
            scope.frames[frame][slot].1,
        ),
        scope.type_of(name) is None <==> forall|f: int, s: int|
            0 <= f < scope.frames.len() && 0 <= s < scope.frames[f].len()
                ==> (#[trigger] scope.frames[f][s]).0 != name,
{
    if scope.at(name, frame, slot) {
        lemma_lookup(scope, name, frame, slot);
    }
    if scope.bound(name) {
        let (f, s) = choose|f: int, s: int| scope.at(name, f, s);
        assert(scope.frames[f][s].0 == name);
    } else {
        assert forall|f: int, s: int|
            0 <= f < scope.frames.len() && 0 <= s < scope.frames[f].len() implies (
        #[trigger] scope.frames[f][s]).0 != name by {
            assert(!scope.at(name, f, s));
        }
    }
}

/// Whether a given array can be taken: its name is bound, to its type.
pub open spec fn takes(scope: ScopeModel, given: (Seq<char>, LazyModel)) -> bool {
    scope.type_of(given.0) == Some(given.1.dtype)
}

/// Named arrays are accepted exactly if every name is bound to the type of its array and no name is
/// given twice. Each array is then at the place of its name, and nothing else is anywhere.
pub proof fn law_bindings_are_accepted(scope: ScopeModel, given: Seq<(Seq<char>, LazyModel)>)
    requires
        scope.unique(),
        scope.fits(),
    ensures
        resolve_all(scope, given) is Ok <==> {
            &&& forall|i: int| 0 <= i < given.len() ==> takes(scope, #[trigger] given[i])
            &&& forall|i: int, j: int|
                #![trigger given[i], given[j]]
                0 <= i < j < given.len() ==> given[i].0 != given[j].0
        },
        resolve_all(scope, given) matches Ok(resolved) ==> forall|place: VariableRef|
            resolved.contains_key(place) <==> exists|i: int|
                0 <= i < given.len() && placed_at(scope, #[trigger] given[i], place, resolved),
    decreases given.len(),
{
    if given.len() > 0 {
        let rest = given.drop_last();
        let last = given.last();
        let n = given.len() - 1;
        law_bindings_are_accepted(scope, rest);
        assert(given[n] == last);
        assert forall|i: int| 0 <= i < n implies given[i] == rest[i] by {}
        if let Ok(resolved) = resolve_all(scope, rest) {
            if let Some((dtype, frame, slot)) = scope.lookup(last.0) {
                let place = location(frame, slot);
                lemma_place(scope, last.0);
                if resolved.contains_key(place) {
                    let i = choose|i: int|
                        0 <= i < rest.len() && placed_at(
                            scope,
                            #[trigger] rest[i],
                            place,
                            resolved,
                        );
                    lemma_place(scope, rest[i].0);
                    assert(rest[i].0 == last.0);
                    assert(given[i].0 == given[n].0);
                } else {
                    assert forall|i: int| 0 <= i < n implies (#[trigger] given[i]).0 != last.0 by {
                        assert(rest[i] == given[i]);
                        assert(takes(scope, rest[i]));
                        crate::apply::law_bindings_resolve(scope, rest, i);
                        if rest[i].0 == last.0 {
                            assert(resolved.contains_key(place));
                        }
                    }
                    if let Ok(all) = resolve_all(scope, given) {
                        lemma_placed(scope, given, resolved, all, place);
                    }
                }
            }
        } else {
            if forall|i: int| 0 <= i < given.len() ==> takes(scope, #[trigger] given[i]) {
                assert forall|i: int| 0 <= i < rest.len() implies takes(
                    scope,
                    #[trigger] rest[i],
                ) by {
                    assert(given[i] == rest[i]);
                }
            }
            if forall|i: int, j: int|
                #![trigger given[i], given[j]]
                0 <= i < j < given.len() ==> given[i].0 != given[j].0 {
                assert forall|i: int, j: int|
                    #![trigger rest[i], rest[j]]
                    0 <= i < j < rest.len() implies rest[i].0 != rest[j].0 by {
                    assert(given[i] == rest[i] && given[j] == rest[j]);
                }
            }
        }
    }
}

/// Whether a given array is at the place of its name.
pub open spec fn placed_at(
    scope: ScopeModel,
    given: (Seq<char>, LazyModel),
    place: VariableRef,
    resolved: Map<VariableRef, LazyModel>,
) -> bool {
    &&& 0 <= place.frame < scope.frames.len()
    &&& 0 <= place.slot < scope.frames[place.frame as int].len()
    &&& scope.frames[place.frame as int][place.slot as int].0 == given.0
    &&& resolved[place] == given.1
}

proof fn lemma_place(scope: ScopeModel, name: Seq<char>)
    requires
        scope.unique(),
        scope.fits(),
    ensures
        scope.lookup(name) matches Some((dtype, frame, slot)) ==> {
            &&& scope.at(name, frame, slot)
            &&& scope.frames[frame][slot].1 == dtype
            &&& location(frame, slot).frame == frame
            &&& location(frame, slot).slot == slot
        },
{
    if scope.bound(name) {
        let (f, s) = choose|f: int, s: int| scope.at(name, f, s);
        assert(scope.at(name, f, s));
        lemma_lookup(scope, name, f, s);
        assert(scope.frames[f].len() <= usize::MAX);
    }
}

proof fn lemma_placed(
    scope: ScopeModel,
    given: Seq<(Seq<char>, LazyModel)>,
    resolved: Map<VariableRef, LazyModel>,
    all: Map<VariableRef, LazyModel>,
    new: VariableRef,
)
    requires
        scope.unique(),
        scope.fits(),
        given.len() > 0,
        !resolved.contains_key(new),
        all == resolved.insert(new, given.last().1),
        scope.lookup(given.last().0) matches Some((_, frame, slot)) && new == location(frame, slot),
        forall|place: VariableRef|
            resolved.contains_key(place) <==> exists|i: int|
                0 <= i < given.drop_last().len() && placed_at(
                    scope,
                    #[trigger] given.drop_last()[i],
                    place,
                    resolved,
                ),
    ensures
        forall|place: VariableRef|
            all.contains_key(place) <==> exists|i: int|
                0 <= i < given.len() && placed_at(scope, #[trigger] given[i], place, all),
{
    let rest = given.drop_last();
    let n = given.len() - 1;
    lemma_place(scope, given[n].0);
    assert forall|place: VariableRef|
        all.contains_key(place) <==> exists|i: int|
            0 <= i < given.len() && placed_at(scope, #[trigger] given[i], place, all) by {
        if place == new {
            assert(placed_at(scope, given[n], place, all));
        } else {
            if all.contains_key(place) {
                assert(resolved.contains_key(place));
                let i = choose|i: int|
                    0 <= i < rest.len() && placed_at(scope, #[trigger] rest[i], place, resolved);
                assert(given[i] == rest[i]);
                assert(placed_at(scope, given[i], place, all));
            }
            if exists|i: int|
                0 <= i < given.len() && placed_at(scope, #[trigger] given[i], place, all) {
                let i = choose|i: int|
                    0 <= i < given.len() && placed_at(scope, #[trigger] given[i], place, all);
                if i == n {
                    let name = given[n].0;
                    assert(scope.at(name, place.frame as int, place.slot as int));
                    lemma_lookup(scope, name, place.frame as int, place.slot as int);
                } else {
                    assert(rest[i] == given[i]);
                    assert(placed_at(scope, rest[i], place, resolved));
                }
            }
        }
    }
}

/// The error of named arrays is that of the first that cannot be taken: that its name is not bound,
/// that its type is another, or else that its name was given before.
pub proof fn law_first_binding_error(
    scope: ScopeModel,
    given: Seq<(Seq<char>, LazyModel)>,
    n: int,
)
    requires
        scope.unique(),
        scope.fits(),
        0 <= n < given.len(),
        resolve_all(scope, given.take(n)) is Ok,
        resolve_all(scope, given.take(n + 1)) is Err,
    ensures
        resolve_all(scope, given) == Err::<Map<VariableRef, LazyModel>, Error>(
            if scope.type_of(given[n].0) is None {
                Error::UnknownBinding
            } else if scope.type_of(given[n].0) != Some(given[n].1.dtype) {
                Error::BindingType
            } else {
                Error::DuplicateBinding
            },
        ),
    decreases given.len(),
{
    if n == given.len() - 1 {
        assert(given.take(n + 1) =~= given);
        assert(given.take(n) =~= given.drop_last());
    } else {
        let rest = given.drop_last();
        assert(rest.take(n) =~= given.take(n));
        assert(rest.take(n + 1) =~= given.take(n + 1));
        law_first_binding_error(scope, rest, n);
    }
}

/// Bindings that were made for a scope admit root arrays of the type of the scope's root and of no
/// other, and bindings that were not admit every root array.
pub proof fn law_admitted_roots(bindings: BindingsModel, dtype: TypeModel)
    ensures
        bindings.root_dtype is None ==> bindings.admits(dtype),
        bindings.root_dtype is Some ==> (bindings.admits(dtype) <==> bindings.root_dtype->0 == dtype),
{
}

/// The root of an expression gives the root array if that has the type that the expression was bound
/// to. A variable gives the array at its place, if there is one, of its type, with as many rows as the
/// root. A constant gives its value on as many rows as the root.
pub proof fn law_leaves_apply(
    dtype: TypeModel,
    name: Seq<char>,
    place: VariableRef,
    scalar: ScalarModel,
    root: LazyModel,
    arrays: Map<VariableRef, LazyModel>,
)
    ensures
        apply_model(BoundModel::Root(dtype), root, arrays) == (if root.dtype == dtype {
            Ok::<LazyModel, Error>(root)
        } else {
            Err(Error::RootType)
        }),
        match apply_model(BoundModel::Variable(dtype, name, place), root, arrays) {
            Ok(array) => arrays.contains_pair(place, array) && array.dtype == dtype && array.len
                == root.len,
            Err(error) => {
                ||| error == Error::MissingBinding && !arrays.contains_key(place)
                ||| error == Error::BindingType && arrays.contains_key(place)
                    && arrays[place].dtype != dtype
                ||| error == Error::BindingLength && arrays.contains_key(place)
                    && arrays[place].dtype == dtype && arrays[place].len != root.len
            },
        },
        ({
            let found = apply_model(
                BoundModel::Scalar(scalar.dtype, FnModel::Literal(scalar), Seq::empty()),
                root,
                arrays,
            );
            &&& found matches Ok(array)
            &&& array.dtype == scalar.dtype
            &&& array.len == root.len
            &&& array.rows matches Some(rows)
            &&& rows.len() == root.len
            &&& forall|i: int| 0 <= i < rows.len() ==> #[trigger] rows[i] == scalar.value
        }),
{
}

/// A list of expressions applies exactly if each of them does, to what each gives, in order. Otherwise
/// the error is that of the first that does not apply.
pub proof fn law_lists_apply(
    children: Seq<BoundModel>,
    root: LazyModel,
    arrays: Map<VariableRef, LazyModel>,
)
    ensures
        match apply_all(children, root, arrays) {
            Ok(applied) => {
                &&& applied.len() == children.len()
                &&& forall|i: int|
                    0 <= i < children.len() ==> apply_model(#[trigger] children[i], root, arrays)
                        == Ok::<LazyModel, Error>(applied[i])
            },
            Err(error) => exists|i: int|
                {
                    &&& 0 <= i < children.len()
                    &&& apply_model(#[trigger] children[i], root, arrays) == Err::<
                        LazyModel,
                        Error,
                    >(error)
                    &&& forall|k: int|
                        0 <= k < i ==> apply_model(#[trigger] children[k], root, arrays) is Ok
                },
        },
    decreases children.len(),
{
    if children.len() > 0 {
        let rest = children.drop_last();
        let n = children.len() - 1;
        law_lists_apply(rest, root, arrays);
        match apply_all(rest, root, arrays) {
            Ok(applied) => {
                assert forall|i: int| 0 <= i < n implies apply_model(
                    #[trigger] children[i],
                    root,
                    arrays,
                ) == Ok::<LazyModel, Error>(applied[i]) by {
                    assert(rest[i] == children[i]);
                }
                if let Err(error) = apply_model(children[n], root, arrays) {
                    assert(apply_model(children[n], root, arrays) == Err::<LazyModel, Error>(
                        error,
                    ));
                }
            },
            Err(error) => {
                let i = choose|i: int|
                    {
                        &&& 0 <= i < rest.len()
                        &&& apply_model(#[trigger] rest[i], root, arrays) == Err::<
                            LazyModel,
                            Error,
                        >(error)
                        &&& forall|k: int|
                            0 <= k < i ==> apply_model(#[trigger] rest[k], root, arrays) is Ok
                    };
                assert(children[i] == rest[i]);
                assert forall|k: int| 0 <= k < i implies apply_model(
                    #[trigger] children[k],
                    root,
                    arrays,
                ) is Ok by {
                    assert(rest[k] == children[k]);
                }
            },
        }
    }
}

/// A node of two expressions that apply gives the function of what they give.
pub proof fn law_binary_nodes_apply(
    dtype: TypeModel,
    f: FnModel,
    left: BoundModel,
    right: BoundModel,
    root: LazyModel,
    arrays: Map<VariableRef, LazyModel>,
)
    requires
        f is Binary || f is Like,
        apply_model(left, root, arrays) is Ok,
        apply_model(right, root, arrays) is Ok,
    ensures
        apply_model(BoundModel::Scalar(dtype, f, seq![left, right]), root, arrays) == fn_model(
            f,
            seq![apply_model(left, root, arrays)->Ok_0, apply_model(right, root, arrays)->Ok_0],
            root.len,
        ),
{
    let children = seq![left, right];
    law_lists_apply(children, root, arrays);
    assert(children[0] == left && children[1] == right);
    if let Ok(applied) = apply_all(children, root, arrays) {
        assert(applied =~= seq![
            apply_model(left, root, arrays)->Ok_0,
            apply_model(right, root, arrays)->Ok_0,
        ]);
    }
}

} // verus!
