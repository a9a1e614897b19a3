//! Expressions that have been type-checked against a scope.

use std::hash::{Hash, Hasher};
use std::sync::Arc;
use vstd::prelude::*;
use vstd::utf8::encode_utf8;

use crate::dtype::{DType, TypeModel};
use crate::error::Error;
use crate::expr::display::scalar_text;
use crate::expr::expression::{exprs_of, ExprModel, Expression};
use crate::expr::laws::{frame_names, frame_types};
use crate::expr::scope::{bindings_of, names_distinct, Frame, Scope, ScopeModel};
use crate::expr::variable::{Variable, VariableRef};
use crate::hashing::{fed, fed_of, feed, Fed, FedModel};
use crate::scalar_fn::{types_of, FnModel, Operator, ScalarFnRef, ScalarFnVTable};
use crate::shared::{
    another, answers_same, is_same, lies_at, place_of, shares, slot, unshared,
};

verus! {

/// An expression that has been type-checked against a scope. Every node carries its own type.
///
/// Binding is purely logical: it deals only in types, and never sees an array or a length.
#[derive(Debug, Eq, Hash)]
pub enum BoundExpression {
    /// A scalar function applied to bound children.
    Scalar {
        /// The type this node evaluates to.
        dtype: DType,
        /// The scalar function.
        scalar_fn: ScalarFnRef,
        /// The bound children, in argument order. Sharing keeps clones cheap.
        children: Arc<Vec<BoundExpression>>,
    },
    /// The scope itself.
    Root {
        /// The type this node evaluates to.
        dtype: DType,
    },
    /// A resolved reference to a binding.
    Variable {
        /// The type this node evaluates to.
        dtype: DType,
        /// The variable that was resolved.
        variable: Variable,
        /// The frame and slot it resolved to.
        reference: VariableRef,
    },
}

/// The mathematical model of a [`BoundExpression`].
pub enum BoundModel {
    Scalar(TypeModel, FnModel, Seq<BoundModel>),
    Root(TypeModel),
    Variable(TypeModel, Seq<char>, VariableRef),
}

/// The models of a list of bound expressions.
pub open spec fn bounds_of(children: Seq<BoundExpression>) -> Seq<BoundModel>
    decreases children,
{
    Seq::new(
        children.len(),
        |i: int|
            if 0 <= i < children.len() {
                children[i].view()
            } else {
                arbitrary()
            },
    )
}

impl BoundExpression {
    /// The model of this expression.
    pub open spec fn view(&self) -> BoundModel
        decreases self,
    {
        match self {
            BoundExpression::Scalar { dtype, scalar_fn, children } => BoundModel::Scalar(
                dtype@,
                scalar_fn@,
                bounds_of(children@),
            ),
            BoundExpression::Root { dtype } => BoundModel::Root(dtype@),
            BoundExpression::Variable { dtype, variable, reference } => BoundModel::Variable(
                dtype@,
                variable@,
                *reference,
            ),
        }
    }

    /// Whether some node of this tree uses the scalar function `V`.
    pub open spec fn uses<V: ScalarFnVTable>(self) -> bool
        decreases self,
    {
        match self {
            BoundExpression::Scalar { scalar_fn, children, .. } => V::options(scalar_fn) is Some
                || exists|i: int|
                0 <= i < children@.len() && (#[trigger] children@[i]).uses::<V>(),
            _ => false,
        }
    }
}

/// The types of a list of bound expressions.
pub open spec fn dtypes_of(children: Seq<BoundModel>) -> Seq<TypeModel> {
    Seq::new(children.len(), |i: int| children[i].dtype())
}

impl BoundModel {
    /// The type this expression evaluates to.
    pub open spec fn dtype(self) -> TypeModel {
        match self {
            BoundModel::Scalar(dtype, _, _) => dtype,
            BoundModel::Root(dtype) => dtype,
            BoundModel::Variable(dtype, _, _) => dtype,
        }
    }

    /// This node with another type.
    pub open spec fn retyped(self, dtype: TypeModel) -> BoundModel {
        match self {
            BoundModel::Scalar(_, f, children) => BoundModel::Scalar(dtype, f, children),
            BoundModel::Root(_) => BoundModel::Root(dtype),
            BoundModel::Variable(_, name, reference) => BoundModel::Variable(
                dtype,
                name,
                reference,
            ),
        }
    }

    /// The children, in argument order.
    pub open spec fn children(self) -> Seq<BoundModel> {
        match self {
            BoundModel::Scalar(_, _, children) => children,
            _ => Seq::empty(),
        }
    }

    /// The node that applies `f` to `children`, or why there is none.
    pub open spec fn apply_fn(f: FnModel, children: Seq<BoundModel>) -> Result<BoundModel, Error> {
        if children.len() != f.arity() {
            Err(Error::ArityMismatch)
        } else {
            match f.return_dtype(dtypes_of(children)) {
                Ok(dtype) => Ok(BoundModel::Scalar(dtype, f, children)),
                Err(error) => Err(error),
            }
        }
    }

    /// Whether the type on every node is the type that its function gives its children.
    pub open spec fn well_typed(self) -> bool
        decreases self,
    {
        match self {
            BoundModel::Scalar(dtype, f, children) => {
                &&& BoundModel::apply_fn(f, children) == Ok::<BoundModel, Error>(self)
                &&& forall|i: int| 0 <= i < children.len() ==> (#[trigger] children[i]).well_typed()
            },
            _ => true,
        }
    }

    /// Whether every scope root in this expression has type `dtype`.
    pub open spec fn roots_have(self, dtype: TypeModel) -> bool
        decreases self,
    {
        match self {
            BoundModel::Scalar(_, _, children) => forall|i: int|
                0 <= i < children.len() ==> (#[trigger] children[i]).roots_have(dtype),
            BoundModel::Root(found) => found == dtype,
            BoundModel::Variable(..) => true,
        }
    }
}

impl ExprModel {
    /// This expression bound against a scope, or the first error that a walk from left to right,
    /// children before parents, meets.
    pub open spec fn bind(self, scope: ScopeModel) -> Result<BoundModel, Error>
        decreases self,
    {
        match self {
            ExprModel::Root => Ok(BoundModel::Root(scope.root)),
            ExprModel::Variable(name) => match scope.lookup(name) {
                Some((dtype, frame, slot)) => Ok(
                    BoundModel::Variable(
                        dtype,
                        name,
                        VariableRef { frame: frame as usize, slot: slot as usize },
                    ),
                ),
                None => Err(Error::UnboundVariable),
            },
            ExprModel::Lambda(..) => Err(Error::LambdaOutsideBinder),
            ExprModel::Scalar(f, children) => match bind_all(children, scope) {
                Ok(bound) => BoundModel::apply_fn(f, bound),
                Err(error) => Err(error),
            },
        }
    }
}

/// A list of expressions bound against a scope, or the first error.
pub open spec fn bind_all(children: Seq<ExprModel>, scope: ScopeModel) -> Result<
    Seq<BoundModel>,
    Error,
>
    decreases children,
{
    if children.len() == 0 {
        Ok(Seq::empty())
    } else {
        match bind_all(children.drop_last(), scope) {
            Ok(bound) => match children.last().bind(scope) {
                Ok(last) => Ok(bound.push(last)),
                Err(error) => Err(error),
            },
            Err(error) => Err(error),
        }
    }
}

/// An error among the first children is the error of all.
proof fn lemma_bind_all_prefix(children: Seq<ExprModel>, scope: ScopeModel, n: int)
    requires
        0 <= n <= children.len(),
    ensures
        bind_all(children.take(n), scope) is Err ==> bind_all(children, scope) == bind_all(
            children.take(n),
            scope,
        ),
    decreases children.len(),
{
    if n == children.len() {
        assert(children.take(n) =~= children);
    } else {
        assert(children.drop_last().take(n) =~= children.take(n));
        lemma_bind_all_prefix(children.drop_last(), scope, n);
    }
}

impl BoundExpression {
    /// The bound root with the given type.
    pub fn new_root(dtype: DType) -> (r: BoundExpression)
        ensures
            r@ == BoundModel::Root(dtype@),
            r@.well_typed(),
    {
        BoundExpression::Root { dtype }
    }

    /// The node that applies a scalar function to bound children.
    pub fn try_new(scalar_fn: ScalarFnRef, children: Vec<BoundExpression>) -> (r: Result<
        BoundExpression,
        Error,
    >)
        ensures
            match r {
                Ok(bound) => BoundModel::apply_fn(scalar_fn@, bounds_of(children@)) == Ok::<
                    BoundModel,
                    Error,
                >(bound@),
                Err(error) => BoundModel::apply_fn(scalar_fn@, bounds_of(children@)) == Err::<
                    BoundModel,
                    Error,
                >(error),
            },
    {
        if !scalar_fn.arity_matches(children.len()) {
            return Err(Error::ArityMismatch);
        }
        let mut arg_dtypes: Vec<DType> = Vec::new();
        let mut i: usize = 0;
        while i < children.len()
            invariant
                i <= children@.len(),
                arg_dtypes@.len() == i,
                forall|j: int|
                    0 <= j < i ==> (#[trigger] arg_dtypes@[j])@ == children@[j]@.dtype(),
            decreases children@.len() - i,
        {
            arg_dtypes.push(children[i].dtype().clone());
            i += 1;
        }
        assert(types_of(arg_dtypes@) =~= dtypes_of(bounds_of(children@)));
        match scalar_fn.return_dtype(&arg_dtypes) {
            Ok(dtype) => Ok(
                BoundExpression::Scalar { dtype, scalar_fn, children: Arc::new(children) },
            ),
            Err(error) => Err(error),
        }
    }

    /// This node with new bound children, its type computed anew. The root and the variables take
    /// no children.
    pub fn with_children(self, children: Vec<BoundExpression>) -> (r: Result<
        BoundExpression,
        Error,
    >)
        ensures
            match self@ {
                BoundModel::Scalar(_, f, _) => match r {
                    Ok(bound) => BoundModel::apply_fn(f, bounds_of(children@)) == Ok::<
                        BoundModel,
                        Error,
                    >(bound@),
                    Err(error) => BoundModel::apply_fn(f, bounds_of(children@)) == Err::<
                        BoundModel,
                        Error,
                    >(error),
                },
                _ => match r {
                    Ok(bound) => children@.len() == 0 && bound@ == self@,
                    Err(error) => children@.len() > 0 && error == Error::UnexpectedChildren,
                },
            },
    {
        match &self {
            BoundExpression::Scalar { scalar_fn, .. } => {
                BoundExpression::try_new(scalar_fn.clone(), children)
            },
            _ => {
                if children.len() > 0 {
                    return Err(Error::UnexpectedChildren);
                }
                Ok(self)
            },
        }
    }

    /// The type this expression evaluates to.
    pub fn dtype(&self) -> (r: &DType)
        ensures
            r@ == self@.dtype(),
    {
        match self {
            BoundExpression::Scalar { dtype, .. } => dtype,
            BoundExpression::Root { dtype } => dtype,
            BoundExpression::Variable { dtype, .. } => dtype,
        }
    }

    /// The bound children of this node, in argument order. Only scalar functions have any.
    pub fn children(&self) -> (r: &[BoundExpression])
        ensures
            bounds_of(r@) == self@.children(),
            match self {
                BoundExpression::Scalar { children, .. } => r@ == children@,
                _ => r@.len() == 0,
            },
    {
        match self {
            BoundExpression::Scalar { children, .. } => children.as_slice(),
            _ => {
                let none: &[BoundExpression] = &[];
                assert(bounds_of(none@) =~= Seq::empty());
                none
            },
        }
    }

    /// The child at `index`.
    pub fn child(&self, index: usize) -> (r: &BoundExpression)
        requires
            index < self@.children().len(),
        ensures
            r@ == self@.children()[index as int],
    {
        let children = self.children();
        assert(bounds_of(children@).len() == children@.len());
        &children[index]
    }

    /// The scalar function of this node, if it has one.
    pub fn as_scalar(&self) -> (r: Option<&ScalarFnRef>)
        ensures
            match self {
                BoundExpression::Scalar { scalar_fn, .. } => r == Some(scalar_fn),
                _ => r is None,
            },
    {
        match self {
            BoundExpression::Scalar { scalar_fn, .. } => Some(scalar_fn),
            _ => None,
        }
    }

    /// The options that this node applies the scalar function `V` with, if it applies `V`.
    pub open spec fn options<V: ScalarFnVTable>(self) -> Option<V::Options> {
        match self {
            BoundExpression::Scalar { scalar_fn, .. } => V::options(scalar_fn),
            _ => None,
        }
    }

    /// Whether this node applies the scalar function `V`.
    pub fn is<V: ScalarFnVTable>(&self) -> (r: bool)
        ensures
            r == self.options::<V>() is Some,
    {
        match self.as_scalar() {
            Some(scalar_fn) => scalar_fn.is::<V>(),
            None => false,
        }
    }

    /// The options that this node applies the scalar function `V` with, if it applies `V`.
    pub fn as_opt<V: ScalarFnVTable>(&self) -> (r: Option<&V::Options>)
        ensures
            match r {
                Some(options) => self.options::<V>() == Some(*options),
                None => self.options::<V>() is None,
            },
    {
        match self.as_scalar() {
            Some(scalar_fn) => scalar_fn.as_opt::<V>(),
            None => None,
        }
    }

    /// The options that this node applies the scalar function `V` with.
    pub fn as_<V: ScalarFnVTable>(&self) -> (r: &V::Options)
        requires
            self.options::<V>() is Some,
        ensures
            self.options::<V>() == Some(*r),
    {
        self.as_opt::<V>().unwrap()
    }

    /// Whether some node of this tree applies the scalar function `V`.
    pub fn contains<V: ScalarFnVTable>(&self) -> (r: Result<bool, Error>)
        ensures
            r == Ok::<bool, Error>(self.uses::<V>()),
        decreases self,
    {
        if self.is::<V>() {
            return Ok(true);
        }
        if let BoundExpression::Scalar { children, .. } = self {
            let mut i: usize = 0;
            while i < children.len()
                invariant
                    i <= children@.len(),
                    self is Scalar,
                    self->children == *children,
                    forall|j: int| 0 <= j < i ==> !(#[trigger] children@[j]).uses::<V>(),
                decreases children@.len() - i,
            {
                assert(decreases_to!(self => children@[i as int]));
                match children[i].contains::<V>() {
                    Ok(true) => {
                        return Ok(true);
                    },
                    _ => {},
                }
                i += 1;
            }
        }
        Ok(false)
    }

    /// The variable and the location it resolves to, if this node is a variable.
    pub fn as_variable(&self) -> (r: Option<(&Variable, VariableRef)>)
        ensures
            match self@ {
                BoundModel::Variable(_, name, reference) => r matches Some(found) && found.0@
                    == name && found.1 == reference,
                _ => r is None,
            },
    {
        match self {
            BoundExpression::Variable { variable, reference, .. } => Some((variable, *reference)),
            _ => None,
        }
    }

    /// Whether this node is the scope root.
    pub fn is_root(&self) -> (r: bool)
        ensures
            r == self@ is Root,
    {
        match self {
            BoundExpression::Root { .. } => true,
            _ => false,
        }
    }

    /// Whether every scope root in this expression has type `dtype`. An expression without a
    /// root, such as a literal, matches every type.
    pub fn is_root_bound_to(&self, dtype: &DType) -> (r: bool)
        ensures
            r == self@.roots_have(dtype@),
        decreases self,
    {
        match self {
            BoundExpression::Root { dtype: found } => *found == *dtype,
            BoundExpression::Variable { .. } => true,
            BoundExpression::Scalar { children, .. } => {
                let mut i: usize = 0;
                while i < children.len()
                    invariant
                        i <= children@.len(),
                        self is Scalar,
                        self->children == *children,
                        forall|j: int|
                            0 <= j < i ==> (#[trigger] children@[j])@.roots_have(dtype@),
                    decreases children@.len() - i,
                {
                    assert(decreases_to!(self => children@[i as int]));
                    if !children[i].is_root_bound_to(dtype) {
                        assert(!self@.children()[i as int].roots_have(dtype@));
                        return false;
                    }
                    i += 1;
                }
                assert forall|j: int| 0 <= j < children@.len() implies (
                #[trigger] self@.children()[j]).roots_have(dtype@) by {
                    assert(children@[j]@.roots_have(dtype@));
                }
                true
            },
        }
    }
}

impl BoundExpression {
    /// Whether two bound expressions have the same structure.
    fn same(&self, other: &BoundExpression) -> (r: bool)
        ensures
            r == (self@ == other@),
        decreases self,
    {
        match (self, other) {
            (BoundExpression::Root { dtype: a }, BoundExpression::Root { dtype: b }) => *a == *b,
            (
                BoundExpression::Variable { dtype: a, variable: v, reference: l },
                BoundExpression::Variable { dtype: b, variable: w, reference: m },
            ) => *a == *b && *v == *w && *l == *m,
            (
                BoundExpression::Scalar { dtype: a, scalar_fn: f, children: c },
                BoundExpression::Scalar { dtype: b, scalar_fn: g, children: d },
            ) => {
                if *f != *g || *a != *b || c.len() != d.len() {
                    assert(self@.children().len() == c@.len() && other@.children().len()
                        == d@.len());
                    return false;
                }
                let mut i: usize = 0;
                while i < c.len()
                    invariant
                        i <= c@.len() == d@.len(),
                        self is Scalar,
                        other is Scalar,
                        self->children == *c,
                        other->children == *d,
                        forall|j: int| 0 <= j < i ==> (#[trigger] c@[j])@ == d@[j]@,
                    decreases c@.len() - i,
                {
                    assert(decreases_to!(self => c@[i as int]));
                    if !c[i].same(&d[i]) {
                        assert(self@.children()[i as int] != other@.children()[i as int]);
                        return false;
                    }
                    i += 1;
                }
                assert(bounds_of(c@) =~= bounds_of(d@));
                true
            },
            _ => false,
        }
    }
}

impl PartialEq for BoundExpression {
    fn eq(&self, other: &BoundExpression) -> (r: bool) {
        self.same(other)
    }
}

impl vstd::std_specs::cmp::PartialEqSpecImpl for BoundExpression {
    open spec fn obeys_eq_spec() -> bool {
        true
    }

    open spec fn eq_spec(&self, other: &BoundExpression) -> bool {
        self@ == other@
    }
}

impl BoundExpression {
    /// Whether the children of `other`, if there are any, are another pointer to the children of this
    /// node.
    pub open spec fn shares_children(self, other: BoundExpression) -> bool {
        match (self, other) {
            (
                BoundExpression::Scalar { children: a, .. },
                BoundExpression::Scalar { children: b, .. },
            ) => shares(a, b) && a == b,
            (BoundExpression::Scalar { .. }, _) | (_, BoundExpression::Scalar { .. }) => false,
            _ => true,
        }
    }
}

impl Clone for BoundExpression {
    fn clone(&self) -> (r: BoundExpression)
        ensures
            r@ == self@,
            self.shares_children(r),
    {
        match self {
            BoundExpression::Scalar { dtype, scalar_fn, children } => BoundExpression::Scalar {
                dtype: dtype.clone(),
                scalar_fn: scalar_fn.clone(),
                children: another(children),
            },
            BoundExpression::Root { dtype } => BoundExpression::Root { dtype: dtype.clone() },
            BoundExpression::Variable { dtype, variable, reference } => BoundExpression::Variable {
                dtype: dtype.clone(),
                variable: variable.clone(),
                reference: *reference,
            },
        }
    }
}

/// The number of function nodes in a tree.
spec fn weight(tree: BoundExpression) -> nat
    decreases tree,
{
    match tree {
        BoundExpression::Scalar { children, .. } => 1 + weights(children@),
        _ => 0,
    }
}

/// The number of function nodes in a list of trees.
spec fn weights(trees: Seq<BoundExpression>) -> nat
    decreases trees,
{
    if trees.len() == 0 {
        0
    } else {
        weights(trees.drop_last()) + weight(trees.last())
    }
}

/// Replacing a tree of a list changes the weight of the list by the difference of the two.
proof fn lemma_weights_update(trees: Seq<BoundExpression>, i: int, tree: BoundExpression)
    requires
        0 <= i < trees.len(),
    ensures
        weights(trees.update(i, tree)) + weight(trees[i]) == weights(trees) + weight(tree),
    decreases trees.len(),
{
    let updated = trees.update(i, tree);
    if i < trees.len() - 1 {
        assert(updated.drop_last() =~= trees.drop_last().update(i, tree));
        lemma_weights_update(trees.drop_last(), i, tree);
    } else {
        assert(updated.drop_last() =~= trees.drop_last());
    }
}

/// A node that stands where a tree was taken out.
fn leaf() -> (r: BoundExpression)
    ensures
        r is Root,
    opens_invariants none
    no_unwind
{
    BoundExpression::Root { dtype: DType::Null }
}

/// Exchanges the tree at place `i` of a list for another. Nothing is exchanged where the list has no
/// such place.
fn exchange(trees: &mut Vec<BoundExpression>, i: usize, tree: &mut BoundExpression)
    ensures
        i < old(trees)@.len() ==> final(trees)@ == old(trees)@.update(i as int, *old(tree))
            && *final(tree) == old(trees)@[i as int],
        i >= old(trees)@.len() ==> final(trees)@ == old(trees)@ && *final(tree) == *old(tree),
        i < old(trees)@.len() ==> weights(final(trees)@) + weight(*final(tree)) == weights(
            old(trees)@,
        ) + weight(*old(tree)),
    opens_invariants none
    no_unwind
{
    proof {
        if i < trees@.len() {
            lemma_weights_update(trees@, i as int, *tree);
        }
    }
    if let Some(place) = slot(trees, i) {
        std::mem::swap(place, tree);
    }
}

/// The place of the first function node in a list of trees, if there is one.
fn find_function(trees: &mut Vec<BoundExpression>) -> (r: Option<usize>)
    ensures
        final(trees)@ == old(trees)@,
        match r {
            Some(i) => i < old(trees)@.len() && old(trees)@[i as int] is Scalar,
            None => forall|i: int| 0 <= i < old(trees)@.len() ==> !(old(trees)@[i] is Scalar),
        },
    opens_invariants none
    no_unwind
{
    let ghost all = trees@;
    let mut i: usize = 0;
    loop
        invariant
            i <= all.len(),
            trees@ == all,
            all == old(trees)@,
            forall|j: int| 0 <= j < i ==> !(all[j] is Scalar),
        decreases all.len() - i,
    {
        assert(trees.len() == all.len());
        let found = match slot(trees, i) {
            Some(place) => matches!(place, BoundExpression::Scalar { .. }),
            None => {
                return None;
            },
        };
        assert(trees@ =~= all);
        if found {
            return Some(i);
        }
        i += 1;
    }
}

/// Steps from a node down to a function node among its children, if nothing else shares them. The
/// way back up is kept in the node that is left, as its first child.
fn descend(node: &mut BoundExpression, above: &mut BoundExpression) -> (r: bool)
    ensures
        weight(*final(node)) + weight(*final(above)) == weight(*old(node)) + weight(*old(above)),
        r ==> *final(node) is Scalar && weight(*final(node)) < weight(*old(node)),
        !r ==> (*final(node) is Scalar <==> *old(node) is Scalar),
        !r ==> *final(above) == *old(above),
    opens_invariants none
    no_unwind
{
    let mut child = leaf();
    let mut found = false;
    if let BoundExpression::Scalar { children, .. } = node {
        if let Some(trees) = unshared(children) {
            if let Some(i) = find_function(trees) {
                let mut first = leaf();
                exchange(trees, i, &mut child);
                exchange(trees, 0, &mut first);
                exchange(trees, i, &mut first);
                exchange(trees, 0, above);
                found = true;
            }
        }
    }
    if found {
        std::mem::swap(node, above);
        std::mem::swap(node, &mut child);
    }
    found
}

/// Drops a node and steps back up to the node above it, if there is one.
fn ascend(node: &mut BoundExpression, above: &mut BoundExpression) -> (r: bool)
    ensures
        r ==> {
            &&& *old(above) is Scalar
            &&& *final(node) is Scalar
            &&& weight(*final(node)) + weight(*final(above)) == weight(*old(above))
        },
    opens_invariants none
    no_unwind
{
    let mut way = leaf();
    let mut found = false;
    if let BoundExpression::Scalar { children, .. } = above {
        if let Some(trees) = unshared(children) {
            exchange(trees, 0, &mut way);
            found = true;
        }
    }
    if found {
        std::mem::swap(node, above);
        std::mem::swap(above, &mut way);
    }
    found
}

impl Drop for BoundExpression {
    /// Drops this tree node by node without recursion, as far as nothing else shares it, so that a
    /// deep tree does not exhaust the stack. A node without children is dropped as it is, so that
    /// dropping what stands in for a tree comes to an end.
    fn drop(&mut self)
        opens_invariants none
        no_unwind
    {
        if !matches!(self, BoundExpression::Scalar { .. }) {
            return;
        }
        let mut above = leaf();
        loop
            invariant
                above is Scalar ==> *self is Scalar,
            decreases weight(*self) + weight(above), weight(*self),
        {
            if !descend(self, &mut above) {
                if !ascend(self, &mut above) {
                    return;
                }
            }
        }
    }
}

impl Expression {
    /// Binds this expression against a root type, checking the type of every node in one walk.
    pub fn bind(&self, dtype: &DType) -> (r: Result<BoundExpression, Error>)
        ensures
            ({
                let scope = ScopeModel { root: dtype@, frames: Seq::empty() };
                match r {
                    Ok(bound) => self@.bind(scope) == Ok::<BoundModel, Error>(bound@),
                    Err(error) => self@.bind(scope) == Err::<BoundModel, Error>(error),
                }
            }),
            r matches Ok(bound) ==> bound@.well_typed(),
    {
        self.bind_scope(&Scope::new(dtype.clone()))
    }

    /// Binds this expression against a scope.
    pub fn bind_scope(&self, scope: &Scope) -> (r: Result<BoundExpression, Error>)
        ensures
            match r {
                Ok(bound) => self@.bind(scope@) == Ok::<BoundModel, Error>(bound@),
                Err(error) => self@.bind(scope@) == Err::<BoundModel, Error>(error),
            },
            r matches Ok(bound) ==> bound@.well_typed(),
        decreases self,
    {
        match self {
            Expression::Root => Ok(BoundExpression::new_root(scope.root().clone())),
            Expression::Variable(variable) => match scope.locate(variable) {
                Some((dtype, reference)) => Ok(
                    BoundExpression::Variable {
                        dtype: dtype.clone(),
                        variable: variable.clone(),
                        reference,
                    },
                ),
                None => Err(Error::UnboundVariable),
            },
            Expression::Lambda(_) => Err(Error::LambdaOutsideBinder),
            Expression::Scalar { scalar_fn, children } => {
                let ghost models = exprs_of(children@);
                let mut bound: Vec<BoundExpression> = Vec::new();
                let mut i: usize = 0;
                assert(bounds_of(bound@) =~= Seq::empty());
                while i < children.len()
                    invariant
                        i <= children@.len(),
                        self is Scalar,
                        self->children == *children,
                        self->scalar_fn == *scalar_fn,
                        models == exprs_of(children@),
                        bind_all(models.take(i as int), scope@) == Ok::<Seq<BoundModel>, Error>(
                            bounds_of(bound@),
                        ),
                        forall|j: int|
                            0 <= j < bound@.len() ==> (#[trigger] bound@[j])@.well_typed(),
                    decreases children@.len() - i,
                {
                    proof {
                        assert(decreases_to!(self => children@[i as int]));
                        assert(models.take(i + 1).drop_last() =~= models.take(i as int));
                        assert(models.take(i + 1).last() == children@[i as int]@);
                        lemma_bind_all_prefix(models, scope@, i + 1);
                    }
                    match children[i].bind_scope(scope) {
                        Ok(child) => {
                            let ghost before = bounds_of(bound@);
                            bound.push(child);
                            assert(bounds_of(bound@) =~= before.push(child@));
                        },
                        Err(error) => {
                            return Err(error);
                        },
                    }
                    i += 1;
                }
                assert(models.take(models.len() as int) =~= models);
                let ghost bounds = bounds_of(bound@);
                assert forall|j: int| 0 <= j < bounds.len() implies (
                #[trigger] bounds[j]).well_typed() by {
                    assert(bound@[j]@.well_typed());
                }
                BoundExpression::try_new(scalar_fn.clone(), bound)
            },
        }
    }
}

/// A lambda argument that a higher-order function has type-checked.
///
/// It is kept apart from [`BoundExpression`]: a lambda is not a value, and has no type. The
/// higher-order function sets the parameter frame and binds the body.
#[derive(Debug, PartialEq, Eq, Hash)]
pub struct BoundLambda {
    frame: Frame,
    body: Arc<BoundExpression>,
}

impl Clone for BoundLambda {
    fn clone(&self) -> (r: BoundLambda)
        ensures
            r.frame_model() == self.frame_model(),
            r.body_model() == self.body_model(),
            shares(self.body_pointer(), r.body_pointer()),
    {
        BoundLambda { frame: self.frame.clone(), body: another(&self.body) }
    }
}

impl BoundLambda {
    /// The names and types of the parameters, in declaration order.
    pub closed spec fn frame_model(&self) -> Seq<(Seq<char>, TypeModel)> {
        self.frame@
    }

    /// The model of the body.
    pub closed spec fn body_model(&self) -> BoundModel {
        self.body@
    }

    /// The pointer to the body.
    pub closed spec fn body_pointer(&self) -> Arc<BoundExpression> {
        self.body
    }

    /// Binds the body of a lambda under a frame of parameters inside `scope`, refused when a
    /// parameter name is already bound there.
    pub fn bind(scope: &Scope, frame: Frame, body: &Expression) -> (r: Result<BoundLambda, Error>)
        ensures
            ({
                let shadows = exists|i: int|
                    0 <= i < frame@.len() && scope@.bound(#[trigger] frame@[i].0);
                let bound = body@.bind(scope@.nested(frame@));
                match r {
                    Ok(lambda) => {
                        &&& !shadows
                        &&& lambda.frame_model() == frame@
                        &&& bound == Ok::<BoundModel, Error>(lambda.body_model())
                    },
                    Err(error) => if shadows {
                        error == Error::AlreadyBound
                    } else {
                        bound == Err::<BoundModel, Error>(error)
                    },
                }
            }),
    {
        match scope.clone().push_frame(frame.clone()) {
            Ok(inner) => match body.bind_scope(&inner) {
                Ok(body) => Ok(BoundLambda { frame, body: Arc::new(body) }),
                Err(error) => Err(error),
            },
            Err(error) => Err(error),
        }
    }

    /// The frame that the body was bound under.
    pub fn frame(&self) -> (r: &Frame)
        ensures
            r@ == self.frame_model(),
    {
        &self.frame
    }

    /// The parameters paired with their types, in declaration order.
    pub fn bindings(&self) -> (r: &[(Variable, DType)])
        ensures
            bindings_of(r@) == self.frame_model(),
            names_distinct(self.frame_model()),
    {
        self.frame.bindings()
    }

    /// The variables this lambda binds, in declaration order.
    pub fn params(&self) -> (r: Vec<&Variable>)
        ensures
            r@.len() == self.frame_model().len(),
            forall|i: int|
                0 <= i < r@.len() ==> (#[trigger] r@[i])@ == frame_names(self.frame_model())[i],
            names_distinct(self.frame_model()),
    {
        let bindings = self.frame.bindings();
        let mut variables: Vec<&Variable> = Vec::new();
        let mut i: usize = 0;
        while i < bindings.len()
            invariant
                i <= bindings@.len(),
                bindings_of(bindings@) == self.frame_model(),
                variables@.len() == i,
                forall|j: int|
                    0 <= j < i ==> (#[trigger] variables@[j])@ == bindings_of(bindings@)[j].0,
            decreases bindings@.len() - i,
        {
            variables.push(&bindings[i].0);
            i += 1;
        }
        assert(bindings_of(bindings@).len() == bindings@.len());
        variables
    }

    /// The types of the parameters, in declaration order.
    pub fn param_dtypes(&self) -> (r: Vec<&DType>)
        ensures
            r@.len() == self.frame_model().len(),
            forall|i: int|
                0 <= i < r@.len() ==> (#[trigger] r@[i])@ == frame_types(self.frame_model())[i],
            names_distinct(self.frame_model()),
    {
        let bindings = self.frame.bindings();
        let mut dtypes: Vec<&DType> = Vec::new();
        let mut i: usize = 0;
        while i < bindings.len()
            invariant
                i <= bindings@.len(),
                bindings_of(bindings@) == self.frame_model(),
                dtypes@.len() == i,
                forall|j: int|
                    0 <= j < i ==> (#[trigger] dtypes@[j])@ == bindings_of(bindings@)[j].1,
            decreases bindings@.len() - i,
        {
            dtypes.push(&bindings[i].1);
            i += 1;
        }
        assert(bindings_of(bindings@).len() == bindings@.len());
        dtypes
    }

    /// The bound body.
    pub fn body(&self) -> (r: &BoundExpression)
        ensures
            r@ == self.body_model(),
    {
        &self.body
    }

    /// The type the body evaluates to.
    pub fn body_dtype(&self) -> (r: &DType)
        ensures
            r@ == self.body_model().dtype(),
    {
        self.body.dtype()
    }
}

/// Whether two bound expressions are the same tree, where `same_children` says whether their
/// children are the same list in memory. It counts only between two scalar functions.
pub open spec fn same_tree(left: BoundModel, right: BoundModel, same_children: bool) -> bool {
    match (left, right) {
        (BoundModel::Root(a), BoundModel::Root(b)) => a == b,
        (BoundModel::Variable(a, v, l), BoundModel::Variable(b, w, m)) => a == b && v == w && l
            == m,
        (BoundModel::Scalar(a, f, _), BoundModel::Scalar(b, g, _)) => f == g && same_children && a
            == b,
        _ => false,
    }
}

/// The bytes that stand for a scalar function in a hash. The value of a literal is left to the
/// comparison.
pub open spec fn fn_bytes(f: FnModel) -> Seq<u8> {
    match f {
        FnModel::Literal(scalar) => seq![0u8] + encode_utf8(scalar_text(scalar)),
        FnModel::GetItem(name) => seq![1u8] + encode_utf8(name),
        FnModel::Binary(operator) => seq![2u8, operator_byte(operator)],
        FnModel::IsNotNull => seq![3u8],
        FnModel::Like(options) => seq![
            4u8,
            if options.negated {
                1u8
            } else {
                0u8
            },
            if options.case_insensitive {
                1u8
            } else {
                0u8
            },
        ],
    }
}

/// The number of a binary operation.
pub open spec fn operator_byte(operator: Operator) -> u8 {
    match operator {
        Operator::Eq => 0,
        Operator::NotEq => 1,
        Operator::Gt => 2,
        Operator::Gte => 3,
        Operator::Lt => 4,
        Operator::Lte => 5,
        Operator::And => 6,
        Operator::Or => 7,
        Operator::Add => 8,
        Operator::Sub => 9,
    }
}

/// What a bound expression hands to a hasher by identity, where `address` is where its children lie.
/// Types are left to the comparison, so that a lookup need not read a schema.
pub open spec fn identity_feed(bound: BoundModel, address: usize) -> Seq<FedModel> {
    match bound {
        BoundModel::Root(_) => seq![FedModel::Byte(0)],
        BoundModel::Scalar(_, f, _) => seq![
            FedModel::Byte(1),
            FedModel::Bytes(fn_bytes(f)),
            FedModel::Word(address),
        ],
        BoundModel::Variable(_, name, reference) => seq![
            FedModel::Byte(2),
            FedModel::Bytes(encode_utf8(name)),
            FedModel::Byte(0xff),
            FedModel::Word(reference.frame),
            FedModel::Word(reference.slot),
        ],
    }
}

/// Appends the bytes of a text.
fn push_text(bytes: &mut Vec<u8>, text: &String)
    ensures
        final(bytes)@ == old(bytes)@ + encode_utf8(text@),
{
    let encoded = text.as_str().as_bytes();
    let ghost before = bytes@;
    let mut i: usize = 0;
    assert(before + encoded@.take(0) =~= before);
    while i < encoded.len()
        invariant
            i <= encoded@.len(),
            bytes@ == before + encoded@.take(i as int),
        decreases encoded@.len() - i,
    {
        bytes.push(encoded[i]);
        assert(before + encoded@.take(i + 1) =~= (before + encoded@.take(i as int)).push(
            encoded@[i as int],
        ));
        i += 1;
    }
    assert(encoded@.take(encoded@.len() as int) =~= encoded@);
}

/// The bytes that stand for a scalar function in a hash.
fn push_fn(bytes: &mut Vec<u8>, scalar_fn: &ScalarFnRef)
    ensures
        final(bytes)@ == old(bytes)@ + fn_bytes(scalar_fn@),
{
    let ghost before = bytes@;
    match scalar_fn {
        ScalarFnRef::Literal(scalar) => {
            bytes.push(0);
            push_text(bytes, &scalar.display());
        },
        ScalarFnRef::GetItem(name) => {
            bytes.push(1);
            push_text(bytes, name);
        },
        ScalarFnRef::Binary(operator) => {
            bytes.push(2);
            bytes.push(
                match operator {
                    Operator::Eq => 0,
                    Operator::NotEq => 1,
                    Operator::Gt => 2,
                    Operator::Gte => 3,
                    Operator::Lt => 4,
                    Operator::Lte => 5,
                    Operator::And => 6,
                    Operator::Or => 7,
                    Operator::Add => 8,
                    Operator::Sub => 9,
                },
            );
        },
        ScalarFnRef::IsNotNull(_) => {
            bytes.push(3);
        },
        ScalarFnRef::Like(options) => {
            bytes.push(4);
            bytes.push(
                if options.negated {
                    1
                } else {
                    0
                },
            );
            bytes.push(
                if options.case_insensitive {
                    1
                } else {
                    0
                },
            );
        },
    }
    assert(bytes@ =~= before + fn_bytes(scalar_fn@));
}

/// A bound expression compared by the identity of its shared tree instead of by structure.
#[derive(Debug)]
pub struct ExactBoundExpr(pub BoundExpression);

impl ExactBoundExpr {
    /// Whether two expressions are the same tree, where `same_children` says whether their
    /// children are the same list in memory.
    pub fn same_tree(&self, other: &ExactBoundExpr, same_children: bool) -> (r: bool)
        ensures
            r == same_tree(self.0@, other.0@, same_children),
    {
        match (&self.0, &other.0) {
            (BoundExpression::Root { dtype: a }, BoundExpression::Root { dtype: b }) => *a == *b,
            (
                BoundExpression::Scalar { dtype: a, scalar_fn: f, .. },
                BoundExpression::Scalar { dtype: b, scalar_fn: g, .. },
            ) => *f == *g && same_children && *a == *b,
            (
                BoundExpression::Variable { dtype: a, variable: v, reference: l },
                BoundExpression::Variable { dtype: b, variable: w, reference: m },
            ) => *v == *w && *l == *m && *a == *b,
            (BoundExpression::Root { .. }, _) | (BoundExpression::Scalar { .. }, _)
            | (BoundExpression::Variable { .. }, _) => false,
        }
    }

    /// What this expression hands to a hasher, where `address` is where its children lie.
    pub fn identity_feed(&self, address: usize) -> (r: Vec<Fed>)
        ensures
            fed_of(r@) == identity_feed(self.0@, address),
    {
        let mut items: Vec<Fed> = Vec::new();
        let mut bytes: Vec<u8> = Vec::new();
        match &self.0 {
            BoundExpression::Root { .. } => {
                items.push(Fed::Byte(0));
            },
            BoundExpression::Variable { variable, reference, .. } => {
                push_text(&mut bytes, variable.name());
                assert(bytes@ =~= encode_utf8(variable@));
                items.push(Fed::Byte(2));
                items.push(Fed::Bytes(bytes));
                items.push(Fed::Byte(0xff));
                items.push(Fed::Word(reference.frame));
                items.push(Fed::Word(reference.slot));
            },
            BoundExpression::Scalar { scalar_fn, .. } => {
                push_fn(&mut bytes, scalar_fn);
                assert(bytes@ =~= fn_bytes(scalar_fn@));
                items.push(Fed::Byte(1));
                items.push(Fed::Bytes(bytes));
                items.push(Fed::Word(address));
            },
        }
        assert(fed_of(items@) =~= identity_feed(self.0@, address));
        items
    }

    /// Whether two keys have the same structure, and the same children in memory as far as equal
    /// pointers tell.
    pub open spec fn identical(self, other: ExactBoundExpr) -> bool {
        &&& self.0@ == other.0@
        &&& match (self.0, other.0) {
            (
                BoundExpression::Scalar { children: a, .. },
                BoundExpression::Scalar { children: b, .. },
            ) => a == b,
            _ => true,
        }
    }
}

impl PartialEq for ExactBoundExpr {
    fn eq(&self, other: &ExactBoundExpr) -> (r: bool)
        ensures
            r ==> self.identical(*other),
            match (self.0, other.0) {
                (
                    BoundExpression::Scalar { children: a, .. },
                    BoundExpression::Scalar { children: b, .. },
                ) => exists|same: bool| #[trigger]
                    answers_same(a, b, same) && r == same_tree(self.0@, other.0@, same),
                _ => r == same_tree(self.0@, other.0@, false) && r == (self.0@ == other.0@),
            },
    {
        match (&self.0, &other.0) {
            (
                BoundExpression::Scalar { children: a, .. },
                BoundExpression::Scalar { children: b, .. },
            ) => {
                let same = is_same(a, b);
                self.same_tree(other, same)
            },
            _ => self.same_tree(other, false),
        }
    }
}

impl vstd::std_specs::cmp::PartialEqSpecImpl for ExactBoundExpr {
    open spec fn obeys_eq_spec() -> bool {
        false
    }

    open spec fn eq_spec(&self, other: &ExactBoundExpr) -> bool {
        self.identical(*other)
    }
}

impl Eq for ExactBoundExpr {

}

impl Hash for ExactBoundExpr {
    /// Hands a hasher what identifies this key, one thing behind the other and nothing else.
    fn hash<H: Hasher>(&self, state: &mut H)
        ensures
            match self.0 {
                BoundExpression::Root { .. } => {
                    let items = identity_feed(self.0@, 0);
                    exists|a: &mut H| #[trigger]
                        fed(items[0], a) && *a == *old(state) && *final(a) == *final(state)
                },
                BoundExpression::Variable { .. } => {
                    let items = identity_feed(self.0@, 0);
                    exists|a: &mut H, b: &mut H, c: &mut H, d: &mut H, e: &mut H|
                        {
                            &&& #[trigger] fed(items[0], a) && *a == *old(state)
                            &&& #[trigger] fed(items[1], b) && *b == *final(a)
                            &&& #[trigger] fed(items[2], c) && *c == *final(b)
                            &&& #[trigger] fed(items[3], d) && *d == *final(c)
                            &&& #[trigger] fed(items[4], e) && *e == *final(d)
                            &&& *final(e) == *final(state)
                        }
                },
                BoundExpression::Scalar { children, .. } => exists|
                    place: usize,
                    a: &mut H,
                    b: &mut H,
                    c: &mut H,
                |
                    {
                        &&& #[trigger] lies_at(children, place)
                        &&& #[trigger] fed(identity_feed(self.0@, place)[0], a) && *a
                            == *old(state)
                        &&& #[trigger] fed(identity_feed(self.0@, place)[1], b) && *b == *final(a)
                        &&& #[trigger] fed(identity_feed(self.0@, place)[2], c) && *c == *final(b)
                        &&& *final(c) == *final(state)
                    },
            },
    {
        let place: usize = match &self.0 {
            BoundExpression::Scalar { children, .. } => place_of(children),
            _ => 0,
        };
        let items = self.identity_feed(place);
        assert(fed_of(items@).len() == items@.len());
        assert(forall|i: int|
            0 <= i < items@.len() ==> identity_feed(self.0@, place)[i] == (#[trigger] items@[i])@);
        feed(state, &items[0]);
        match &self.0 {
            BoundExpression::Root { .. } => {},
            BoundExpression::Variable { .. } => {
                feed(state, &items[1]);
                feed(state, &items[2]);
                feed(state, &items[3]);
                feed(state, &items[4]);
            },
            BoundExpression::Scalar { .. } => {
                feed(state, &items[1]);
                feed(state, &items[2]);
            },
        }
    }
}

impl Clone for ExactBoundExpr {
    fn clone(&self) -> (r: ExactBoundExpr)
        ensures
            r.identical(*self),
            self.0.shares_children(r.0),
    {
        ExactBoundExpr(self.0.clone())
    }
}

/// Trees that compare equal by identity have the same structure, and hand a hasher the same.
pub proof fn law_identity(
    left: BoundModel,
    right: BoundModel,
    same_children: bool,
    left_address: usize,
    right_address: usize,
)
    requires
        same_tree(left, right, same_children),
        same_children ==> left.children() == right.children() && left_address == right_address,
    ensures
        left == right,
        identity_feed(left, left_address) == identity_feed(right, right_address),
{
}

/// Equal keys hash alike: the place that is asked for is that of the same children, and with the
/// same place both hand a hasher the same.
pub proof fn law_equal_keys_hash_alike(left: ExactBoundExpr, right: ExactBoundExpr, place: usize)
    requires
        left.identical(right),
    ensures
        identity_feed(left.0@, place) == identity_feed(right.0@, place),
        match (left.0, right.0) {
            (
                BoundExpression::Scalar { children: a, .. },
                BoundExpression::Scalar { children: b, .. },
            ) => lies_at(a, place) == lies_at(b, place),
            (BoundExpression::Scalar { .. }, _) | (_, BoundExpression::Scalar { .. }) => false,
            _ => true,
        },
{
}

/// The type of a node is never handed to a hasher: nodes that differ in nothing else hash alike. In
/// particular, so do all roots.
pub proof fn law_types_are_not_hashed(bound: BoundModel, dtype: TypeModel, address: usize)
    ensures
        identity_feed(bound, address) == identity_feed(bound.retyped(dtype), address),
        bound is Root ==> identity_feed(bound, address) == seq![FedModel::Byte(0)],
{
}

} // verus!
