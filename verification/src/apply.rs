//! Expressions applied to arrays.

use vstd::prelude::*;

use crate::arrays::array::{
    all_rows, fn_model, fn_rows, lazies_of, lazy_dtypes, row_of, ArrayRef, LazyModel, ScalarFnArray,
};
use crate::arrays::canonical::constant_model;
use crate::dtype::{DType, TypeModel};
use crate::error::Error;
use crate::expr::bound_expression::{bounds_of, dtypes_of, BoundExpression, BoundModel};
use crate::expr::expression::{ExprModel, Expression};
use crate::expr::laws::law_bound_is_faithful;
use crate::expr::scope::{Scope, ScopeModel};
use crate::expr::variable::{Variable, VariableRef};
use crate::scalar::Value;
use crate::scalar_fn::{FnModel, Literal};

verus! {

/// The arrays of a list of located arrays, by their locations.
pub open spec fn located(bindings: Seq<(VariableRef, ArrayRef)>) -> Map<VariableRef, LazyModel>
    decreases bindings.len(),
{
    if bindings.len() == 0 {
        Map::empty()
    } else {
        located(bindings.drop_last()).insert(bindings.last().0, bindings.last().1@)
    }
}

/// Whether no location occurs twice.
pub open spec fn locations_distinct(bindings: Seq<(VariableRef, ArrayRef)>) -> bool {
    forall|i: int, j: int|
        #![trigger bindings[i], bindings[j]]
        0 <= i < j < bindings.len() ==> bindings[i].0 != bindings[j].0
}

/// The map holds exactly what the list holds.
proof fn lemma_located(bindings: Seq<(VariableRef, ArrayRef)>)
    requires
        locations_distinct(bindings),
    ensures
        forall|i: int|
            0 <= i < bindings.len() ==> located(bindings).contains_pair(
                (#[trigger] bindings[i]).0,
                bindings[i].1@,
            ),
        forall|r: VariableRef| #[trigger]
            located(bindings).contains_key(r) ==> exists|i: int|
                0 <= i < bindings.len() && (#[trigger] bindings[i]).0 == r,
    decreases bindings.len(),
{
    if bindings.len() > 0 {
        let rest = bindings.drop_last();
        lemma_located(rest);
        assert forall|i: int| 0 <= i < bindings.len() implies located(bindings).contains_pair(
            (#[trigger] bindings[i]).0,
            bindings[i].1@,
        ) by {
            if i < rest.len() {
                assert(rest[i] == bindings[i]);
                assert(bindings[i].0 != bindings[bindings.len() - 1].0);
            }
        }
        assert forall|r: VariableRef| #[trigger] located(bindings).contains_key(r) implies exists|
            i: int,
        | 0 <= i < bindings.len() && (#[trigger] bindings[i]).0 == r by {
            if r == bindings.last().0 {
                assert(bindings[bindings.len() - 1].0 == r);
            } else {
                assert(located(rest).contains_key(r));
                let i = choose|i: int| 0 <= i < rest.len() && (#[trigger] rest[i]).0 == r;
                assert(bindings[i].0 == r);
            }
        }
    }
}

/// The array bound at a location, if there is one.
fn find_location(bindings: &Vec<(VariableRef, ArrayRef)>, reference: VariableRef) -> (r: Option<
    &ArrayRef,
>)
    requires
        locations_distinct(bindings@),
    ensures
        match r {
            Some(array) => located(bindings@).contains_pair(reference, array@),
            None => !located(bindings@).contains_key(reference),
        },
{
    proof {
        lemma_located(bindings@);
    }
    let mut i: usize = 0;
    while i < bindings.len()
        invariant
            i <= bindings@.len(),
            forall|j: int| 0 <= j < i ==> (#[trigger] bindings@[j]).0 != reference,
            forall|j: int|
                0 <= j < bindings.len() ==> located(bindings@).contains_pair(
                    (#[trigger] bindings[j]).0,
                    bindings[j].1@,
                ),
        decreases bindings@.len() - i,
    {
        if bindings[i].0 == reference {
            return Some(&bindings[i].1);
        }
        i += 1;
    }
    None
}

/// Arrays supplied for the variables of an outer expression scope.
///
/// Lambda parameters are bound by the higher-order function that evaluates the lambda. This is
/// only for variables that are supplied from outside the expression.
#[derive(Debug)]
pub struct Bindings {
    root_dtype: Option<DType>,
    bindings: Vec<(VariableRef, ArrayRef)>,
}

/// The mathematical model of [`Bindings`]: the type that the root must have, if that is known, and
/// the arrays by the location of their variable.
#[verifier::ext_equal]
pub struct BindingsModel {
    pub root_dtype: Option<TypeModel>,
    pub arrays: Map<VariableRef, LazyModel>,
}

/// The model of a list of named arrays.
pub open spec fn named_arrays(bindings: Seq<(Variable, ArrayRef)>) -> Seq<(Seq<char>, LazyModel)> {
    Seq::new(bindings.len(), |i: int| (bindings[i].0@, bindings[i].1@))
}

/// The location at which a scope binds what it binds in slot `slot` of frame `frame`.
pub open spec fn location(frame: int, slot: int) -> VariableRef {
    VariableRef { frame: frame as usize, slot: slot as usize }
}

/// Named arrays by the location that the scope binds their name at, or the first error.
pub open spec fn resolve_all(scope: ScopeModel, given: Seq<(Seq<char>, LazyModel)>) -> Result<
    Map<VariableRef, LazyModel>,
    Error,
>
    decreases given.len(),
{
    if given.len() == 0 {
        Ok(Map::empty())
    } else {
        match resolve_all(scope, given.drop_last()) {
            Ok(resolved) => {
                let (name, array) = given.last();
                match scope.lookup(name) {
                    Some((dtype, frame, slot)) => if array.dtype != dtype {
                        Err(Error::BindingType)
                    } else if resolved.contains_key(location(frame, slot)) {
                        Err(Error::DuplicateBinding)
                    } else {
                        Ok(resolved.insert(location(frame, slot), array))
                    },
                    None => Err(Error::UnknownBinding),
                }
            },
            Err(error) => Err(error),
        }
    }
}

/// An error among the first arrays is the error of all.
proof fn lemma_resolve_all_prefix(
    scope: ScopeModel,
    given: Seq<(Seq<char>, LazyModel)>,
    n: int,
)
    requires
        0 <= n <= given.len(),
    ensures
        resolve_all(scope, given.take(n)) is Err ==> resolve_all(scope, given) == resolve_all(
            scope,
            given.take(n),
        ),
    decreases given.len(),
{
    if n == given.len() {
        assert(given.take(n) =~= given);
    } else {
        assert(given.drop_last().take(n) =~= given.take(n));
        lemma_resolve_all_prefix(scope, given.drop_last(), n);
    }
}

impl Bindings {
    #[verifier::type_invariant]
    spec fn inv(self) -> bool {
        locations_distinct(self.bindings@)
    }

    /// The model of these bindings.
    pub closed spec fn view(&self) -> BindingsModel {
        BindingsModel {
            root_dtype: match self.root_dtype {
                Some(dtype) => Some(dtype@),
                None => None,
            },
            arrays: located(self.bindings@),
        }
    }

    /// Resolves named arrays against an outer expression scope, which may have one frame.
    ///
    /// Refused, at the first array for which this holds, when the scope does not bind its name,
    /// binds it to another type, or an array was supplied for the name already.
    pub fn from_scope(scope: &Scope, bindings: Vec<(Variable, ArrayRef)>) -> (r: Result<
        Bindings,
        Error,
    >)
        ensures
            ({
                let resolved = resolve_all(scope@, named_arrays(bindings@));
                match r {
                    Ok(found) => {
                        &&& scope@.frames.len() <= 1
                        &&& found@.root_dtype == Some(scope@.root)
                        &&& resolved == Ok::<Map<VariableRef, LazyModel>, Error>(found@.arrays)
                    },
                    Err(error) => if scope@.frames.len() > 1 {
                        error == Error::TooManyFrames
                    } else {
                        resolved == Err::<Map<VariableRef, LazyModel>, Error>(error)
                    },
                }
            }),
    {
        if scope.depth() > 1 {
            return Err(Error::TooManyFrames);
        }
        let ghost given = named_arrays(bindings@);
        let mut resolved: Vec<(VariableRef, ArrayRef)> = Vec::new();
        let mut i: usize = 0;
        while i < bindings.len()
            invariant
                i <= bindings@.len(),
                scope@.frames.len() <= 1,
                given == named_arrays(bindings@),
                locations_distinct(resolved@),
                resolve_all(scope@, given.take(i as int)) == Ok::<
                    Map<VariableRef, LazyModel>,
                    Error,
                >(located(resolved@)),
            decreases bindings@.len() - i,
        {
            proof {
                assert(given.take(i + 1).drop_last() =~= given.take(i as int));
                assert(given.take(i + 1).last() == given[i as int]);
                lemma_resolve_all_prefix(scope@, given, i + 1);
                lemma_located(resolved@);
            }
            let (dtype, reference) = match scope.locate(&bindings[i].0) {
                Some(found) => found,
                None => {
                    return Err(Error::UnknownBinding);
                },
            };
            if bindings[i].1.dtype() != *dtype {
                return Err(Error::BindingType);
            }
            if find_location(&resolved, reference).is_some() {
                return Err(Error::DuplicateBinding);
            }
            let ghost before = resolved@;
            resolved.push((reference, bindings[i].1.clone()));
            assert(resolved@.drop_last() =~= before);
            i += 1;
        }
        assert(given.take(given.len() as int) =~= given);
        Ok(Bindings { root_dtype: Some(scope.root().clone()), bindings: resolved })
    }

    /// Refuses a root array that does not have the type of the scope these bindings are for.
    fn check_root(&self, root: &ArrayRef) -> (r: Result<(), Error>)
        ensures
            match r {
                Ok(_) => self@.admits(root@.dtype),
                Err(error) => !self@.admits(root@.dtype) && error == Error::RootType,
            },
    {
        match &self.root_dtype {
            Some(dtype) => if root.dtype() == *dtype {
                Ok(())
            } else {
                Err(Error::RootType)
            },
            None => Ok(()),
        }
    }
}

impl BindingsModel {
    /// Whether a root array of this type is of the type of the scope.
    pub open spec fn admits(self, dtype: TypeModel) -> bool {
        match self.root_dtype {
            Some(expected) => dtype == expected,
            None => true,
        }
    }
}

impl Default for Bindings {
    fn default() -> (r: Bindings)
        ensures
            r@ == (BindingsModel { root_dtype: None, arrays: Map::empty() }),
    {
        Bindings { root_dtype: None, bindings: Vec::new() }
    }
}

/// The arrays that variables stand for while an expression is applied.
struct ApplyCtx {
    bindings: Vec<(VariableRef, ArrayRef)>,
}

impl ApplyCtx {
    #[verifier::type_invariant]
    spec fn inv(self) -> bool {
        locations_distinct(self.bindings@)
    }

    spec fn view(&self) -> Map<VariableRef, LazyModel> {
        located(self.bindings@)
    }

    fn new() -> (r: ApplyCtx)
        ensures
            r@ == Map::<VariableRef, LazyModel>::empty(),
    {
        ApplyCtx { bindings: Vec::new() }
    }

    fn from_bindings(bindings: &Bindings) -> (r: ApplyCtx)
        ensures
            r@ == bindings@.arrays,
    {
        proof {
            use_type_invariant(bindings);
        }
        let mut copy: Vec<(VariableRef, ArrayRef)> = Vec::new();
        let mut i: usize = 0;
        while i < bindings.bindings.len()
            invariant
                i <= bindings.bindings@.len(),
                copy@ == bindings.bindings@.take(i as int),
            decreases bindings.bindings@.len() - i,
        {
            copy.push((bindings.bindings[i].0, bindings.bindings[i].1.clone()));
            assert(copy@ =~= bindings.bindings@.take(i + 1));
            i += 1;
        }
        assert(copy@ =~= bindings.bindings@);
        ApplyCtx { bindings: copy }
    }

    fn binding(&self, reference: VariableRef) -> (r: Option<&ArrayRef>)
        ensures
            match r {
                Some(array) => self@.contains_pair(reference, array@),
                None => !self@.contains_key(reference),
            },
    {
        proof {
            use_type_invariant(self);
        }
        find_location(&self.bindings, reference)
    }
}

/// What an expression gives on a root array and arrays for its variables, or the first error that
/// a walk from left to right, children before parents, meets.
pub open spec fn apply_model(
    expr: BoundModel,
    root: LazyModel,
    arrays: Map<VariableRef, LazyModel>,
) -> Result<LazyModel, Error>
    decreases expr,
{
    match expr {
        BoundModel::Root(dtype) => if root.dtype == dtype {
            Ok(root)
        } else {
            Err(Error::RootType)
        },
        BoundModel::Variable(dtype, _, reference) => if !arrays.contains_key(reference) {
            Err(Error::MissingBinding)
        } else if arrays[reference].dtype != dtype {
            Err(Error::BindingType)
        } else if arrays[reference].len != root.len {
            Err(Error::BindingLength)
        } else {
            Ok(arrays[reference])
        },
        BoundModel::Scalar(_, FnModel::Literal(scalar), _) => Ok(
            LazyModel::of(constant_model(scalar, root.len)),
        ),
        BoundModel::Scalar(_, f, children) => match apply_all(children, root, arrays) {
            Ok(applied) => fn_model(f, applied, root.len),
            Err(error) => Err(error),
        },
    }
}

/// What a list of expressions gives, or the first error.
pub open spec fn apply_all(
    children: Seq<BoundModel>,
    root: LazyModel,
    arrays: Map<VariableRef, LazyModel>,
) -> Result<Seq<LazyModel>, Error>
    decreases children,
{
    if children.len() == 0 {
        Ok(Seq::empty())
    } else {
        match apply_all(children.drop_last(), root, arrays) {
            Ok(applied) => match apply_model(children.last(), root, arrays) {
                Ok(last) => Ok(applied.push(last)),
                Err(error) => Err(error),
            },
            Err(error) => Err(error),
        }
    }
}

/// An error among the first children is the error of all.
proof fn lemma_apply_all_prefix(
    children: Seq<BoundModel>,
    root: LazyModel,
    arrays: Map<VariableRef, LazyModel>,
    n: int,
)
    requires
        0 <= n <= children.len(),
    ensures
        apply_all(children.take(n), root, arrays) is Err ==> apply_all(children, root, arrays)
            == apply_all(children.take(n), root, arrays),
    decreases children.len(),
{
    if n == children.len() {
        assert(children.take(n) =~= children);
    } else {
        assert(children.drop_last().take(n) =~= children.take(n));
        lemma_apply_all_prefix(children.drop_last(), root, arrays, n);
    }
}

/// Lowers an expression into an array with the rows of `root`.
fn apply(root: &ArrayRef, expr: &BoundExpression, ctx: &ApplyCtx) -> (r: Result<ArrayRef, Error>)
    ensures
        match r {
            Ok(array) => apply_model(expr@, root@, ctx@) == Ok::<LazyModel, Error>(array@),
            Err(error) => apply_model(expr@, root@, ctx@) == Err::<LazyModel, Error>(error),
        },
    decreases expr,
{
    let (scalar_fn, children) = match expr {
        BoundExpression::Root { dtype } => {
            if root.dtype() != *dtype {
                return Err(Error::RootType);
            }
            return Ok(root.clone());
        },
        BoundExpression::Variable { dtype, reference, .. } => {
            let array = match ctx.binding(*reference) {
                Some(array) => array,
                None => {
                    return Err(Error::MissingBinding);
                },
            };
            if array.dtype() != *dtype {
                return Err(Error::BindingType);
            }
            if array.len() != root.len() {
                return Err(Error::BindingLength);
            }
            return Ok(array.clone());
        },
        BoundExpression::Scalar { scalar_fn, children, .. } => (scalar_fn, children),
    };
    if let Some(scalar) = scalar_fn.as_opt::<Literal>() {
        return Ok(ArrayRef::constant(scalar.clone(), root.len()));
    }
    let ghost models = bounds_of(children@);
    let mut applied: Vec<ArrayRef> = Vec::new();
    let mut i: usize = 0;
    assert(lazies_of(applied@) =~= Seq::empty());
    while i < children.len()
        invariant
            i <= children@.len(),
            expr is Scalar,
            expr->children == *children,
            models == bounds_of(children@),
            apply_model(expr@, root@, ctx@) == (match apply_all(models, root@, ctx@) {
                Ok(found) => fn_model(scalar_fn@, found, root@.len),
                Err(error) => Err(error),
            }),
            apply_all(models.take(i as int), root@, ctx@) == Ok::<Seq<LazyModel>, Error>(
                lazies_of(applied@),
            ),
        decreases children@.len() - i,
    {
        proof {
            assert(decreases_to!(expr => children@[i as int]));
            assert(models.take(i + 1).drop_last() =~= models.take(i as int));
            assert(models.take(i + 1).last() == children@[i as int]@);
            lemma_apply_all_prefix(models, root@, ctx@, i + 1);
        }
        match apply(root, &children[i], ctx) {
            Ok(array) => {
                let ghost before = lazies_of(applied@);
                applied.push(array);
                assert(lazies_of(applied@) =~= before.push(array@));
            },
            Err(error) => {
                return Err(error);
            },
        }
        i += 1;
    }
    assert(models.take(models.len() as int) =~= models);
    match ScalarFnArray::try_new_with_len(scalar_fn.clone(), applied, root.len()) {
        Ok(array) => Ok(ArrayRef::scalar_fn(array)),
        Err(error) => Err(error),
    }
}

impl ArrayRef {
    /// Applies a bound expression that needs no arrays for variables.
    pub fn apply_bound(self, expr: &BoundExpression) -> (r: Result<ArrayRef, Error>)
        ensures
            match r {
                Ok(array) => apply_model(expr@, self@, Map::empty()) == Ok::<LazyModel, Error>(
                    array@,
                ),
                Err(error) => apply_model(expr@, self@, Map::empty()) == Err::<LazyModel, Error>(
                    error,
                ),
            },
    {
        apply(&self, expr, &ApplyCtx::new())
    }

    /// Applies a bound expression with arrays for its variables.
    pub fn apply_bound_with_bindings(self, expr: &BoundExpression, bindings: &Bindings) -> (r:
        Result<ArrayRef, Error>)
        ensures
            match r {
                Ok(array) => {
                    &&& bindings@.admits(self@.dtype)
                    &&& apply_model(expr@, self@, bindings@.arrays) == Ok::<LazyModel, Error>(
                        array@,
                    )
                },
                Err(error) => if !bindings@.admits(self@.dtype) {
                    error == Error::RootType
                } else {
                    apply_model(expr@, self@, bindings@.arrays) == Err::<LazyModel, Error>(error)
                },
            },
    {
        match bindings.check_root(&self) {
            Ok(_) => apply(&self, expr, &ApplyCtx::from_bindings(bindings)),
            Err(error) => Err(error),
        }
    }

    /// Applies an expression to this array, giving an array that is computed when it is executed.
    pub fn apply(self, expr: &Expression) -> (r: Result<ArrayRef, Error>)
        ensures
            ({
                let scope = ScopeModel { root: self@.dtype, frames: Seq::empty() };
                match expr@.bind(scope) {
                    Ok(bound) => {
                        &&& r matches Ok(array)
                        &&& apply_model(bound, self@, Map::empty()) == Ok::<LazyModel, Error>(
                            array@,
                        )
                        &&& array@.dtype == bound.dtype()
                        &&& array@.len == self@.len
                    },
                    Err(error) => r == Err::<ArrayRef, Error>(error),
                }
            }),
    {
        proof {
            let scope = ScopeModel { root: self@.dtype, frames: Seq::empty() };
            if let Ok(bound) = expr@.bind(scope) {
                law_bound_is_faithful(expr@, scope);
                lemma_no_variables(bound, scope);
                law_bound_expression_applies(expr@, scope, Seq::empty(), self@);
            }
        }
        match expr.bind(&self.dtype()) {
            Ok(bound) => self.apply_bound(&bound),
            Err(error) => Err(error),
        }
    }
}

/// Whether every variable of an expression has an array of its type with `len` rows.
pub open spec fn supplied(
    expr: BoundModel,
    arrays: Map<VariableRef, LazyModel>,
    len: nat,
) -> bool
    decreases expr,
{
    match expr {
        BoundModel::Scalar(_, _, children) => forall|i: int|
            0 <= i < children.len() ==> supplied(#[trigger] children[i], arrays, len),
        BoundModel::Root(_) => true,
        BoundModel::Variable(dtype, _, reference) => {
            &&& arrays.contains_key(reference)
            &&& arrays[reference].dtype == dtype
            &&& arrays[reference].len == len
        },
    }
}

/// Whether an error is one that application can still meet after binding.
pub open spec fn is_apply_error(error: Error) -> bool {
    error == Error::RootType || error == Error::MissingBinding || error == Error::BindingType
        || error == Error::BindingLength
}

/// Application of a well-typed expression succeeds exactly where the root array has the type that
/// the expression was bound against and every variable has an array of its type with as many rows.
/// It then gives an array of the expression's type with as many rows as the root.
pub proof fn law_apply_is_typed(
    expr: BoundModel,
    root: LazyModel,
    arrays: Map<VariableRef, LazyModel>,
)
    requires
        expr.well_typed(),
    ensures
        match apply_model(expr, root, arrays) {
            Ok(array) => {
                &&& expr.roots_have(root.dtype)
                &&& supplied(expr, arrays, root.len)
                &&& array.dtype == expr.dtype()
                &&& array.len == root.len
            },
            Err(error) => {
                &&& !(expr.roots_have(root.dtype) && supplied(expr, arrays, root.len))
                &&& is_apply_error(error)
            },
        },
    decreases expr,
{
    if let BoundModel::Scalar(_, f, children) = expr {
        assert forall|i: int| 0 <= i < children.len() implies (
        #[trigger] children[i]).well_typed() by {}
        lemma_apply_all_is_typed(children, root, arrays);
        if f !is Literal {
            if let Ok(applied) = apply_all(children, root, arrays) {
                assert(lazy_dtypes(applied) =~= dtypes_of(children));
            }
        }
    }
}

proof fn lemma_apply_all_is_typed(
    children: Seq<BoundModel>,
    root: LazyModel,
    arrays: Map<VariableRef, LazyModel>,
)
    requires
        forall|i: int| 0 <= i < children.len() ==> (#[trigger] children[i]).well_typed(),
    ensures
        match apply_all(children, root, arrays) {
            Ok(applied) => {
                &&& applied.len() == children.len()
                &&& forall|i: int|
                    0 <= i < children.len() ==> {
                        &&& (#[trigger] children[i]).roots_have(root.dtype)
                        &&& supplied(children[i], arrays, root.len)
                    }
                &&& forall|i: int|
                    0 <= i < applied.len() ==> {
                        &&& apply_model(children[i], root, arrays) == Ok::<LazyModel, Error>(
                            #[trigger] applied[i],
                        )
                        &&& applied[i].dtype == children[i].dtype()
                        &&& applied[i].len == root.len
                    }
            },
            Err(error) => {
                &&& exists|i: int|
                    0 <= i < children.len() && !((#[trigger] children[i]).roots_have(root.dtype)
                        && supplied(children[i], arrays, root.len))
                &&& is_apply_error(error)
            },
        },
    decreases children,
{
    if children.len() > 0 {
        let first = children.drop_last();
        assert forall|i: int| 0 <= i < first.len() implies (#[trigger] first[i]).well_typed() by {
            assert(first[i] == children[i]);
        }
        assert(children[children.len() - 1].well_typed());
        lemma_apply_all_is_typed(first, root, arrays);
        law_apply_is_typed(children.last(), root, arrays);
        if apply_all(first, root, arrays) is Err {
            let i = choose|i: int|
                0 <= i < first.len() && !((#[trigger] first[i]).roots_have(root.dtype) && supplied(
                    first[i],
                    arrays,
                    root.len,
                ));
            assert(children[i] == first[i]);
        } else if apply_all(children, root, arrays) is Ok {
            let applied = apply_all(children, root, arrays)->Ok_0;
            assert forall|i: int| 0 <= i < children.len() implies {
                &&& (#[trigger] children[i]).roots_have(root.dtype)
                &&& supplied(children[i], arrays, root.len)
            } by {
                if i < first.len() {
                    assert(first[i] == children[i]);
                }
            }
            assert forall|i: int| 0 <= i < applied.len() implies {
                &&& apply_model(children[i], root, arrays) == Ok::<LazyModel, Error>(
                    #[trigger] applied[i],
                )
                &&& applied[i].dtype == children[i].dtype()
                &&& applied[i].len == root.len
            } by {
                if i < first.len() {
                    assert(first[i] == children[i]);
                    assert(applied[i] == apply_all(first, root, arrays)->Ok_0[i]);
                }
            }
        } else {
            assert(!(children[children.len() - 1].roots_have(root.dtype) && supplied(
                children[children.len() - 1],
                arrays,
                root.len,
            )));
        }
    }
}

/// The value of an expression on row `i`, unless an integer operation overflows there.
pub open spec fn row_value(
    expr: BoundModel,
    root: Seq<Value>,
    arrays: Map<VariableRef, Seq<Value>>,
    i: int,
) -> Option<Value>
    decreases expr,
{
    match expr {
        BoundModel::Root(_) => Some(root[i]),
        BoundModel::Variable(_, _, reference) => Some(arrays[reference][i]),
        BoundModel::Scalar(dtype, f, children) => match row_values(children, root, arrays, i) {
            Some(args) => f.row(dtype, args),
            None => None,
        },
    }
}

/// The values of a list of expressions on row `i`, unless one overflows there.
pub open spec fn row_values(
    children: Seq<BoundModel>,
    root: Seq<Value>,
    arrays: Map<VariableRef, Seq<Value>>,
    i: int,
) -> Option<Seq<Value>>
    decreases children,
{
    if forall|k: int|
        0 <= k < children.len() ==> row_value(#[trigger] children[k], root, arrays, i) is Some {
        Some(
            Seq::new(
                children.len(),
                |k: int|
                    if 0 <= k < children.len() {
                        row_value(children[k], root, arrays, i)->0
                    } else {
                        arbitrary()
                    },
            ),
        )
    } else {
        None
    }
}

/// The rows of each of the arrays.
pub open spec fn rows_by_location(arrays: Map<VariableRef, LazyModel>) -> Map<
    VariableRef,
    Seq<Value>,
> {
    arrays.map_values(|array: LazyModel| array.rows->0)
}

/// Whether the rows of an array do not overflow, and are as many as it says.
pub open spec fn has_rows(array: LazyModel) -> bool {
    array.rows matches Some(rows) && rows.len() == array.len
}

/// The rows of an applied expression are the values of the expression row by row, and they can be
/// computed exactly if the expression overflows on no row.
pub proof fn law_apply_is_rowwise(
    expr: BoundModel,
    root: LazyModel,
    arrays: Map<VariableRef, LazyModel>,
)
    requires
        expr.well_typed(),
        apply_model(expr, root, arrays) is Ok,
        has_rows(root),
        forall|r: VariableRef| arrays.contains_key(r) ==> has_rows(#[trigger] arrays[r]),
    ensures
        ({
            let array = apply_model(expr, root, arrays)->Ok_0;
            let value = |i: int| row_value(expr, root.rows->0, rows_by_location(arrays), i);
            match array.rows {
                Some(rows) => rows.len() == root.len && forall|i: int|
                    0 <= i < root.len ==> value(i) == Some(#[trigger] rows[i]),
                None => exists|i: int| 0 <= i < root.len && #[trigger] value(i) is None,
            }
        }),
    decreases expr,
{
    let value = |i: int| row_value(expr, root.rows->0, rows_by_location(arrays), i);
    match expr {
        BoundModel::Variable(_, _, reference) => {
            assert(has_rows(arrays[reference]));
        },
        BoundModel::Scalar(_, FnModel::Literal(scalar), children) => {
            assert(children.len() == 0);
        },
        BoundModel::Scalar(dtype, f, children) => {
            let env = rows_by_location(arrays);
            let applied = apply_all(children, root, arrays)->Ok_0;
            let array = apply_model(expr, root, arrays)->Ok_0;
            assert forall|k: int| 0 <= k < children.len() implies (
            #[trigger] children[k]).well_typed() by {}
            lemma_apply_all_is_typed(children, root, arrays);
            assert(lazy_dtypes(applied) =~= dtypes_of(children));
            assert forall|k: int| 0 <= k < children.len() implies rows_agree(
                children[k],
                #[trigger] applied[k],
                root,
                env,
            ) by {
                assert(children[k].well_typed());
                law_apply_is_rowwise(children[k], root, arrays);
            }
            lemma_fn_rows(dtype, f, children, applied, root, env);
            if array.rows is None {
                let i = choose|i: int|
                    0 <= i < root.len && #[trigger] row_value(expr, root.rows->0, env, i) is None;
                assert(value(i) is None);
            }
        },
        _ => {},
    }
}

/// Whether an array holds the values of an expression row by row.
spec fn rows_agree(
    expr: BoundModel,
    array: LazyModel,
    root: LazyModel,
    env: Map<VariableRef, Seq<Value>>,
) -> bool {
    match array.rows {
        Some(rows) => rows.len() == root.len && forall|i: int|
            0 <= i < root.len ==> row_value(expr, root.rows->0, env, i) == Some(
                #[trigger] rows[i],
            ),
        None => exists|i: int|
            0 <= i < root.len && #[trigger] row_value(expr, root.rows->0, env, i) is None,
    }
}

/// A function of arrays that hold the values of its arguments holds the values of the call.
proof fn lemma_fn_rows(
    dtype: TypeModel,
    f: FnModel,
    children: Seq<BoundModel>,
    applied: Seq<LazyModel>,
    root: LazyModel,
    env: Map<VariableRef, Seq<Value>>,
)
    requires
        applied.len() == children.len(),
        forall|k: int|
            0 <= k < children.len() ==> rows_agree(children[k], #[trigger] applied[k], root, env),
    ensures
        rows_agree(
            BoundModel::Scalar(dtype, f, children),
            (LazyModel {
                dtype,
                len: root.len,
                rows: fn_rows(f, dtype, all_rows(applied), root.len),
            }),
            root,
            env,
        ),
{
    let expr = BoundModel::Scalar(dtype, f, children);
    let rows = root.rows->0;
    match all_rows(applied) {
        None => {
            let k = choose|k: int| 0 <= k < applied.len() && (#[trigger] applied[k]).rows is None;
            assert(rows_agree(children[k], applied[k], root, env));
            let i = choose|i: int|
                0 <= i < root.len && #[trigger] row_value(children[k], rows, env, i) is None;
            assert(row_values(children, rows, env, i) is None);
            assert(row_value(expr, rows, env, i) is None);
        },
        Some(columns) => {
            assert forall|i: int| 0 <= i < root.len implies #[trigger] row_value(expr, rows, env, i)
                == f.row(dtype, row_of(columns, i)) by {
                assert forall|k: int| 0 <= k < children.len() implies row_value(
                    #[trigger] children[k],
                    rows,
                    env,
                    i,
                ) == Some(columns[k][i]) by {
                    assert(rows_agree(children[k], applied[k], root, env));
                    assert(applied[k].rows->0 == columns[k]);
                }
                assert(row_values(children, rows, env, i)->0 =~= row_of(columns, i));
            }
            if fn_rows(f, dtype, Some(columns), root.len) is None {
                let i = choose|i: int|
                    #![trigger row_of(columns, i)]
                    0 <= i < root.len && f.row(dtype, row_of(columns, i)) is None;
                assert(row_value(expr, rows, env, i) is None);
            } else {
                let out = fn_rows(f, dtype, Some(columns), root.len)->0;
                assert forall|i: int| 0 <= i < root.len implies row_value(expr, rows, env, i)
                    == Some(#[trigger] out[i]) by {
                    assert(f.row(dtype, row_of(columns, i)) is Some);
                    assert(row_value(expr, rows, env, i) == f.row(dtype, row_of(columns, i)));
                }
            }
        },
    }
}

/// Whether every variable of an expression has a name among the given arrays.
pub open spec fn names_given(expr: BoundModel, given: Seq<(Seq<char>, LazyModel)>) -> bool
    decreases expr,
{
    match expr {
        BoundModel::Scalar(_, _, children) => forall|i: int|
            0 <= i < children.len() ==> names_given(#[trigger] children[i], given),
        BoundModel::Root(_) => true,
        BoundModel::Variable(_, name, _) => exists|i: int|
            0 <= i < given.len() && (#[trigger] given[i]).0 == name,
    }
}

/// Every given array stands at the location that the scope binds its name at, and has the type
/// that the scope binds the name to.
pub proof fn law_bindings_resolve(
    scope: ScopeModel,
    given: Seq<(Seq<char>, LazyModel)>,
    i: int,
)
    requires
        resolve_all(scope, given) is Ok,
        0 <= i < given.len(),
    ensures
        ({
            let resolved = resolve_all(scope, given)->Ok_0;
            &&& scope.lookup(given[i].0) matches Some((dtype, frame, slot))
            &&& given[i].1.dtype == dtype
            &&& resolved.contains_pair(location(frame, slot), given[i].1)
        }),
    decreases given.len(),
{
    if i < given.len() - 1 {
        law_bindings_resolve(scope, given.drop_last(), i);
    }
}

/// An expression that was bound against a scope can be applied to every array of the type of the
/// scope's root, given an array with as many rows, of the type that the scope says, for each of
/// its variables. The result has the type that binding found, and as many rows as the root.
pub proof fn law_bound_expression_applies(
    expr: ExprModel,
    scope: ScopeModel,
    given: Seq<(Seq<char>, LazyModel)>,
    root: LazyModel,
)
    requires
        scope.fits(),
        expr.bind(scope) is Ok,
        resolve_all(scope, given) is Ok,
        names_given(expr.bind(scope)->Ok_0, given),
        forall|i: int| 0 <= i < given.len() ==> (#[trigger] given[i]).1.len == root.len,
        root.dtype == scope.root,
    ensures
        ({
            let bound = expr.bind(scope)->Ok_0;
            &&& apply_model(bound, root, resolve_all(scope, given)->Ok_0) matches Ok(array)
            &&& array.dtype == bound.dtype()
            &&& array.len == root.len
        }),
{
    let bound = expr.bind(scope)->Ok_0;
    law_bound_is_faithful(expr, scope);
    lemma_supplied(bound, scope, given, root.len);
    law_apply_is_typed(bound, root, resolve_all(scope, given)->Ok_0);
}

/// Nothing is a variable that was bound against a scope without bindings.
proof fn lemma_no_variables(expr: BoundModel, scope: ScopeModel)
    requires
        expr.located_in(scope),
        scope.frames.len() == 0,
    ensures
        names_given(expr, Seq::empty()),
    decreases expr,
{
    if let BoundModel::Scalar(_, _, children) = expr {
        assert forall|i: int| 0 <= i < children.len() implies names_given(
            #[trigger] children[i],
            Seq::empty(),
        ) by {
            assert(children[i].located_in(scope));
            lemma_no_variables(children[i], scope);
        }
    }
}

proof fn lemma_supplied(
    expr: BoundModel,
    scope: ScopeModel,
    given: Seq<(Seq<char>, LazyModel)>,
    len: nat,
)
    requires
        expr.located_in(scope),
        resolve_all(scope, given) is Ok,
        names_given(expr, given),
        forall|i: int| 0 <= i < given.len() ==> (#[trigger] given[i]).1.len == len,
    ensures
        supplied(expr, resolve_all(scope, given)->Ok_0, len),
    decreases expr,
{
    match expr {
        BoundModel::Scalar(_, _, children) => {
            assert forall|i: int| 0 <= i < children.len() implies supplied(
                #[trigger] children[i],
                resolve_all(scope, given)->Ok_0,
                len,
            ) by {
                assert(children[i].located_in(scope) && names_given(children[i], given));
                lemma_supplied(children[i], scope, given, len);
            }
        },
        BoundModel::Variable(_, name, reference) => {
            let i = choose|i: int| 0 <= i < given.len() && (#[trigger] given[i]).0 == name;
            law_bindings_resolve(scope, given, i);
        },
        _ => {},
    }
}

} // verus!
