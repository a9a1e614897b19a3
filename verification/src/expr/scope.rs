//! The context an expression is bound against.

use vstd::prelude::*;

use crate::dtype::{DType, TypeModel};
use crate::error::Error;
use crate::expr::variable::{Variable, VariableRef};

verus! {

/// The model of a list of named bindings.
pub open spec fn bindings_of(bindings: Seq<(Variable, DType)>) -> Seq<(Seq<char>, TypeModel)> {
    Seq::new(bindings.len(), |i: int| (bindings[i].0@, bindings[i].1@))
}

/// Whether no name occurs twice.
pub open spec fn names_distinct(bindings: Seq<(Seq<char>, TypeModel)>) -> bool {
    forall|i: int, j: int|
        #![trigger bindings[i], bindings[j]]
        0 <= i < j < bindings.len() ==> bindings[i].0 != bindings[j].0
}

/// Whether some binding is called `name`.
pub open spec fn binds(bindings: Seq<(Seq<char>, TypeModel)>, name: Seq<char>) -> bool {
    exists|i: int| 0 <= i < bindings.len() && (#[trigger] bindings[i]).0 == name
}

/// The position of the binding called `name`, if there is one.
fn find_binding(bindings: &Vec<(Variable, DType)>, name: &Variable) -> (r: Option<usize>)
    ensures
        match r {
            Some(i) => i < bindings@.len() && bindings@[i as int].0@ == name@,
            None => !binds(bindings_of(bindings@), name@),
        },
{
    let mut i: usize = 0;
    while i < bindings.len()
        invariant
            i <= bindings@.len(),
            forall|j: int| 0 <= j < i ==> (#[trigger] bindings@[j]).0@ != name@,
        decreases bindings@.len() - i,
    {
        if bindings[i].0 == *name {
            return Some(i);
        }
        i += 1;
    }
    None
}

/// The bindings that one binder introduces, in declaration order. No name occurs twice.
#[derive(Debug, PartialEq, Eq, Hash)]
pub struct Frame {
    bindings: Vec<(Variable, DType)>,
}

impl Frame {
    #[verifier::type_invariant]
    spec fn inv(self) -> bool {
        names_distinct(self@)
    }

    /// The names and types of this frame, in declaration order.
    pub closed spec fn view(&self) -> Seq<(Seq<char>, TypeModel)> {
        bindings_of(self.bindings@)
    }

    /// The frame with the given bindings, refused when a name occurs twice.
    pub fn try_new(bindings: Vec<(Variable, DType)>) -> (r: Result<Frame, Error>)
        ensures
            r is Ok <==> names_distinct(bindings_of(bindings@)),
            r matches Ok(frame) ==> frame@ == bindings_of(bindings@),
            r matches Err(error) ==> error == Error::DuplicateParameter,
    {
        let ghost all = bindings_of(bindings@);
        let mut i: usize = 0;
        while i < bindings.len()
            invariant
                i <= bindings@.len(),
                all == bindings_of(bindings@),
                names_distinct(all.take(i as int)),
            decreases bindings@.len() - i,
        {
            let mut j: usize = 0;
            while j < i
                invariant
                    j <= i < bindings@.len(),
                    all == bindings_of(bindings@),
                    forall|k: int| 0 <= k < j ==> (#[trigger] all[k]).0 != all[i as int].0,
                decreases i - j,
            {
                if bindings[j].0 == bindings[i].0 {
                    assert(all[j as int].0 == all[i as int].0);
                    return Err(Error::DuplicateParameter);
                }
                j += 1;
            }
            i += 1;
        }
        assert(all.take(all.len() as int) =~= all);
        Ok(Frame { bindings })
    }

    /// The names and types of this frame, in declaration order.
    pub fn bindings(&self) -> (r: &[(Variable, DType)])
        ensures
            bindings_of(r@) == self@,
            names_distinct(self@),
    {
        proof {
            use_type_invariant(self);
        }
        self.bindings.as_slice()
    }

}

impl Clone for Frame {
    fn clone(&self) -> (r: Frame)
        ensures
            r@ == self@,
    {
        proof {
            use_type_invariant(self);
        }
        let mut bindings: Vec<(Variable, DType)> = Vec::new();
        let mut i: usize = 0;
        while i < self.bindings.len()
            invariant
                i <= self.bindings@.len(),
                bindings@.len() == i,
                forall|j: int|
                    0 <= j < i ==> (#[trigger] bindings@[j]).0@ == self.bindings@[j].0@
                        && bindings@[j].1@ == self.bindings@[j].1@,
            decreases self.bindings@.len() - i,
        {
            bindings.push((self.bindings[i].0.clone(), self.bindings[i].1.clone()));
            i += 1;
        }
        assert(bindings_of(bindings@) =~= bindings_of(self.bindings@));
        Frame { bindings }
    }
}

/// The context an expression is bound against: the type that the root resolves to, and named
/// bindings in nested frames.
///
/// Names are unique across the whole scope: introducing one twice is refused, so that nested
/// binders cannot shadow an outer binding.
///
/// Two scopes are equal if their roots have the same type and they bind the same names to the same
/// types, in whatever order.
#[derive(Debug, Eq)]
pub struct Scope {
    root: DType,
    frames: Vec<Frame>,
}

/// The mathematical model of a [`Scope`].
#[verifier::ext_equal]
pub struct ScopeModel {
    pub root: TypeModel,
    pub frames: Seq<Seq<(Seq<char>, TypeModel)>>,
}

impl ScopeModel {
    /// Whether `name` is bound in slot `slot` of frame `frame`.
    pub open spec fn at(self, name: Seq<char>, frame: int, slot: int) -> bool {
        &&& 0 <= frame < self.frames.len()
        &&& 0 <= slot < self.frames[frame].len()
        &&& self.frames[frame][slot].0 == name
    }

    /// Whether `name` is bound.
    pub open spec fn bound(self, name: Seq<char>) -> bool {
        exists|frame: int, slot: int| self.at(name, frame, slot)
    }

    /// Whether every name is bound at most once.
    pub open spec fn unique(self) -> bool {
        forall|name: Seq<char>, f: int, s: int, g: int, t: int|
            #![trigger self.at(name, f, s), self.at(name, g, t)]
            self.at(name, f, s) && self.at(name, g, t) ==> f == g && s == t
    }

    /// The type that `name` is bound to and where, if it is bound.
    pub open spec fn lookup(self, name: Seq<char>) -> Option<(TypeModel, int, int)> {
        if self.bound(name) {
            let (frame, slot) = choose|frame: int, slot: int| self.at(name, frame, slot);
            Some((self.frames[frame][slot].1, frame, slot))
        } else {
            None
        }
    }

    /// The type that `name` is bound to, if it is bound.
    pub open spec fn type_of(self, name: Seq<char>) -> Option<TypeModel> {
        match self.lookup(name) {
            Some(found) => Some(found.0),
            None => None,
        }
    }

    /// Whether every name that `other` binds is bound to the same type here.
    pub open spec fn includes(self, other: ScopeModel) -> bool {
        forall|name: Seq<char>| #[trigger]
            other.bound(name) ==> self.type_of(name) == other.type_of(name)
    }

    /// Whether two scopes give the root and every name the same type.
    pub open spec fn same(self, other: ScopeModel) -> bool {
        &&& self.root == other.root
        &&& forall|name: Seq<char>| #[trigger] self.type_of(name) == other.type_of(name)
    }

    /// This scope with more bindings at the end of its innermost frame, or in a first frame where
    /// it has none.
    pub open spec fn extended(self, bindings: Seq<(Seq<char>, TypeModel)>) -> ScopeModel {
        if bindings.len() == 0 {
            self
        } else if self.frames.len() == 0 {
            ScopeModel { root: self.root, frames: seq![bindings] }
        } else {
            ScopeModel {
                root: self.root,
                frames: self.frames.drop_last().push(self.frames.last() + bindings),
            }
        }
    }

    /// This scope with a further frame inside the others.
    pub open spec fn nested(self, frame: Seq<(Seq<char>, TypeModel)>) -> ScopeModel {
        ScopeModel { root: self.root, frames: self.frames.push(frame) }
    }
}

/// A name resolves to its one binding.
pub proof fn lemma_lookup(scope: ScopeModel, name: Seq<char>, frame: int, slot: int)
    requires
        scope.unique(),
        scope.at(name, frame, slot),
    ensures
        scope.lookup(name) == Some((scope.frames[frame][slot].1, frame, slot)),
{
    let (f, s) = choose|f: int, s: int| scope.at(name, f, s);
    assert(scope.at(name, f, s));
}

/// The model of a list of frames.
pub open spec fn frames_of(frames: Seq<Frame>) -> Seq<Seq<(Seq<char>, TypeModel)>> {
    Seq::new(frames.len(), |i: int| frames[i]@)
}

/// Extending a scope keeps every binding where it is, and puts new ones behind them.
pub proof fn lemma_extended_at(
    scope: ScopeModel,
    bindings: Seq<(Seq<char>, TypeModel)>,
    name: Seq<char>,
    frame: int,
    slot: int,
)
    ensures
        scope.extended(bindings).at(name, frame, slot) <==> scope.at(name, frame, slot) || {
            &&& frame == (if scope.frames.len() == 0 {
                0
            } else {
                scope.frames.len() - 1
            })
            &&& ({
                let before = if scope.frames.len() == 0 {
                    0
                } else {
                    scope.frames.last().len() as int
                };
                &&& before <= slot < before + bindings.len()
                &&& bindings[slot - before].0 == name
            })
        },
{
    let e = scope.extended(bindings);
    if bindings.len() > 0 && scope.frames.len() > 0 {
        let last = scope.frames.len() - 1;
        if 0 <= frame < last {
            assert(e.frames[frame] == scope.frames[frame]);
        } else if frame == last {
            assert(e.frames[frame] == scope.frames.last() + bindings);
            if 0 <= slot < scope.frames[frame].len() {
                assert(e.frames[frame][slot] == scope.frames[frame][slot]);
            }
        }
    }
}

/// Extending a scope step by step is extending it at once.
proof fn lemma_extended_twice(
    scope: ScopeModel,
    first: Seq<(Seq<char>, TypeModel)>,
    second: Seq<(Seq<char>, TypeModel)>,
)
    ensures
        scope.extended(first).extended(second) == scope.extended(first + second),
{
    let once = scope.extended(first + second);
    let twice = scope.extended(first).extended(second);
    if first.len() == 0 {
        assert(first + second =~= second);
    } else if second.len() == 0 {
        assert(first + second =~= first);
    } else if scope.frames.len() == 0 {
        assert(twice.frames =~= once.frames);
    } else {
        let e = scope.extended(first);
        assert(e.frames.drop_last() =~= scope.frames.drop_last());
        assert((scope.frames.last() + first) + second =~= scope.frames.last() + (first + second));
        assert(twice.frames =~= once.frames);
    }
}

/// Extending a scope by one binding keeps names unique exactly when the name is new.
pub proof fn lemma_bind_unique(scope: ScopeModel, name: Seq<char>, dtype: TypeModel)
    requires
        scope.unique(),
    ensures
        scope.extended(seq![(name, dtype)]).unique() <==> !scope.bound(name),
{
    let one = seq![(name, dtype)];
    let e = scope.extended(one);
    let frame = if scope.frames.len() == 0 {
        0
    } else {
        scope.frames.len() - 1
    };
    let slot = if scope.frames.len() == 0 {
        0
    } else {
        scope.frames.last().len() as int
    };
    if scope.bound(name) {
        let (f, s) = choose|f: int, s: int| scope.at(name, f, s);
        lemma_extended_at(scope, one, name, f, s);
        lemma_extended_at(scope, one, name, frame, slot);
        assert(e.at(name, f, s) && e.at(name, frame, slot));
    } else {
        assert forall|n: Seq<char>, f: int, s: int, g: int, t: int|
            #![trigger e.at(n, f, s), e.at(n, g, t)]
            e.at(n, f, s) && e.at(n, g, t) implies f == g && s == t by {
            lemma_extended_at(scope, one, n, f, s);
            lemma_extended_at(scope, one, n, g, t);
        }
    }
}

/// Names that are unique in an extended scope are unique in the scope itself.
proof fn lemma_extended_unique(scope: ScopeModel, bindings: Seq<(Seq<char>, TypeModel)>)
    requires
        scope.extended(bindings).unique(),
    ensures
        scope.unique(),
{
    let e = scope.extended(bindings);
    assert forall|n: Seq<char>, f: int, s: int, g: int, t: int|
        #![trigger scope.at(n, f, s), scope.at(n, g, t)]
        scope.at(n, f, s) && scope.at(n, g, t) implies f == g && s == t by {
        lemma_extended_at(scope, bindings, n, f, s);
        lemma_extended_at(scope, bindings, n, g, t);
        assert(e.at(n, f, s) && e.at(n, g, t));
    }
}

/// A further frame keeps names unique exactly when its own names are distinct and new.
pub proof fn lemma_nest_unique(scope: ScopeModel, frame: Seq<(Seq<char>, TypeModel)>)
    requires
        scope.unique(),
    ensures
        scope.nested(frame).unique() <==> names_distinct(frame) && forall|i: int|
            0 <= i < frame.len() ==> !scope.bound(#[trigger] frame[i].0),
{
    let e = scope.nested(frame);
    let depth = scope.frames.len() as int;
    assert forall|n: Seq<char>, f: int, s: int| f != depth implies #[trigger] e.at(n, f, s)
        == scope.at(n, f, s) by {
        if 0 <= f < depth {
            assert(e.frames[f] == scope.frames[f]);
        }
    }
    assert(e.frames[depth] == frame);
    if e.unique() {
        assert forall|i: int, j: int|
            #![trigger frame[i], frame[j]]
            0 <= i < j < frame.len() implies frame[i].0 != frame[j].0 by {
            if frame[i].0 == frame[j].0 {
                assert(e.at(frame[i].0, depth, i) && e.at(frame[i].0, depth, j));
            }
        }
        assert forall|i: int| 0 <= i < frame.len() implies !scope.bound(#[trigger] frame[i].0) by {
            if scope.bound(frame[i].0) {
                let (f, s) = choose|f: int, s: int| scope.at(frame[i].0, f, s);
                assert(e.at(frame[i].0, f, s) && e.at(frame[i].0, depth, i));
            }
        }
    }
    if names_distinct(frame) && forall|i: int|
        0 <= i < frame.len() ==> !scope.bound(#[trigger] frame[i].0) {
        assert forall|n: Seq<char>, f: int, s: int, g: int, t: int|
            #![trigger e.at(n, f, s), e.at(n, g, t)]
            e.at(n, f, s) && e.at(n, g, t) implies f == g && s == t by {
            if f == depth && g == depth {
                if s < t {
                    assert(frame[s].0 != frame[t].0);
                } else if t < s {
                    assert(frame[t].0 != frame[s].0);
                }
            } else if f == depth {
                assert(scope.at(frame[s].0, g, t));
            } else if g == depth {
                assert(scope.at(frame[t].0, f, s));
            } else {
                assert(scope.at(n, f, s) && scope.at(n, g, t));
            }
        }
    }
}

/// Every location in a scope fits a machine word.
proof fn lemma_fits(scope: &Scope)
    ensures
        scope@.fits(),
{
    assert(scope.frames.len() == scope@.frames.len());
    assert forall|f: int| 0 <= f < scope@.frames.len() implies (
    #[trigger] scope@.frames[f]).len() <= usize::MAX by {
        assert(scope.frames@[f].bindings.len() == scope@.frames[f].len());
    }
}

impl Scope {
    #[verifier::type_invariant]
    spec fn inv(self) -> bool {
        self@.unique()
    }

    /// The model of this scope.
    pub closed spec fn view(&self) -> ScopeModel {
        ScopeModel { root: self.root@, frames: frames_of(self.frames@) }
    }

    /// The scope in which the root resolves to the given type, with no bindings.
    pub fn new(root: DType) -> (r: Scope)
        ensures
            r@ == (ScopeModel { root: root@, frames: Seq::empty() }),
    {
        let frames: Vec<Frame> = Vec::new();
        assert(frames_of(frames@) =~= Seq::empty());
        Scope { root, frames }
    }

    /// The type that the root resolves to.
    pub fn root(&self) -> (r: &DType)
        ensures
            r@ == self@.root,
            self@.unique(),
            self@.fits(),
    {
        proof {
            use_type_invariant(self);
            lemma_fits(self);
        }
        &self.root
    }

    /// The number of frames.
    pub fn depth(&self) -> (r: usize)
        ensures
            r == self@.frames.len(),
            self@.unique(),
            self@.fits(),
    {
        proof {
            use_type_invariant(self);
            lemma_fits(self);
        }
        self.frames.len()
    }

    /// The type that `name` is bound to and the location of the binding, if it is bound.
    pub fn locate(&self, name: &Variable) -> (r: Option<(&DType, VariableRef)>)
        ensures
            match r {
                Some((dtype, reference)) => self@.lookup(name@) == Some(
                    (dtype@, reference.frame as int, reference.slot as int),
                ),
                None => self@.lookup(name@) is None,
            },
    {
        proof {
            use_type_invariant(self);
        }
        let mut frame: usize = 0;
        while frame < self.frames.len()
            invariant
                frame <= self.frames@.len(),
                self@.unique(),
                forall|f: int, s: int| f < frame ==> !#[trigger] self@.at(name@, f, s),
            decreases self.frames@.len() - frame,
        {
            match find_binding(&self.frames[frame].bindings, name) {
                Some(slot) => {
                    proof {
                        assert(self@.frames[frame as int]
                            == bindings_of(self.frames@[frame as int].bindings@));
                        lemma_lookup(self@, name@, frame as int, slot as int);
                    }
                    return Some(
                        (&self.frames[frame].bindings[slot].1, VariableRef { frame, slot }),
                    );
                },
                None => {
                    assert forall|s: int| !#[trigger] self@.at(name@, frame as int, s) by {
                        let bindings = bindings_of(self.frames@[frame as int].bindings@);
                        assert(self@.frames[frame as int] == bindings);
                        if self@.at(name@, frame as int, s) {
                            assert(bindings[s].0 == name@);
                        }
                    }
                },
            }
            frame += 1;
        }
        assert(!self@.bound(name@));
        None
    }

    /// The type that `name` is bound to, if it is bound.
    pub fn resolve(&self, name: &Variable) -> (r: Option<&DType>)
        ensures
            match r {
                Some(dtype) => self@.lookup(name@) matches Some(found) && found.0 == dtype@,
                None => self@.lookup(name@) is None,
            },
    {
        match self.locate(name) {
            Some((dtype, _)) => Some(dtype),
            None => None,
        }
    }

    /// Adds a binding to the innermost frame, or to a first frame where there is none. Refused,
    /// with the scope unchanged, when the name is already bound in any frame.
    pub fn bind(&mut self, variable: Variable, dtype: DType) -> (r: Result<(), Error>)
        ensures
            r is Ok <==> !old(self)@.bound(variable@),
            r is Ok ==> final(self)@ == old(self)@.extended(seq![(variable@, dtype@)]),
            r matches Err(error) ==> error == Error::AlreadyBound && final(self)@ == old(self)@,
    {
        if self.locate(&variable).is_some() {
            return Err(Error::AlreadyBound);
        }
        proof {
            use_type_invariant(&*self);
            lemma_bind_unique(self@, variable@, dtype@);
        }
        let ghost before = self@;
        let ghost added = seq![(variable@, dtype@)];
        let mut frames: Vec<Frame> = Vec::new();
        std::mem::swap(&mut frames, &mut self.frames);
        let ghost outer = frames@;
        let mut bindings = match frames.pop() {
            Some(frame) => frame.bindings,
            None => Vec::new(),
        };
        let ghost inner = bindings_of(bindings@);
        bindings.push((variable, dtype));
        proof {
            assert(bindings_of(bindings@) =~= inner + added);
            let e = before.extended(added);
            if outer.len() > 0 {
                assert(frames_of(frames@) =~= before.frames.drop_last());
                assert(inner == before.frames.last());
            } else {
                assert(inner + added =~= added);
            }
            assert(frames_of(frames@).push(inner + added) =~= e.frames);
            assert forall|i: int, j: int|
                #![trigger bindings_of(bindings@)[i], bindings_of(bindings@)[j]]
                0 <= i < j < bindings@.len() implies bindings_of(bindings@)[i].0
                != bindings_of(bindings@)[j].0 by {
                let f = e.frames.len() - 1;
                let name = bindings_of(bindings@)[i].0;
                assert(e.at(name, f, i));
                if bindings_of(bindings@)[j].0 == name {
                    assert(e.at(name, f, j));
                }
            }
        }
        let ghost rest = frames@;
        frames.push(Frame { bindings });
        proof {
            assert(frames_of(frames@) =~= frames_of(rest).push(inner + added));
        }
        self.frames = frames;
        Ok(())
    }

    /// This scope extended with bindings, refused when a name is already bound, or occurs twice
    /// among them.
    pub fn with_bindings(self, bindings: Vec<(Variable, DType)>) -> (r: Result<Scope, Error>)
        ensures
            r is Ok <==> self@.extended(bindings_of(bindings@)).unique(),
            r matches Ok(scope) ==> scope@ == self@.extended(bindings_of(bindings@)),
            r matches Err(error) ==> error == Error::AlreadyBound,
    {
        let ghost all = bindings_of(bindings@);
        let ghost before = self@;
        let mut scope = self;
        let mut i: usize = 0;
        assert(before.extended(all.take(0)) == before);
        while i < bindings.len()
            invariant
                i <= bindings@.len(),
                all == bindings_of(bindings@),
                before == self@,
                scope@ == before.extended(all.take(i as int)),
            decreases bindings@.len() - i,
        {
            let ghost current = scope@;
            let ghost one = seq![(bindings@[i as int].0@, bindings@[i as int].1@)];
            proof {
                use_type_invariant(&scope);
                assert(all.take(i as int) + one =~= all.take(i + 1));
                lemma_extended_twice(before, all.take(i as int), one);
                lemma_bind_unique(current, one[0].0, one[0].1);
                assert(all.take(i + 1) + all.skip(i + 1) =~= all);
                lemma_extended_twice(before, all.take(i + 1), all.skip(i + 1));
                if before.extended(all).unique() {
                    lemma_extended_unique(before.extended(all.take(i + 1)), all.skip(i + 1));
                }
            }
            match scope.bind(bindings[i].0.clone(), bindings[i].1.clone()) {
                Ok(()) => {},
                Err(error) => {
                    return Err(error);
                },
            }
            i += 1;
        }
        proof {
            use_type_invariant(&scope);
            assert(all.take(all.len() as int) =~= all);
        }
        Ok(scope)
    }

    /// This scope with a further frame inside the others, refused when one of its names is
    /// already bound.
    pub fn push_frame(self, frame: Frame) -> (r: Result<Scope, Error>)
        ensures
            r is Ok <==> forall|i: int|
                0 <= i < frame@.len() ==> !self@.bound(#[trigger] frame@[i].0),
            r matches Ok(scope) ==> scope@ == self@.nested(frame@),
            r matches Err(error) ==> error == Error::AlreadyBound,
    {
        proof {
            use_type_invariant(&self);
            use_type_invariant(&frame);
            lemma_nest_unique(self@, frame@);
        }
        let mut i: usize = 0;
        while i < frame.bindings.len()
            invariant
                i <= frame.bindings@.len(),
                forall|j: int| 0 <= j < i ==> !self@.bound(#[trigger] frame@[j].0),
            decreases frame.bindings@.len() - i,
        {
            if self.locate(&frame.bindings[i].0).is_some() {
                assert(self@.bound(frame@[i as int].0));
                return Err(Error::AlreadyBound);
            }
            i += 1;
        }
        let ghost before = self@;
        let Scope { root, mut frames } = self;
        let ghost outer = frames@;
        frames.push(frame);
        assert(frames_of(frames@) =~= frames_of(outer).push(frame@));
        Ok(Scope { root, frames })
    }
}

impl Scope {
    /// Whether every name that `other` binds is bound to the same type here.
    fn includes(&self, other: &Scope) -> (r: bool)
        ensures
            r == self@.includes(other@),
    {
        proof {
            use_type_invariant(other);
        }
        let mut f: usize = 0;
        while f < other.frames.len()
            invariant
                f <= other.frames@.len(),
                other@.unique(),
                forall|name: Seq<char>, g: int, s: int|
                    g < f && #[trigger] other@.at(name, g, s) ==> self@.type_of(name)
                        == other@.type_of(name),
            decreases other.frames@.len() - f,
        {
            let bindings = &other.frames[f].bindings;
            let mut i: usize = 0;
            assert(other@.frames[f as int] == bindings_of(bindings@));
            while i < bindings.len()
                invariant
                    f < other.frames@.len(),
                    i <= bindings@.len(),
                    other@.unique(),
                    other@.frames[f as int] == bindings_of(bindings@),
                    forall|name: Seq<char>, g: int, s: int|
                        (g < f || (g == f && s < i)) && #[trigger] other@.at(name, g, s)
                            ==> self@.type_of(name) == other@.type_of(name),
                decreases bindings@.len() - i,
            {
                let ghost name = bindings@[i as int].0@;
                proof {
                    assert(other@.at(name, f as int, i as int));
                    lemma_lookup(other@, name, f as int, i as int);
                    assert(other@.bound(name));
                }
                match self.resolve(&bindings[i].0) {
                    Some(dtype) => {
                        if *dtype != bindings[i].1 {
                            return false;
                        }
                    },
                    None => {
                        return false;
                    },
                }
                i += 1;
            }
            f += 1;
        }
        assert forall|name: Seq<char>| #[trigger] other@.bound(name) implies self@.type_of(name)
            == other@.type_of(name) by {
            let (g, s) = choose|g: int, s: int| other@.at(name, g, s);
            assert(other@.at(name, g, s));
        }
        true
    }
}

impl PartialEq for Scope {
    fn eq(&self, other: &Scope) -> (r: bool) {
        let r = self.root == other.root && self.includes(other) && other.includes(self);
        proof {
            if r {
                assert forall|name: Seq<char>| #[trigger]
                    self@.type_of(name) == other@.type_of(name) by {
                    if !self@.bound(name) && !other@.bound(name) {
                        assert(self@.lookup(name) is None && other@.lookup(name) is None);
                    }
                }
            } else if self.root@ == other.root@ {
                if !self@.includes(other@) {
                    let name = choose|name: Seq<char>| #[trigger]
                        other@.bound(name) && self@.type_of(name) != other@.type_of(name);
                    assert(self@.type_of(name) != other@.type_of(name));
                } else {
                    let name = choose|name: Seq<char>| #[trigger]
                        self@.bound(name) && other@.type_of(name) != self@.type_of(name);
                    assert(self@.type_of(name) != other@.type_of(name));
                }
            }
        }
        r
    }
}

impl vstd::std_specs::cmp::PartialEqSpecImpl for Scope {
    open spec fn obeys_eq_spec() -> bool {
        true
    }

    open spec fn eq_spec(&self, other: &Scope) -> bool {
        self@.same(other@)
    }
}

impl Clone for Scope {
    fn clone(&self) -> (r: Scope)
        ensures
            r@ == self@,
    {
        proof {
            use_type_invariant(self);
        }
        let mut frames: Vec<Frame> = Vec::new();
        let mut i: usize = 0;
        while i < self.frames.len()
            invariant
                i <= self.frames@.len(),
                frames@.len() == i,
                forall|j: int| 0 <= j < i ==> (#[trigger] frames@[j])@ == self.frames@[j]@,
            decreases self.frames@.len() - i,
        {
            frames.push(self.frames[i].clone());
            i += 1;
        }
        assert(frames_of(frames@) =~= frames_of(self.frames@));
        Scope { root: self.root.clone(), frames }
    }
}

impl From<DType> for Scope {
    fn from(root: DType) -> (r: Scope)
        ensures
            r@ == (ScopeModel { root: root@, frames: Seq::empty() }),
    {
        Scope::new(root)
    }
}

impl vstd::std_specs::convert::FromSpecImpl<DType> for Scope {
    open spec fn obeys_from_spec() -> bool {
        false
    }

    open spec fn from_spec(root: DType) -> Scope {
        arbitrary()
    }
}

} // verus!
