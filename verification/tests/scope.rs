use vortex::dtype::{DType, Nullability, PType};
use vortex::error::Error;
use vortex::expr::scope::{Frame, Scope};
use vortex::expr::variable::Variable;

fn i32_() -> DType {
    DType::Primitive(PType::I32, Nullability::NonNullable)
}

fn utf8() -> DType {
    DType::Utf8(Nullability::NonNullable)
}

#[test]
fn root_round_trips() {
    let dtype = DType::Bool(Nullability::Nullable);
    assert_eq!(Scope::new(dtype.clone()).root(), &dtype);
    assert_eq!(Scope::from(dtype.clone()).root(), &dtype);
}

#[test]
fn an_empty_scope_resolves_nothing() {
    let scope = Scope::new(i32_());
    assert!(scope.resolve(&Variable::new("x")).is_none());
}

#[test]
fn bindings_resolve_by_name() -> Result<(), Error> {
    let scope = Scope::new(i32_())
        .with_bindings(vec![(Variable::new("a"), i32_()), (Variable::new("b"), utf8())])?;

    assert_eq!(scope.resolve(&Variable::new("a")), Some(&i32_()));
    assert_eq!(scope.resolve(&Variable::new("b")), Some(&utf8()));
    Ok(())
}

#[test]
fn duplicate_names_are_rejected() -> Result<(), Error> {
    let mut scope = Scope::new(i32_());
    scope.bind(Variable::new("x"), i32_())?;
    assert!(scope.bind(Variable::new("x"), utf8()).is_err());
    assert!(Scope::new(i32_())
        .with_bindings(vec![(Variable::new("x"), i32_()), (Variable::new("x"), utf8())])
        .is_err());
    Ok(())
}

#[test]
fn a_refused_binding_changes_nothing() -> Result<(), Error> {
    let mut scope = Scope::new(i32_());
    scope.bind(Variable::new("x"), i32_())?;
    assert_eq!(scope.bind(Variable::new("x"), utf8()), Err(Error::AlreadyBound));
    assert_eq!(scope.resolve(&Variable::new("x")), Some(&i32_()));
    scope.bind(Variable::new("y"), utf8())?;
    assert_eq!(scope.resolve(&Variable::new("x")), Some(&i32_()));
    assert_eq!(scope.resolve(&Variable::new("y")), Some(&utf8()));
    assert_eq!(scope.depth(), 1);
    Ok(())
}

#[test]
fn frames_do_not_shadow() -> Result<(), Error> {
    let frame = Frame::try_new(vec![(Variable::new("x"), utf8())])?;
    let scope = Scope::new(i32_()).with_bindings(vec![(Variable::new("x"), i32_())])?;
    assert!(scope.push_frame(frame).is_err());
    let twice = vec![(Variable::new("x"), utf8()), (Variable::new("x"), utf8())];
    assert_eq!(Frame::try_new(twice).err(), Some(Error::DuplicateParameter));
    Ok(())
}

#[test]
fn scopes_are_equal_whatever_the_order() -> Result<(), Error> {
    let bound = |bindings: Vec<(&str, DType)>| {
        let named = bindings.into_iter().map(|(name, dtype)| (Variable::new(name), dtype));
        Scope::new(i32_()).with_bindings(named.collect())
    };
    let scope = bound(vec![("a", i32_()), ("b", utf8())])?;
    assert_eq!(scope, bound(vec![("b", utf8()), ("a", i32_())])?);
    assert_eq!(scope, scope.clone());
    assert_ne!(scope, bound(vec![("a", i32_()), ("b", i32_())])?);
    assert_ne!(scope, bound(vec![("a", i32_())])?);
    assert_ne!(bound(vec![("a", i32_())])?, scope);
    assert_ne!(Scope::new(i32_()), Scope::new(utf8()));
    Ok(())
}
