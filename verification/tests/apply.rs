use vortex::apply::Bindings;
use vortex::arrays::array::ArrayRef;
use vortex::arrays::canonical::{
    BoolArray, Canonical, PrimitiveArray, StructArray, Validity, VarBin, VarBinViewArray,
};
use vortex::dtype::{DType, Nullability, PType};
use vortex::error::Error;
use vortex::expr::expression::{
    and, checked_add, col, eq, is_not_null, lit, root, var, Expression,
};
use vortex::expr::scope::{Frame, Scope};
use vortex::expr::variable::Variable;
use vortex::scalar::Scalar;
use vortex::scalar_fn::Operator;

fn numbers(ptype: PType, values: &[i128]) -> ArrayRef {
    ArrayRef::canonical(Canonical::Primitive(PrimitiveArray::new(
        ptype,
        values.to_vec(),
        Validity::NonNullable,
    )))
}

fn nullable(values: &[Option<i128>]) -> ArrayRef {
    ArrayRef::canonical(Canonical::Primitive(PrimitiveArray::from_options(
        PType::I32,
        &values.to_vec(),
        Nullability::Nullable,
    )))
}

fn i32_() -> DType {
    DType::Primitive(PType::I32, Nullability::NonNullable)
}

fn lit_i32(value: i128) -> Expression {
    lit(Scalar::primitive(PType::I32, value, Nullability::NonNullable))
}

fn value_scope() -> Result<Scope, Error> {
    Scope::new(i32_()).with_bindings(vec![(Variable::new("value"), i32_())])
}

fn rows(array: &ArrayRef) -> Result<Vec<Option<i128>>, Error> {
    let array = array.execute()?;
    let array = array.as_primitive().unwrap();
    Ok((0..array.len()).map(|i| array.get(i)).collect())
}

fn truths(array: &ArrayRef) -> Result<Vec<Option<bool>>, Error> {
    let array = array.execute()?;
    let array = array.as_bool().unwrap();
    Ok((0..array.len()).map(|i| array.get(i)).collect())
}

#[test]
fn applies_external_variable_binding() -> Result<(), Error> {
    let root = numbers(PType::I32, &[0, 0, 0]);
    let values = numbers(PType::I32, &[10, 20, 30]);
    let scope = value_scope()?;
    let expr = checked_add(var("value"), lit_i32(1));

    let bound = expr.bind_scope(&scope)?;
    let bindings = Bindings::from_scope(&scope, vec![(Variable::new("value"), values)])?;
    let result = root.apply_bound_with_bindings(&bound, &bindings)?;

    assert_eq!(result.dtype(), i32_());
    assert_eq!(rows(&result)?, vec![Some(11), Some(21), Some(31)]);
    Ok(())
}

#[test]
fn bound_application_checks_external_binding_length() -> Result<(), Error> {
    let root = numbers(PType::I32, &[0, 0, 0]);
    let values = numbers(PType::I32, &[10, 20]);
    let scope = value_scope()?;
    let bound = var("value").bind_scope(&scope)?;
    let bindings = Bindings::from_scope(&scope, vec![(Variable::new("value"), values)])?;

    assert!(root.clone().apply_bound_with_bindings(&bound, &bindings).is_err());
    assert_eq!(
        root.apply_bound_with_bindings(&bound, &bindings).err(),
        Some(Error::BindingLength)
    );
    Ok(())
}

#[test]
fn bound_application_checks_root_dtype() -> Result<(), Error> {
    let expected = i32_();
    let bound = root().bind(&expected)?;
    let root = numbers(PType::I64, &[0, 0]);

    assert!(root.clone().apply_bound(&bound).is_err());
    assert_eq!(root.apply_bound(&bound).err(), Some(Error::RootType));
    Ok(())
}

#[test]
fn external_bindings_check_scope_root_dtype() -> Result<(), Error> {
    let root = numbers(PType::I64, &[0, 0]);
    let values = numbers(PType::I32, &[10, 20]);
    let scope = value_scope()?;
    let bound = var("value").bind_scope(&scope)?;
    let bindings = Bindings::from_scope(&scope, vec![(Variable::new("value"), values)])?;

    assert!(root.clone().apply_bound_with_bindings(&bound, &bindings).is_err());
    assert_eq!(root.apply_bound_with_bindings(&bound, &bindings).err(), Some(Error::RootType));
    Ok(())
}

#[test]
fn bindings_are_checked_against_the_scope() -> Result<(), Error> {
    let scope = value_scope()?;
    let array = || numbers(PType::I32, &[1]);
    let named = |name: &str| (Variable::new(name), array());

    assert_eq!(
        Bindings::from_scope(&scope, vec![named("other")]).err(),
        Some(Error::UnknownBinding)
    );
    assert_eq!(
        Bindings::from_scope(&scope, vec![(Variable::new("value"), numbers(PType::I64, &[1]))])
            .err(),
        Some(Error::BindingType)
    );
    assert_eq!(
        Bindings::from_scope(&scope, vec![named("value"), named("value")]).err(),
        Some(Error::DuplicateBinding)
    );
    let nested = scope.push_frame(Frame::try_new(vec![(Variable::new("inner"), i32_())])?)?;
    assert_eq!(
        Bindings::from_scope(&nested, vec![named("value")]).err(),
        Some(Error::TooManyFrames)
    );
    Ok(())
}

#[test]
fn a_missing_binding_is_reported() -> Result<(), Error> {
    let scope = value_scope()?;
    let bound = var("value").bind_scope(&scope)?;
    assert_eq!(
        numbers(PType::I32, &[1]).apply_bound(&bound).err(),
        Some(Error::MissingBinding)
    );
    let none = Bindings::from_scope(&scope, vec![])?;
    assert_eq!(
        numbers(PType::I32, &[1]).apply_bound_with_bindings(&bound, &none).err(),
        Some(Error::MissingBinding)
    );
    let other = Scope::new(i32_())
        .with_bindings(vec![(Variable::new("value"), DType::Bool(Nullability::NonNullable))])?;
    let bound_elsewhere = var("value").bind_scope(&other)?;
    let given =
        Bindings::from_scope(&scope, vec![(Variable::new("value"), numbers(PType::I32, &[1]))])?;
    assert_eq!(
        numbers(PType::I32, &[1]).apply_bound_with_bindings(&bound_elsewhere, &given).err(),
        Some(Error::BindingType)
    );
    Ok(())
}

#[test]
fn default_bindings_admit_every_root() -> Result<(), Error> {
    let bound = root().bind(&i32_())?;
    let applied =
        numbers(PType::I32, &[5]).apply_bound_with_bindings(&bound, &Bindings::default())?;
    assert_eq!(rows(&applied)?, vec![Some(5)]);
    Ok(())
}

fn people() -> Result<ArrayRef, Error> {
    let ages = PrimitiveArray::from_options(
        PType::I32,
        &vec![Some(30), None, Some(41)],
        Nullability::Nullable,
    );
    let names = VarBinViewArray::new(
        VarBin::Text(vec!["ann".to_string(), "bo".to_string(), "cy".to_string()]),
        Validity::NonNullable,
    );
    Ok(ArrayRef::canonical(Canonical::Struct(StructArray::try_new(
        vec!["age".to_string(), "name".to_string()],
        vec![Canonical::Primitive(ages), Canonical::VarBinView(names)],
        3,
        Validity::NonNullable,
    )?)))
}

#[test]
fn fields_and_comparisons_are_applied_row_by_row() -> Result<(), Error> {
    let thirty = eq(col("age"), lit_i32(30));
    assert_eq!(truths(&people()?.apply(&thirty)?)?, vec![Some(true), None, Some(false)]);
    let known = is_not_null(col("age"));
    assert_eq!(truths(&people()?.apply(&known)?)?, vec![Some(true), Some(false), Some(true)]);
    let bo = eq(col("name"), lit(Scalar::utf8("bo".to_string(), Nullability::NonNullable)));
    assert_eq!(truths(&people()?.apply(&bo)?)?, vec![Some(false), Some(true), Some(false)]);
    let both = and(thirty, bo);
    assert_eq!(truths(&people()?.apply(&both)?)?, vec![Some(false), None, Some(false)]);
    Ok(())
}

#[test]
fn validity_says_what_is_not_null() -> Result<(), Error> {
    let sum = checked_add(col("age"), lit_i32(1));
    let validity = sum.validity()?;
    assert_eq!(rows(&people()?.apply(&sum)?)?, vec![Some(31), None, Some(42)]);
    let valid = people()?.apply(&validity)?;
    assert_eq!(valid.dtype(), DType::Bool(Nullability::NonNullable));
    assert_eq!(truths(&valid)?, vec![Some(true), Some(false), Some(true)]);
    let null = lit(Scalar::null(DType::Primitive(PType::I32, Nullability::Nullable)));
    assert_eq!(truths(&people()?.apply(&null.validity()?)?)?, vec![Some(false); 3]);
    Ok(())
}

#[test]
fn overflow_is_met_when_the_array_is_executed() -> Result<(), Error> {
    let expr = checked_add(root(), lit_i32(1));
    let applied = numbers(PType::I32, &[1, 2_147_483_647]).apply(&expr)?;
    assert_eq!(applied.len(), 2);
    assert_eq!(applied.execute().err(), Some(Error::Overflow));
    let applied = nullable(&[Some(1), None]).apply(&expr)?;
    assert_eq!(rows(&applied)?, vec![Some(2), None]);
    Ok(())
}

#[test]
fn application_fails_where_binding_fails() {
    let applied = numbers(PType::I32, &[1]).apply(&var("x"));
    assert_eq!(applied.err(), Some(Error::UnboundVariable));
    let applied = numbers(PType::I32, &[1]).apply(&col("x"));
    assert_eq!(applied.err(), Some(Error::TypeMismatch));
}

#[test]
fn lengths_must_agree() {
    let made = numbers(PType::I32, &[1, 2]).binary(numbers(PType::I32, &[1]), Operator::Eq);
    assert_eq!(made.err(), Some(Error::InvalidArray));
}

#[test]
fn connectives_are_three_valued() -> Result<(), Error> {
    let options = |rows: &[Option<bool>]| {
        ArrayRef::canonical(Canonical::Bool(BoolArray::from_options(
            &rows.to_vec(),
            Nullability::Nullable,
        )))
    };
    let left = options(&[Some(true), Some(true), Some(false), None]);
    let right = options(&[Some(true), None, None, None]);
    let both = left.binary(right.clone(), Operator::And)?;
    assert_eq!(truths(&both)?, vec![Some(true), None, Some(false), None]);
    let either = left.binary(right, Operator::Or)?;
    assert_eq!(truths(&either)?, vec![Some(true), Some(true), None, None]);
    Ok(())
}
