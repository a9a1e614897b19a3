use vortex::error::Error;
use vortex::expr::expression::{lambda, var, Expression};
use vortex::expr::lambda::Lambda;
use vortex::expr::variable::Variable;

#[test]
fn duplicate_lambda_parameters_are_rejected() {
    assert!(lambda(vec![Variable::new("x"), Variable::new("x")], var("x")).is_err());
}

#[test]
fn duplicate_parameters_are_rejected() {
    let params = vec![Variable::new("x"), Variable::new("x")];
    assert!(Lambda::try_new(params, Expression::Root).is_err());
}

#[test]
fn a_lambda_keeps_its_parameters_and_body() -> Result<(), Error> {
    let made = Lambda::try_new(vec![Variable::new("x"), Variable::new("y")], var("y"))?;
    assert_eq!(made.params(), &[Variable::new("x"), Variable::new("y")]);
    assert_eq!(made.body(), &var("y"));
    assert_eq!(Expression::from(made.clone()), Expression::Lambda(made));
    Ok(())
}

#[test]
fn only_an_unshared_body_is_taken() -> Result<(), Error> {
    let mut made = Lambda::try_new(vec![Variable::new("x")], var("x"))?;
    let copy = made.clone();
    assert_eq!(made.take_unique_body(), None);
    assert_eq!(made.body(), &var("x"));
    drop(copy);
    assert_eq!(made.take_unique_body(), Some(var("x")));
    assert_eq!(made.body(), &Expression::Root);
    Ok(())
}

#[test]
fn a_given_body_is_taken_and_replaced() {
    let mut body = var("x");
    assert_eq!(Lambda::take_body(Some(&mut body)), Some(var("x")));
    assert_eq!(body, Expression::Root);
    assert_eq!(Lambda::take_body(None), None);
}
