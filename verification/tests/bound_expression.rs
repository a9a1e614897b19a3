use std::collections::hash_map::DefaultHasher;
use std::hash::{Hash, Hasher};

use vortex::dtype::{DType, Nullability, PType};
use vortex::error::Error;
use vortex::expr::bound_expression::{BoundExpression, BoundLambda, ExactBoundExpr};
use vortex::expr::expression::{
    checked_add, col, eq, is_not_null, lambda, lit, root, var, Expression,
};
use vortex::expr::scope::{Frame, Scope};
use vortex::expr::variable::Variable;
use vortex::hashing::Fed;
use vortex::scalar::Scalar;
use vortex::scalar_fn::{IsNotNull, Literal, Operator, ScalarFnRef};

fn struct_dtype() -> DType {
    DType::Struct(
        vec![
            ("a".to_string(), DType::Primitive(PType::I32, Nullability::NonNullable)),
            ("col1".to_string(), DType::Primitive(PType::U16, Nullability::Nullable)),
            ("col2".to_string(), DType::Primitive(PType::U16, Nullability::Nullable)),
            ("bool1".to_string(), DType::Bool(Nullability::NonNullable)),
            ("bool2".to_string(), DType::Bool(Nullability::NonNullable)),
        ],
        Nullability::NonNullable,
    )
}

fn scope() -> Scope {
    Scope::new(struct_dtype())
}

fn num(value: i128) -> Expression {
    lit(Scalar::primitive(PType::I32, value, Nullability::NonNullable))
}

fn yes() -> Expression {
    lit(Scalar::bool(true, Nullability::NonNullable))
}

fn text(value: &str) -> Expression {
    lit(Scalar::utf8(value.to_string(), Nullability::NonNullable))
}

fn samples() -> Vec<Expression> {
    vec![root(), col("a"), eq(col("a"), num(1)), yes()]
}

#[test]
fn root_binds_to_the_scope() -> Result<(), Error> {
    let bound = root().bind_scope(&scope())?;
    assert!(bound.is_root());
    assert_eq!(bound.dtype(), &struct_dtype());
    assert_eq!(bound, BoundExpression::new_root(struct_dtype()));
    Ok(())
}

#[test]
fn every_node_carries_its_dtype() -> Result<(), Error> {
    let expr = eq(col("a"), num(1));
    let bound = expr.bind_scope(&scope())?;

    assert_eq!(bound.dtype(), &DType::Bool(Nullability::NonNullable));

    let lhs = &bound.children()[0];
    assert_eq!(lhs.dtype(), &DType::Primitive(PType::I32, Nullability::NonNullable));
    assert_eq!(lhs.children()[0].dtype(), &struct_dtype());
    assert_eq!(bound.child(0), lhs);
    Ok(())
}

#[test]
fn bind_agrees_with_return_dtype() -> Result<(), Error> {
    for expr in samples() {
        assert_eq!(
            expr.bind(&struct_dtype())?.dtype(),
            &expr.return_dtype(&struct_dtype())?,
            "disagreement for {}",
            expr.display()
        );
    }
    Ok(())
}

#[test]
fn bind_and_return_dtype_fail_alike() {
    let refused = vec![
        (col("missing"), Error::UnknownField),
        (var("x"), Error::UnboundVariable),
        (eq(col("a"), text("nope")), Error::TypeMismatch),
        (
            Expression::Scalar { scalar_fn: ScalarFnRef::Binary(Operator::Eq), children: vec![root()] },
            Error::ArityMismatch,
        ),
        (eq(var("first"), col("missing")), Error::UnboundVariable),
    ];
    for (expr, error) in refused {
        assert_eq!(expr.bind(&struct_dtype()).err(), Some(error));
        assert_eq!(expr.return_dtype(&struct_dtype()).err(), Some(error));
    }
}

#[test]
fn contains_scalar_function() -> Result<(), Error> {
    let bound = eq(col("a"), num(1)).bind_scope(&scope())?;
    assert!(bound.contains::<Literal>()?);
    assert!(!root().bind_scope(&scope())?.contains::<Literal>()?);
    Ok(())
}

#[test]
fn bound_to_checks_every_root() -> Result<(), Error> {
    let dtype = struct_dtype();
    let bound = eq(col("a"), col("a")).bind(&dtype)?;
    assert!(bound.is_root_bound_to(&dtype));
    assert!(!bound.is_root_bound_to(&DType::Bool(Nullability::NonNullable)));
    assert!(yes().bind(&dtype)?.is_root_bound_to(&DType::Bool(Nullability::NonNullable)));
    Ok(())
}

#[test]
fn bound_display_matches_unbound() -> Result<(), Error> {
    for expr in samples() {
        let bound = expr.bind_scope(&scope())?;
        assert_eq!(bound.display(), expr.display());
        assert_eq!(bound.display_tree(), expr.display_tree());
    }
    Ok(())
}

#[test]
fn expressions_read_as_text() -> Result<(), Error> {
    assert_eq!(root().display(), "$");
    assert_eq!(var("x").display(), "$x");
    assert_eq!(col("a").display(), "$.a");
    assert_eq!(eq(col("a"), num(-12)).display(), "($.a = -12i32)");
    assert_eq!(is_not_null(text("hi")).display(), "is_not_null(\"hi\")");
    let params = vec![Variable::new("x"), Variable::new("y")];
    assert_eq!(lambda(params, checked_add(var("x"), var("y")))?.display(), "(x, y) -> ($x + $y)");
    assert_eq!(lambda(vec![], root())?.display(), "() -> $");
    Ok(())
}

#[test]
fn expressions_read_as_trees() -> Result<(), Error> {
    assert_eq!(
        eq(col("a"), num(1)).display_tree(),
        "binary(=)\n├── get_item(a)\n│   └── root()\n└── literal(1i32)"
    );
    assert_eq!(
        lambda(vec![Variable::new("x")], is_not_null(var("x")))?.display_tree(),
        "lambda(x)\n└── is_not_null()\n    └── variable(x)"
    );
    Ok(())
}

#[test]
fn variable_binds_to_its_lexical_frame() -> Result<(), Error> {
    let scope = scope().push_frame(Frame::try_new(vec![(
        Variable::new("value"),
        DType::Primitive(PType::I64, Nullability::Nullable),
    )])?)?;

    let bound = var("value").bind_scope(&scope)?;
    let (variable, reference) = bound.as_variable().expect("variable must remain bound");

    assert_eq!(variable, &Variable::new("value"));
    assert_eq!(reference.frame(), 0);
    assert_eq!(reference.slot(), 0);
    assert_eq!(bound.dtype(), &DType::Primitive(PType::I64, Nullability::Nullable));
    Ok(())
}

#[test]
fn variables_of_inner_frames_keep_outer_locations() -> Result<(), Error> {
    let i32_ = || DType::Primitive(PType::I32, Nullability::NonNullable);
    let outer = Frame::try_new(vec![(Variable::new("x"), i32_()), (Variable::new("y"), i32_())])?;
    let inner = Frame::try_new(vec![(Variable::new("z"), i32_())])?;
    let outer_scope = scope().push_frame(outer)?;
    let before = var("y").bind_scope(&outer_scope)?;
    let inner_scope = outer_scope.push_frame(inner)?;
    assert_eq!(var("y").bind_scope(&inner_scope)?, before);
    let z = var("z").bind_scope(&inner_scope)?;
    let (_, reference) = z.as_variable().unwrap();
    assert_eq!((reference.frame(), reference.slot()), (1, 0));
    Ok(())
}

#[test]
fn variable_validity_is_deferred_to_its_bound_array() -> Result<(), Error> {
    let scope = scope().push_frame(Frame::try_new(vec![(
        Variable::new("value"),
        DType::Primitive(PType::I32, Nullability::Nullable),
    )])?)?;
    let expression = checked_add(var("value"), num(1));

    let validity = expression.validity()?;
    assert!(validity.contains::<IsNotNull>()?);
    assert_eq!(
        validity.bind_scope(&scope)?.dtype(),
        &DType::Bool(Nullability::NonNullable)
    );
    Ok(())
}

#[test]
fn binding_lambda_syntax_returns_an_error() -> Result<(), Error> {
    let x = || vec![Variable::new("x")];
    assert!(lambda(x(), var("x"))?.bind_scope(&scope()).is_err());
    assert!(eq(lambda(x(), var("x"))?, num(1)).bind_scope(&scope()).is_err());
    assert_eq!(
        lambda(x(), var("x"))?.bind_scope(&scope()).err(),
        Some(Error::LambdaOutsideBinder)
    );
    Ok(())
}

#[test]
fn structural_and_exact_equality_are_distinct() -> Result<(), Error> {
    let expr = eq(col("a"), num(1));
    let bound = expr.bind_scope(&scope())?;
    let independently_bound = expr.bind_scope(&scope())?;

    assert_eq!(bound, independently_bound);
    assert_eq!(ExactBoundExpr(bound.clone()), ExactBoundExpr(bound.clone()));
    assert_ne!(ExactBoundExpr(bound), ExactBoundExpr(independently_bound));
    Ok(())
}

fn hash_of(expr: &ExactBoundExpr) -> u64 {
    let mut hasher = DefaultHasher::new();
    expr.hash(&mut hasher);
    hasher.finish()
}

#[test]
fn exact_equality_agrees_with_the_hash() -> Result<(), Error> {
    let bound = eq(col("a"), num(1)).bind_scope(&scope())?;
    let copy = ExactBoundExpr(bound.clone());
    assert_eq!(hash_of(&ExactBoundExpr(bound)), hash_of(&copy));

    let root_a = ExactBoundExpr(BoundExpression::new_root(struct_dtype()));
    let root_b = ExactBoundExpr(BoundExpression::new_root(struct_dtype()));
    assert_eq!(root_a, root_b);
    assert_eq!(hash_of(&root_a), hash_of(&root_b));
    assert_ne!(root_a, copy);
    assert_ne!(root_a, ExactBoundExpr(BoundExpression::new_root(DType::Null)));
    Ok(())
}

#[test]
fn binding_reports_a_type_error() {
    assert!(eq(col("a"), text("nope")).bind_scope(&scope()).is_err());
}

#[test]
fn with_children_computes_the_type_anew() -> Result<(), Error> {
    let bound = eq(col("a"), num(1)).bind_scope(&scope())?;
    let nullable = col("col1").bind_scope(&scope())?;
    let rebuilt = bound.clone().with_children(vec![nullable.clone(), nullable.clone()])?;
    assert_eq!(rebuilt.dtype(), &DType::Bool(Nullability::Nullable));
    assert_eq!(bound.clone().with_children(vec![]).err(), Some(Error::ArityMismatch));

    let root = root().bind_scope(&scope())?;
    assert_eq!(root.clone().with_children(vec![])?, root);
    assert_eq!(root.with_children(vec![nullable]).err(), Some(Error::UnexpectedChildren));
    Ok(())
}

#[test]
fn options_are_found_by_function() -> Result<(), Error> {
    let bound = num(7).bind_scope(&scope())?;
    assert!(bound.is::<Literal>());
    assert!(!bound.is::<IsNotNull>());
    assert_eq!(bound.as_::<Literal>().display(), "7i32");
    assert!(bound.as_opt::<IsNotNull>().is_none());
    assert!(root().bind_scope(&scope())?.as_scalar().is_none());
    Ok(())
}

#[test]
fn a_bound_lambda_knows_its_parameters() -> Result<(), Error> {
    let i32_ = DType::Primitive(PType::I32, Nullability::NonNullable);
    let frame = Frame::try_new(vec![(Variable::new("x"), i32_.clone())])?;
    let bound = BoundLambda::bind(&scope(), frame.clone(), &eq(var("x"), col("a")))?;
    assert_eq!(bound.frame(), &frame);
    assert_eq!(bound.bindings().len(), 1);
    assert_eq!(bound.params(), vec![&Variable::new("x")]);
    assert_eq!(bound.param_dtypes(), vec![&i32_]);
    assert_eq!(bound.body_dtype(), &DType::Bool(Nullability::NonNullable));
    assert_eq!(bound.body().children().len(), 2);
    assert_eq!(bound.clone(), bound);
    Ok(())
}

fn deepened(mut tree: BoundExpression, depth: usize) -> Result<BoundExpression, Error> {
    for _ in 0..depth {
        tree = BoundExpression::try_new(
            ScalarFnRef::IsNotNull(vortex::scalar_fn::EmptyOptions),
            vec![tree],
        )?;
    }
    Ok(tree)
}

#[test]
fn deep_trees_are_dropped() -> Result<(), Error> {
    drop(deepened(BoundExpression::new_root(struct_dtype()), 200_000)?);
    Ok(())
}

#[test]
fn deep_branches_are_dropped() -> Result<(), Error> {
    let not_null = |depth| deepened(num(1).bind_scope(&scope())?, depth);
    let mut tree = not_null(1)?;
    for _ in 0..1_000 {
        tree = BoundExpression::try_new(
            ScalarFnRef::Binary(Operator::Eq),
            vec![not_null(100)?, tree],
        )?;
    }
    drop(tree);
    Ok(())
}

#[test]
fn dropping_a_clone_keeps_what_is_shared() -> Result<(), Error> {
    let shared = deepened(num(1).bind_scope(&scope())?, 3)?;
    let expected = deepened(num(1).bind_scope(&scope())?, 3)?;
    let parent = deepened(shared.clone(), 2)?;
    drop(parent);
    drop(shared.clone());
    assert_eq!(shared, expected);
    Ok(())
}

#[test]
fn what_is_hashed_tells_nodes_apart() -> Result<(), Error> {
    let items = |expr: Expression, address: usize| -> Result<Vec<Fed>, Error> {
        Ok(ExactBoundExpr(expr.bind_scope(&scope())?).identity_feed(address))
    };
    assert_eq!(items(root(), 5)?, vec![Fed::Byte(0)]);
    assert_eq!(
        items(col("a"), 258)?,
        vec![Fed::Byte(1), Fed::Bytes(vec![1, b'a']), Fed::Word(258)]
    );
    assert_ne!(items(num(1), 0)?, items(num(2), 0)?);
    assert_ne!(items(num(1), 0)?, items(num(1), 8)?);
    Ok(())
}

/// A hasher that remembers the calls made on it.
#[derive(Default)]
struct Recorder {
    calls: Vec<Fed>,
}

impl Hasher for Recorder {
    fn finish(&self) -> u64 {
        0
    }

    fn write(&mut self, bytes: &[u8]) {
        self.calls.push(Fed::Bytes(bytes.to_vec()));
    }

    fn write_u8(&mut self, byte: u8) {
        self.calls.push(Fed::Byte(byte));
    }

    fn write_usize(&mut self, word: usize) {
        self.calls.push(Fed::Word(word));
    }
}

fn calls_of(expr: &ExactBoundExpr) -> Vec<Fed> {
    let mut recorder = Recorder::default();
    expr.hash(&mut recorder);
    recorder.calls
}

#[test]
fn equal_keys_make_the_same_calls_on_a_hasher() -> Result<(), Error> {
    let bound = eq(col("a"), num(1)).bind_scope(&scope())?;
    let key = ExactBoundExpr(bound.clone());
    let calls = calls_of(&key);
    assert_eq!(calls, calls_of(&ExactBoundExpr(bound)));
    assert_eq!(calls.len(), 3);
    assert_eq!(calls[0], Fed::Byte(1));
    let other = ExactBoundExpr(eq(col("a"), num(1)).bind_scope(&scope())?);
    assert_eq!(calls[..2], calls_of(&other)[..2]);
    assert_ne!(calls[2], calls_of(&other)[2]);
    Ok(())
}

#[test]
fn the_type_of_a_root_is_not_hashed() {
    for dtype in [struct_dtype(), DType::Null, DType::Bool(Nullability::Nullable)] {
        let root = ExactBoundExpr(BoundExpression::new_root(dtype));
        assert_eq!(calls_of(&root), vec![Fed::Byte(0)]);
    }
}

#[test]
fn a_variable_is_hashed_by_name_and_location() -> Result<(), Error> {
    let i32_ = DType::Primitive(PType::I32, Nullability::NonNullable);
    let scope = scope().with_bindings(vec![
        (Variable::new("x"), i32_.clone()),
        (Variable::new("yz"), i32_),
    ])?;
    let key = ExactBoundExpr(var("yz").bind_scope(&scope)?);
    assert_eq!(
        calls_of(&key),
        vec![
            Fed::Byte(2),
            Fed::Bytes(b"yz".to_vec()),
            Fed::Byte(0xff),
            Fed::Word(0),
            Fed::Word(1)
        ]
    );
    Ok(())
}

#[test]
fn structural_hashes_agree_with_structural_equality() -> Result<(), Error> {
    let hash = |expr: &BoundExpression| {
        let mut hasher = DefaultHasher::new();
        expr.hash(&mut hasher);
        hasher.finish()
    };
    let first = eq(col("a"), num(1)).bind_scope(&scope())?;
    let second = eq(col("a"), num(1)).bind_scope(&scope())?;
    assert_eq!(hash(&first), hash(&second));
    Ok(())
}

#[test]
fn a_node_of_another_kind_is_not_the_same_tree() -> Result<(), Error> {
    let literal = ExactBoundExpr(num(1).bind_scope(&scope())?);
    let other = ExactBoundExpr(num(1).bind_scope(&scope())?);
    assert!(literal.same_tree(&other, true));
    assert!(!literal.same_tree(&other, false));
    assert!(!literal.same_tree(&ExactBoundExpr(root().bind_scope(&scope())?), true));
    Ok(())
}
