//! Expressions as text.

use vstd::prelude::*;
use vstd::string::StringExecFns;

use crate::dtype::{DType, PType, TypeModel};
use crate::expr::bound_expression::{bounds_of, BoundExpression, BoundModel};
use crate::expr::expression::{exprs_of, ExprModel, Expression};
use crate::expr::laws::{law_bound_is_faithful, unbounds};
use crate::expr::scope::ScopeModel;
use crate::scalar::{Scalar, ScalarModel, ScalarValue, Value};
use crate::scalar_fn::{FnModel, LikeOptions, Operator, ScalarFnRef};
use crate::text::{join, joined, number, number_text, texts_of};

verus! {

/// The name of a primitive type.
pub open spec fn ptype_name(ptype: PType) -> Seq<char> {
    match ptype {
        PType::U8 => "u8"@,
        PType::U16 => "u16"@,
        PType::U32 => "u32"@,
        PType::U64 => "u64"@,
        PType::I8 => "i8"@,
        PType::I16 => "i16"@,
        PType::I32 => "i32"@,
        PType::I64 => "i64"@,
        PType::F16 => "f16"@,
        PType::F32 => "f32"@,
        PType::F64 => "f64"@,
    }
}

/// A number for each byte of a byte string.
pub open spec fn byte_texts(bytes: Seq<u8>) -> Seq<Seq<char>> {
    Seq::new(bytes.len(), |i: int| number(bytes[i] as int))
}

/// A constant as text: an integer with its type, a floating-point number by its bits, a text in
/// quotes, a byte string byte by byte.
pub open spec fn scalar_text(scalar: ScalarModel) -> Seq<char> {
    match scalar.value {
        Value::Null => "null"@,
        Value::Bool(b) => if b {
            "true"@
        } else {
            "false"@
        },
        Value::Int(n) => match scalar.dtype {
            TypeModel::Primitive(ptype, _) => number(n) + ptype_name(ptype),
            TypeModel::Decimal(decimal, _) => "decimal("@ + number(n) + ", "@ + number(
                decimal.precision as int,
            ) + ", "@ + number(decimal.scale as int) + ")"@,
            _ => number(n),
        },
        Value::Float(ptype, bits) => ptype_name(ptype) + "::from_bits("@ + number(bits) + ")"@,
        Value::Text(text) => "\""@ + text + "\""@,
        Value::Bytes(bytes) => "["@ + joined(byte_texts(bytes), ", "@) + "]"@,
        _ => Seq::empty(),
    }
}

/// The sign of a binary operation.
pub open spec fn operator_text(operator: Operator) -> Seq<char> {
    match operator {
        Operator::Eq => "="@,
        Operator::NotEq => "!="@,
        Operator::Gt => ">"@,
        Operator::Gte => ">="@,
        Operator::Lt => "<"@,
        Operator::Lte => "<="@,
        Operator::And => "and"@,
        Operator::Or => "or"@,
        Operator::Add => "+"@,
        Operator::Sub => "-"@,
    }
}

/// The word between a text and its pattern.
pub open spec fn like_word(options: LikeOptions) -> Seq<char> {
    if options.negated {
        if options.case_insensitive {
            "not ilike"@
        } else {
            "not like"@
        }
    } else if options.case_insensitive {
        "ilike"@
    } else {
        "like"@
    }
}

/// What a function is called, with its options.
pub open spec fn fn_label(f: FnModel) -> Seq<char> {
    match f {
        FnModel::Literal(scalar) => "literal("@ + scalar_text(scalar) + ")"@,
        FnModel::GetItem(name) => "get_item("@ + name + ")"@,
        FnModel::Binary(operator) => "binary("@ + operator_text(operator) + ")"@,
        FnModel::IsNotNull => "is_not_null()"@,
        FnModel::Like(options) => "like("@ + like_word(options) + ")"@,
    }
}

/// A function applied to arguments that are given as text. A number of arguments that is not the
/// function's arity gives its label and the arguments in brackets.
pub open spec fn call_text(f: FnModel, args: Seq<Seq<char>>) -> Seq<char> {
    if args.len() != f.arity() {
        fn_label(f) + "["@ + joined(args, ", "@) + "]"@
    } else {
        match f {
            FnModel::Literal(scalar) => scalar_text(scalar),
            FnModel::GetItem(name) => args[0] + "."@ + name,
            FnModel::Binary(operator) => "("@ + args[0] + " "@ + operator_text(operator) + " "@
                + args[1] + ")"@,
            FnModel::IsNotNull => "is_not_null("@ + args[0] + ")"@,
            FnModel::Like(options) => args[0] + " "@ + like_word(options) + " "@ + args[1],
        }
    }
}

/// A list of expressions as text.
pub open spec fn expr_texts(children: Seq<ExprModel>) -> Seq<Seq<char>>
    decreases children,
{
    Seq::new(
        children.len(),
        |i: int|
            if 0 <= i < children.len() {
                children[i].text()
            } else {
                arbitrary()
            },
    )
}

/// A list of bound expressions as text.
pub open spec fn bound_texts(children: Seq<BoundModel>) -> Seq<Seq<char>>
    decreases children,
{
    Seq::new(
        children.len(),
        |i: int|
            if 0 <= i < children.len() {
                children[i].text()
            } else {
                arbitrary()
            },
    )
}

/// What stands in front of a child in a tree, and of the lines below it.
pub open spec fn branch(is_last: bool) -> (Seq<char>, Seq<char>) {
    if is_last {
        ("└── "@, "    "@)
    } else {
        ("├── "@, "│   "@)
    }
}

impl ExprModel {
    /// This expression as text.
    pub open spec fn text(self) -> Seq<char>
        decreases self,
    {
        match self {
            ExprModel::Root => "$"@,
            ExprModel::Variable(name) => "$"@ + name,
            ExprModel::Lambda(params, body) => "("@ + joined(params, ", "@) + ") -> "@
                + body.text(),
            ExprModel::Scalar(f, children) => call_text(f, expr_texts(children)),
        }
    }

    /// This expression as a tree, one node a line, each line behind the first starting with
    /// `indent`.
    pub open spec fn tree(self, indent: Seq<char>) -> Seq<char>
        decreases self, 0nat,
    {
        match self {
            ExprModel::Root => "root()"@,
            ExprModel::Variable(name) => "variable("@ + name + ")"@,
            ExprModel::Lambda(params, body) => "lambda("@ + joined(params, ", "@) + ")\n"@ + indent
                + branch(true).0 + body.tree(indent + branch(true).1),
            ExprModel::Scalar(f, children) => fn_label(f) + expr_branches(
                children,
                children.len(),
                indent,
            ),
        }
    }
}

/// The first `n` of a list of children, each on a line of its own and as a tree.
pub open spec fn expr_branches(children: Seq<ExprModel>, n: nat, indent: Seq<char>) -> Seq<char>
    decreases children, n,
{
    if n == 0 || n > children.len() {
        Seq::empty()
    } else {
        let (before, below) = branch(n == children.len());
        expr_branches(children, (n - 1) as nat, indent) + "\n"@ + indent + before
            + children[n - 1].tree(indent + below)
    }
}

impl BoundModel {
    /// This expression as text.
    pub open spec fn text(self) -> Seq<char>
        decreases self,
    {
        match self {
            BoundModel::Root(_) => "$"@,
            BoundModel::Variable(_, name, _) => "$"@ + name,
            BoundModel::Scalar(_, f, children) => call_text(f, bound_texts(children)),
        }
    }

    /// This expression as a tree, one node a line, each line behind the first starting with
    /// `indent`.
    pub open spec fn tree(self, indent: Seq<char>) -> Seq<char>
        decreases self, 0nat,
    {
        match self {
            BoundModel::Root(_) => "root()"@,
            BoundModel::Variable(_, name, _) => "variable("@ + name + ")"@,
            BoundModel::Scalar(_, f, children) => fn_label(f) + bound_branches(
                children,
                children.len(),
                indent,
            ),
        }
    }
}

/// The first `n` of a list of children, each on a line of its own and as a tree.
pub open spec fn bound_branches(children: Seq<BoundModel>, n: nat, indent: Seq<char>) -> Seq<char>
    decreases children, n,
{
    if n == 0 || n > children.len() {
        Seq::empty()
    } else {
        let (before, below) = branch(n == children.len());
        bound_branches(children, (n - 1) as nat, indent) + "\n"@ + indent + before
            + children[n - 1].tree(indent + below)
    }
}

/// A bound expression reads like the expression it came from, as text and as a tree.
pub proof fn law_bound_reads_like_unbound(bound: BoundModel, indent: Seq<char>)
    ensures
        bound.text() == bound.unbound().text(),
        bound.tree(indent) == bound.unbound().tree(indent),
    decreases bound, 0nat,
{
    if let BoundModel::Scalar(_, f, children) = bound {
        let exprs = unbounds(children);
        assert forall|i: int| 0 <= i < children.len() implies #[trigger] bound_texts(children)[i]
            == expr_texts(exprs)[i] by {
            law_bound_reads_like_unbound(children[i], indent);
            assert(exprs[i] == children[i].unbound());
        }
        assert(bound_texts(children) =~= expr_texts(exprs));
        lemma_branches(children, children.len(), indent);
    }
}

/// An expression reads the same before and after it is bound.
pub proof fn law_bound_display_matches_unbound(expr: ExprModel, scope: ScopeModel)
    requires
        scope.fits(),
        expr.bind(scope) is Ok,
    ensures
        expr.bind(scope)->Ok_0.text() == expr.text(),
        expr.bind(scope)->Ok_0.tree(Seq::empty()) == expr.tree(Seq::empty()),
{
    law_bound_is_faithful(expr, scope);
    law_bound_reads_like_unbound(expr.bind(scope)->Ok_0, Seq::empty());
}

proof fn lemma_branches(children: Seq<BoundModel>, n: nat, indent: Seq<char>)
    ensures
        bound_branches(children, n, indent) == expr_branches(unbounds(children), n, indent),
    decreases children, n,
{
    if 0 < n <= children.len() {
        let (_, below) = branch(n == children.len());
        lemma_branches(children, (n - 1) as nat, indent);
        law_bound_reads_like_unbound(children[n - 1], indent + below);
    }
}

fn ptype_text(ptype: PType) -> (r: &'static str)
    ensures
        r@ == ptype_name(ptype),
{
    match ptype {
        PType::U8 => "u8",
        PType::U16 => "u16",
        PType::U32 => "u32",
        PType::U64 => "u64",
        PType::I8 => "i8",
        PType::I16 => "i16",
        PType::I32 => "i32",
        PType::I64 => "i64",
        PType::F16 => "f16",
        PType::F32 => "f32",
        PType::F64 => "f64",
    }
}

/// Texts with a comma between them.
pub(crate) fn list_text(texts: &Vec<String>) -> (r: String)
    ensures
        r@ == joined(texts_of(texts@), ", "@),
{
    proof {
        reveal_strlit(", ");
    }
    join(texts, ", ")
}

/// A text between two others.
pub(crate) fn wrap(before: &str, text: &str, after: &str) -> (r: String)
    ensures
        r@ == before@ + text@ + after@,
{
    let mut r = before.to_owned();
    r.append(text);
    r.append(after);
    r
}

fn bytes_text(bytes: &Vec<u8>) -> (r: String)
    ensures
        r@ == "["@ + joined(byte_texts(bytes@), ", "@) + "]"@,
{
    let mut texts: Vec<String> = Vec::new();
    let mut i: usize = 0;
    while i < bytes.len()
        invariant
            i <= bytes@.len(),
            texts@.len() == i,
            forall|j: int| 0 <= j < i ==> (#[trigger] texts@[j])@ == number(bytes@[j] as int),
        decreases bytes@.len() - i,
    {
        texts.push(number_text(bytes[i] as i128));
        i += 1;
    }
    assert(texts_of(texts@) =~= byte_texts(bytes@));
    wrap("[", &list_text(&texts), "]")
}

impl Scalar {
    /// This constant as text.
    pub fn display(&self) -> (r: String)
        ensures
            r@ == scalar_text(self@),
    {
        match self.value() {
            ScalarValue::Null => "null".to_owned(),
            ScalarValue::Bool(b) => if *b {
                "true".to_owned()
            } else {
                "false".to_owned()
            },
            ScalarValue::Int(n) => match self.dtype() {
                DType::Primitive(ptype, _) => if ptype.is_float() {
                    let mut r = ptype_text(*ptype).to_owned();
                    r.append("::from_bits(");
                    r.append(&number_text(*n));
                    r.append(")");
                    r
                } else {
                    let mut r = number_text(*n);
                    r.append(ptype_text(*ptype));
                    r
                },
                DType::Decimal(decimal, _) => {
                    let mut r = "decimal(".to_owned();
                    r.append(&number_text(*n));
                    r.append(", ");
                    r.append(&number_text(decimal.precision as i128));
                    r.append(", ");
                    r.append(&number_text(decimal.scale as i128));
                    r.append(")");
                    r
                },
                _ => number_text(*n),
            },
            ScalarValue::Text(text) => wrap("\"", text, "\""),
            ScalarValue::Bytes(bytes) => bytes_text(bytes),
        }
    }
}

impl Operator {
    /// The sign of this operation.
    pub fn sign(self) -> (r: &'static str)
        ensures
            r@ == operator_text(self),
    {
        match self {
            Operator::Eq => "=",
            Operator::NotEq => "!=",
            Operator::Gt => ">",
            Operator::Gte => ">=",
            Operator::Lt => "<",
            Operator::Lte => "<=",
            Operator::And => "and",
            Operator::Or => "or",
            Operator::Add => "+",
            Operator::Sub => "-",
        }
    }
}

impl LikeOptions {
    /// The word between a text and its pattern.
    pub fn word(self) -> (r: &'static str)
        ensures
            r@ == like_word(self),
    {
        if self.negated {
            if self.case_insensitive {
                "not ilike"
            } else {
                "not like"
            }
        } else if self.case_insensitive {
            "ilike"
        } else {
            "like"
        }
    }
}

impl ScalarFnRef {
    /// What this function is called, with its options.
    pub fn label(&self) -> (r: String)
        ensures
            r@ == fn_label(self@),
    {
        match self {
            ScalarFnRef::Literal(scalar) => wrap("literal(", &scalar.display(), ")"),
            ScalarFnRef::GetItem(name) => wrap("get_item(", name, ")"),
            ScalarFnRef::Binary(operator) => wrap("binary(", operator.sign(), ")"),
            ScalarFnRef::IsNotNull(_) => "is_not_null()".to_owned(),
            ScalarFnRef::Like(options) => wrap("like(", options.word(), ")"),
        }
    }

    /// This function applied to arguments that are given as text.
    pub fn call_text(&self, args: &Vec<String>) -> (r: String)
        ensures
            r@ == call_text(self@, texts_of(args@)),
    {
        if !self.arity_matches(args.len()) {
            let mut r = self.label();
            r.append("[");
            r.append(&list_text(args));
            r.append("]");
            return r;
        }
        match self {
            ScalarFnRef::Literal(scalar) => scalar.display(),
            ScalarFnRef::GetItem(name) => wrap(&args[0], ".", name),
            ScalarFnRef::Binary(operator) => {
                let mut r = "(".to_owned();
                r.append(&args[0]);
                r.append(" ");
                r.append(operator.sign());
                r.append(" ");
                r.append(&args[1]);
                r.append(")");
                r
            },
            ScalarFnRef::IsNotNull(_) => wrap("is_not_null(", &args[0], ")"),
            ScalarFnRef::Like(options) => {
                let mut r = wrap(&args[0], " ", options.word());
                r.append(" ");
                r.append(&args[1]);
                r
            },
        }
    }
}

/// What stands in front of a child in a tree, and of the lines below it.
pub(crate) fn branch_text(is_last: bool) -> (r: (&'static str, &'static str))
    ensures
        r.0@ == branch(is_last).0,
        r.1@ == branch(is_last).1,
{
    if is_last {
        ("└── ", "    ")
    } else {
        ("├── ", "│   ")
    }
}

impl Expression {
    /// This expression as text.
    pub fn display(&self) -> (r: String)
        ensures
            r@ == self@.text(),
        decreases self,
    {
        match self {
            Expression::Root => "$".to_owned(),
            Expression::Variable(variable) => {
                let mut r = "$".to_owned();
                r.append(variable.name());
                r
            },
            Expression::Lambda(lambda) => lambda.display(),
            Expression::Scalar { scalar_fn, children } => {
                let mut args: Vec<String> = Vec::new();
                let mut i: usize = 0;
                while i < children.len()
                    invariant
                        i <= children@.len(),
                        args@.len() == i,
                        self is Scalar,
                        self->children == *children,
                        forall|j: int|
                            0 <= j < i ==> (#[trigger] args@[j])@ == children@[j]@.text(),
                    decreases children@.len() - i,
                {
                    assert(decreases_to!(self => children@[i as int]));
                    args.push(children[i].display());
                    i += 1;
                }
                assert(texts_of(args@) =~= expr_texts(exprs_of(children@)));
                scalar_fn.call_text(&args)
            },
        }
    }

    /// This expression as a tree, one node a line.
    pub fn display_tree(&self) -> (r: String)
        ensures
            r@ == self@.tree(Seq::empty()),
    {
        let indent = String::new();
        assert(indent@ =~= Seq::empty());
        self.tree(&indent)
    }

    /// This expression as a tree, each line behind the first starting with `indent`.
    pub(crate) fn tree(&self, indent: &String) -> (r: String)
        ensures
            r@ == self@.tree(indent@),
        decreases self,
    {
        match self {
            Expression::Root => "root()".to_owned(),
            Expression::Variable(variable) => wrap("variable(", variable.name(), ")"),
            Expression::Lambda(lambda) => lambda.tree(indent),
            Expression::Scalar { scalar_fn, children } => {
                let mut r = scalar_fn.label();
                let ghost models = exprs_of(children@);
                let mut i: usize = 0;
                while i < children.len()
                    invariant
                        i <= children@.len(),
                        self is Scalar,
                        self->children == *children,
                        models == exprs_of(children@),
                        r@ == fn_label(scalar_fn@) + expr_branches(models, i as nat, indent@),
                    decreases children@.len() - i,
                {
                    assert(decreases_to!(self => children@[i as int]));
                    let (before, below) = branch_text(i + 1 == children.len());
                    let mut inner = indent.clone();
                    inner.append(below);
                    r.append("\n");
                    r.append(indent);
                    r.append(before);
                    r.append(&children[i].tree(&inner));
                    assert(models[i as int] == children@[i as int]@);
                    assert(r@ =~= fn_label(scalar_fn@) + expr_branches(
                        models,
                        (i + 1) as nat,
                        indent@,
                    ));
                    i += 1;
                }
                r
            },
        }
    }
}

impl BoundExpression {
    /// This expression as text.
    pub fn display(&self) -> (r: String)
        ensures
            r@ == self@.text(),
        decreases self,
    {
        match self {
            BoundExpression::Root { .. } => "$".to_owned(),
            BoundExpression::Variable { variable, .. } => {
                let mut r = "$".to_owned();
                r.append(variable.name());
                r
            },
            BoundExpression::Scalar { scalar_fn, children, .. } => {
                let mut args: Vec<String> = Vec::new();
                let mut i: usize = 0;
                while i < children.len()
                    invariant
                        i <= children@.len(),
                        args@.len() == i,
                        self is Scalar,
                        self->children == *children,
                        forall|j: int|
                            0 <= j < i ==> (#[trigger] args@[j])@ == children@[j]@.text(),
                    decreases children@.len() - i,
                {
                    assert(decreases_to!(self => children@[i as int]));
                    args.push(children[i].display());
                    i += 1;
                }
                assert(texts_of(args@) =~= bound_texts(bounds_of(children@)));
                scalar_fn.call_text(&args)
            },
        }
    }

    /// This expression as a tree, one node a line.
    pub fn display_tree(&self) -> (r: String)
        ensures
            r@ == self@.tree(Seq::empty()),
    {
        let indent = String::new();
        assert(indent@ =~= Seq::empty());
        self.tree(&indent)
    }

    /// This expression as a tree, each line behind the first starting with `indent`.
    fn tree(&self, indent: &String) -> (r: String)
        ensures
            r@ == self@.tree(indent@),
        decreases self,
    {
        match self {
            BoundExpression::Root { .. } => "root()".to_owned(),
            BoundExpression::Variable { variable, .. } => wrap("variable(", variable.name(), ")"),
            BoundExpression::Scalar { scalar_fn, children, .. } => {
                let mut r = scalar_fn.label();
                let ghost models = bounds_of(children@);
                let mut i: usize = 0;
                while i < children.len()
                    invariant
                        i <= children@.len(),
                        self is Scalar,
                        self->children == *children,
                        models == bounds_of(children@),
                        r@ == fn_label(scalar_fn@) + bound_branches(models, i as nat, indent@),
                    decreases children@.len() - i,
                {
                    assert(decreases_to!(self => children@[i as int]));
                    let (before, below) = branch_text(i + 1 == children.len());
                    let mut inner = indent.clone();
                    inner.append(below);
                    r.append("\n");
                    r.append(indent);
                    r.append(before);
                    r.append(&children[i].tree(&inner));
                    assert(models[i as int] == children@[i as int]@);
                    assert(r@ =~= fn_label(scalar_fn@) + bound_branches(
                        models,
                        (i + 1) as nat,
                        indent@,
                    ));
                    i += 1;
                }
                r
            },
        }
    }
}

} // verus!
