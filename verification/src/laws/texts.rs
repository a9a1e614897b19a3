//! How expressions read.

use vstd::prelude::*;

use crate::dtype::{DecimalDType, Nullability, PType, TypeModel};
use crate::expr::display::{
    byte_texts, call_text, expr_branches, fn_label, like_word, operator_text, ptype_name,
    scalar_text,
};
use crate::expr::expression::ExprModel;
use crate::laws::figures::{decimal_value, digit_value};
use crate::laws::functions::width;
use crate::scalar::{ScalarModel, Value};
use crate::scalar_fn::{FnModel, LikeOptions, Operator};
use crate::text::{joined, number};

verus! {

/// The name of a primitive type is a letter for its kind and the number of its bits.
pub proof fn law_type_names(ptype: PType)
    ensures
        ({
            let name = ptype_name(ptype);
            &&& name.len() > 0
            &&& name[0] == (if ptype.spec_is_float() {
                'f'
            } else if ptype.spec_is_unsigned() {
                'u'
            } else {
                'i'
            })
            &&& decimal_value(name.skip(1)) == width(ptype)
        }),
{
    reveal_strlit("u8");
    reveal_strlit("u16");
    reveal_strlit("u32");
    reveal_strlit("u64");
    reveal_strlit("i8");
    reveal_strlit("i16");
    reveal_strlit("i32");
    reveal_strlit("i64");
    reveal_strlit("f16");
    reveal_strlit("f32");
    reveal_strlit("f64");
    let bits = ptype_name(ptype).skip(1);
    reveal_with_fuel(decimal_value, 3);
    if bits.len() == 1 {
        assert(bits.drop_last() =~= Seq::empty());
    } else {
        assert(bits.drop_last().drop_last() =~= Seq::empty());
        assert(bits.drop_last().last() == bits[0]);
    }
    assert(digit_value('1') == 1 && digit_value('2') == 2 && digit_value('3') == 3 && digit_value(
        '4',
    ) == 4 && digit_value('6') == 6 && digit_value('8') == 8);
}

/// A constant reads as `null`, `true` or `false`, as a number with the name of its type behind it, or
/// as a text in quotes.
pub proof fn law_constants_read(ptype: PType, n: Nullability, value: int, text: Seq<char>)
    ensures
        ({
            let null = scalar_text(ScalarModel { dtype: TypeModel::Bool(n), value: Value::Null });
            let yes = scalar_text(
                ScalarModel { dtype: TypeModel::Bool(n), value: Value::Bool(true) },
            );
            let no = scalar_text(
                ScalarModel { dtype: TypeModel::Bool(n), value: Value::Bool(false) },
            );
            &&& null == seq!['n', 'u', 'l', 'l']
            &&& yes == seq!['t', 'r', 'u', 'e']
            &&& no == seq!['f', 'a', 'l', 's', 'e']
        }),
        ({
            let found = scalar_text(
                ScalarModel { dtype: TypeModel::Primitive(ptype, n), value: Value::Int(value) },
            );
            let len = number(value).len() as int;
            &&& found.len() == len + ptype_name(ptype).len()
            &&& found.take(len) == number(value)
            &&& found.skip(len) == ptype_name(ptype)
        }),
        ({
            let found = scalar_text(
                ScalarModel { dtype: TypeModel::Utf8(n), value: Value::Text(text) },
            );
            &&& found.len() == text.len() + 2
            &&& found[0] == '"' && found.last() == '"'
            &&& found.subrange(1, found.len() - 1) == text
        }),
{
    reveal_strlit("null");
    reveal_strlit("true");
    reveal_strlit("false");
    reveal_strlit("\"");
    assert("null"@ =~= seq!['n', 'u', 'l', 'l']);
    assert("true"@ =~= seq!['t', 'r', 'u', 'e']);
    assert("false"@ =~= seq!['f', 'a', 'l', 's', 'e']);
    let integer = number(value) + ptype_name(ptype);
    let len = number(value).len() as int;
    assert(integer.take(len) =~= number(value));
    assert(integer.skip(len) =~= ptype_name(ptype));
    let quoted = "\""@ + text + "\""@;
    assert(quoted.subrange(1, quoted.len() - 1) =~= text);
}

/// A floating-point constant reads as the name of its type and its bits; a decimal as its integer, its
/// precision and its scale; a byte string as its bytes one by one.
pub proof fn law_other_constants_read(
    ptype: PType,
    n: Nullability,
    bits: int,
    decimal: DecimalDType,
    value: int,
    bytes: Seq<u8>,
)
    ensures
        ({
            let found = scalar_text(
                ScalarModel {
                    dtype: TypeModel::Primitive(ptype, n),
                    value: Value::Float(ptype, bits),
                },
            );
            let name = ptype_name(ptype);
            &&& found.take(name.len() as int) == name
            &&& found.last() == ')'
            &&& found.len() == name.len() + 12 + number(bits).len() + 1
            &&& found.subrange(name.len() as int + 12, found.len() - 1) == number(bits)
        }),
        ({
            let found = scalar_text(
                ScalarModel { dtype: TypeModel::Decimal(decimal, n), value: Value::Int(value) },
            );
            let precision = number(decimal.precision as int);
            let scale = number(decimal.scale as int);
            let first = 8 + number(value).len() as int;
            let second = first + 2 + precision.len();
            &&& found.len() == second + 2 + scale.len() + 1
            &&& found.subrange(8, first) == number(value)
            &&& found.subrange(first + 2, second) == precision
            &&& found.subrange(second + 2, found.len() - 1) == scale
        }),
        ({
            let found = scalar_text(
                ScalarModel { dtype: TypeModel::Binary(n), value: Value::Bytes(bytes) },
            );
            &&& found[0] == '[' && found.last() == ']'
            &&& found.subrange(1, found.len() - 1) == joined(byte_texts(bytes), seq![',', ' '])
            &&& byte_texts(bytes).len() == bytes.len()
            &&& forall|i: int|
                0 <= i < bytes.len() ==> #[trigger] byte_texts(bytes)[i] == number(bytes[i] as int)
        }),
{
    reveal_strlit("::from_bits(");
    reveal_strlit("decimal(");
    reveal_strlit(", ");
    reveal_strlit(")");
    reveal_strlit("[");
    reveal_strlit("]");
    assert(", "@ =~= seq![',', ' ']);
    let name = ptype_name(ptype);
    let float = name + "::from_bits("@ + number(bits) + ")"@;
    assert(float.take(name.len() as int) =~= name);
    assert(float.subrange(name.len() as int + 12, float.len() - 1) =~= number(bits));
    let precision = number(decimal.precision as int);
    let scale = number(decimal.scale as int);
    let first = 8 + number(value).len() as int;
    let second = first + 2 + precision.len();
    let fixed = "decimal("@ + number(value) + ", "@ + precision + ", "@ + scale + ")"@;
    assert(fixed.subrange(8, first) =~= number(value));
    assert(fixed.subrange(first + 2, second) =~= precision);
    assert(fixed.subrange(second + 2, fixed.len() - 1) =~= scale);
    let list = joined(byte_texts(bytes), ", "@);
    assert(("["@ + list + "]"@).subrange(1, list.len() as int + 1) =~= list);
}

/// Different operations read differently, and comparisons by their usual signs.
pub proof fn law_operations_read(left: Operator, right: Operator)
    ensures
        operator_text(left) == operator_text(right) ==> left == right,
        operator_text(Operator::Eq) == seq!['='],
        operator_text(Operator::NotEq) == seq!['!', '='],
        operator_text(Operator::Lt) == seq!['<'],
        operator_text(Operator::Lte) == seq!['<', '='],
        operator_text(Operator::Gt) == seq!['>'],
        operator_text(Operator::Gte) == seq!['>', '='],
        operator_text(Operator::Add) == seq!['+'],
        operator_text(Operator::Sub) == seq!['-'],
        operator_text(Operator::And) == seq!['a', 'n', 'd'],
        operator_text(Operator::Or) == seq!['o', 'r'],
{
    reveal_strlit("=");
    reveal_strlit("!=");
    reveal_strlit(">");
    reveal_strlit(">=");
    reveal_strlit("<");
    reveal_strlit("<=");
    reveal_strlit("and");
    reveal_strlit("or");
    reveal_strlit("+");
    reveal_strlit("-");
    let (a, b) = (operator_text(left), operator_text(right));
    if a == b {
        assert(a.len() == b.len() && a[0] == b[0]);
        if a.len() > 1 {
            assert(a[1] == b[1]);
        }
    }
    assert("="@ =~= seq!['=']);
    assert("!="@ =~= seq!['!', '=']);
    assert("<"@ =~= seq!['<']);
    assert("<="@ =~= seq!['<', '=']);
    assert(">"@ =~= seq!['>']);
    assert(">="@ =~= seq!['>', '=']);
    assert("+"@ =~= seq!['+']);
    assert("-"@ =~= seq!['-']);
    assert("and"@ =~= seq!['a', 'n', 'd']);
    assert("or"@ =~= seq!['o', 'r']);
}

/// A negated match reads like the match with `not` before it, and one in which case does not count
/// with an `i` before the word.
pub proof fn law_matches_read(negated: bool, case_insensitive: bool)
    ensures
        like_word(LikeOptions { negated: true, case_insensitive }) == seq!['n', 'o', 't', ' ']
            + like_word(LikeOptions { negated: false, case_insensitive }),
        like_word(LikeOptions { negated: false, case_insensitive: true }) == seq!['i']
            + like_word(LikeOptions { negated: false, case_insensitive: false }),
        like_word(LikeOptions { negated: false, case_insensitive: false }) == seq![
            'l',
            'i',
            'k',
            'e',
        ],
{
    reveal_strlit("not ilike");
    reveal_strlit("not like");
    reveal_strlit("ilike");
    reveal_strlit("like");
    assert("like"@ =~= seq!['l', 'i', 'k', 'e']);
    assert("ilike"@ =~= seq!['i'] + "like"@);
    assert("not like"@ =~= seq!['n', 'o', 't', ' '] + "like"@);
    assert("not ilike"@ =~= seq!['n', 'o', 't', ' '] + "ilike"@);
}

/// A binary operation reads as its operands with the sign of the operation between them, with a space
/// on each side of it, in brackets. A match reads in the same way with its word and without brackets.
pub proof fn law_binary_calls_read(operator: Operator, options: LikeOptions, args: Seq<Seq<char>>)
    requires
        args.len() == 2,
    ensures
        call_text(FnModel::Binary(operator), args) == seq!['('] + joined(
            seq![args[0], operator_text(operator), args[1]],
            seq![' '],
        ) + seq![')'],
        call_text(FnModel::Like(options), args) == joined(
            seq![args[0], like_word(options), args[1]],
            seq![' '],
        ),
{
    reveal_strlit("(");
    reveal_strlit(")");
    reveal_strlit(" ");
    lemma_three(args[0], operator_text(operator), args[1], seq![' ']);
    lemma_three(args[0], like_word(options), args[1], seq![' ']);
    assert("("@ =~= seq!['(']);
    assert(")"@ =~= seq![')']);
    assert(" "@ =~= seq![' ']);
    assert(call_text(FnModel::Binary(operator), args) =~= seq!['('] + (args[0] + seq![' ']
        + operator_text(operator) + seq![' '] + args[1]) + seq![')']);
}

proof fn lemma_three(a: Seq<char>, b: Seq<char>, c: Seq<char>, separator: Seq<char>)
    ensures
        joined(seq![a, b, c], separator) == a + separator + b + separator + c,
{
    reveal_with_fuel(joined, 3);
    let all = seq![a, b, c];
    assert(all.drop_last() =~= seq![a, b]);
    assert(all.drop_last().drop_last() =~= seq![a]);
}

/// A field reads as its struct, a dot and its name; the test for null as a call; a constant as itself.
/// The root of a scope reads as a dollar sign, and a variable as one with its name behind it.
pub proof fn law_unary_calls_read(arg: Seq<char>, name: Seq<char>, scalar: ScalarModel)
    ensures
        call_text(FnModel::GetItem(name), seq![arg]) == joined(seq![arg, name], seq!['.']),
        ({
            let found = call_text(FnModel::IsNotNull, seq![arg]);
            &&& found.len() == arg.len() + 13
            &&& found.subrange(12, found.len() - 1) == arg
            &&& found[11] == '(' && found.last() == ')'
        }),
        call_text(FnModel::Literal(scalar), Seq::empty()) == scalar_text(scalar),
        ExprModel::Root.text() == seq!['$'],
        ExprModel::Variable(name).text() == seq!['$'] + name,
{
    reveal_strlit(".");
    reveal_strlit("is_not_null(");
    reveal_strlit(")");
    reveal_strlit("$");
    assert("."@ =~= seq!['.']);
    assert("$"@ =~= seq!['$']);
    reveal_with_fuel(joined, 2);
    assert(seq![arg, name].drop_last() =~= seq![arg]);
    let found = call_text(FnModel::IsNotNull, seq![arg]);
    assert(found.subrange(12, found.len() - 1) =~= arg);
}

/// The text of a function of expressions is made of the texts of the expressions, in order.
pub proof fn law_children_read(f: FnModel, children: Seq<ExprModel>, args: Seq<Seq<char>>)
    requires
        args.len() == children.len(),
        forall|i: int| 0 <= i < children.len() ==> #[trigger] args[i] == children[i].text(),
    ensures
        ExprModel::Scalar(f, children).text() == call_text(f, args),
{
    assert(crate::expr::display::expr_texts(children) =~= args);
}

/// The tree of a node of two children is its label and, on lines of their own that start with the
/// indentation, the trees of the children. The first hangs on a branch that goes on beside it, the
/// last on one that ends.
pub proof fn law_trees_of_two(f: FnModel, left: ExprModel, right: ExprModel, indent: Seq<char>)
    ensures
        ({
            let on = seq!['\u{251c}', '\u{2500}', '\u{2500}', ' '];
            let end = seq!['\u{2514}', '\u{2500}', '\u{2500}', ' '];
            let beside = seq!['\u{2502}', ' ', ' ', ' '];
            let below = seq![' ', ' ', ' ', ' '];
            let first = indent + on + left.tree(indent + beside);
            let last = indent + end + right.tree(indent + below);
            ExprModel::Scalar(f, seq![left, right]).tree(indent) == joined(
                seq![fn_label(f), first, last],
                seq!['\n'],
            )
        }),
{
    reveal_strlit("├── ");
    reveal_strlit("│   ");
    reveal_strlit("└── ");
    reveal_strlit("    ");
    reveal_strlit("\n");
    let on = seq!['\u{251c}', '\u{2500}', '\u{2500}', ' '];
    let end = seq!['\u{2514}', '\u{2500}', '\u{2500}', ' '];
    let beside = seq!['\u{2502}', ' ', ' ', ' '];
    let below = seq![' ', ' ', ' ', ' '];
    assert("├── "@ =~= on);
    assert("│   "@ =~= beside);
    assert("└── "@ =~= end);
    assert("    "@ =~= below);
    assert("\n"@ =~= seq!['\n']);
    let children = seq![left, right];
    let first = indent + on + left.tree(indent + beside);
    let last = indent + end + right.tree(indent + below);
    lemma_three(fn_label(f), first, last, seq!['\n']);
    reveal_with_fuel(expr_branches, 3);
    assert(children[0] == left && children[1] == right);
    let none = expr_branches(children, 0, indent);
    assert(none =~= Seq::empty());
    let one = expr_branches(children, 1, indent);
    assert(one == none + "\n"@ + indent + on + left.tree(indent + beside));
    let two = expr_branches(children, 2, indent);
    assert(two == one + "\n"@ + indent + end + right.tree(indent + below));
    assert(fn_label(f) + two =~= fn_label(f) + seq!['\n'] + first + seq!['\n'] + last);
}

/// The tree of a node of one child is its label and, on a line of its own that starts with the
/// indentation, the tree of the child, on a branch that ends.
pub proof fn law_trees_of_one(f: FnModel, child: ExprModel, indent: Seq<char>)
    ensures
        ({
            let end = seq!['\u{2514}', '\u{2500}', '\u{2500}', ' '];
            let below = seq![' ', ' ', ' ', ' '];
            ExprModel::Scalar(f, seq![child]).tree(indent) == fn_label(f) + seq!['\n'] + (indent
                + end + child.tree(indent + below))
        }),
        ExprModel::Scalar(f, Seq::empty()).tree(indent) == fn_label(f),
{
    reveal_strlit("└── ");
    reveal_strlit("    ");
    reveal_strlit("\n");
    let end = seq!['\u{2514}', '\u{2500}', '\u{2500}', ' '];
    let below = seq![' ', ' ', ' ', ' '];
    assert("└── "@ =~= end);
    assert("    "@ =~= below);
    assert("\n"@ =~= seq!['\n']);
    let children = seq![child];
    reveal_with_fuel(expr_branches, 2);
    assert(children[0] == child);
    let one = expr_branches(children, 1, indent);
    assert(one =~= seq!['\n'] + (indent + end + child.tree(indent + below)));
    assert(fn_label(f) + one =~= fn_label(f) + seq!['\n'] + (indent + end + child.tree(
        indent + below,
    )));
    let none = ExprModel::Scalar(f, Seq::empty()).tree(indent);
    assert(expr_branches(Seq::empty(), 0, indent) == Seq::<char>::empty());
    assert(none == fn_label(f) + Seq::<char>::empty());
    assert(none =~= fn_label(f));
}

/// The label of a function is the name of its kind and, in brackets, what it was made with. The label
/// of a function of the wrong number of arguments stands before the arguments.
pub proof fn law_labels(
    scalar: ScalarModel,
    name: Seq<char>,
    operator: Operator,
    options: LikeOptions,
    f: FnModel,
    args: Seq<Seq<char>>,
)
    ensures
        fn_label(FnModel::Literal(scalar)) == "literal"@ + bracketed(scalar_text(scalar)),
        fn_label(FnModel::GetItem(name)) == "get_item"@ + bracketed(name),
        fn_label(FnModel::Binary(operator)) == "binary"@ + bracketed(operator_text(operator)),
        fn_label(FnModel::IsNotNull) == "is_not_null"@ + bracketed(Seq::empty()),
        fn_label(FnModel::Like(options)) == "like"@ + bracketed(like_word(options)),
        args.len() != f.arity() ==> call_text(f, args) == fn_label(f) + seq!['['] + joined(
            args,
            seq![',', ' '],
        ) + seq![']'],
{
    reveal_strlit("literal");
    reveal_strlit("literal(");
    reveal_strlit("get_item");
    reveal_strlit("get_item(");
    reveal_strlit("binary");
    reveal_strlit("binary(");
    reveal_strlit("is_not_null");
    reveal_strlit("is_not_null()");
    reveal_strlit("like");
    reveal_strlit("like(");
    reveal_strlit(")");
    reveal_strlit("[");
    reveal_strlit("]");
    reveal_strlit(", ");
    assert(")"@ =~= seq![')']);
    assert("["@ =~= seq!['[']);
    assert("]"@ =~= seq![']']);
    assert(", "@ =~= seq![',', ' ']);
    assert("literal("@ =~= "literal"@ + seq!['(']);
    assert("get_item("@ =~= "get_item"@ + seq!['(']);
    assert("binary("@ =~= "binary"@ + seq!['(']);
    assert("like("@ =~= "like"@ + seq!['(']);
    assert("is_not_null()"@ =~= "is_not_null"@ + bracketed(Seq::empty()));
    assert(fn_label(FnModel::Literal(scalar)) =~= "literal"@ + bracketed(scalar_text(scalar)));
    assert(fn_label(FnModel::GetItem(name)) =~= "get_item"@ + bracketed(name));
    assert(fn_label(FnModel::Binary(operator)) =~= "binary"@ + bracketed(
        operator_text(operator),
    ));
    assert(fn_label(FnModel::Like(options)) =~= "like"@ + bracketed(like_word(options)));
}

/// A text in round brackets.
pub open spec fn bracketed(text: Seq<char>) -> Seq<char> {
    seq!['('] + text + seq![')']
}

/// A lambda reads as its parameters in brackets, an arrow, and its body. As a tree it is a node of one
/// child.
pub proof fn law_lambdas_read(params: Seq<Seq<char>>, body: ExprModel, indent: Seq<char>)
    ensures
        ({
            let lambda = ExprModel::Lambda(params, Box::new(body));
            let listed = joined(params, seq![',', ' ']);
            let end = seq!['\u{2514}', '\u{2500}', '\u{2500}', ' '];
            let below = seq![' ', ' ', ' ', ' '];
            &&& lambda.text() == bracketed(listed) + seq![' ', '-', '>', ' '] + body.text()
            &&& lambda.tree(indent) == "lambda"@ + bracketed(listed) + seq!['\n'] + (indent + end
                + body.tree(indent + below))
        }),
{
    reveal_strlit("(");
    reveal_strlit(", ");
    reveal_strlit(") -> ");
    reveal_strlit("lambda");
    reveal_strlit("lambda(");
    reveal_strlit(")\n");
    reveal_strlit("└── ");
    reveal_strlit("    ");
    assert(", "@ =~= seq![',', ' ']);
    let listed = joined(params, seq![',', ' ']);
    let lambda = ExprModel::Lambda(params, Box::new(body));
    let end = seq!['\u{2514}', '\u{2500}', '\u{2500}', ' '];
    let below = seq![' ', ' ', ' ', ' '];
    assert("└── "@ =~= end);
    assert("    "@ =~= below);
    assert(lambda.text() =~= bracketed(listed) + seq![' ', '-', '>', ' '] + body.text());
    assert(lambda.tree(indent) =~= "lambda"@ + bracketed(listed) + seq!['\n'] + (indent + end
        + body.tree(indent + below)));
}

} // verus!
