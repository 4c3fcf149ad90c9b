use select_exec::ast::{
    Aggregate, AstLiteral, BinaryOperator, CountArgExpr, DateTimeField, Expr, Function,
    UnaryOperator,
};
use select_exec::context::{BlendContext, FilterContext};
use select_exec::error::{Error, EvaluateError, RowError, ValueError};
use select_exec::evaluate::{aggregate_matches, apply_binary, apply_unary, evaluate, Aggregated};
use select_exec::numeral::parse_numeral;
use select_exec::value::{DataType, Row, Value};
use std::rc::Rc;

fn number(n: i64) -> Expr {
    Expr::Literal(AstLiteral::Number(n.to_string()))
}

fn string(s: &str) -> Expr {
    Expr::Literal(AstLiteral::QuotedString(s.to_owned()))
}

fn null() -> Expr {
    Expr::Literal(AstLiteral::Null)
}

fn boolean(b: bool) -> Expr {
    Expr::Literal(AstLiteral::Boolean(b))
}

fn ident(name: &str) -> Expr {
    Expr::Identifier(name.to_owned())
}

fn binary(left: Expr, op: BinaryOperator, right: Expr) -> Expr {
    Expr::BinaryOp { left: Box::new(left), op, right: Box::new(right) }
}

fn eval(expr: &Expr) -> Result<Value, Error> {
    evaluate(None, None, expr)
}

fn text(s: &str) -> Value {
    Value::Str(s.to_owned())
}

#[test]
fn numerals_are_read_exactly() {
    assert_eq!(parse_numeral("0"), Some(0));
    assert_eq!(parse_numeral("42"), Some(42));
    assert_eq!(parse_numeral("-42"), Some(-42));
    assert_eq!(parse_numeral("007"), Some(7));
    assert_eq!(parse_numeral("9223372036854775807"), Some(i64::MAX));
    assert_eq!(parse_numeral("-9223372036854775808"), Some(i64::MIN));
    assert_eq!(parse_numeral("9223372036854775808"), None);
    assert_eq!(parse_numeral("-9223372036854775809"), None);
    assert_eq!(parse_numeral("99999999999999999999999999999999999999999"), None);
    assert_eq!(parse_numeral(""), None);
    assert_eq!(parse_numeral("-"), None);
    assert_eq!(parse_numeral("+1"), None);
    assert_eq!(parse_numeral("1.5"), None);
    assert_eq!(parse_numeral("1e3"), None);
    assert_eq!(parse_numeral("12a"), None);
    assert_eq!(parse_numeral("٣"), None);
}

#[test]
fn literals_have_their_values() {
    assert_eq!(eval(&number(5)), Ok(Value::I64(5)));
    assert_eq!(eval(&string("a")), Ok(text("a")));
    assert_eq!(eval(&boolean(true)), Ok(Value::Bool(true)));
    assert_eq!(eval(&null()), Ok(Value::Null));
    assert_eq!(
        eval(&Expr::Literal(AstLiteral::Number("1.5".to_owned()))),
        Err(Error::Evaluate(EvaluateError::InvalidNumber("1.5".to_owned())))
    );
}

#[test]
fn arithmetic_is_checked() {
    let v = |n: i64| Value::I64(n);
    assert_eq!(apply_binary(BinaryOperator::Plus, &v(2), &v(3)), Ok(v(5)));
    assert_eq!(apply_binary(BinaryOperator::Minus, &v(2), &v(3)), Ok(v(-1)));
    assert_eq!(apply_binary(BinaryOperator::Multiply, &v(-4), &v(3)), Ok(v(-12)));
    assert_eq!(apply_binary(BinaryOperator::Divide, &v(7), &v(2)), Ok(v(3)));
    assert_eq!(apply_binary(BinaryOperator::Divide, &v(-7), &v(2)), Ok(v(-3)));
    assert_eq!(apply_binary(BinaryOperator::Divide, &v(7), &v(-2)), Ok(v(-3)));
    assert_eq!(apply_binary(BinaryOperator::Divide, &v(-7), &v(-2)), Ok(v(3)));
    assert_eq!(apply_binary(BinaryOperator::Modulo, &v(7), &v(2)), Ok(v(1)));
    assert_eq!(apply_binary(BinaryOperator::Modulo, &v(-7), &v(2)), Ok(v(-1)));
    assert_eq!(apply_binary(BinaryOperator::Modulo, &v(7), &v(-2)), Ok(v(1)));
    assert_eq!(apply_binary(BinaryOperator::Modulo, &v(-7), &v(-2)), Ok(v(-1)));
    assert_eq!(apply_binary(BinaryOperator::Modulo, &v(i64::MIN), &v(-1)), Ok(v(0)));
    let overflow = Err(Error::Value(ValueError::Overflow));
    assert_eq!(apply_binary(BinaryOperator::Plus, &v(i64::MAX), &v(1)), overflow);
    assert_eq!(apply_binary(BinaryOperator::Minus, &v(i64::MIN), &v(1)), overflow);
    assert_eq!(apply_binary(BinaryOperator::Multiply, &v(i64::MAX), &v(2)), overflow);
    assert_eq!(apply_binary(BinaryOperator::Divide, &v(i64::MIN), &v(-1)), overflow);
    let zero = Err(Error::Value(ValueError::DivisorShouldNotBeZero));
    assert_eq!(apply_binary(BinaryOperator::Divide, &v(1), &v(0)), zero);
    assert_eq!(apply_binary(BinaryOperator::Modulo, &v(1), &v(0)), zero);
    assert_eq!(apply_binary(BinaryOperator::Plus, &v(1), &Value::Null), Ok(Value::Null));
    assert_eq!(apply_binary(BinaryOperator::Divide, &Value::Null, &v(0)), Ok(Value::Null));
    assert_eq!(
        apply_binary(BinaryOperator::Plus, &v(1), &text("a")),
        Err(Error::Value(ValueError::IncompatibleOperands(BinaryOperator::Plus)))
    );
}

#[test]
fn comparisons_take_values_of_one_kind() {
    let v = |n: i64| Value::I64(n);
    let t = Ok(Value::Bool(true));
    let f = Ok(Value::Bool(false));
    assert_eq!(apply_binary(BinaryOperator::Eq, &v(1), &v(1)), t);
    assert_eq!(apply_binary(BinaryOperator::NotEq, &v(1), &v(1)), f);
    assert_eq!(apply_binary(BinaryOperator::Lt, &v(1), &v(2)), t);
    assert_eq!(apply_binary(BinaryOperator::LtEq, &v(2), &v(2)), t);
    assert_eq!(apply_binary(BinaryOperator::Gt, &v(1), &v(2)), f);
    assert_eq!(apply_binary(BinaryOperator::GtEq, &v(1), &v(2)), f);
    assert_eq!(apply_binary(BinaryOperator::Lt, &text("a"), &text("b")), t);
    assert_eq!(apply_binary(BinaryOperator::Lt, &text("a"), &text("ab")), t);
    assert_eq!(apply_binary(BinaryOperator::Lt, &text("b"), &text("ab")), f);
    assert_eq!(apply_binary(BinaryOperator::Lt, &text(""), &text("")), f);
    assert_eq!(apply_binary(BinaryOperator::Lt, &text("z"), &text("é")), t);
    assert_eq!(apply_binary(BinaryOperator::Eq, &text("ab"), &text("ab")), t);
    assert_eq!(apply_binary(BinaryOperator::Eq, &text("ab"), &text("ba")), f);
    assert_eq!(
        apply_binary(BinaryOperator::Lt, &Value::Bool(false), &Value::Bool(true)),
        t
    );
    assert_eq!(apply_binary(BinaryOperator::Eq, &v(1), &Value::Null), Ok(Value::Null));
    assert_eq!(
        apply_binary(BinaryOperator::Eq, &v(1), &text("1")),
        Err(Error::Value(ValueError::IncompatibleOperands(BinaryOperator::Eq)))
    );
}

#[test]
fn logic_has_three_values() {
    let t = Value::Bool(true);
    let f = Value::Bool(false);
    let n = Value::Null;
    assert_eq!(apply_binary(BinaryOperator::And, &t, &t), Ok(Value::Bool(true)));
    assert_eq!(apply_binary(BinaryOperator::And, &t, &f), Ok(Value::Bool(false)));
    assert_eq!(apply_binary(BinaryOperator::And, &n, &f), Ok(Value::Bool(false)));
    assert_eq!(apply_binary(BinaryOperator::And, &n, &t), Ok(Value::Null));
    assert_eq!(apply_binary(BinaryOperator::Or, &f, &f), Ok(Value::Bool(false)));
    assert_eq!(apply_binary(BinaryOperator::Or, &n, &t), Ok(Value::Bool(true)));
    assert_eq!(apply_binary(BinaryOperator::Or, &n, &f), Ok(Value::Null));
    assert_eq!(apply_binary(BinaryOperator::Or, &n, &n), Ok(Value::Null));
    assert_eq!(
        apply_binary(BinaryOperator::And, &Value::I64(1), &t),
        Err(Error::Evaluate(EvaluateError::BooleanTypeRequired))
    );
    assert_eq!(apply_unary(UnaryOperator::Not, Value::Bool(true)), Ok(Value::Bool(false)));
    assert_eq!(apply_unary(UnaryOperator::Not, Value::Null), Ok(Value::Null));
    assert_eq!(apply_unary(UnaryOperator::Minus, Value::I64(3)), Ok(Value::I64(-3)));
    assert_eq!(apply_unary(UnaryOperator::Plus, Value::I64(3)), Ok(Value::I64(3)));
    assert_eq!(
        apply_unary(UnaryOperator::Minus, Value::I64(i64::MIN)),
        Err(Error::Value(ValueError::Overflow))
    );
    assert_eq!(
        apply_unary(UnaryOperator::Minus, Value::Bool(true)),
        Err(Error::Value(ValueError::IncompatibleOperand(UnaryOperator::Minus)))
    );
}

#[test]
fn operands_are_evaluated_from_left_to_right() {
    let bad_left = binary(ident("x"), BinaryOperator::Plus, ident("y"));
    assert_eq!(
        eval(&bad_left),
        Err(Error::Evaluate(EvaluateError::ValueNotFound("x".to_owned())))
    );
    let nested = Expr::Nested(Box::new(binary(number(2), BinaryOperator::Multiply, number(3))));
    assert_eq!(
        eval(&binary(number(1), BinaryOperator::Plus, nested)),
        Ok(Value::I64(7))
    );
}

#[test]
fn is_null_between_and_in_list() {
    assert_eq!(eval(&Expr::IsNull(Box::new(null()))), Ok(Value::Bool(true)));
    assert_eq!(eval(&Expr::IsNull(Box::new(number(1)))), Ok(Value::Bool(false)));
    assert_eq!(eval(&Expr::IsNotNull(Box::new(number(1)))), Ok(Value::Bool(true)));
    let between = |v: Expr, negated: bool| Expr::Between {
        expr: Box::new(v),
        negated,
        low: Box::new(number(2)),
        high: Box::new(number(4)),
    };
    assert_eq!(eval(&between(number(2), false)), Ok(Value::Bool(true)));
    assert_eq!(eval(&between(number(4), false)), Ok(Value::Bool(true)));
    assert_eq!(eval(&between(number(5), false)), Ok(Value::Bool(false)));
    assert_eq!(eval(&between(number(5), true)), Ok(Value::Bool(true)));
    assert_eq!(eval(&between(null(), false)), Ok(Value::Null));
    let in_list = |v: Expr, list: Vec<Expr>, negated: bool| Expr::InList {
        expr: Box::new(v),
        list,
        negated,
    };
    assert_eq!(
        eval(&in_list(number(2), vec![number(1), number(2), ident("never")], false)),
        Ok(Value::Bool(true))
    );
    assert_eq!(
        eval(&in_list(number(3), vec![number(1), number(2)], false)),
        Ok(Value::Bool(false))
    );
    assert_eq!(
        eval(&in_list(number(3), vec![number(1), number(2)], true)),
        Ok(Value::Bool(true))
    );
    assert_eq!(
        eval(&in_list(number(3), vec![number(1), null()], false)),
        Ok(Value::Null)
    );
    assert_eq!(
        eval(&in_list(number(3), vec![null(), number(3)], false)),
        Ok(Value::Bool(true))
    );
    assert_eq!(eval(&in_list(number(3), vec![], false)), Ok(Value::Bool(false)));
    assert_eq!(
        eval(&in_list(number(3), vec![number(1), ident("x")], false)),
        Err(Error::Evaluate(EvaluateError::ValueNotFound("x".to_owned())))
    );
}

#[test]
fn case_takes_the_first_branch_that_holds() {
    let with_operand = |v: Expr| Expr::Case {
        operand: Some(Box::new(v)),
        when_then: vec![(number(1), string("one")), (number(2), string("two"))],
        else_result: Some(Box::new(string("many"))),
    };
    assert_eq!(eval(&with_operand(number(1))), Ok(text("one")));
    assert_eq!(eval(&with_operand(number(2))), Ok(text("two")));
    assert_eq!(eval(&with_operand(number(3))), Ok(text("many")));
    assert_eq!(eval(&with_operand(null())), Ok(text("many")));
    let searched = Expr::Case {
        operand: None,
        when_then: vec![
            (boolean(false), number(1)),
            (null(), number(2)),
            (boolean(true), number(3)),
            (ident("never"), number(4)),
        ],
        else_result: None,
    };
    assert_eq!(eval(&searched), Ok(Value::I64(3)));
    let none = Expr::Case {
        operand: None,
        when_then: vec![(boolean(false), number(1))],
        else_result: None,
    };
    assert_eq!(eval(&none), Ok(Value::Null));
    let wrong = Expr::Case {
        operand: None,
        when_then: vec![(number(1), number(1))],
        else_result: None,
    };
    assert_eq!(
        eval(&wrong),
        Err(Error::Evaluate(EvaluateError::BooleanTypeRequired))
    );
}

#[test]
fn functions_and_extract() {
    let abs = |v: Expr| Expr::Function(Box::new(Function::Abs(v)));
    assert_eq!(eval(&abs(number(-3))), Ok(Value::I64(3)));
    assert_eq!(eval(&abs(number(3))), Ok(Value::I64(3)));
    assert_eq!(eval(&abs(null())), Ok(Value::Null));
    assert_eq!(
        eval(&abs(Expr::Literal(AstLiteral::Number(i64::MIN.to_string())))),
        Err(Error::Value(ValueError::Overflow))
    );
    assert_eq!(
        eval(&abs(string("x"))),
        Err(Error::Value(ValueError::FunctionRequiresInteger))
    );
    let if_null =
        |v: Expr, then: Expr| Expr::Function(Box::new(Function::IfNull { expr: v, then }));
    assert_eq!(eval(&if_null(null(), number(1))), Ok(Value::I64(1)));
    assert_eq!(eval(&if_null(number(2), ident("never"))), Ok(Value::I64(2)));
    let extract = |v: Expr| Expr::Extract { field: DateTimeField::Year, expr: Box::new(v) };
    assert_eq!(eval(&extract(null())), Ok(Value::Null));
    assert_eq!(
        eval(&extract(number(1))),
        Err(Error::Evaluate(EvaluateError::ExtractFormatNotMatched))
    );
}

fn names(columns: &[&str]) -> Rc<Vec<String>> {
    Rc::new(columns.iter().map(|c| (*c).to_owned()).collect())
}

fn chain() -> Rc<BlendContext> {
    let base = Rc::new(BlendContext::new(
        "a".to_owned(),
        names(&["id", "x"]),
        Some(7),
        Some(Row(vec![Value::I64(1), Value::I64(10)])),
        None,
    ));
    let middle = Rc::new(BlendContext::new(
        "b".to_owned(),
        names(&["id", "y"]),
        None,
        None,
        Some(base),
    ));
    Rc::new(BlendContext::new(
        "c".to_owned(),
        names(&["id", "z", "short"]),
        Some(9),
        Some(Row(vec![Value::I64(3), Value::I64(30)])),
        Some(middle),
    ))
}

#[test]
fn a_column_is_found_in_the_nearest_relation() {
    let context = FilterContext::new(Some(chain()), None);
    let get = |e: Expr| evaluate(Some(&context), None, &e);
    assert_eq!(get(ident("id")), Ok(Value::I64(3)));
    assert_eq!(get(ident("z")), Ok(Value::I64(30)));
    assert_eq!(get(ident("y")), Ok(Value::Null));
    assert_eq!(get(ident("x")), Ok(Value::I64(10)));
    assert_eq!(
        get(ident("w")),
        Err(Error::Evaluate(EvaluateError::ValueNotFound("w".to_owned())))
    );
    assert_eq!(
        get(ident("short")),
        Err(Error::Row(RowError::ConflictOnStorageColumnIndex))
    );
    let qualified =
        |a: &str, c: &str| Expr::CompoundIdentifier(vec![a.to_owned(), c.to_owned()]);
    assert_eq!(get(qualified("a", "id")), Ok(Value::I64(1)));
    assert_eq!(get(qualified("b", "id")), Ok(Value::Null));
    assert_eq!(get(qualified("c", "id")), Ok(Value::I64(3)));
    assert_eq!(
        get(qualified("a", "z")),
        Err(Error::Evaluate(EvaluateError::ValueNotFound("z".to_owned())))
    );
    assert_eq!(
        get(Expr::CompoundIdentifier(vec!["x".to_owned()])),
        Err(Error::Evaluate(EvaluateError::UnsupportedCompoundIdentifier))
    );
}

#[test]
fn an_enclosing_context_is_asked_last() {
    let outer_row = Rc::new(BlendContext::new(
        "o".to_owned(),
        names(&["id", "far"]),
        None,
        Some(Row(vec![Value::I64(100), Value::I64(7)])),
        None,
    ));
    let outer = Rc::new(FilterContext::new(Some(outer_row), None));
    let context = FilterContext::new(Some(chain()), Some(outer));
    assert_eq!(evaluate(Some(&context), None, &ident("id")), Ok(Value::I64(3)));
    assert_eq!(evaluate(Some(&context), None, &ident("far")), Ok(Value::I64(7)));
    assert_eq!(context.get_value(Some("o"), "id"), Some(Ok(Value::I64(100))));
    assert_eq!(context.get_value(Some("q"), "id"), None);
}

#[test]
fn an_aggregate_has_the_value_computed_for_it() {
    let count = Aggregate::Count(CountArgExpr::Wildcard);
    let sum = Aggregate::Sum(ident("n"));
    let other = Aggregate::Sum(ident("m"));
    let aggregates = vec![&count, &sum];
    let values = vec![Value::I64(4), Value::I64(12)];
    let aggregated = Aggregated { aggregates: &aggregates, values: &values };
    let get = |a: Aggregate| evaluate(None, Some(&aggregated), &Expr::Aggregate(Box::new(a)));
    assert_eq!(get(Aggregate::Sum(ident("n"))), Ok(Value::I64(12)));
    assert_eq!(get(Aggregate::Count(CountArgExpr::Wildcard)), Ok(Value::I64(4)));
    assert_eq!(
        get(Aggregate::Max(ident("n"))),
        Err(Error::Evaluate(EvaluateError::UnreachableAggregate))
    );
    assert!(aggregate_matches(&sum, &Aggregate::Sum(ident("n"))));
    assert!(!aggregate_matches(&sum, &other));
    assert!(!aggregate_matches(&sum, &Aggregate::Max(ident("n"))));
    assert_eq!(
        evaluate(None, None, &Expr::Aggregate(Box::new(Aggregate::Sum(ident("n"))))),
        Err(Error::Evaluate(EvaluateError::UnreachableAggregate))
    );
}

#[test]
fn values_have_a_total_order() {
    let ordered = vec![
        Value::Null,
        Value::Bool(false),
        Value::Bool(true),
        Value::I64(-1),
        Value::I64(5),
        text(""),
        text("a"),
        text("ab"),
        text("b"),
    ];
    for i in 0..ordered.len() {
        for j in 0..ordered.len() {
            assert_eq!(ordered[i].less_than(&ordered[j]), i < j);
            assert_eq!(ordered[i].equals(&ordered[j]), i == j);
        }
    }
    assert_eq!(Value::Null.get_type(), None);
    assert_eq!(Value::I64(1).get_type(), Some(DataType::Int));
    assert_eq!(text("a").get_type(), Some(DataType::Text));
    assert_eq!(Value::Bool(true).get_type(), Some(DataType::Boolean));
    assert_eq!(text("a").clone(), text("a"));
}
