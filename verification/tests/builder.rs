use select_exec::ast::{AstLiteral, BinaryOperator, Expr};
use select_exec::ast_builder::{col, expr, lower_with, num, sql_texts_of, text, ExprNode};
use select_exec::error::{BuildError, Error};
use select_exec::evaluate::evaluate;
use select_exec::value::Value;

#[test]
fn num_writes_the_decimal_numeral() {
    assert_eq!(
        num(42),
        ExprNode::Expr(Expr::Literal(AstLiteral::Number("42".to_owned())))
    );
    assert_eq!(
        num(-7),
        ExprNode::Expr(Expr::Literal(AstLiteral::Number("-7".to_owned())))
    );
    assert_eq!(
        num(0),
        ExprNode::Expr(Expr::Literal(AstLiteral::Number("0".to_owned())))
    );
}

#[test]
fn col_splits_at_dots() {
    assert_eq!(col("id"), ExprNode::Identifier("id".to_owned()));
    assert_eq!(
        col("t.id"),
        ExprNode::CompoundIdentifier(vec!["t".to_owned(), "id".to_owned()])
    );
}

#[test]
fn text_and_expr_keep_their_text() {
    assert_eq!(
        text("abc"),
        ExprNode::Expr(Expr::Literal(AstLiteral::QuotedString("abc".to_owned())))
    );
    assert_eq!(expr("a + 1"), ExprNode::SqlExpr("a + 1".to_owned()));
}

#[test]
fn col_keeps_empty_pieces() {
    assert_eq!(
        col("a..b"),
        ExprNode::CompoundIdentifier(vec!["a".to_owned(), "".to_owned(), "b".to_owned()])
    );
    assert_eq!(
        col(".x"),
        ExprNode::CompoundIdentifier(vec!["".to_owned(), "x".to_owned()])
    );
    assert_eq!(col(""), ExprNode::Identifier("".to_owned()));
}

#[test]
fn a_number_node_evaluates_to_its_number() {
    for n in [0, 1, -1, 10, -10, 12345, i64::MAX, i64::MIN] {
        let lowered = Expr::try_from(num(n)).unwrap();
        assert_eq!(evaluate(None, None, &lowered), Ok(Value::I64(n)));
    }
}

#[test]
fn a_text_node_evaluates_to_its_text() {
    let lowered = Expr::try_from(text("it's")).unwrap();
    assert_eq!(evaluate(None, None, &lowered), Ok(Value::Str("it's".to_owned())));
    let lowered = Expr::try_from(col("t.x")).unwrap();
    assert_eq!(
        lowered,
        Expr::CompoundIdentifier(vec!["t".to_owned(), "x".to_owned()])
    );
}

#[test]
fn an_sql_node_is_lowered_to_what_its_text_was_read_as() {
    let node = expr("a + 1");
    assert_eq!(sql_texts_of(&node), vec!["a + 1".to_owned()]);
    let read = Expr::BinaryOp {
        left: Box::new(Expr::Identifier("a".to_owned())),
        op: BinaryOperator::Plus,
        right: Box::new(Expr::Literal(AstLiteral::Number("1".to_owned()))),
    };
    let expected = Expr::BinaryOp {
        left: Box::new(Expr::Identifier("a".to_owned())),
        op: BinaryOperator::Plus,
        right: Box::new(Expr::Literal(AstLiteral::Number("1".to_owned()))),
    };
    assert_eq!(lower_with(node, vec![Ok(read)]), Ok(expected));
    let error = Error::Build(BuildError::InvalidSqlText("a +".to_owned()));
    let again = Error::Build(BuildError::InvalidSqlText("a +".to_owned()));
    assert_eq!(lower_with(expr("a +"), vec![Err(error)]), Err(again));
}

#[test]
fn nodes_are_made_from_texts_numbers_and_expressions() {
    assert_eq!(ExprNode::from("a + 1"), expr("a + 1"));
    assert_eq!(ExprNode::from(-12i64), num(-12));
    assert_eq!(ExprNode::from(i64::MIN), num(i64::MIN));
    let literal = Expr::Literal(AstLiteral::Boolean(true));
    assert_eq!(
        ExprNode::from(literal),
        ExprNode::Expr(Expr::Literal(AstLiteral::Boolean(true)))
    );
}

#[test]
fn a_copy_of_a_node_is_the_same_tree() {
    let node = ExprNode::Case {
        operand: Some(Box::new(col("t.a"))),
        when_then: vec![(num(1), text("one")), (expr("a > 1"), ExprNode::IsNull(Box::new(col("b"))))],
        else_result: None,
    };
    let copy = node.clone();
    assert_eq!(copy, node);
    let list = ExprNode::InList {
        expr: Box::new(ExprNode::Nested(Box::new(col("a")))),
        list: vec![num(1), ExprNode::from(Expr::Identifier("x".to_owned())), expr("2")],
        negated: true,
    };
    assert_eq!(list.clone(), list);
    let lowered = Expr::try_from(ExprNode::Between {
        expr: Box::new(col("a")),
        negated: false,
        low: Box::new(num(1)),
        high: Box::new(col("t.b")),
    })
    .unwrap();
    assert_eq!(lowered.clone(), lowered);
}
