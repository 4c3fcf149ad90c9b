use select_exec::ast::{
    AstLiteral, BinaryOperator, Expr, Join, JoinConstraint, JoinOperator, ObjectName, SelectItem,
    TableFactor,
};
use select_exec::ast_builder::{
    lower_with, sql_texts_of, AggregateNode, CountArgExprNode, ExprNode, FunctionNode,
};
use select_exec::ast::{Aggregate, CountArgExpr, Function};
use select_exec::blend::get_name;
use select_exec::context::{position, BlendContext};
use select_exec::error::{BuildError, Error, FetchError, SelectError, TableError};
use select_exec::fetch::{
    fetch, fetch_columns, fetch_join_columns, fetch_relation_columns, fetch_relation_rows,
    get_alias,
};
use select_exec::filter::Filter;
use select_exec::join::{Join as JoinStage, JoinStep, Relation};
use select_exec::limit::Limit;
use select_exec::select::{get_labels, into_rows};
use select_exec::store::{Column, ColumnSpecification, Schema, Store, Table};
use select_exec::text::column_label;
use select_exec::value::{DataType, Row, Value};
use std::rc::Rc;

fn number(n: i64) -> Expr {
    Expr::Literal(AstLiteral::Number(n.to_string()))
}

fn ident(name: &str) -> Expr {
    Expr::Identifier(name.to_owned())
}

fn column(name: &str) -> Column {
    Column { name: name.to_owned(), alias: None, table: None }
}

fn table(name: &str, columns: &[&str], rows: Vec<Vec<Value>>) -> Table {
    Table {
        schema: Schema {
            table_name: name.to_owned(),
            fields: columns
                .iter()
                .map(|c| ColumnSpecification { column: column(c), sql_type: DataType::Int })
                .collect(),
        },
        rows: rows.into_iter().zip(1u64..).map(|(r, key)| Ok((key, Row(r)))).collect(),
    }
}

fn strings(names: &[&str]) -> Vec<String> {
    names.iter().map(|n| (*n).to_owned()).collect()
}

fn wildcard_of(alias: &str) -> SelectItem {
    SelectItem::QualifiedWildcard(ObjectName(vec![alias.to_owned()]))
}

#[test]
fn labels_of_a_wildcard_are_base_then_joined_columns() {
    let a = "a".to_owned();
    let b = "b".to_owned();
    let joined = vec![(&a, strings(&["x", "y"])), (&b, strings(&["z"]))];
    let columns = strings(&["id", "v"]);
    assert_eq!(
        get_labels(&[SelectItem::Wildcard], "t", &columns, Some(&joined)),
        Ok(strings(&["id", "v", "x", "y", "z"]))
    );
    assert_eq!(
        get_labels(&[SelectItem::Wildcard], "t", &columns, None),
        Ok(strings(&["id", "v"]))
    );
}

#[test]
fn labels_follow_the_items_of_the_projection() {
    let a = "a".to_owned();
    let b = "b".to_owned();
    let joined = vec![
        (&a, strings(&["x", "y"])),
        (&b, strings(&["z"])),
        (&a, strings(&["late"])),
    ];
    let columns = strings(&["id"]);
    let projection = vec![
        wildcard_of("b"),
        SelectItem::Expr { expr: number(1), label: "one".to_owned() },
        wildcard_of("a"),
        wildcard_of("t"),
    ];
    assert_eq!(
        get_labels(&projection, "t", &columns, Some(&joined)),
        Ok(strings(&["z", "one", "x", "y", "id"]))
    );
    assert_eq!(get_labels(&[], "t", &columns, Some(&joined)), Ok(vec![]));
}

#[test]
fn labels_report_an_alias_that_no_relation_has() {
    let a = "a".to_owned();
    let joined = vec![(&a, strings(&["x"]))];
    let columns = strings(&["id"]);
    let missing = Err(Error::Select(SelectError::TableAliasNotFound("c".to_owned())));
    assert_eq!(
        get_labels(&[SelectItem::Wildcard, wildcard_of("c")], "t", &columns, Some(&joined)),
        missing
    );
    assert_eq!(get_labels(&[wildcard_of("c")], "t", &columns, None), missing);
    assert_eq!(
        get_labels(
            &[SelectItem::QualifiedWildcard(ObjectName(vec![])), wildcard_of("c")],
            "t",
            &columns,
            None
        ),
        Err(Error::Table(TableError::Unreachable))
    );
}

#[test]
fn names_end_in_the_table_or_alias() {
    let name = ObjectName(strings(&["db", "t"]));
    assert_eq!(get_name(&name), Ok(&"t".to_owned()));
    assert_eq!(get_name(&ObjectName(vec![])), Err(Error::Table(TableError::Unreachable)));
    let plain = TableFactor::Table { name: ObjectName(strings(&["t"])), alias: None };
    assert_eq!(get_alias(&plain), Ok(&"t".to_owned()));
    let aliased = TableFactor::Table {
        name: ObjectName(strings(&["t"])),
        alias: Some(select_exec::ast::TableAlias { name: "u".to_owned() }),
    };
    assert_eq!(get_alias(&aliased), Ok(&"u".to_owned()));
}

#[test]
fn into_rows_gives_one_item_for_each_tuple() {
    let list = vec![
        vec![number(1), number(2)],
        vec![number(3)],
        vec![ident("x"), number(4)],
        vec![number(5), number(6)],
    ];
    let (rows, labels) = into_rows(&list);
    assert_eq!(labels, strings(&["column1", "column2"]));
    assert_eq!(rows.len(), 4);
    assert_eq!(rows[0], Ok(Row(vec![Value::I64(1), Value::I64(2)])));
    assert_eq!(
        rows[1],
        Err(Error::Row(select_exec::error::RowError::NumberOfValuesDifferent))
    );
    assert_eq!(
        rows[2],
        Err(Error::Evaluate(select_exec::error::EvaluateError::ValueNotFound("x".to_owned())))
    );
    assert_eq!(rows[3], Ok(Row(vec![Value::I64(5), Value::I64(6)])));
    let (rows, labels) = into_rows(&[]);
    assert!(rows.is_empty());
    assert!(labels.is_empty());
}

#[test]
fn limit_slices_by_position() {
    let items: Vec<u32> = (0..10).collect();
    let cut = |limit: Option<u64>, offset: Option<u64>| {
        Limit { limit, offset }.apply(items.clone())
    };
    assert_eq!(cut(None, None), items);
    assert_eq!(cut(Some(3), None), vec![0, 1, 2]);
    assert_eq!(cut(None, Some(7)), vec![7, 8, 9]);
    assert_eq!(cut(Some(2), Some(3)), vec![3, 4]);
    assert_eq!(cut(Some(5), Some(8)), vec![8, 9]);
    assert_eq!(cut(Some(5), Some(10)), Vec::<u32>::new());
    assert_eq!(cut(Some(5), Some(u64::MAX)), Vec::<u32>::new());
    assert_eq!(cut(Some(u64::MAX), Some(1)).len(), 9);
    assert_eq!(cut(Some(0), None), Vec::<u32>::new());
    assert_eq!(
        Limit::new(Some(&number(3)), None),
        Ok(Limit { limit: Some(3), offset: None })
    );
    assert_eq!(
        Limit::new(Some(&ident("x")), Some(&number(-1))),
        Err(Error::Evaluate(select_exec::error::EvaluateError::ValueNotFound("x".to_owned())))
    );
}

#[test]
fn the_snapshot_answers_for_its_tables() {
    let store = Store {
        tables: vec![
            table("t", &["a", "b"], vec![vec![Value::I64(1), Value::I64(2)]]),
            table("u", &["c"], vec![]),
            table("t", &["late"], vec![]),
        ],
    };
    assert_eq!(fetch_columns(&store, &"t".to_owned()), Ok(vec![column("a"), column("b")]));
    assert_eq!(fetch_columns(&store, &"u".to_owned()), Ok(vec![column("c")]));
    assert_eq!(
        fetch_columns(&store, &"v".to_owned()),
        Err(Error::Fetch(FetchError::TableNotFound("v".to_owned())))
    );
    let t = TableFactor::Table { name: ObjectName(strings(&["t"])), alias: None };
    assert_eq!(fetch_relation_columns(&store, &t), Ok(strings(&["a", "b"])));
    assert_eq!(
        fetch_relation_rows(&store, &t).map(|rows| rows.len()),
        Ok(1)
    );
    let joins = vec![
        Join {
            relation: TableFactor::Table {
                name: ObjectName(strings(&["u"])),
                alias: Some(select_exec::ast::TableAlias { name: "w".to_owned() }),
            },
            join_operator: JoinOperator::Inner(JoinConstraint::Unconstrained),
        },
        Join { relation: t, join_operator: JoinOperator::Inner(JoinConstraint::Unconstrained) },
    ];
    let w = "w".to_owned();
    let tn = "t".to_owned();
    assert_eq!(
        fetch_join_columns(&joins, &store),
        Ok(vec![(&w, strings(&["c"])), (&tn, strings(&["a", "b"]))])
    );
    assert_eq!(position(&strings(&["a", "b", "a"]), "a"), Some(0));
    assert_eq!(position(&strings(&["a", "b", "a"]), "b"), Some(1));
    assert_eq!(position(&strings(&["a", "b", "a"]), "c"), None);
}

#[test]
fn fetch_keeps_the_rows_that_pass_the_filter() {
    let columns = vec![column("a")];
    let rows: Vec<Result<(&str, Row), Error>> = vec![
        Ok(("k1", Row(vec![Value::I64(1)]))),
        Ok(("k2", Row(vec![Value::I64(5)]))),
        Err(Error::Storage("lost".to_owned())),
        Ok(("k3", Row(vec![Value::Null]))),
        Ok(("k4", Row(vec![Value::Bool(true)]))),
        Ok(("k5", Row(vec![Value::I64(7)]))),
    ];
    let predicate = Expr::BinaryOp {
        left: Box::new(ident("a")),
        op: BinaryOperator::Gt,
        right: Box::new(number(2)),
    };
    let filter = Filter::new(Some(&predicate), None, None);
    let out = fetch(rows, &"t".to_owned(), &columns, filter);
    assert_eq!(
        out,
        vec![
            Ok((&columns, "k2", Row(vec![Value::I64(5)]))),
            Err(Error::Storage("lost".to_owned())),
            Err(Error::Value(select_exec::error::ValueError::IncompatibleOperands(
                BinaryOperator::Gt
            ))),
            Ok((&columns, "k5", Row(vec![Value::I64(7)]))),
        ]
    );
    let all = fetch(
        vec![Ok((1u8, Row(vec![Value::I64(1)])))],
        &"t".to_owned(),
        &columns,
        Filter::new(None, None, None),
    );
    assert_eq!(all, vec![Ok((&columns, 1u8, Row(vec![Value::I64(1)])))]);
}

#[test]
fn a_filter_sees_the_row_and_the_enclosing_context() {
    let row = Rc::new(BlendContext::new(
        "t".to_owned(),
        Rc::new(strings(&["a"])),
        Some(1),
        Some(Row(vec![Value::I64(3)])),
        None,
    ));
    let predicate = Expr::BinaryOp {
        left: Box::new(ident("a")),
        op: BinaryOperator::Eq,
        right: Box::new(number(3)),
    };
    let filter = Filter::new(Some(&predicate), None, None);
    assert_eq!(filter.check(Some(Rc::clone(&row))), Ok(true));
    assert_eq!(
        filter.check(None),
        Err(Error::Evaluate(select_exec::error::EvaluateError::ValueNotFound("a".to_owned())))
    );
    let items = vec![Ok(Rc::clone(&row)), Err(Error::Storage("x".to_owned()))];
    let out = filter.apply(&items);
    assert_eq!(out.len(), 2);
    assert!(Rc::ptr_eq(out[0].as_ref().unwrap(), &row));
    assert_eq!(out[1].as_ref().err(), Some(&Error::Storage("x".to_owned())));
    assert_eq!(Filter::new(None, None, None).check(None), Ok(true));
}

#[test]
fn nodes_are_lowered_to_the_same_tree() {
    let node = ExprNode::Between {
        expr: Box::new(ExprNode::Identifier("a".to_owned())),
        negated: true,
        low: Box::new(ExprNode::Expr(number(1))),
        high: Box::new(ExprNode::Nested(Box::new(ExprNode::CompoundIdentifier(vec![
            "t".to_owned(),
            "b".to_owned(),
        ])))),
    };
    assert_eq!(
        Expr::try_from(node),
        Ok(Expr::Between {
            expr: Box::new(ident("a")),
            negated: true,
            low: Box::new(number(1)),
            high: Box::new(Expr::Nested(Box::new(Expr::CompoundIdentifier(vec![
                "t".to_owned(),
                "b".to_owned()
            ])))),
        })
    );
    let node = ExprNode::Case {
        operand: Some(Box::new(ExprNode::Identifier("a".to_owned()))),
        when_then: vec![
            (ExprNode::Expr(number(1)), ExprNode::Expr(number(10))),
            (ExprNode::Expr(number(2)), ExprNode::IsNull(Box::new(ExprNode::Expr(number(20))))),
        ],
        else_result: None,
    };
    assert_eq!(
        Expr::try_from(node),
        Ok(Expr::Case {
            operand: Some(Box::new(ident("a"))),
            when_then: vec![
                (number(1), number(10)),
                (number(2), Expr::IsNull(Box::new(number(20)))),
            ],
            else_result: None,
        })
    );
    let node = ExprNode::InList {
        expr: Box::new(ExprNode::Function(Box::new(FunctionNode::Abs(ExprNode::Identifier(
            "a".to_owned(),
        ))))),
        list: vec![
            ExprNode::Expr(number(1)),
            ExprNode::Aggregate(Box::new(AggregateNode::Count(CountArgExprNode::Wildcard))),
            ExprNode::Aggregate(Box::new(AggregateNode::Max(ExprNode::Identifier(
                "b".to_owned(),
            )))),
        ],
        negated: false,
    };
    assert_eq!(
        Expr::try_from(node),
        Ok(Expr::InList {
            expr: Box::new(Expr::Function(Box::new(Function::Abs(ident("a"))))),
            list: vec![
                number(1),
                Expr::Aggregate(Box::new(Aggregate::Count(CountArgExpr::Wildcard))),
                Expr::Aggregate(Box::new(Aggregate::Max(ident("b")))),
            ],
            negated: false,
        })
    );
    assert_eq!(ExprNode::from(number(1)), ExprNode::Expr(number(1)));
}

fn three_texts() -> ExprNode {
    ExprNode::BinaryOp {
        left: Box::new(ExprNode::InList {
            expr: Box::new(ExprNode::Identifier("a".to_owned())),
            list: vec![
                ExprNode::Expr(number(1)),
                ExprNode::SqlExpr("first".to_owned()),
                ExprNode::Nested(Box::new(ExprNode::SqlExpr("second".to_owned()))),
            ],
            negated: false,
        }),
        op: BinaryOperator::And,
        right: Box::new(ExprNode::SqlExpr("third".to_owned())),
    }
}

#[test]
fn sql_texts_come_in_the_order_of_writing() {
    assert_eq!(sql_texts_of(&three_texts()), strings(&["first", "second", "third"]));
    assert_eq!(sql_texts_of(&ExprNode::Identifier("a".to_owned())), Vec::<String>::new());
    let case = ExprNode::Case {
        operand: Some(Box::new(ExprNode::SqlExpr("o".to_owned()))),
        when_then: vec![
            (ExprNode::SqlExpr("w1".to_owned()), ExprNode::SqlExpr("t1".to_owned())),
            (ExprNode::Expr(number(1)), ExprNode::SqlExpr("t2".to_owned())),
        ],
        else_result: Some(Box::new(ExprNode::Between {
            expr: Box::new(ExprNode::SqlExpr("e".to_owned())),
            negated: false,
            low: Box::new(ExprNode::SqlExpr("lo".to_owned())),
            high: Box::new(ExprNode::Function(Box::new(FunctionNode::IfNull {
                expr: ExprNode::SqlExpr("f".to_owned()),
                then: ExprNode::Aggregate(Box::new(AggregateNode::Sum(ExprNode::SqlExpr(
                    "g".to_owned(),
                )))),
            }))),
        })),
    };
    assert_eq!(
        sql_texts_of(&case),
        strings(&["o", "w1", "t1", "t2", "e", "lo", "f", "g"])
    );
    let parsed = (1..=8).map(|n| Ok(number(n))).collect();
    assert_eq!(
        lower_with(case, parsed),
        Ok(Expr::Case {
            operand: Some(Box::new(number(1))),
            when_then: vec![(number(2), number(3)), (number(1), number(4))],
            else_result: Some(Box::new(Expr::Between {
                expr: Box::new(number(5)),
                negated: false,
                low: Box::new(number(6)),
                high: Box::new(Expr::Function(Box::new(Function::IfNull {
                    expr: number(7),
                    then: Expr::Aggregate(Box::new(Aggregate::Sum(number(8)))),
                }))),
            })),
        })
    );
}

#[test]
fn each_sql_text_is_replaced_by_what_it_was_read_as() {
    let parsed = vec![Ok(number(10)), Ok(ident("x")), Ok(number(30))];
    assert_eq!(
        lower_with(three_texts(), parsed),
        Ok(Expr::BinaryOp {
            left: Box::new(Expr::InList {
                expr: Box::new(ident("a")),
                list: vec![number(1), number(10), Expr::Nested(Box::new(ident("x")))],
                negated: false,
            }),
            op: BinaryOperator::And,
            right: Box::new(number(30)),
        })
    );
    assert_eq!(
        lower_with(ExprNode::SqlExpr("1".to_owned()), vec![Ok(number(1))]),
        Ok(number(1))
    );
}

#[test]
fn the_first_text_that_was_not_read_gives_the_error() {
    let bad = |text: &str| Error::Build(BuildError::InvalidSqlText(text.to_owned()));
    assert_eq!(
        lower_with(three_texts(), vec![Ok(number(10)), Err(bad("second")), Err(bad("third"))]),
        Err(bad("second"))
    );
    assert_eq!(
        lower_with(three_texts(), vec![Ok(number(10)), Ok(number(20)), Err(bad("third"))]),
        Err(bad("third"))
    );
    assert_eq!(
        lower_with(three_texts(), vec![Err(bad("first")), Ok(number(20)), Ok(number(30))]),
        Err(bad("first"))
    );
}

#[test]
fn joined_contexts_keep_the_keys_of_their_rows() {
    let columns = Rc::new(strings(&["a"]));
    let left = Rc::new(BlendContext::new(
        "l".to_owned(),
        Rc::clone(&columns),
        Some(40),
        Some(Row(vec![Value::I64(1)])),
        None,
    ));
    let rows = vec![
        Ok((5, Row(vec![Value::I64(1)]))),
        Ok((6, Row(vec![Value::I64(2)]))),
        Ok((7, Row(vec![Value::I64(1)]))),
    ];
    let on = JoinOperator::LeftOuter(JoinConstraint::On(Expr::BinaryOp {
        left: Box::new(Expr::CompoundIdentifier(strings(&["l", "a"]))),
        op: BinaryOperator::Eq,
        right: Box::new(Expr::CompoundIdentifier(strings(&["r", "a"]))),
    }));
    let step = JoinStep {
        relation: Relation { alias: "r".to_owned(), columns: Rc::clone(&columns), rows: &rows },
        join_operator: &on,
    };
    let lonely = Rc::new(BlendContext::new(
        "l".to_owned(),
        Rc::clone(&columns),
        Some(41),
        Some(Row(vec![Value::I64(3)])),
        None,
    ));
    let out = JoinStage::new(vec![step], None).apply(vec![Ok(left), Ok(lonely)]);
    let seen: Vec<(Option<u64>, Option<u64>, bool)> = out
        .iter()
        .map(|item| {
            let context = item.as_ref().unwrap();
            (context.key, context.next.as_ref().unwrap().key, context.row.is_some())
        })
        .collect();
    assert_eq!(
        seen,
        vec![
            (Some(5), Some(40), true),
            (Some(7), Some(40), true),
            (None, Some(41), false),
        ]
    );
    assert_eq!(out[0].as_ref().unwrap().table_alias, "r");
    assert!(Rc::ptr_eq(&out[0].as_ref().unwrap().columns, &columns));
}

#[test]
fn column_labels_count_from_the_given_number() {
    assert_eq!(column_label(1), "column1");
    assert_eq!(column_label(12), "column12");
    assert_eq!(column_label(0), "column0");
    assert_eq!(column_label(1000), "column1000");
}
