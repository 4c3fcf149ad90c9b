use select_exec::ast::{
    Aggregate, AstLiteral, BinaryOperator, CountArgExpr, Expr, Join, JoinConstraint, JoinOperator,
    ObjectName, OrderByExpr, Query, Select, SelectItem, SetExpr, TableAlias, TableFactor,
    TableWithJoins,
};
use select_exec::context::{BlendContext, FilterContext};
use select_exec::error::{Error, EvaluateError, ValueError};
use select_exec::select::{select, select_with_labels};
use select_exec::store::{Column, ColumnSpecification, Schema, Store, Table};
use select_exec::value::{DataType, Row, Value};
use std::rc::Rc;

fn table(name: &str, columns: &[&str], rows: Vec<Vec<Value>>) -> Table {
    Table {
        schema: Schema {
            table_name: name.to_owned(),
            fields: columns
                .iter()
                .map(|c| ColumnSpecification {
                    column: Column { name: (*c).to_owned(), alias: None, table: None },
                    sql_type: DataType::Int,
                })
                .collect(),
        },
        rows: rows.into_iter().zip(1u64..).map(|(r, key)| Ok((key, Row(r)))).collect(),
    }
}

fn number(n: i64) -> Expr {
    Expr::Literal(AstLiteral::Number(n.to_string()))
}

fn string(s: &str) -> Expr {
    Expr::Literal(AstLiteral::QuotedString(s.to_owned()))
}

fn ident(name: &str) -> Expr {
    Expr::Identifier(name.to_owned())
}

fn compound(alias: &str, name: &str) -> Expr {
    Expr::CompoundIdentifier(vec![alias.to_owned(), name.to_owned()])
}

fn binary(left: Expr, op: BinaryOperator, right: Expr) -> Expr {
    Expr::BinaryOp { left: Box::new(left), op, right: Box::new(right) }
}

fn count_all() -> Expr {
    Expr::Aggregate(Box::new(Aggregate::Count(CountArgExpr::Wildcard)))
}

fn field(expr: Expr, label: &str) -> SelectItem {
    SelectItem::Expr { expr, label: label.to_owned() }
}

fn relation(name: &str, alias: Option<&str>) -> TableFactor {
    TableFactor::Table {
        name: ObjectName(vec![name.to_owned()]),
        alias: alias.map(|a| TableAlias { name: a.to_owned() }),
    }
}

fn from(name: &str, projection: Vec<SelectItem>) -> Select {
    Select {
        projection,
        from: TableWithJoins { relation: relation(name, None), joins: vec![] },
        selection: None,
        group_by: vec![],
        having: None,
        order_by: vec![],
    }
}

fn query(select: Select) -> Query {
    Query { body: SetExpr::Select(Box::new(select)), limit: None, offset: None }
}

fn ints(values: &[i64]) -> Row {
    Row(values.iter().map(|n| Value::I64(*n)).collect())
}

fn text(s: &str) -> Value {
    Value::Str(s.to_owned())
}

fn sales() -> Store {
    Store {
        tables: vec![table(
            "sales",
            &["city", "item", "n"],
            vec![
                vec![text("rome"), text("pen"), Value::I64(3)],
                vec![text("oslo"), text("pen"), Value::I64(5)],
                vec![text("rome"), text("ink"), Value::I64(1)],
                vec![text("rome"), text("pen"), Value::I64(4)],
                vec![text("oslo"), text("pen"), Value::I64(2)],
                vec![text("bern"), text("ink"), Value::Null],
            ],
        )],
    }
}

#[test]
fn groups_can_have_several_keys() {
    let sum = Expr::Aggregate(Box::new(Aggregate::Sum(ident("n"))));
    let mut s = from(
        "sales",
        vec![field(ident("city"), "city"), field(ident("item"), "item"), field(sum, "total")],
    );
    s.group_by = vec![ident("city"), ident("item")];
    let rows = select(&sales(), &query(s), None).unwrap();
    assert_eq!(
        rows,
        vec![
            Ok(Row(vec![text("rome"), text("pen"), Value::I64(7)])),
            Ok(Row(vec![text("oslo"), text("pen"), Value::I64(7)])),
            Ok(Row(vec![text("rome"), text("ink"), Value::I64(1)])),
            Ok(Row(vec![text("bern"), text("ink"), Value::Null])),
        ]
    );
}

#[test]
fn groups_can_be_sorted_by_an_aggregate() {
    let mut s = from("sales", vec![field(ident("city"), "city"), field(count_all(), "rows")]);
    s.group_by = vec![ident("city")];
    s.order_by = vec![
        OrderByExpr { expr: count_all(), asc: Some(false) },
        OrderByExpr { expr: ident("city"), asc: None },
    ];
    let rows = select(&sales(), &query(s), None).unwrap();
    assert_eq!(
        rows,
        vec![
            Ok(Row(vec![text("rome"), Value::I64(3)])),
            Ok(Row(vec![text("oslo"), Value::I64(2)])),
            Ok(Row(vec![text("bern"), Value::I64(1)])),
        ]
    );
}

#[test]
fn the_least_and_the_greatest_of_texts_and_numbers() {
    let min_city = Expr::Aggregate(Box::new(Aggregate::Min(ident("city"))));
    let max_city = Expr::Aggregate(Box::new(Aggregate::Max(ident("city"))));
    let min_n = Expr::Aggregate(Box::new(Aggregate::Min(ident("n"))));
    let max_n = Expr::Aggregate(Box::new(Aggregate::Max(compound("sales", "n"))));
    let count_n = Expr::Aggregate(Box::new(Aggregate::Count(CountArgExpr::Expr(ident("n")))));
    let s = from(
        "sales",
        vec![
            field(min_city, "a"),
            field(max_city, "b"),
            field(min_n, "c"),
            field(max_n, "d"),
            field(count_n, "e"),
            field(count_all(), "f"),
        ],
    );
    let rows = select(&sales(), &query(s), None).unwrap();
    assert_eq!(
        rows,
        vec![Ok(Row(vec![
            text("bern"),
            text("rome"),
            Value::I64(1),
            Value::I64(5),
            Value::I64(5),
            Value::I64(6),
        ]))]
    );
}

#[test]
fn texts_sort_by_their_characters() {
    let mut s = from("sales", vec![field(ident("city"), "city"), field(ident("n"), "n")]);
    s.order_by = vec![
        OrderByExpr { expr: ident("city"), asc: Some(false) },
        OrderByExpr { expr: ident("n"), asc: Some(true) },
    ];
    let rows = select(&sales(), &query(s), None).unwrap();
    assert_eq!(
        rows,
        vec![
            Ok(Row(vec![text("rome"), Value::I64(1)])),
            Ok(Row(vec![text("rome"), Value::I64(3)])),
            Ok(Row(vec![text("rome"), Value::I64(4)])),
            Ok(Row(vec![text("oslo"), Value::I64(2)])),
            Ok(Row(vec![text("oslo"), Value::I64(5)])),
            Ok(Row(vec![text("bern"), Value::Null])),
        ]
    );
}

#[test]
fn a_having_that_cannot_be_decided_takes_the_groups_place() {
    let mut s = from("sales", vec![field(ident("city"), "city")]);
    s.group_by = vec![ident("city")];
    s.having = Some(binary(
        binary(ident("city"), BinaryOperator::Eq, string("oslo")),
        BinaryOperator::Or,
        binary(ident("n"), BinaryOperator::Gt, number(2)),
    ));
    let rows = select(&sales(), &query(s), None).unwrap();
    assert_eq!(
        rows,
        vec![Ok(Row(vec![text("rome")])), Ok(Row(vec![text("oslo")]))]
    );
    let mut s = from("sales", vec![field(ident("city"), "city")]);
    s.group_by = vec![ident("city")];
    s.having = Some(binary(ident("city"), BinaryOperator::Gt, number(2)));
    let rows = select(&sales(), &query(s), None).unwrap();
    let error = Error::Value(ValueError::IncompatibleOperands(BinaryOperator::Gt));
    assert_eq!(rows, vec![Err(error.clone()), Err(error.clone()), Err(error)]);
}

#[test]
fn a_key_that_cannot_be_evaluated_ends_the_query() {
    let mut s = from("sales", vec![field(count_all(), "rows")]);
    s.group_by = vec![ident("region")];
    assert_eq!(
        select(&sales(), &query(s), None),
        Err(Error::Evaluate(EvaluateError::ValueNotFound("region".to_owned())))
    );
}

#[test]
fn where_filters_before_the_groups_are_made() {
    let mut s = from("sales", vec![field(ident("city"), "city"), field(count_all(), "rows")]);
    s.selection = Some(binary(ident("item"), BinaryOperator::Eq, string("pen")));
    s.group_by = vec![ident("city")];
    let rows = select(&sales(), &query(s), None).unwrap();
    assert_eq!(
        rows,
        vec![
            Ok(Row(vec![text("rome"), Value::I64(2)])),
            Ok(Row(vec![text("oslo"), Value::I64(2)])),
        ]
    );
}

#[test]
fn offset_counts_errors_as_items() {
    let store = Store {
        tables: vec![table(
            "t",
            &["a"],
            vec![vec![text("x")], vec![Value::I64(5)], vec![Value::I64(6)]],
        )],
    };
    let mut s = from("t", vec![field(ident("a"), "a")]);
    s.selection = Some(binary(ident("a"), BinaryOperator::Gt, number(1)));
    let mut q = query(s);
    let all = select(&store, &q, None).unwrap();
    assert_eq!(all.len(), 3);
    assert!(all[0].is_err());
    q.offset = Some(number(1));
    assert_eq!(select(&store, &q, None), Ok(vec![Ok(ints(&[5])), Ok(ints(&[6]))]));
}

#[test]
fn a_query_sees_the_row_of_an_enclosing_query() {
    let outer_row = Rc::new(BlendContext::new(
        "o".to_owned(),
        Rc::new(vec!["wanted".to_owned(), "n".to_owned()]),
        Some(1),
        Some(Row(vec![text("oslo"), Value::I64(100)])),
        None,
    ));
    let outer = Rc::new(FilterContext::new(Some(outer_row), None));
    let mut s = from(
        "sales",
        vec![field(ident("n"), "n"), field(compound("o", "n"), "outer_n")],
    );
    s.selection = Some(binary(ident("city"), BinaryOperator::Eq, ident("wanted")));
    let rows = select(&sales(), &query(s), Some(outer)).unwrap();
    assert_eq!(rows, vec![Ok(ints(&[5, 100])), Ok(ints(&[2, 100]))]);
}

fn two_tables() -> Store {
    let mut right = table(
        "r",
        &["id", "w"],
        vec![vec![Value::I64(1), Value::I64(9)], vec![text("x"), Value::I64(8)]],
    );
    right.rows.push(Err(Error::Storage("gone".to_owned())));
    Store {
        tables: vec![
            table("l", &["id"], vec![vec![Value::I64(1)], vec![Value::I64(2)]]),
            right,
        ],
    }
}

#[test]
fn a_join_puts_errors_in_the_place_of_their_rows() {
    let mut s = from("l", vec![SelectItem::Wildcard]);
    s.from.joins = vec![Join {
        relation: relation("r", None),
        join_operator: JoinOperator::LeftOuter(JoinConstraint::On(binary(
            compound("l", "id"),
            BinaryOperator::Eq,
            compound("r", "id"),
        ))),
    }];
    let rows = select(&two_tables(), &query(s), None).unwrap();
    let mismatch = Error::Value(ValueError::IncompatibleOperands(BinaryOperator::Eq));
    let gone = Error::Storage("gone".to_owned());
    assert_eq!(
        rows,
        vec![
            Ok(ints(&[1, 1, 9])),
            Err(mismatch.clone()),
            Err(gone.clone()),
            Err(mismatch),
            Err(gone),
            Ok(Row(vec![Value::I64(2), Value::Null, Value::Null])),
        ]
    );
}

#[test]
fn null_extended_rows_can_be_found_by_where() {
    let store = Store {
        tables: vec![
            table("l", &["id"], vec![vec![Value::I64(1)], vec![Value::I64(2)]]),
            table("r", &["id"], vec![vec![Value::I64(1)]]),
        ],
    };
    let mut s = from("l", vec![field(compound("l", "id"), "id")]);
    s.from.joins = vec![Join {
        relation: relation("r", None),
        join_operator: JoinOperator::LeftOuter(JoinConstraint::On(binary(
            compound("l", "id"),
            BinaryOperator::Eq,
            compound("r", "id"),
        ))),
    }];
    s.selection = Some(Expr::IsNull(Box::new(compound("r", "id"))));
    let rows = select(&store, &query(s), None).unwrap();
    assert_eq!(rows, vec![Ok(ints(&[2]))]);
}

#[test]
fn a_table_can_be_joined_to_itself_under_aliases() {
    let store = Store {
        tables: vec![table(
            "t",
            &["id", "boss"],
            vec![
                vec![Value::I64(1), Value::Null],
                vec![Value::I64(2), Value::I64(1)],
                vec![Value::I64(3), Value::I64(1)],
            ],
        )],
    };
    let mut s = from(
        "t",
        vec![
            SelectItem::QualifiedWildcard(ObjectName(vec!["b".to_owned()])),
            field(compound("e", "id"), "employee"),
        ],
    );
    s.from.relation = relation("t", Some("e"));
    s.from.joins = vec![Join {
        relation: relation("t", Some("b")),
        join_operator: JoinOperator::Inner(JoinConstraint::On(binary(
            compound("e", "boss"),
            BinaryOperator::Eq,
            compound("b", "id"),
        ))),
    }];
    let (names, rows) = select_with_labels(&store, &query(s), None, true).unwrap();
    assert_eq!(names, vec!["id", "boss", "employee"]);
    assert_eq!(
        rows,
        vec![
            Ok(Row(vec![Value::I64(1), Value::Null, Value::I64(2)])),
            Ok(Row(vec![Value::I64(1), Value::Null, Value::I64(3)])),
        ]
    );
}

#[test]
fn a_repeated_alias_means_the_base_relation_in_a_wildcard() {
    let store = Store {
        tables: vec![
            table("t", &["a"], vec![vec![Value::I64(1)]]),
            table("u", &["b", "c"], vec![vec![Value::I64(2), Value::I64(3)]]),
        ],
    };
    let mut s = from(
        "t",
        vec![SelectItem::QualifiedWildcard(ObjectName(vec!["x".to_owned()]))],
    );
    s.from.relation = relation("t", Some("x"));
    s.from.joins = vec![Join {
        relation: relation("u", Some("x")),
        join_operator: JoinOperator::Inner(JoinConstraint::Unconstrained),
    }];
    let (names, rows) = select_with_labels(&store, &query(s), None, true).unwrap();
    assert_eq!(names, vec!["a"]);
    assert_eq!(rows, vec![Ok(ints(&[1]))]);
}
