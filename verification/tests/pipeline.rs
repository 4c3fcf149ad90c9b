use select_exec::ast::{
    Aggregate, AstLiteral, BinaryOperator, CountArgExpr, Expr, Join, JoinConstraint, JoinOperator,
    ObjectName, OrderByExpr, Query, Select, SelectItem, SetExpr, TableAlias, TableFactor,
    TableWithJoins, Values,
};
use select_exec::error::{
    AggregateError, Error, EvaluateError, FetchError, LimitError, RowError, SelectError,
    TableError, ValueError,
};
use select_exec::select::{deliver, select, select_with_labels};
use select_exec::store::{Column, ColumnSpecification, Schema, Store, Table};
use select_exec::value::{DataType, Row, Value};

fn table(name: &str, columns: &[&str], rows: Vec<Vec<Value>>) -> Table {
    Table {
        schema: Schema {
            table_name: name.to_owned(),
            fields: columns
                .iter()
                .map(|c| ColumnSpecification {
                    column: Column { name: (*c).to_owned(), alias: None, table: None },
                    sql_type: DataType::Int,
                })
                .collect(),
        },
        rows: rows.into_iter().zip(1u64..).map(|(r, key)| Ok((key, Row(r)))).collect(),
    }
}

fn number(n: i64) -> Expr {
    Expr::Literal(AstLiteral::Number(n.to_string()))
}

fn string(s: &str) -> Expr {
    Expr::Literal(AstLiteral::QuotedString(s.to_owned()))
}

fn ident(name: &str) -> Expr {
    Expr::Identifier(name.to_owned())
}

fn compound(alias: &str, name: &str) -> Expr {
    Expr::CompoundIdentifier(vec![alias.to_owned(), name.to_owned()])
}

fn binary(left: Expr, op: BinaryOperator, right: Expr) -> Expr {
    Expr::BinaryOp { left: Box::new(left), op, right: Box::new(right) }
}

fn count_all() -> Expr {
    Expr::Aggregate(Box::new(Aggregate::Count(CountArgExpr::Wildcard)))
}

fn field(expr: Expr, label: &str) -> SelectItem {
    SelectItem::Expr { expr, label: label.to_owned() }
}

fn relation(name: &str) -> TableFactor {
    TableFactor::Table { name: ObjectName(vec![name.to_owned()]), alias: None }
}

fn aliased(name: &str, alias: &str) -> TableFactor {
    TableFactor::Table {
        name: ObjectName(vec![name.to_owned()]),
        alias: Some(TableAlias { name: alias.to_owned() }),
    }
}

fn plain_select(from: &str, projection: Vec<SelectItem>) -> Select {
    Select {
        projection,
        from: TableWithJoins { relation: relation(from), joins: vec![] },
        selection: None,
        group_by: vec![],
        having: None,
        order_by: vec![],
    }
}

fn query(select: Select) -> Query {
    Query { body: SetExpr::Select(Box::new(select)), limit: None, offset: None }
}

fn values(list: Vec<Vec<Expr>>) -> Query {
    Query { body: SetExpr::Values(Values(list)), limit: None, offset: None }
}

fn ints(values: &[i64]) -> Row {
    Row(values.iter().map(|n| Value::I64(*n)).collect())
}

fn labels(names: &[&str]) -> Vec<String> {
    names.iter().map(|n| (*n).to_owned()).collect()
}

#[test]
fn values_list_gives_numbered_labels_and_its_rows() {
    let q = values(vec![vec![number(1), string("x")], vec![number(2), string("y")]]);
    let (names, rows) = select_with_labels(&Store { tables: vec![] }, &q, None, true).unwrap();
    assert_eq!(names, labels(&["column1", "column2"]));
    assert_eq!(
        rows,
        vec![
            Ok(Row(vec![Value::I64(1), Value::Str("x".to_owned())])),
            Ok(Row(vec![Value::I64(2), Value::Str("y".to_owned())])),
        ]
    );
}

#[test]
fn values_list_reports_a_tuple_of_another_length() {
    let q = values(vec![vec![number(1), number(2)], vec![number(1), number(2), number(3)]]);
    let rows = select(&Store { tables: vec![] }, &q, None).unwrap();
    assert_eq!(rows.len(), 2);
    assert_eq!(rows[0], Ok(ints(&[1, 2])));
    assert_eq!(rows[1], Err(Error::Row(RowError::NumberOfValuesDifferent)));
}

#[test]
fn values_list_labels_go_past_nine() {
    let tuple: Vec<Expr> = (1..=11).map(number).collect();
    let q = values(vec![tuple]);
    let (names, rows) = select_with_labels(&Store { tables: vec![] }, &q, None, true).unwrap();
    assert_eq!(names.len(), 11);
    assert_eq!(names[8], "column9");
    assert_eq!(names[9], "column10");
    assert_eq!(names[10], "column11");
    assert_eq!(rows, vec![Ok(ints(&[1, 2, 3, 4, 5, 6, 7, 8, 9, 10, 11]))]);
}

#[test]
fn values_list_takes_the_type_of_the_first_value() {
    let q = values(vec![
        vec![Expr::Literal(AstLiteral::Null), Expr::Literal(AstLiteral::Boolean(true))],
        vec![number(5), number(1)],
        vec![string("x"), number(0)],
        vec![number(6), number(2)],
    ]);
    let rows = select(&Store { tables: vec![] }, &q, None).unwrap();
    assert_eq!(rows[0], Ok(Row(vec![Value::Null, Value::Bool(true)])));
    assert_eq!(rows[1], Ok(Row(vec![Value::I64(5), Value::Bool(true)])));
    assert_eq!(
        rows[2],
        Err(Error::Value(ValueError::IncompatibleDataType(DataType::Int)))
    );
    assert_eq!(
        rows[3],
        Err(Error::Value(ValueError::IncompatibleDataType(DataType::Boolean)))
    );
}

#[test]
fn values_list_is_cut_by_offset_and_limit() {
    let mut q = values(vec![vec![number(1)], vec![number(2)], vec![number(3)], vec![number(4)]]);
    q.offset = Some(number(1));
    q.limit = Some(number(2));
    let rows = select(&Store { tables: vec![] }, &q, None).unwrap();
    assert_eq!(rows, vec![Ok(ints(&[2])), Ok(ints(&[3]))]);
}

#[test]
fn empty_values_list_gives_nothing() {
    let q = values(vec![]);
    let (names, rows) = select_with_labels(&Store { tables: vec![] }, &q, None, true).unwrap();
    assert!(names.is_empty());
    assert!(rows.is_empty());
}

#[test]
fn where_keeps_the_rows_of_which_it_holds() {
    let store = Store {
        tables: vec![table(
            "t",
            &["a", "b"],
            vec![
                vec![Value::I64(1), Value::I64(10)],
                vec![Value::I64(2), Value::I64(20)],
            ],
        )],
    };
    let mut s = plain_select("t", vec![SelectItem::Wildcard]);
    s.selection = Some(binary(ident("a"), BinaryOperator::Gt, number(1)));
    let (names, rows) = select_with_labels(&store, &query(s), None, true).unwrap();
    assert_eq!(names, labels(&["a", "b"]));
    assert_eq!(rows, vec![Ok(ints(&[2, 20]))]);
}

#[test]
fn where_null_excludes_and_error_takes_the_rows_place() {
    let store = Store {
        tables: vec![table(
            "t",
            &["a"],
            vec![
                vec![Value::Null],
                vec![Value::I64(3)],
                vec![Value::Str("x".to_owned())],
                vec![Value::I64(0)],
            ],
        )],
    };
    let mut s = plain_select("t", vec![SelectItem::Wildcard]);
    s.selection = Some(binary(ident("a"), BinaryOperator::Gt, number(1)));
    let rows = select(&store, &query(s), None).unwrap();
    assert_eq!(
        rows,
        vec![
            Ok(ints(&[3])),
            Err(Error::Value(ValueError::IncompatibleOperands(BinaryOperator::Gt))),
        ]
    );
}

fn join_store() -> Store {
    Store {
        tables: vec![
            table(
                "t1",
                &["id", "v"],
                vec![
                    vec![Value::I64(1), Value::I64(5)],
                    vec![Value::I64(2), Value::I64(6)],
                ],
            ),
            table("t2", &["id", "w"], vec![vec![Value::I64(1), Value::I64(9)]]),
        ],
    }
}

fn join_select(operator: JoinOperator) -> Select {
    let mut s = plain_select("t1", vec![SelectItem::Wildcard]);
    s.from.joins = vec![Join { relation: relation("t2"), join_operator: operator }];
    s
}

fn on_ids() -> JoinConstraint {
    JoinConstraint::On(binary(compound("t1", "id"), BinaryOperator::Eq, compound("t2", "id")))
}

#[test]
fn left_outer_join_extends_unmatched_rows_with_nulls() {
    let s = join_select(JoinOperator::LeftOuter(on_ids()));
    let (names, rows) = select_with_labels(&join_store(), &query(s), None, true).unwrap();
    assert_eq!(names, labels(&["id", "v", "id", "w"]));
    assert_eq!(
        rows,
        vec![
            Ok(ints(&[1, 5, 1, 9])),
            Ok(Row(vec![Value::I64(2), Value::I64(6), Value::Null, Value::Null])),
        ]
    );
}

#[test]
fn inner_join_gives_exactly_the_matching_pairs() {
    let s = join_select(JoinOperator::Inner(on_ids()));
    let rows = select(&join_store(), &query(s), None).unwrap();
    assert_eq!(rows, vec![Ok(ints(&[1, 5, 1, 9]))]);
}

#[test]
fn join_without_constraint_pairs_every_row() {
    let s = join_select(JoinOperator::Inner(JoinConstraint::Unconstrained));
    let rows = select(&join_store(), &query(s), None).unwrap();
    assert_eq!(rows, vec![Ok(ints(&[1, 5, 1, 9])), Ok(ints(&[2, 6, 1, 9]))]);
}

#[test]
fn left_outer_join_gives_one_row_for_each_match() {
    let store = Store {
        tables: vec![
            table("a", &["k"], vec![vec![Value::I64(1)], vec![Value::I64(2)]]),
            table(
                "b",
                &["k", "n"],
                vec![
                    vec![Value::I64(1), Value::I64(10)],
                    vec![Value::I64(1), Value::I64(11)],
                    vec![Value::I64(3), Value::I64(12)],
                ],
            ),
        ],
    };
    let mut s = plain_select("a", vec![SelectItem::Wildcard]);
    s.from.joins = vec![Join {
        relation: relation("b"),
        join_operator: JoinOperator::LeftOuter(JoinConstraint::On(binary(
            compound("a", "k"),
            BinaryOperator::Eq,
            compound("b", "k"),
        ))),
    }];
    let rows = select(&store, &query(s), None).unwrap();
    assert_eq!(
        rows,
        vec![
            Ok(ints(&[1, 1, 10])),
            Ok(ints(&[1, 1, 11])),
            Ok(Row(vec![Value::I64(2), Value::Null, Value::Null])),
        ]
    );
}

#[test]
fn later_joins_see_the_relations_joined_before() {
    let store = Store {
        tables: vec![
            table("a", &["x"], vec![vec![Value::I64(1)], vec![Value::I64(2)]]),
            table("b", &["y"], vec![vec![Value::I64(1)], vec![Value::I64(2)]]),
            table("c", &["z"], vec![vec![Value::I64(2)], vec![Value::I64(4)]]),
        ],
    };
    let mut s = plain_select("a", vec![SelectItem::Wildcard]);
    s.from.joins = vec![
        Join {
            relation: relation("b"),
            join_operator: JoinOperator::Inner(JoinConstraint::On(binary(
                ident("x"),
                BinaryOperator::Eq,
                ident("y"),
            ))),
        },
        Join {
            relation: relation("c"),
            join_operator: JoinOperator::Inner(JoinConstraint::On(binary(
                binary(ident("x"), BinaryOperator::Plus, ident("y")),
                BinaryOperator::Eq,
                ident("z"),
            ))),
        },
    ];
    let (names, rows) = select_with_labels(&store, &query(s), None, true).unwrap();
    assert_eq!(names, labels(&["x", "y", "z"]));
    assert_eq!(rows, vec![Ok(ints(&[1, 1, 2])), Ok(ints(&[2, 2, 4]))]);
}

fn grouping_store() -> Store {
    Store {
        tables: vec![table(
            "t",
            &["a"],
            vec![vec![Value::I64(1)], vec![Value::I64(1)], vec![Value::I64(2)]],
        )],
    }
}

#[test]
fn having_keeps_the_groups_of_which_it_holds() {
    let mut s = plain_select("t", vec![field(ident("a"), "a"), field(count_all(), "COUNT(*)")]);
    s.group_by = vec![ident("a")];
    s.having = Some(binary(count_all(), BinaryOperator::Gt, number(1)));
    let (names, rows) = select_with_labels(&grouping_store(), &query(s), None, true).unwrap();
    assert_eq!(names, labels(&["a", "COUNT(*)"]));
    assert_eq!(rows, vec![Ok(ints(&[1, 2]))]);
}

#[test]
fn having_without_groups_takes_every_row_by_itself() {
    let mut s = plain_select("t", vec![field(ident("a"), "a")]);
    s.having = Some(binary(ident("a"), BinaryOperator::Gt, number(1)));
    let rows = select(&grouping_store(), &query(s), None).unwrap();
    assert_eq!(rows, vec![Ok(ints(&[2]))]);
}

#[test]
fn groups_come_in_the_order_of_first_appearance() {
    let store = Store {
        tables: vec![table(
            "t",
            &["k", "n"],
            vec![
                vec![Value::I64(3), Value::I64(1)],
                vec![Value::Null, Value::I64(2)],
                vec![Value::I64(1), Value::I64(4)],
                vec![Value::I64(3), Value::I64(8)],
                vec![Value::Null, Value::Null],
                vec![Value::I64(1), Value::I64(16)],
            ],
        )],
    };
    let sum = Expr::Aggregate(Box::new(Aggregate::Sum(ident("n"))));
    let count = Expr::Aggregate(Box::new(Aggregate::Count(CountArgExpr::Expr(ident("n")))));
    let max = Expr::Aggregate(Box::new(Aggregate::Max(ident("n"))));
    let min = Expr::Aggregate(Box::new(Aggregate::Min(ident("n"))));
    let mut s = plain_select(
        "t",
        vec![
            field(ident("k"), "k"),
            field(sum, "s"),
            field(count, "c"),
            field(max, "hi"),
            field(min, "lo"),
            field(count_all(), "all"),
        ],
    );
    s.group_by = vec![ident("k")];
    let rows = select(&store, &query(s), None).unwrap();
    assert_eq!(
        rows,
        vec![
            Ok(ints(&[3, 9, 2, 8, 1, 2])),
            Ok(Row(vec![
                Value::Null,
                Value::I64(2),
                Value::I64(1),
                Value::I64(2),
                Value::I64(2),
                Value::I64(2),
            ])),
            Ok(ints(&[1, 20, 2, 16, 4, 2])),
        ]
    );
}

#[test]
fn aggregates_without_group_by_fold_the_whole_input() {
    let s = plain_select("t", vec![field(count_all(), "n")]);
    let rows = select(&grouping_store(), &query(s), None).unwrap();
    assert_eq!(rows, vec![Ok(ints(&[3]))]);
}

#[test]
fn aggregates_over_no_rows_give_their_initial_values() {
    let store = Store { tables: vec![table("t", &["a"], vec![])] };
    let sum = Expr::Aggregate(Box::new(Aggregate::Sum(ident("a"))));
    let s = plain_select("t", vec![field(count_all(), "n"), field(sum, "s")]);
    let rows = select(&store, &query(s), None).unwrap();
    assert_eq!(rows, vec![Ok(Row(vec![Value::I64(0), Value::Null]))]);
}

#[test]
fn a_column_of_a_group_without_rows_is_an_error() {
    let store = Store { tables: vec![table("t", &["a"], vec![])] };
    let s = plain_select("t", vec![field(ident("a"), "a"), field(count_all(), "n")]);
    let rows = select(&store, &query(s), None).unwrap();
    assert_eq!(
        rows,
        vec![Err(Error::Evaluate(EvaluateError::ValueNotFound("a".to_owned())))]
    );
    let s = plain_select("t", vec![SelectItem::Wildcard, field(count_all(), "n")]);
    let rows = select(&store, &query(s), None).unwrap();
    assert_eq!(rows, vec![Err(Error::Select(SelectError::WildcardOnEmptyGroup))]);
}

#[test]
fn an_aggregate_of_an_expression_is_an_error() {
    let sum = Expr::Aggregate(Box::new(Aggregate::Sum(binary(
        ident("a"),
        BinaryOperator::Plus,
        number(1),
    ))));
    let s = plain_select("t", vec![field(sum, "s")]);
    assert_eq!(
        select(&grouping_store(), &query(s), None),
        Err(Error::Aggregate(AggregateError::OnlyIdentifierAllowed))
    );
}

#[test]
fn a_sum_that_does_not_fit_is_an_error() {
    let store = Store {
        tables: vec![table("t", &["a"], vec![vec![Value::I64(i64::MAX)], vec![Value::I64(1)]])],
    };
    let sum = Expr::Aggregate(Box::new(Aggregate::Sum(ident("a"))));
    let s = plain_select("t", vec![field(sum, "s")]);
    assert_eq!(
        select(&store, &query(s), None),
        Err(Error::Aggregate(AggregateError::Overflow))
    );
    let store = Store { tables: vec![table("t", &["a"], vec![vec![Value::Bool(true)]])] };
    let sum = Expr::Aggregate(Box::new(Aggregate::Sum(ident("a"))));
    let s = plain_select("t", vec![field(sum, "s")]);
    assert_eq!(
        select(&store, &query(s), None),
        Err(Error::Aggregate(AggregateError::IntegerRequired))
    );
}

fn sorting_store() -> Store {
    Store {
        tables: vec![table(
            "t",
            &["a", "b"],
            vec![
                vec![Value::I64(1), Value::I64(10)],
                vec![Value::I64(2), Value::I64(30)],
                vec![Value::I64(3), Value::I64(20)],
            ],
        )],
    }
}

#[test]
fn order_by_then_offset_and_limit() {
    let mut s = plain_select("t", vec![field(ident("a"), "a")]);
    s.order_by = vec![OrderByExpr { expr: ident("b"), asc: Some(false) }];
    let mut q = query(s);
    let all = select(&sorting_store(), &q, None).unwrap();
    assert_eq!(all, vec![Ok(ints(&[2])), Ok(ints(&[3])), Ok(ints(&[1]))]);
    q.limit = Some(number(1));
    q.offset = Some(number(1));
    let (names, rows) = select_with_labels(&sorting_store(), &q, None, true).unwrap();
    assert_eq!(names, labels(&["a"]));
    assert_eq!(rows, vec![Ok(ints(&[3]))]);
}

#[test]
fn sort_is_stable_and_puts_null_first() {
    let store = Store {
        tables: vec![table(
            "t",
            &["k", "n"],
            vec![
                vec![Value::I64(2), Value::I64(1)],
                vec![Value::I64(1), Value::I64(2)],
                vec![Value::Null, Value::I64(3)],
                vec![Value::I64(2), Value::I64(4)],
                vec![Value::I64(1), Value::I64(5)],
                vec![Value::Null, Value::I64(6)],
            ],
        )],
    };
    let mut s = plain_select("t", vec![field(ident("n"), "n")]);
    s.order_by = vec![OrderByExpr { expr: ident("k"), asc: None }];
    let rows = select(&store, &query(s), None).unwrap();
    let ns: Vec<Row> = rows.into_iter().map(|r| r.unwrap()).collect();
    assert_eq!(
        ns,
        vec![ints(&[3]), ints(&[6]), ints(&[2]), ints(&[5]), ints(&[1]), ints(&[4])]
    );
    let mut s = plain_select("t", vec![field(ident("n"), "n")]);
    s.order_by = vec![OrderByExpr { expr: ident("k"), asc: Some(false) }];
    let rows = select(&store, &query(s), None).unwrap();
    let ns: Vec<Row> = rows.into_iter().map(|r| r.unwrap()).collect();
    assert_eq!(
        ns,
        vec![ints(&[3]), ints(&[6]), ints(&[1]), ints(&[4]), ints(&[2]), ints(&[5])]
    );
}

#[test]
fn later_sort_keys_break_ties() {
    let store = Store {
        tables: vec![table(
            "t",
            &["k", "n"],
            vec![
                vec![Value::I64(1), Value::I64(1)],
                vec![Value::I64(0), Value::I64(2)],
                vec![Value::I64(1), Value::I64(3)],
                vec![Value::I64(0), Value::I64(4)],
            ],
        )],
    };
    let mut s = plain_select("t", vec![field(ident("n"), "n")]);
    s.order_by = vec![
        OrderByExpr { expr: ident("k"), asc: Some(true) },
        OrderByExpr { expr: ident("n"), asc: Some(false) },
    ];
    let rows = select(&store, &query(s), None).unwrap();
    assert_eq!(rows, vec![Ok(ints(&[4])), Ok(ints(&[2])), Ok(ints(&[3])), Ok(ints(&[1]))]);
}

#[test]
fn an_error_before_the_sort_ends_the_query() {
    let mut s = plain_select("t", vec![field(ident("a"), "a")]);
    s.order_by = vec![OrderByExpr { expr: ident("missing"), asc: None }];
    assert_eq!(
        select(&sorting_store(), &query(s), None),
        Err(Error::Evaluate(EvaluateError::ValueNotFound("missing".to_owned())))
    );
}

#[test]
fn limit_and_offset_must_be_counts() {
    let s = plain_select("t", vec![SelectItem::Wildcard]);
    let mut q = query(s);
    q.limit = Some(number(-1));
    assert_eq!(
        select(&sorting_store(), &q, None),
        Err(Error::Limit(LimitError::InvalidLimit))
    );
    q.limit = Some(number(1));
    q.offset = Some(string("x"));
    assert_eq!(
        select(&sorting_store(), &q, None),
        Err(Error::Limit(LimitError::InvalidOffset))
    );
    q.offset = Some(number(5));
    assert_eq!(select(&sorting_store(), &q, None), Ok(vec![]));
    q.offset = None;
    q.limit = Some(number(0));
    assert_eq!(select(&sorting_store(), &q, None), Ok(vec![]));
    q.limit = Some(number(7));
    assert_eq!(select(&sorting_store(), &q, None).unwrap().len(), 3);
}

#[test]
fn unknown_tables_and_aliases_are_errors() {
    let s = plain_select("nowhere", vec![SelectItem::Wildcard]);
    assert_eq!(
        select(&sorting_store(), &query(s), None),
        Err(Error::Fetch(FetchError::TableNotFound("nowhere".to_owned())))
    );
    let s = plain_select(
        "t",
        vec![SelectItem::QualifiedWildcard(ObjectName(vec!["u".to_owned()]))],
    );
    let q = query(s);
    assert_eq!(
        select_with_labels(&sorting_store(), &q, None, true),
        Err(Error::Select(SelectError::TableAliasNotFound("u".to_owned())))
    );
    let rows = select(&sorting_store(), &q, None).unwrap();
    assert_eq!(
        rows[0],
        Err(Error::Select(SelectError::TableAliasNotFound("u".to_owned())))
    );
    let mut s = plain_select("t", vec![SelectItem::Wildcard]);
    s.from.relation = TableFactor::Table { name: ObjectName(vec![]), alias: None };
    assert_eq!(
        select(&sorting_store(), &query(s), None),
        Err(Error::Table(TableError::Unreachable))
    );
}

#[test]
fn qualified_wildcard_gives_the_columns_of_its_relation() {
    let mut s = join_select(JoinOperator::Inner(on_ids()));
    s.from.relation = aliased("t1", "x");
    s.from.joins[0].join_operator = JoinOperator::Inner(JoinConstraint::On(binary(
        compound("x", "id"),
        BinaryOperator::Eq,
        compound("t2", "id"),
    )));
    s.projection = vec![
        SelectItem::QualifiedWildcard(ObjectName(vec!["t2".to_owned()])),
        field(compound("x", "v"), "v"),
        SelectItem::QualifiedWildcard(ObjectName(vec!["x".to_owned()])),
    ];
    let (names, rows) = select_with_labels(&join_store(), &query(s), None, true).unwrap();
    assert_eq!(names, labels(&["id", "w", "v", "id", "v"]));
    assert_eq!(rows, vec![Ok(ints(&[1, 9, 5, 1, 5]))]);
}

#[test]
fn every_row_has_the_length_of_the_labels() {
    let s = join_select(JoinOperator::LeftOuter(on_ids()));
    let (names, rows) = select_with_labels(&join_store(), &query(s), None, true).unwrap();
    for row in rows {
        assert_eq!(row.unwrap().0.len(), names.len());
    }
}

#[test]
fn a_row_that_was_not_read_keeps_its_error() {
    let mut t = table("t", &["a"], vec![vec![Value::I64(1)], vec![Value::I64(2)]]);
    t.rows.insert(1, Err(Error::Storage("disk".to_owned())));
    assert_eq!(t.rows[0], Ok((1, ints(&[1]))));
    let store = Store { tables: vec![t] };
    let s = plain_select("t", vec![SelectItem::Wildcard]);
    let rows = select(&store, &query(s), None).unwrap();
    assert_eq!(
        rows,
        vec![Ok(ints(&[1])), Err(Error::Storage("disk".to_owned())), Ok(ints(&[2]))]
    );
    let mut s = plain_select("t", vec![field(count_all(), "n")]);
    s.group_by = vec![];
    assert_eq!(
        select(&store, &query(s), None),
        Err(Error::Storage("disk".to_owned()))
    );
}

#[test]
fn a_row_shorter_than_its_columns_is_an_error() {
    let store = Store { tables: vec![table("t", &["a", "b"], vec![vec![Value::I64(1)]])] };
    let s = plain_select("t", vec![SelectItem::Wildcard]);
    assert_eq!(
        select(&store, &query(s), None).unwrap(),
        vec![Err(Error::Row(RowError::ConflictOnStorageColumnIndex))]
    );
    let s = plain_select("t", vec![field(ident("b"), "b")]);
    assert_eq!(
        select(&store, &query(s), None).unwrap(),
        vec![Err(Error::Row(RowError::ConflictOnStorageColumnIndex))]
    );
}

#[test]
fn a_consumer_has_the_rows_before_the_first_error() {
    let lost = Error::Storage("lost".to_owned());
    let late = Error::Storage("late".to_owned());
    assert_eq!(
        deliver(vec![Ok(ints(&[1])), Ok(ints(&[2])), Err(lost.clone()), Ok(ints(&[3])), Err(late)]),
        (vec![ints(&[1]), ints(&[2])], Some(lost.clone()))
    );
    assert_eq!(deliver(vec![Err(lost.clone())]), (vec![], Some(lost)));
    assert_eq!(
        deliver(vec![Ok(ints(&[1])), Ok(ints(&[2]))]),
        (vec![ints(&[1]), ints(&[2])], None)
    );
    assert_eq!(deliver(vec![]), (vec![], None));
}
