//! The driver of the pipeline, the labels of the output columns, and the
//! rows of a `VALUES` list.

use vstd::prelude::*;
use std::rc::Rc;
use crate::aggregate::{aggregated, Aggregator};
use crate::ast::{
    clone_strings, Expr, Join, Query, Select, SelectItem, SetExpr, TableFactor, Values,
};
use crate::blend::{blended_rows, get_name, name_of, Blend};
use crate::collect::query_aggregates;
use crate::context::{
    context_chain, names_view, share,
    share_option, Binding, BlendContext, FilterContext,
};
use crate::error::{Error, RowError, SelectError, ValueError};
use crate::evaluate::{eval, evaluate, result_view};
use crate::fetch::{
    alias_of, fetch_join_columns, fetch_relation_columns, fetch_relation_rows, get_alias,
    join_columns_of, join_columns_view, lemma_join_columns_len, relation_columns, relation_rows,
};
use crate::filter::{contexts_view, filter_stream, item_view, outer_scope, Filter};
use crate::join::{joined, steps_view, JoinStep, Relation, RelationModel, StepModel};
use crate::limit::{empty_scope, limit_of, Limit};
use crate::numeral::decimal;
use crate::sort::{sorted, Sort};
use crate::store::{row_item_view, rows_view, stored_item_view, stored_view, Store};
use crate::text::{column_label, str_equal};
use crate::value::{lemma_values_view_push, values_view, DataType, Row, SqlValue, Value};

verus! {

/// The column names of the first `n` joined relations, one list after the
/// other.
pub open spec fn join_labels(join_columns: Seq<(String, Seq<String>)>, n: int) -> Seq<String>
    decreases n,
{
    if n <= 0 {
        Seq::empty()
    } else {
        join_labels(join_columns, n - 1) + join_columns[n - 1].1
    }
}

/// The labels of `*`: the columns of the base relation, then those of every
/// joined relation in the order of the joins.
pub open spec fn wildcard_labels(
    columns: Seq<String>,
    join_columns: Option<Seq<(String, Seq<String>)>>,
) -> Seq<String> {
    match join_columns {
        Some(j) => columns + join_labels(j, j.len() as int),
        None => columns,
    }
}

/// The columns of the first joined relation, among the first `n`, that has
/// the given alias.
pub open spec fn joined_columns(
    join_columns: Seq<(String, Seq<String>)>,
    alias: Seq<char>,
    n: int,
) -> Option<Seq<String>>
    decreases n,
{
    if n <= 0 {
        None
    } else {
        match joined_columns(join_columns, alias, n - 1) {
            Some(c) => Some(c),
            None => if join_columns[n - 1].0@ == alias {
                Some(join_columns[n - 1].1)
            } else {
                None
            },
        }
    }
}

/// Once a joined relation with the alias was found, it stays the one that is
/// meant.
pub proof fn lemma_joined_columns_stay(
    join_columns: Seq<(String, Seq<String>)>,
    alias: Seq<char>,
    i: int,
    n: int,
)
    requires
        0 <= i <= n,
        joined_columns(join_columns, alias, i) is Some,
    ensures
        joined_columns(join_columns, alias, n) == joined_columns(join_columns, alias, i),
    decreases n - i,
{
    if i < n {
        lemma_joined_columns_stay(join_columns, alias, i, n - 1);
    }
}

/// The labels of `alias.*`: the columns of the base relation where it has
/// the alias, else those of the first joined relation that has it, else an
/// error.
pub open spec fn qualified_labels(
    table_alias: Seq<char>,
    columns: Seq<String>,
    join_columns: Option<Seq<(String, Seq<String>)>>,
    alias: String,
) -> Result<Seq<String>, Error> {
    if table_alias == alias@ {
        Ok(columns)
    } else {
        let found = match join_columns {
            Some(j) => joined_columns(j, alias@, j.len() as int),
            None => None,
        };
        match found {
            Some(c) => Ok(c),
            None => Err(Error::Select(SelectError::TableAliasNotFound(alias))),
        }
    }
}

/// The labels of one item of the projection.
pub open spec fn item_labels(
    item: SelectItem,
    table_alias: Seq<char>,
    columns: Seq<String>,
    join_columns: Option<Seq<(String, Seq<String>)>>,
) -> Result<Seq<String>, Error> {
    match item {
        SelectItem::Wildcard => Ok(wildcard_labels(columns, join_columns)),
        SelectItem::QualifiedWildcard(target) => match name_of(target) {
            Err(e) => Err(e),
            Ok(alias) => qualified_labels(table_alias, columns, join_columns, alias),
        },
        SelectItem::Expr { expr, label } => Ok(seq![label]),
    }
}

/// The labels of the first `n` items of the projection, one list after the
/// other; the first error wins.
pub open spec fn labels(
    projection: Seq<SelectItem>,
    table_alias: Seq<char>,
    columns: Seq<String>,
    join_columns: Option<Seq<(String, Seq<String>)>>,
    n: int,
) -> Result<Seq<String>, Error>
    decreases n,
{
    if n <= 0 {
        Ok(Seq::empty())
    } else {
        match labels(projection, table_alias, columns, join_columns, n - 1) {
            Err(e) => Err(e),
            Ok(done) => match item_labels(projection[n - 1], table_alias, columns, join_columns) {
                Err(e) => Err(e),
                Ok(more) => Ok(done + more),
            },
        }
    }
}

/// Once the labelling of a projection has met an error, that error is its
/// result.
pub proof fn lemma_labels_error_stays(
    projection: Seq<SelectItem>,
    table_alias: Seq<char>,
    columns: Seq<String>,
    join_columns: Option<Seq<(String, Seq<String>)>>,
    i: int,
    n: int,
)
    requires
        0 <= i <= n,
        labels(projection, table_alias, columns, join_columns, i) is Err,
    ensures
        labels(projection, table_alias, columns, join_columns, n) == labels(
            projection,
            table_alias,
            columns,
            join_columns,
            i,
        ),
    decreases n - i,
{
    if i < n {
        lemma_labels_error_stays(projection, table_alias, columns, join_columns, i, n - 1);
    }
}

/// The model of the join columns that `get_labels` is given.
pub open spec fn join_model(join_columns: Option<&[(&String, Vec<String>)]>) -> Option<
    Seq<(String, Seq<String>)>,
> {
    match join_columns {
        Some(j) => Some(join_columns_view(j@)),
        None => None,
    }
}

fn push_names(names: &[String], out: &mut Vec<String>)
    ensures
        final(out)@ == old(out)@ + names@,
{
    let ghost start = out@;
    let n: usize = names.len();
    let mut i: usize = 0;
    assert(start + names@.take(0) =~= start);
    while i < n
        invariant
            n == names@.len(),
            i <= n,
            out@ == start + names@.take(i as int),
        decreases n - i,
    {
        out.push(names[i].clone());
        assert(start + names@.take(i + 1) =~= (start + names@.take(i as int)).push(
            names@[i as int],
        ));
        i += 1;
    }
    assert(names@.take(n as int) =~= names@);
}

fn push_join_names(join_columns: &[(&String, Vec<String>)], out: &mut Vec<String>)
    ensures
        final(out)@ == old(out)@ + join_labels(
            join_columns_view(join_columns@),
            join_columns@.len() as int,
        ),
{
    let ghost start = out@;
    let ghost model = join_columns_view(join_columns@);
    let n: usize = join_columns.len();
    let mut i: usize = 0;
    assert(start + join_labels(model, 0) =~= start);
    while i < n
        invariant
            n == join_columns@.len(),
            model == join_columns_view(join_columns@),
            i <= n,
            out@ == start + join_labels(model, i as int),
        decreases n - i,
    {
        push_names(join_columns[i].1.as_slice(), out);
        assert(model[i as int].1 == join_columns@[i as int].1@);
        assert(start + join_labels(model, i as int) + model[i as int].1 =~= start + join_labels(
            model,
            i + 1,
        ));
        i += 1;
    }
}

fn find_join_columns<'a>(join_columns: &'a [(&String, Vec<String>)], alias: &String) -> (r: Option<
    &'a Vec<String>,
>)
    ensures
        match r {
            Some(c) => joined_columns(
                join_columns_view(join_columns@),
                alias@,
                join_columns@.len() as int,
            ) == Some(c@),
            None => joined_columns(
                join_columns_view(join_columns@),
                alias@,
                join_columns@.len() as int,
            ) is None,
        },
{
    let ghost model = join_columns_view(join_columns@);
    let n: usize = join_columns.len();
    let mut i: usize = 0;
    while i < n
        invariant
            n == join_columns@.len(),
            model == join_columns_view(join_columns@),
            i <= n,
            joined_columns(model, alias@, i as int) is None,
        decreases n - i,
    {
        assert(model[i as int] == (*join_columns@[i as int].0, join_columns@[i as int].1@));
        if str_equal(join_columns[i].0.as_str(), alias.as_str()) {
            proof {
                lemma_joined_columns_stay(model, alias@, i + 1, n as int);
            }
            return Some(&join_columns[i].1);
        }
        i += 1;
    }
    None
}

/// The labels of the output columns of a projection, from the schema alone:
/// for `*` the columns of the base relation and then of each joined
/// relation, for `alias.*` the columns of that relation, for an expression
/// its label. The first item that cannot be labelled gives the error.
pub fn get_labels(
    projection: &[SelectItem],
    table_alias: &str,
    columns: &[String],
    join_columns: Option<&[(&String, Vec<String>)]>,
) -> (r: Result<Vec<String>, Error>)
    ensures
        match r {
            Ok(out) => labels(
                projection@,
                table_alias@,
                columns@,
                join_model(join_columns),
                projection@.len() as int,
            ) == Ok::<Seq<String>, Error>(out@),
            Err(e) => labels(
                projection@,
                table_alias@,
                columns@,
                join_model(join_columns),
                projection@.len() as int,
            ) == Err::<Seq<String>, Error>(e),
        },
{
    let ghost joins = join_model(join_columns);
    let mut out: Vec<String> = Vec::new();
    let n: usize = projection.len();
    let mut i: usize = 0;
    while i < n
        invariant
            n == projection@.len(),
            i <= n,
            joins == join_model(join_columns),
            labels(projection@, table_alias@, columns@, joins, i as int) == Ok::<
                Seq<String>,
                Error,
            >(out@),
        decreases n - i,
    {
        let ghost before = out@;
        match &projection[i] {
            SelectItem::Wildcard => {
                push_names(columns, &mut out);
                match join_columns {
                    Some(j) => {
                        push_join_names(j, &mut out);
                        let ghost m = join_columns_view(j@);
                        assert(before + columns@ + join_labels(m, m.len() as int) =~= before + (
                        columns@ + join_labels(m, m.len() as int)));
                    },
                    None => {},
                }
            },
            SelectItem::QualifiedWildcard(target) => {
                let alias = match get_name(target) {
                    Ok(alias) => alias,
                    Err(e) => {
                        proof {
                            lemma_labels_error_stays(
                                projection@,
                                table_alias@,
                                columns@,
                                joins,
                                i + 1,
                                n as int,
                            );
                        }
                        return Err(e);
                    },
                };
                if str_equal(table_alias, alias.as_str()) {
                    push_names(columns, &mut out);
                } else {
                    let found: Option<&Vec<String>> = match join_columns {
                        Some(j) => {
                            assert(join_columns_view(j@).len() == j@.len());
                            find_join_columns(j, alias)
                        },
                        None => None,
                    };
                    match found {
                        Some(c) => push_names(c.as_slice(), &mut out),
                        None => {
                            proof {
                                lemma_labels_error_stays(
                                    projection@,
                                    table_alias@,
                                    columns@,
                                    joins,
                                    i + 1,
                                    n as int,
                                );
                            }
                            return Err(
                                Error::Select(SelectError::TableAliasNotFound(alias.clone())),
                            );
                        },
                    }
                }
            },
            SelectItem::Expr { expr, label } => {
                out.push(label.clone());
                assert(before.push(*label) =~= before + seq![*label]);
            },
        }
        i += 1;
    }
    Ok(out)
}

/// The labels of a `VALUES` list with `n` columns: `column1`, `column2`, ...
pub open spec fn values_labels(n: nat) -> Seq<Seq<char>> {
    Seq::new(n, |i: int| "column"@ + decimal((i + 1) as nat))
}

/// A value as a column of the given type holds it: `Null` and a value of
/// the type as they are, the integers 0 and 1 as booleans in a boolean
/// column; every other value is an error.
pub open spec fn coerce(v: SqlValue, data_type: DataType) -> Result<SqlValue, Error> {
    if v is Null || v.data_type() == Some(data_type) {
        Ok(v)
    } else if data_type is Boolean && v == SqlValue::Int(0) {
        Ok(SqlValue::Bool(false))
    } else if data_type is Boolean && v == SqlValue::Int(1) {
        Ok(SqlValue::Bool(true))
    } else {
        Err(Error::Value(ValueError::IncompatibleDataType(data_type)))
    }
}

/// The values of the first `n` expressions of one row of a `VALUES` list,
/// and the column types after them. A column that has a type coerces the
/// value to it; a column that has none yet takes the type of the value. The
/// first error ends the row, and the types found before it stay.
pub open spec fn typed_row(exprs: Seq<Expr>, types: Seq<Option<DataType>>, n: int) -> (
    Result<Seq<SqlValue>, Error>,
    Seq<Option<DataType>>,
)
    decreases n,
{
    if n <= 0 {
        (Ok(Seq::empty()), types)
    } else {
        let (done, t) = typed_row(exprs, types, n - 1);
        match done {
            Err(e) => (Err(e), t),
            Ok(values) => match eval(empty_scope(), exprs[n - 1]) {
                Err(e) => (Err(e), t),
                Ok(v) => match t[n - 1] {
                    Some(data_type) => match coerce(v, data_type) {
                        Err(e) => (Err(e), t),
                        Ok(c) => (Ok(values.push(c)), t),
                    },
                    None => (Ok(values.push(v)), t.update(n - 1, v.data_type())),
                },
            },
        }
    }
}

/// The number of columns of a `VALUES` list: that of its first row.
pub open spec fn first_len(list: Seq<Vec<Expr>>) -> nat {
    if list.len() == 0 {
        0
    } else {
        list[0]@.len()
    }
}

/// The rows of the first `n` tuples of a `VALUES` list, and the column types
/// after them. A tuple whose length is not that of the first gives an error
/// in its place and leaves the types alone.
pub open spec fn typed_rows(list: Seq<Vec<Expr>>, n: int) -> (
    Seq<Result<Seq<SqlValue>, Error>>,
    Seq<Option<DataType>>,
)
    decreases n,
{
    if n <= 0 {
        (Seq::empty(), Seq::new(first_len(list), |i: int| None))
    } else {
        let (rows, types) = typed_rows(list, n - 1);
        if list[n - 1]@.len() != first_len(list) {
            (rows.push(Err(Error::Row(RowError::NumberOfValuesDifferent))), types)
        } else {
            let (row, t) = typed_row(list[n - 1]@, types, first_len(list) as int);
            (rows.push(row), t)
        }
    }
}

/// A row of a `VALUES` list keeps the number of column types, and has one
/// value for each expression.
pub proof fn lemma_typed_row_types(exprs: Seq<Expr>, types: Seq<Option<DataType>>, n: int)
    requires
        0 <= n <= types.len(),
    ensures
        typed_row(exprs, types, n).1.len() == types.len(),
        typed_row(exprs, types, n).0 matches Ok(v) ==> v.len() == n,
    decreases n,
{
    if n > 0 {
        lemma_typed_row_types(exprs, types, n - 1);
    }
}

/// Once a row of a `VALUES` list has met an error, that error is its result.
pub proof fn lemma_typed_row_error_stays(
    exprs: Seq<Expr>,
    types: Seq<Option<DataType>>,
    i: int,
    n: int,
)
    requires
        0 <= i <= n,
        typed_row(exprs, types, i).0 is Err,
    ensures
        typed_row(exprs, types, n) == typed_row(exprs, types, i),
    decreases n - i,
{
    if i < n {
        lemma_typed_row_error_stays(exprs, types, i, n - 1);
    }
}

fn coerce_value(v: Value, data_type: DataType) -> (r: Result<Value, Error>)
    ensures
        result_view(r) == coerce(v@, data_type),
{
    match (&v, data_type) {
        (Value::Null, _) => Ok(v),
        (Value::Bool(_), DataType::Boolean) => Ok(v),
        (Value::I64(_), DataType::Int) => Ok(v),
        (Value::Str(_), DataType::Text) => Ok(v),
        (Value::I64(n), DataType::Boolean) => {
            if *n == 0 {
                Ok(Value::Bool(false))
            } else if *n == 1 {
                Ok(Value::Bool(true))
            } else {
                Err(Error::Value(ValueError::IncompatibleDataType(data_type)))
            }
        },
        _ => Err(Error::Value(ValueError::IncompatibleDataType(data_type))),
    }
}

fn values_row(exprs: &Vec<Expr>, column_types: &mut Vec<Option<DataType>>) -> (r: Result<
    Row,
    Error,
>)
    requires
        exprs@.len() == old(column_types)@.len(),
    ensures
        row_item_view(r) == typed_row(exprs@, old(column_types)@, exprs@.len() as int).0,
        final(column_types)@ == typed_row(exprs@, old(column_types)@, exprs@.len() as int).1,
{
    let ghost start = column_types@;
    let mut values: Vec<Value> = Vec::new();
    let n: usize = exprs.len();
    let mut i: usize = 0;
    assert(values_view(values@) =~= Seq::<SqlValue>::empty());
    while i < n
        invariant
            n == exprs@.len(),
            n == start.len(),
            start == old(column_types)@,
            i <= n,
            column_types@.len() == n,
            typed_row(exprs@, start, i as int) == (
                Ok::<Seq<SqlValue>, Error>(values_view(values@)),
                column_types@,
            ),
        decreases n - i,
    {
        let evaluated = match evaluate(None, None, &exprs[i]) {
            Ok(v) => v,
            Err(e) => {
                proof {
                    lemma_typed_row_error_stays(exprs@, start, i + 1, n as int);
                }
                return Err(e);
            },
        };
        let value = match column_types[i] {
            Some(data_type) => match coerce_value(evaluated, data_type) {
                Ok(v) => v,
                Err(e) => {
                    proof {
                        lemma_typed_row_error_stays(exprs@, start, i + 1, n as int);
                    }
                    return Err(e);
                },
            },
            None => {
                column_types.set(i, evaluated.get_type());
                evaluated
            },
        };
        proof {
            lemma_values_view_push(values@, value);
        }
        values.push(value);
        i += 1;
    }
    Ok(Row(values))
}

/// The rows of a `VALUES` list and the labels of its columns. The number of
/// columns is that of the first tuple, and the type of a column is that of
/// the first value in it that has one; later values are coerced to it. Each
/// tuple gives one item: its row, or its error.
pub fn into_rows(exprs_list: &[Vec<Expr>]) -> (r: (Vec<Result<Row, Error>>, Vec<String>))
    ensures
        rows_view(r.0@) == typed_rows(exprs_list@, exprs_list@.len() as int).0,
        names_view(r.1@) == values_labels(first_len(exprs_list@)),
{
    let n: usize = exprs_list.len();
    let width: usize = if n == 0 {
        0
    } else {
        exprs_list[0].len()
    };
    let mut labels: Vec<String> = Vec::new();
    let mut k: usize = 0;
    while k < width
        invariant
            k <= width,
            labels@.len() == k,
            forall|j: int| 0 <= j < k ==> labels@[j]@ == "column"@ + decimal((j + 1) as nat),
        decreases width - k,
    {
        labels.push(column_label(k + 1));
        k += 1;
    }
    assert(names_view(labels@) =~= values_labels(first_len(exprs_list@)));
    let mut column_types: Vec<Option<DataType>> = Vec::new();
    let mut c: usize = 0;
    while c < width
        invariant
            c <= width,
            column_types@.len() == c,
            forall|j: int| 0 <= j < c ==> column_types@[j] is None,
        decreases width - c,
    {
        column_types.push(None);
        c += 1;
    }
    assert(column_types@ =~= Seq::new(first_len(exprs_list@), |i: int| None));
    let mut rows: Vec<Result<Row, Error>> = Vec::new();
    let mut i: usize = 0;
    assert(rows_view(rows@) =~= typed_rows(exprs_list@, 0).0);
    while i < n
        invariant
            n == exprs_list@.len(),
            i <= n,
            width == first_len(exprs_list@),
            column_types@.len() == width,
            typed_rows(exprs_list@, i as int) == (rows_view(rows@), column_types@),
        decreases n - i,
    {
        let ghost before = rows@;
        let ghost types = column_types@;
        if exprs_list[i].len() != width {
            rows.push(Err(Error::Row(RowError::NumberOfValuesDifferent)));
        } else {
            proof {
                lemma_typed_row_types(exprs_list@[i as int]@, types, width as int);
            }
            let row = values_row(&exprs_list[i], &mut column_types);
            rows.push(row);
        }
        assert(rows_view(rows@) =~= rows_view(before).push(row_item_view(rows@.last())));
        i += 1;
    }
    (rows, labels)
}

/// The stream of the base relation: for each stored row its context, or
/// its error; the error of the alias in place of every row where the
/// relation has no name.
pub open spec fn base_item(
    item: Result<(u64, Seq<SqlValue>), Error>,
    alias: Result<String, Error>,
    columns: Seq<Seq<char>>,
) -> Result<Seq<Binding>, Error> {
    match item {
        Err(e) => Err(e),
        Ok(row) => match alias {
            Err(e) => Err(e),
            Ok(a) => Ok(
                seq![
                    Binding { alias: a@, columns: columns, key: Some(row.0), row: Some(row.1) },
                ],
            ),
        },
    }
}

/// The stream of the base relation: one item for each stored row.
pub open spec fn base_items(
    rows: Seq<Result<(u64, Seq<SqlValue>), Error>>,
    alias: Result<String, Error>,
    columns: Seq<Seq<char>>,
) -> Seq<Result<Seq<Binding>, Error>> {
    rows.map_values(|item: Result<(u64, Seq<SqlValue>), Error>| base_item(item, alias, columns))
}

/// The first `n` join clauses, each with the relation that the snapshot
/// holds for it.
pub open spec fn join_steps(
    joins: Seq<Join>,
    storage: Store,
    columns: Seq<(String, Seq<String>)>,
    n: int,
) -> Result<Seq<StepModel>, Error>
    decreases n,
{
    if n <= 0 {
        Ok(Seq::empty())
    } else {
        match join_steps(joins, storage, columns, n - 1) {
            Err(e) => Err(e),
            Ok(done) => match relation_rows(storage, joins[n - 1].relation) {
                Err(e) => Err(e),
                Ok(rows) => Ok(
                    done.push(
                        StepModel {
                            relation: RelationModel {
                                alias: columns[n - 1].0@,
                                columns: names_view(columns[n - 1].1),
                                rows: stored_view(rows@),
                            },
                            operator: joins[n - 1].join_operator,
                        },
                    ),
                ),
            },
        }
    }
}

/// Once the reading of the joined relations has met an error, that error is
/// its result.
pub proof fn lemma_join_steps_error_stays(
    joins: Seq<Join>,
    storage: Store,
    columns: Seq<(String, Seq<String>)>,
    i: int,
    n: int,
)
    requires
        0 <= i <= n,
        join_steps(joins, storage, columns, i) is Err,
    ensures
        join_steps(joins, storage, columns, n) == join_steps(joins, storage, columns, i),
    decreases n - i,
{
    if i < n {
        lemma_join_steps_error_stays(joins, storage, columns, i, n - 1);
    }
}

/// A reference to the expression of an optional clause.
pub open spec fn option_ref(e: &Option<Expr>) -> Option<&Expr> {
    match e {
        Some(x) => Some(x),
        None => None,
    }
}

/// The labels that a SELECT gives where they are asked for.
pub open spec fn select_labels(
    select: Select,
    columns: Seq<String>,
    join_columns: Seq<(String, Seq<String>)>,
    with_labels: bool,
) -> Result<Seq<String>, Error> {
    if with_labels {
        match alias_of(select.from.relation) {
            Err(e) => Err(e),
            Ok(alias) => labels(
                select.projection@,
                alias@,
                columns,
                Some(join_columns),
                select.projection@.len() as int,
            ),
        }
    } else {
        Ok(Seq::empty())
    }
}

/// The rows of a SELECT once everything was fetched: the stream of the base
/// relation, joined, filtered by WHERE, aggregated, sorted, projected, and
/// at last cut by OFFSET and LIMIT.
pub open spec fn select_rows(
    select: Select,
    rows: Seq<Result<(u64, Seq<SqlValue>), Error>>,
    columns: Seq<String>,
    steps: Seq<StepModel>,
    limit: Limit,
    outer: Seq<Binding>,
) -> Result<Seq<Result<Seq<SqlValue>, Error>>, Error> {
    let base = outer_scope(outer);
    let fetched = base_items(rows, alias_of(select.from.relation), names_view(columns));
    let joined_items = joined(fetched, steps, base, steps.len() as int);
    let filtered = filter_stream(
        joined_items,
        option_ref(&select.selection),
        base,
        joined_items.len() as int,
    );
    let aggregates = query_aggregates(
        select.projection@,
        option_ref(&select.having),
        select.order_by@,
    );
    match aggregated(filtered, select.group_by@, aggregates, option_ref(&select.having), base) {
        Err(e) => Err(e),
        Ok(groups) => match sorted(groups, select.order_by@, aggregates, base) {
            Err(e) => Err(e),
            Ok(ordered) => Ok(
                limit.slice(blended_rows(ordered, select.projection@, aggregates, base)),
            ),
        },
    }
}

/// What a SELECT gives: the labels and the rows, or the first error among
/// the columns and rows of the base relation, the columns of the joined
/// relations, the labels, the rows of the joined relations, LIMIT and
/// OFFSET, the aggregation and the sort, in this order.
pub open spec fn selected_from(
    storage: Store,
    query: Query,
    select: Select,
    outer: Seq<Binding>,
    with_labels: bool,
) -> Result<(Seq<Seq<char>>, Seq<Result<Seq<SqlValue>, Error>>), Error> {
    match relation_columns(storage, select.from.relation) {
        Err(e) => Err(e),
        Ok(columns) => match relation_rows(storage, select.from.relation) {
            Err(e) => Err(e),
            Ok(rows) => match join_columns_of(
                select.from.joins@,
                storage,
                select.from.joins@.len() as int,
            ) {
                Err(e) => Err(e),
                Ok(join_columns) => match select_labels(select, columns, join_columns, with_labels) {
                    Err(e) => Err(e),
                    Ok(names) => match join_steps(
                        select.from.joins@,
                        storage,
                        join_columns,
                        select.from.joins@.len() as int,
                    ) {
                        Err(e) => Err(e),
                        Ok(steps) => match limit_of(
                            option_ref(&query.limit),
                            option_ref(&query.offset),
                        ) {
                            Err(e) => Err(e),
                            Ok(limit) => match select_rows(
                                select,
                                stored_view(rows@),
                                columns,
                                steps,
                                limit,
                                outer,
                            ) {
                                Err(e) => Err(e),
                                Ok(out) => Ok((names_view(names), out)),
                            },
                        },
                    },
                },
            },
        },
    }
}

/// What a query gives: its labels and its rows. A `VALUES` list gives the
/// labels `column1`, `column2`, ... and its own rows, cut by OFFSET and
/// LIMIT.
pub open spec fn selected(storage: Store, query: Query, outer: Seq<Binding>, with_labels: bool) -> Result<
    (Seq<Seq<char>>, Seq<Result<Seq<SqlValue>, Error>>),
    Error,
> {
    match query.body {
        SetExpr::Values(Values(list)) => match limit_of(
            option_ref(&query.limit),
            option_ref(&query.offset),
        ) {
            Err(e) => Err(e),
            Ok(limit) => Ok(
                (
                    values_labels(first_len(list@)),
                    limit.slice(typed_rows(list@, list@.len() as int).0),
                ),
            ),
        },
        SetExpr::Select(select) => selected_from(storage, query, *select, outer, with_labels),
    }
}

/// The model of the outcome of a query: the characters of its labels, and the
/// model of its rows.
pub open spec fn selection_view(r: Result<(Vec<String>, Vec<Result<Row, Error>>), Error>) -> Result<
    (Seq<Seq<char>>, Seq<Result<Seq<SqlValue>, Error>>),
    Error,
> {
    match r {
        Ok((names, rows)) => Ok((names_view(names@), rows_view(rows@))),
        Err(e) => Err(e),
    }
}

/// A slice of the rows is the slice of their models.
pub proof fn lemma_slice_view(limit: Limit, rows: Seq<Result<Row, Error>>)
    ensures
        rows_view(limit.slice(rows)) == limit.slice(rows_view(rows)),
{
    assert(rows_view(limit.slice(rows)) =~= limit.slice(rows_view(rows)));
}

fn as_ref_expr(e: &Option<Expr>) -> (r: Option<&Expr>)
    ensures
        r == option_ref(e),
{
    match e {
        Some(x) => Some(x),
        None => None,
    }
}

fn base_contexts(
    stored: &Vec<Result<(u64, Row), Error>>,
    relation: &TableFactor,
    columns: &Rc<Vec<String>>,
) -> (out: Vec<Result<Rc<BlendContext>, Error>>)
    ensures
        contexts_view(out@) == base_items(
            stored_view(stored@),
            alias_of(*relation),
            names_view(columns@),
        ),
{
    let ghost rows = stored_view(stored@);
    let mut out: Vec<Result<Rc<BlendContext>, Error>> = Vec::new();
    let n: usize = stored.len();
    let mut i: usize = 0;
    while i < n
        invariant
            n == stored@.len(),
            i <= n,
            rows == stored_view(stored@),
            out@.len() == i,
            forall|j: int|
                0 <= j < i ==> item_view(out@[j]) == base_item(
                    rows[j],
                    alias_of(*relation),
                    names_view(columns@),
                ),
        decreases n - i,
    {
        assert(rows[i as int] == stored_item_view(stored@[i as int]));
        match &stored[i] {
            Err(e) => out.push(Err(e.clone())),
            Ok((key, row)) => match get_alias(relation) {
                Err(e) => out.push(Err(e)),
                Ok(alias) => {
                    let context = Rc::new(
                        BlendContext::new(
                            alias.clone(),
                            share(columns),
                            Some(*key),
                            Some(row.clone()),
                            None,
                        ),
                    );
                    out.push(Ok(context));
                },
            },
        }
        i += 1;
    }
    assert(contexts_view(out@) =~= base_items(rows, alias_of(*relation), names_view(columns@)));
    out
}

fn build_steps<'a>(
    joins: &'a Vec<Join>,
    storage: &'a Store,
    join_columns: &Vec<(&'a String, Vec<String>)>,
) -> (r: Result<Vec<JoinStep<'a>>, Error>)
    requires
        join_columns@.len() == joins@.len(),
    ensures
        match r {
            Ok(steps) => steps@.len() == joins@.len() && join_steps(
                joins@,
                *storage,
                join_columns_view(join_columns@),
                joins@.len() as int,
            ) == Ok::<Seq<StepModel>, Error>(steps_view(steps@)),
            Err(e) => join_steps(
                joins@,
                *storage,
                join_columns_view(join_columns@),
                joins@.len() as int,
            ) == Err::<Seq<StepModel>, Error>(e),
        },
{
    let ghost columns = join_columns_view(join_columns@);
    let mut steps: Vec<JoinStep<'a>> = Vec::new();
    let n: usize = joins.len();
    let mut i: usize = 0;
    assert(steps_view(steps@) =~= Seq::<StepModel>::empty());
    while i < n
        invariant
            n == joins@.len(),
            n == join_columns@.len(),
            i <= n,
            steps@.len() == i,
            columns == join_columns_view(join_columns@),
            join_steps(joins@, *storage, columns, i as int) == Ok::<Seq<StepModel>, Error>(
                steps_view(steps@),
            ),
        decreases n - i,
    {
        let ghost before = steps@;
        let rows = match fetch_relation_rows(storage, &joins[i].relation) {
            Ok(rows) => rows,
            Err(e) => {
                proof {
                    lemma_join_steps_error_stays(joins@, *storage, columns, i + 1, n as int);
                }
                return Err(e);
            },
        };
        assert(columns[i as int] == (*join_columns@[i as int].0, join_columns@[i as int].1@));
        let step = JoinStep {
            relation: Relation {
                alias: join_columns[i].0.clone(),
                columns: Rc::new(clone_strings(&join_columns[i].1)),
                rows: rows,
            },
            join_operator: &joins[i].join_operator,
        };
        steps.push(step);
        assert(steps_view(steps@) =~= steps_view(before).push(step@));
        i += 1;
    }
    Ok(steps)
}

/// Runs a query against a snapshot of the storage: gives the labels of the
/// output columns (none where `with_labels` is false) and the output rows,
/// each row either its values or the error that it met.
pub fn select_with_labels(
    storage: &Store,
    query: &Query,
    filter_context: Option<Rc<FilterContext>>,
    with_labels: bool,
) -> (r: Result<(Vec<String>, Vec<Result<Row, Error>>), Error>)
    ensures
        selection_view(r) == selected(
            *storage,
            *query,
            context_chain(filter_context),
            with_labels,
        ),
{
    let select: &Select = match &query.body {
        SetExpr::Select(statement) => statement,
        SetExpr::Values(Values(values_list)) => {
            let limit = Limit::new(as_ref_expr(&query.limit), as_ref_expr(&query.offset))?;
            let (rows, labels) = into_rows(values_list.as_slice());
            proof {
                lemma_slice_view(limit, rows@);
            }
            let rows = limit.apply(rows);
            return Ok((labels, rows));
        },
    };
    let relation = &select.from.relation;
    let joins = &select.from.joins;
    let columns = fetch_relation_columns(storage, relation)?;
    let columns = Rc::new(columns);
    let stored = fetch_relation_rows(storage, relation)?;
    let rows = base_contexts(stored, relation, &columns);
    let join_columns = fetch_join_columns(joins, storage)?;
    assert(join_columns_view(join_columns@).len() == join_columns@.len());
    proof {
        lemma_join_columns_len(joins@, *storage, joins@.len() as int);
    }
    let labels: Vec<String> = if with_labels {
        let alias = get_alias(relation)?;
        get_labels(
            select.projection.as_slice(),
            alias.as_str(),
            columns.as_slice(),
            Some(join_columns.as_slice()),
        )?
    } else {
        Vec::new()
    };
    let steps = build_steps(joins, storage, &join_columns)?;
    let join = crate::join::Join::new(steps, share_option(&filter_context));
    let aggregate = Aggregator::new(
        &select.projection,
        &select.group_by,
        as_ref_expr(&select.having),
        &select.order_by,
        share_option(&filter_context),
    );
    let blend = Blend::new(share_option(&filter_context), &select.projection, &aggregate.aggregates);
    let filter = Filter::new(as_ref_expr(&select.selection), share_option(&filter_context), None);
    let limit = Limit::new(as_ref_expr(&query.limit), as_ref_expr(&query.offset))?;
    let sort = Sort::new(share_option(&filter_context), &select.order_by, &aggregate.aggregates);

    let rows = join.apply(rows);
    assert(contexts_view(rows@).len() == rows@.len());
    let rows = filter.apply(&rows);
    let rows = aggregate.apply(rows)?;
    let rows = sort.apply(rows)?;
    let rows = blend.apply_all(&rows);
    proof {
        lemma_slice_view(limit, rows@);
    }
    let rows = limit.apply(rows);
    Ok((labels, rows))
}

/// Runs a query and gives its rows without the labels.
pub fn select(storage: &Store, query: &Query, filter_context: Option<Rc<FilterContext>>) -> (r:
    Result<Vec<Result<Row, Error>>, Error>)
    ensures
        match r {
            Ok(rows) => selected(*storage, *query, context_chain(filter_context), false)
                matches Ok(out) && out.1 == rows_view(rows@),
            Err(e) => selected(*storage, *query, context_chain(filter_context), false) == Err::<
                (Seq<Seq<char>>, Seq<Result<Seq<SqlValue>, Error>>),
                Error,
            >(e),
        },
{
    match select_with_labels(storage, query, filter_context, false) {
        Ok((_, rows)) => Ok(rows),
        Err(e) => Err(e),
    }
}

/// The index of the first error in a stream, from `from` on; the length of
/// the stream where there is none.
pub open spec fn first_error(items: Seq<Result<Row, Error>>, from: int) -> int
    decreases items.len() - from,
{
    if from < 0 || from >= items.len() {
        items.len() as int
    } else if items[from] is Err {
        from
    } else {
        first_error(items, from + 1)
    }
}

/// What a consumer has of a stream that it reads until the first error: the
/// rows before that error, and the error.
pub fn deliver(rows: Vec<Result<Row, Error>>) -> (r: (Vec<Row>, Option<Error>))
    ensures
        r.0@.len() == first_error(rows@, 0),
        forall|i: int| 0 <= i < r.0@.len() ==> rows@[i] == Ok::<Row, Error>(#[trigger] r.0@[i]),
        match r.1 {
            Some(e) => first_error(rows@, 0) < rows@.len() && rows@[first_error(rows@, 0)]
                == Err::<Row, Error>(e),
            None => first_error(rows@, 0) == rows@.len(),
        },
{
    let ghost items = rows@;
    let mut out: Vec<Row> = Vec::new();
    for item in it: rows.into_iter()
        invariant
            it.seq() == items,
            items == rows@,
            out@.len() == it.index(),
            first_error(items, 0) == first_error(items, it.index() as int),
            forall|i: int| 0 <= i < out@.len() ==> items[i] == Ok::<Row, Error>(#[trigger] out@[i]),
    {
        assert(0 <= it.index() < items.len());
        assert(item == items[it.index() as int]);
        match item {
            Ok(row) => out.push(row),
            Err(e) => {
                return (out, Some(e));
            },
        }
    }
    (out, None)
}

} // verus!
