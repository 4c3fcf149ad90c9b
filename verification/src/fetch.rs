//! The fetch stage: what the storage snapshot holds for the relations of a
//! query.

use vstd::prelude::*;
use std::rc::Rc;
use crate::ast::{Expr, Join, TableFactor};
use crate::blend::{get_name, name_of};
use crate::context::{names_view, share, Binding, BlendContext};
use crate::error::{Error, FetchError};
use crate::evaluate::Scope;
use crate::filter::{as_some, predicate, row_scope, Filter};
use crate::store::{Column, ColumnSpecification, Schema, Store};
use crate::value::Row;

verus! {

/// The name under which the query knows a relation: its alias, or where it
/// has none the name of its table.
pub open spec fn alias_of(relation: TableFactor) -> Result<String, Error> {
    match relation {
        TableFactor::Table { name, alias: Some(a) } => Ok(a.name),
        TableFactor::Table { name, alias: None } => name_of(name),
    }
}

/// The name of the table that a relation reads.
pub open spec fn table_of(relation: TableFactor) -> Result<String, Error> {
    match relation {
        TableFactor::Table { name, alias } => name_of(name),
    }
}

/// The name under which the query knows a relation.
pub fn get_alias(relation: &TableFactor) -> (r: Result<&String, Error>)
    ensures
        match r {
            Ok(s) => alias_of(*relation) == Ok::<String, Error>(*s),
            Err(e) => alias_of(*relation) == Err::<String, Error>(e),
        },
{
    match relation {
        TableFactor::Table { name, alias } => match alias {
            Some(a) => Ok(&a.name),
            None => get_name(name),
        },
    }
}

fn get_table(relation: &TableFactor) -> (r: Result<&String, Error>)
    ensures
        match r {
            Ok(s) => table_of(*relation) == Ok::<String, Error>(*s),
            Err(e) => table_of(*relation) == Err::<String, Error>(e),
        },
{
    match relation {
        TableFactor::Table { name, alias } => get_name(name),
    }
}

/// The columns of a list of declarations.
pub open spec fn field_columns(fields: Seq<ColumnSpecification>) -> Seq<Column> {
    fields.map_values(|f: ColumnSpecification| f.column)
}

/// The column names of a list of declarations.
pub open spec fn field_names(fields: Seq<ColumnSpecification>) -> Seq<String> {
    fields.map_values(|f: ColumnSpecification| f.column.name)
}

/// The columns of a table, in the order of its schema.
pub open spec fn columns_of(storage: Store, table_name: String) -> Result<Seq<Column>, Error> {
    match storage.table(table_name@) {
        Some(t) => Ok(field_columns(t.schema.fields@)),
        None => Err(Error::Fetch(FetchError::TableNotFound(table_name))),
    }
}

/// The columns that the schema of a table declares, in their order; an error
/// where the snapshot has no table of that name.
pub fn fetch_columns(storage: &Store, table_name: &String) -> (r: Result<Vec<Column>, Error>)
    ensures
        match r {
            Ok(columns) => columns_of(*storage, *table_name) == Ok::<Seq<Column>, Error>(
                columns@,
            ),
            Err(e) => columns_of(*storage, *table_name) == Err::<Seq<Column>, Error>(e),
        },
{
    let schema = storage.get_schema(table_name)?;
    let mut out: Vec<Column> = Vec::new();
    let n: usize = schema.fields.len();
    let mut i: usize = 0;
    while i < n
        invariant
            n == schema.fields@.len(),
            i <= n,
            out@.len() == i,
            forall|j: int| 0 <= j < i ==> out@[j] == schema.fields@[j].column,
        decreases n - i,
    {
        out.push(schema.fields[i].column.clone());
        i += 1;
    }
    assert(out@ =~= field_columns(schema.fields@));
    Ok(out)
}

/// The column names of the table that a relation reads.
pub open spec fn relation_columns(storage: Store, relation: TableFactor) -> Result<
    Seq<String>,
    Error,
> {
    match table_of(relation) {
        Err(e) => Err(e),
        Ok(table_name) => match storage.table(table_name@) {
            Some(t) => Ok(field_names(t.schema.fields@)),
            None => Err(Error::Fetch(FetchError::TableNotFound(table_name))),
        },
    }
}

/// The rows of the table that a relation reads.
pub open spec fn relation_rows(storage: Store, relation: TableFactor) -> Result<
    Vec<Result<(u64, Row), Error>>,
    Error,
> {
    match table_of(relation) {
        Err(e) => Err(e),
        Ok(table_name) => match storage.table(table_name@) {
            Some(t) => Ok(t.rows),
            None => Err(Error::Fetch(FetchError::TableNotFound(table_name))),
        },
    }
}

fn schema_names(schema: &Schema) -> (out: Vec<String>)
    ensures
        out@ == field_names(schema.fields@),
{
    let mut out: Vec<String> = Vec::new();
    let n: usize = schema.fields.len();
    let mut i: usize = 0;
    while i < n
        invariant
            n == schema.fields@.len(),
            i <= n,
            out@.len() == i,
            forall|j: int| 0 <= j < i ==> out@[j] == schema.fields@[j].column.name,
        decreases n - i,
    {
        out.push(schema.fields[i].column.name.clone());
        i += 1;
    }
    assert(out@ =~= field_names(schema.fields@));
    out
}

/// The column names of a relation, in the order of the table's schema.
pub fn fetch_relation_columns(storage: &Store, relation: &TableFactor) -> (r: Result<
    Vec<String>,
    Error,
>)
    ensures
        match r {
            Ok(names) => relation_columns(*storage, *relation) == Ok::<Seq<String>, Error>(
                names@,
            ),
            Err(e) => relation_columns(*storage, *relation) == Err::<Seq<String>, Error>(e),
        },
{
    let table_name = get_table(relation)?;
    let schema = storage.get_schema(table_name)?;
    Ok(schema_names(schema))
}

/// The rows of a relation as the snapshot holds them.
pub fn fetch_relation_rows<'a>(storage: &'a Store, relation: &TableFactor) -> (r: Result<
    &'a Vec<Result<(u64, Row), Error>>,
    Error,
>)
    ensures
        match r {
            Ok(rows) => relation_rows(*storage, *relation) == Ok::<
                Vec<Result<(u64, Row), Error>>,
                Error,
            >(*rows),
            Err(e) => relation_rows(*storage, *relation) == Err::<
                Vec<Result<(u64, Row), Error>>,
                Error,
            >(e),
        },
{
    let table_name = get_table(relation)?;
    storage.get_data(table_name)
}

/// For each of the first `n` joins its alias and its column names; the
/// first error wins. For each join the alias is settled before the columns.
pub open spec fn join_columns_of(joins: Seq<Join>, storage: Store, n: int) -> Result<
    Seq<(String, Seq<String>)>,
    Error,
>
    decreases n,
{
    if n <= 0 {
        Ok(Seq::empty())
    } else {
        match join_columns_of(joins, storage, n - 1) {
            Err(e) => Err(e),
            Ok(done) => match alias_of(joins[n - 1].relation) {
                Err(e) => Err(e),
                Ok(alias) => match relation_columns(storage, joins[n - 1].relation) {
                    Err(e) => Err(e),
                    Ok(columns) => Ok(done.push((alias, columns))),
                },
            },
        }
    }
}

/// Once the fetching of the join columns has met an error, that error is its
/// result.
pub proof fn lemma_join_columns_error_stays(joins: Seq<Join>, storage: Store, i: int, n: int)
    requires
        0 <= i <= n,
        join_columns_of(joins, storage, i) is Err,
    ensures
        join_columns_of(joins, storage, n) == join_columns_of(joins, storage, i),
    decreases n - i,
{
    if i < n {
        lemma_join_columns_error_stays(joins, storage, i, n - 1);
    }
}

/// There is one entry of join columns for each join.
pub proof fn lemma_join_columns_len(joins: Seq<Join>, storage: Store, n: int)
    requires
        0 <= n,
    ensures
        join_columns_of(joins, storage, n) matches Ok(c) ==> c.len() == n,
    decreases n,
{
    if n > 0 {
        lemma_join_columns_len(joins, storage, n - 1);
    }
}

/// The model of the join columns: for each join its alias and its column
/// names.
pub open spec fn join_columns_view(columns: Seq<(&String, Vec<String>)>) -> Seq<
    (String, Seq<String>),
> {
    columns.map_values(|c: (&String, Vec<String>)| (*c.0, c.1@))
}

/// The alias and the column names of every joined relation, in the order of
/// the joins.
pub fn fetch_join_columns<'a>(joins: &'a Vec<Join>, storage: &Store) -> (r: Result<
    Vec<(&'a String, Vec<String>)>,
    Error,
>)
    ensures
        match r {
            Ok(columns) => join_columns_of(joins@, *storage, joins@.len() as int) == Ok::<
                Seq<(String, Seq<String>)>,
                Error,
            >(join_columns_view(columns@)),
            Err(e) => join_columns_of(joins@, *storage, joins@.len() as int) == Err::<
                Seq<(String, Seq<String>)>,
                Error,
            >(e),
        },
{
    let mut out: Vec<(&'a String, Vec<String>)> = Vec::new();
    let n: usize = joins.len();
    let mut i: usize = 0;
    assert(join_columns_view(out@) =~= Seq::<(String, Seq<String>)>::empty());
    while i < n
        invariant
            n == joins@.len(),
            i <= n,
            join_columns_of(joins@, *storage, i as int) == Ok::<
                Seq<(String, Seq<String>)>,
                Error,
            >(join_columns_view(out@)),
        decreases n - i,
    {
        let ghost before = out@;
        let alias = match get_alias(&joins[i].relation) {
            Ok(alias) => alias,
            Err(e) => {
                proof {
                    lemma_join_columns_error_stays(joins@, *storage, i + 1, n as int);
                }
                return Err(e);
            },
        };
        let columns = match fetch_relation_columns(storage, &joins[i].relation) {
            Ok(columns) => columns,
            Err(e) => {
                proof {
                    lemma_join_columns_error_stays(joins@, *storage, i + 1, n as int);
                }
                return Err(e);
            },
        };
        let ghost names = columns@;
        out.push((alias, columns));
        assert(join_columns_view(out@) =~= join_columns_view(before).push((*alias, names)));
        i += 1;
    }
    Ok(out)
}

/// The characters of the names of a list of columns.
pub open spec fn column_names(columns: Seq<Column>) -> Seq<Seq<char>> {
    columns.map_values(|c: Column| c.name@)
}

/// The chain of a row that stands alone: one relation, no joins. The key of
/// the row may be of any type and is kept beside the context.
pub open spec fn single(alias: Seq<char>, columns: Seq<Seq<char>>, row: Row) -> Seq<Binding> {
    seq![Binding { alias: alias, columns: columns, key: None, row: Some(row@) }]
}

/// What the fetch makes of one stored row: an error stays; a row stays, with
/// its key and the columns, where the filter holds of it, leaves where it
/// does not, and becomes the error where the filter gives one.
pub open spec fn fetched_item<'a, T>(
    item: Result<(T, Row), Error>,
    alias: Seq<char>,
    columns: &'a Vec<Column>,
    where_clause: Option<&Expr>,
    base: Scope,
) -> Seq<Result<(&'a Vec<Column>, T, Row), Error>> {
    match item {
        Err(e) => seq![Err(e)],
        Ok((key, row)) => match predicate(
            row_scope(single(alias, column_names(columns@), row), base),
            where_clause,
        ) {
            Err(e) => seq![Err(e)],
            Ok(true) => seq![Ok((columns, key, row))],
            Ok(false) => seq![],
        },
    }
}

/// What the fetch makes of the first `n` stored rows, in their order.
pub open spec fn fetched<'a, T>(
    items: Seq<Result<(T, Row), Error>>,
    alias: Seq<char>,
    columns: &'a Vec<Column>,
    where_clause: Option<&Expr>,
    base: Scope,
    n: int,
) -> Seq<Result<(&'a Vec<Column>, T, Row), Error>>
    decreases n,
{
    if n <= 0 {
        Seq::empty()
    } else {
        fetched(items, alias, columns, where_clause, base, n - 1) + fetched_item(
            items[n - 1],
            alias,
            columns,
            where_clause,
            base,
        )
    }
}

fn names_of(columns: &Vec<Column>) -> (out: Vec<String>)
    ensures
        names_view(out@) == column_names(columns@),
{
    let mut out: Vec<String> = Vec::new();
    let n: usize = columns.len();
    let mut i: usize = 0;
    while i < n
        invariant
            n == columns@.len(),
            i <= n,
            out@.len() == i,
            forall|j: int| 0 <= j < i ==> out@[j] == columns@[j].name,
        decreases n - i,
    {
        out.push(columns[i].name.clone());
        i += 1;
    }
    assert(names_view(out@) =~= column_names(columns@));
    out
}

/// The rows of a table that pass a filter, each with its key and the
/// table's columns, in the order in which the storage gave them. A row that
/// could not be read, or of which the filter cannot be decided, gives its
/// error in its place.
pub fn fetch<'a, T>(
    rows: Vec<Result<(T, Row), Error>>,
    table_alias: &String,
    columns: &'a Vec<Column>,
    filter: Filter<'a>,
) -> (out: Vec<Result<(&'a Vec<Column>, T, Row), Error>>)
    ensures
        out@ == fetched(
            rows@,
            table_alias@,
            columns,
            filter.where_clause,
            filter.base(),
            rows@.len() as int,
        ),
{
    let ghost items = rows@;
    let ghost base = filter.base();
    let names = Rc::new(names_of(columns));
    let mut out: Vec<Result<(&'a Vec<Column>, T, Row), Error>> = Vec::new();
    for item in it: rows.into_iter()
        invariant
            it.seq() == items,
            base == filter.base(),
            names_view(names@) == column_names(columns@),
            out@ == fetched(
                items,
                table_alias@,
                columns,
                filter.where_clause,
                base,
                it.index() as int,
            ),
    {
        let ghost before = out@;
        let ghost added = fetched_item(
            items[it.index() as int],
            table_alias@,
            columns,
            filter.where_clause,
            base,
        );
        assert(0 <= it.index() < items.len());
        assert(item == items[it.index() as int]);
        match item {
            Err(e) => {
                out.push(Err(e));
            },
            Ok((key, row)) => {
                let context = Rc::new(
                    BlendContext::new(
                        table_alias.clone(),
                        share(&names),
                        None,
                        Some(row.clone()),
                        None,
                    ),
                );
                assert(context.chain() == single(table_alias@, column_names(columns@), row));
                match filter.check(Some(context)) {
                    Err(e) => {
                        out.push(Err(e));
                    },
                    Ok(pass) => match as_some(pass, (columns, key, row)) {
                        Some(kept) => {
                            out.push(Ok(kept));
                        },
                        None => {},
                    },
                }
            },
        }
        proof {
            if added.len() == 0 {
                assert(before + added =~= before);
            } else {
                assert(before + added =~= before.push(added[0]));
            }
        }
    }
    out
}

} // verus!
