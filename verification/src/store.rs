//! A snapshot of the storage: the tables a query reads, as plain values.

use vstd::prelude::*;
use crate::error::{Error, FetchError};
use crate::text::str_equal;
use crate::value::{DataType, Row, SqlValue};

verus! {

/// A column of a table.
#[derive(Debug, PartialEq, Eq)]
pub struct Column {
    pub name: String,
    pub alias: Option<String>,
    pub table: Option<String>,
}

/// A column as a table's schema declares it.
#[derive(Debug, PartialEq, Eq)]
pub struct ColumnSpecification {
    pub column: Column,
    pub sql_type: DataType,
}

/// The declared shape of a table.
#[derive(Debug, PartialEq, Eq)]
pub struct Schema {
    pub table_name: String,
    pub fields: Vec<ColumnSpecification>,
}

/// A table as it was read: its schema, and for each row either the row with
/// the key that the storage gave it, or the error that reading it gave.
#[derive(Debug, PartialEq, Eq)]
pub struct Table {
    pub schema: Schema,
    pub rows: Vec<Result<(u64, Row), Error>>,
}

/// The tables that were read for a query.
#[derive(Debug, PartialEq, Eq)]
pub struct Store {
    pub tables: Vec<Table>,
}

impl Clone for Column {
    fn clone(&self) -> (r: Self)
        ensures
            r == *self,
    {
        Column {
            name: self.name.clone(),
            alias: match &self.alias {
                Some(a) => Some(a.clone()),
                None => None,
            },
            table: match &self.table {
                Some(t) => Some(t.clone()),
                None => None,
            },
        }
    }
}

/// The model of the rows of a table: each row's key and values, or its
/// error.
pub open spec fn stored_item_view(item: Result<(u64, Row), Error>) -> Result<
    (u64, Seq<SqlValue>),
    Error,
> {
    match item {
        Ok((key, row)) => Ok((key, row@)),
        Err(e) => Err(e),
    }
}

/// The model of the rows of a table.
pub open spec fn stored_view(rows: Seq<Result<(u64, Row), Error>>) -> Seq<
    Result<(u64, Seq<SqlValue>), Error>,
> {
    rows.map_values(|item: Result<(u64, Row), Error>| stored_item_view(item))
}

/// The model of a stream of rows: each row's values, or its error.
pub open spec fn row_item_view(item: Result<Row, Error>) -> Result<Seq<SqlValue>, Error> {
    match item {
        Ok(row) => Ok(row@),
        Err(e) => Err(e),
    }
}

/// The model of a stream of rows.
pub open spec fn rows_view(rows: Seq<Result<Row, Error>>) -> Seq<Result<Seq<SqlValue>, Error>> {
    rows.map_values(|item: Result<Row, Error>| row_item_view(item))
}

/// The characters of the names of the tables.
pub open spec fn table_names(tables: Seq<Table>) -> Seq<Seq<char>> {
    tables.map_values(|t: Table| t.schema.table_name@)
}

impl Schema {
    /// The names of the columns, in the order of their declaration.
    pub open spec fn column_names(&self) -> Seq<Seq<char>> {
        self.fields@.map_values(|f: ColumnSpecification| f.column.name@)
    }
}

impl Store {
    /// The first table of the given name.
    pub open spec fn table(&self, name: Seq<char>) -> Option<Table> {
        match table_names(self.tables@).index_of_first(name) {
            Some(i) => Some(self.tables@[i]),
            None => None,
        }
    }

    fn find_table(&self, table_name: &str) -> (r: Option<&Table>)
        ensures
            match r {
                Some(t) => self.table(table_name@) == Some(*t),
                None => self.table(table_name@) is None,
            },
    {
        let ghost names = table_names(self.tables@);
        let n: usize = self.tables.len();
        let mut i: usize = 0;
        while i < n
            invariant
                n == self.tables.len(),
                names == table_names(self.tables@),
                i <= n,
                forall|j: int| 0 <= j < i ==> names[j] != table_name@,
            decreases n - i,
        {
            if str_equal(self.tables[i].schema.table_name.as_str(), table_name) {
                proof {
                    assert(names[i as int] == table_name@);
                    names.index_of_first_ensures(table_name@);
                }
                return Some(&self.tables[i]);
            }
            i += 1;
        }
        proof {
            names.index_of_first_ensures(table_name@);
        }
        None
    }

    /// The schema of a table; an error where the snapshot has no such table.
    pub fn get_schema(&self, table_name: &String) -> (r: Result<&Schema, Error>)
        ensures
            match r {
                Ok(schema) => self.table(table_name@) matches Some(t) && t.schema == *schema,
                Err(e) => self.table(table_name@) is None && e == Error::Fetch(
                    FetchError::TableNotFound(*table_name),
                ),
            },
    {
        match self.find_table(table_name.as_str()) {
            Some(t) => Ok(&t.schema),
            None => Err(Error::Fetch(FetchError::TableNotFound(table_name.clone()))),
        }
    }

    /// The rows of a table; an error where the snapshot has no such table.
    pub fn get_data(&self, table_name: &String) -> (r: Result<
        &Vec<Result<(u64, Row), Error>>,
        Error,
    >)
        ensures
            match r {
                Ok(rows) => self.table(table_name@) matches Some(t) && t.rows == *rows,
                Err(e) => self.table(table_name@) is None && e == Error::Fetch(
                    FetchError::TableNotFound(*table_name),
                ),
            },
    {
        match self.find_table(table_name.as_str()) {
            Some(t) => Ok(&t.rows),
            None => Err(Error::Fetch(FetchError::TableNotFound(table_name.clone()))),
        }
    }
}

} // verus!
