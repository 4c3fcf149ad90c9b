//! The errors that the stages report.

use vstd::prelude::*;
use crate::ast::{BinaryOperator, UnaryOperator};
use crate::value::DataType;

verus! {

/// A table or a relation could not be found in the storage snapshot.
#[derive(Debug, PartialEq, Eq)]
pub enum FetchError {
    TableNotFound(String),
}

/// A projection names a relation that the query does not hold.
#[derive(Debug, PartialEq, Eq)]
pub enum SelectError {
    TableAliasNotFound(String),
    /// `*` was asked of a group that holds no row.
    WildcardOnEmptyGroup,
}

/// A name in the query has no part at all.
#[derive(Clone, Copy, Debug, PartialEq, Eq, Structural)]
pub enum TableError {
    Unreachable,
}

/// A row does not have the shape that its place asks for.
#[derive(Clone, Copy, Debug, PartialEq, Eq, Structural)]
pub enum RowError {
    NumberOfValuesDifferent,
    ConflictOnStorageColumnIndex,
}

/// An expression could not be evaluated in its context.
#[derive(Debug, PartialEq, Eq)]
pub enum EvaluateError {
    ValueNotFound(String),
    UnsupportedCompoundIdentifier,
    UnreachableAggregate,
    InvalidNumber(String),
    ExtractFormatNotMatched,
    BooleanTypeRequired,
}

/// An operator or a conversion met a value that it cannot take.
#[derive(Clone, Copy, Debug, PartialEq, Eq, Structural)]
pub enum ValueError {
    IncompatibleOperands(BinaryOperator),
    IncompatibleOperand(UnaryOperator),
    Overflow,
    DivisorShouldNotBeZero,
    IncompatibleDataType(DataType),
    FunctionRequiresInteger,
}

/// An aggregate function was given what it cannot fold.
#[derive(Clone, Copy, Debug, PartialEq, Eq, Structural)]
pub enum AggregateError {
    OnlyIdentifierAllowed,
    IntegerRequired,
    Overflow,
}

/// LIMIT or OFFSET is not a non-negative integer.
#[derive(Clone, Copy, Debug, PartialEq, Eq, Structural)]
pub enum LimitError {
    InvalidLimit,
    InvalidOffset,
}

/// A node of the expression builder stands for no expression.
#[derive(Debug, PartialEq, Eq)]
pub enum BuildError {
    /// The SQL text of the node could not be read as an expression. The
    /// reader of the text reports it; the lowering hands it on.
    InvalidSqlText(String),
}

/// Every failure that a query can report.
#[derive(Debug, PartialEq, Eq)]
pub enum Error {
    Storage(String),
    Fetch(FetchError),
    Select(SelectError),
    Table(TableError),
    Row(RowError),
    Evaluate(EvaluateError),
    Value(ValueError),
    Aggregate(AggregateError),
    Limit(LimitError),
    Build(BuildError),
}

impl Clone for EvaluateError {
    fn clone(&self) -> (r: Self)
        ensures
            r == *self,
    {
        match self {
            EvaluateError::ValueNotFound(name) => EvaluateError::ValueNotFound(name.clone()),
            EvaluateError::UnsupportedCompoundIdentifier => {
                EvaluateError::UnsupportedCompoundIdentifier
            },
            EvaluateError::UnreachableAggregate => EvaluateError::UnreachableAggregate,
            EvaluateError::InvalidNumber(text) => EvaluateError::InvalidNumber(text.clone()),
            EvaluateError::ExtractFormatNotMatched => EvaluateError::ExtractFormatNotMatched,
            EvaluateError::BooleanTypeRequired => EvaluateError::BooleanTypeRequired,
        }
    }
}

impl Clone for Error {
    fn clone(&self) -> (r: Self)
        ensures
            r == *self,
    {
        match self {
            Error::Storage(text) => Error::Storage(text.clone()),
            Error::Fetch(FetchError::TableNotFound(name)) => {
                Error::Fetch(FetchError::TableNotFound(name.clone()))
            },
            Error::Select(SelectError::TableAliasNotFound(name)) => {
                Error::Select(SelectError::TableAliasNotFound(name.clone()))
            },
            Error::Select(SelectError::WildcardOnEmptyGroup) => {
                Error::Select(SelectError::WildcardOnEmptyGroup)
            },
            Error::Table(e) => Error::Table(*e),
            Error::Row(e) => Error::Row(*e),
            Error::Evaluate(e) => Error::Evaluate(e.clone()),
            Error::Value(e) => Error::Value(*e),
            Error::Aggregate(e) => Error::Aggregate(*e),
            Error::Limit(e) => Error::Limit(*e),
            Error::Build(BuildError::InvalidSqlText(text)) => {
                Error::Build(BuildError::InvalidSqlText(text.clone()))
            },
        }
    }
}

} // verus!
