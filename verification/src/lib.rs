//! The SELECT execution pipeline of an embeddable SQL engine.
//!
//! A query is run against a snapshot of the tables it reads. The rows of the
//! base relation become contexts; joins extend them, WHERE filters them,
//! GROUP BY and HAVING fold them into groups, ORDER BY sorts the groups, the
//! projection turns each into an output row, and OFFSET and LIMIT cut the
//! result. Every stage is an executable function with a contract over a
//! mathematical model of values, rows and contexts.
//!
//! The modules, leaves first:
//! - `value`, `numeral`, `text`: scalar values, their order, decimal numerals;
//! - `ast`, `ast_builder`: the syntax tree of a query, and a fluent way to
//!   write expressions;
//! - `error`: the errors that the stages report;
//! - `context`: the chain of row bindings and the lookup of a column;
//! - `evaluate`: the value of an expression in a context;
//! - `store`, `fetch`: the snapshot of the storage and what is read from it;
//! - `join`, `filter`, `collect`, `aggregate`, `sort`, `blend`, `limit`: the
//!   stages;
//! - `select`: the driver, the labels, and the rows of a `VALUES` list;
//! - `laws`, `shape`, `query`: what holds of the stages and of whole queries,
//!   whatever the query and the data.

pub mod value;
pub mod numeral;
pub mod text;
pub mod ast;
pub mod ast_builder;
pub mod error;
pub mod context;
pub mod evaluate;
pub mod store;
pub mod fetch;
pub mod join;
pub mod filter;
pub mod collect;
pub mod aggregate;
pub mod sort;
pub mod blend;
pub mod limit;
pub mod select;
pub mod laws;
pub mod shape;
pub mod query;
