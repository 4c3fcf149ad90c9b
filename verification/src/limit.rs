//! OFFSET and LIMIT: a positional slice of the final row stream.

use vstd::prelude::*;
use crate::ast::Expr;
use crate::error::{Error, LimitError};
use crate::evaluate::{eval, evaluate, Scope};
use crate::value::{SqlValue, Value};

verus! {

/// How many rows to skip and how many to take after them; an absent limit
/// takes all of them.
#[derive(Clone, Copy, Debug, PartialEq, Eq, Structural)]
pub struct Limit {
    pub limit: Option<u64>,
    pub offset: Option<u64>,
}

/// The scope of an expression that stands outside every row.
pub open spec fn empty_scope() -> Scope {
    Scope { chain: Seq::empty(), aggregates: Seq::empty(), values: Seq::empty() }
}

/// The count that a LIMIT or OFFSET expression gives: a non-negative integer.
/// Any other value is the error `invalid`; an error of the evaluation is
/// handed on.
pub open spec fn count_of(expr: Option<&Expr>, invalid: LimitError) -> Result<Option<u64>, Error> {
    match expr {
        None => Ok(None),
        Some(e) => match eval(empty_scope(), *e) {
            Err(err) => Err(err),
            Ok(SqlValue::Int(n)) => if 0 <= n <= u64::MAX {
                Ok(Some(n as u64))
            } else {
                Err(Error::Limit(invalid))
            },
            Ok(_) => Err(Error::Limit(invalid)),
        },
    }
}

/// What LIMIT and OFFSET give together; the limit is read first.
pub open spec fn limit_of(limit: Option<&Expr>, offset: Option<&Expr>) -> Result<Limit, Error> {
    match count_of(limit, LimitError::InvalidLimit) {
        Err(e) => Err(e),
        Ok(l) => match count_of(offset, LimitError::InvalidOffset) {
            Err(e) => Err(e),
            Ok(o) => Ok(Limit { limit: l, offset: o }),
        },
    }
}

fn count(expr: Option<&Expr>, invalid: LimitError) -> (r: Result<Option<u64>, Error>)
    ensures
        r == count_of(expr, invalid),
{
    match expr {
        None => Ok(None),
        Some(e) => match evaluate(None, None, e)? {
            Value::I64(n) => if n >= 0 {
                Ok(Some(n as u64))
            } else {
                Err(Error::Limit(invalid))
            },
            _ => Err(Error::Limit(invalid)),
        },
    }
}

impl Limit {
    /// The first index of the slice in a stream of `n` items.
    pub open spec fn start(self, n: nat) -> int {
        match self.offset {
            Some(o) => if o < n {
                o as int
            } else {
                n as int
            },
            None => 0,
        }
    }

    /// The index behind the last item of the slice in a stream of `n` items.
    pub open spec fn end(self, n: nat) -> int {
        match self.limit {
            Some(l) => if self.start(n) + l < n {
                self.start(n) + l
            } else {
                n as int
            },
            None => n as int,
        }
    }

    /// The items `[offset, offset + limit)` of `rows`, as far as there are any.
    pub open spec fn slice<T>(self, rows: Seq<T>) -> Seq<T> {
        rows.subrange(self.start(rows.len()), self.end(rows.len()))
    }

    /// Reads LIMIT and OFFSET. The limit is read first; the first error is
    /// the result.
    pub fn new(limit: Option<&Expr>, offset: Option<&Expr>) -> (r: Result<Limit, Error>)
        ensures
            r == limit_of(limit, offset),
    {
        let limit = count(limit, LimitError::InvalidLimit)?;
        let offset = count(offset, LimitError::InvalidOffset)?;
        Ok(Limit { limit, offset })
    }

    /// Skips `offset` items, then takes `limit` of the rest.
    pub fn apply<T>(&self, rows: Vec<T>) -> (out: Vec<T>)
        ensures
            out@ == self.slice(rows@),
    {
        let n: usize = rows.len();
        let start: usize = match self.offset {
            Some(o) => if o < n as u64 {
                o as usize
            } else {
                n
            },
            None => 0,
        };
        let end: usize = match self.limit {
            Some(l) => if l < (n - start) as u64 {
                start + l as usize
            } else {
                n
            },
            None => n,
        };
        let ghost all = rows@;
        let mut rows = rows;
        rows.truncate(end);
        let out = rows.split_off(start);
        assert(out@ =~= self.slice(all));
        out
    }
}

} // verus!
