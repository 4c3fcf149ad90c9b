//! The value of an expression in a context.

use vstd::prelude::*;
use crate::ast::{
    Aggregate, AstLiteral, BinaryOperator, CountArgExpr, Expr, Function, UnaryOperator,
};
use crate::context::{find, found_view, names_view, Binding, FilterContext};
use crate::error::{Error, EvaluateError, ValueError};
use crate::numeral::{numeral_i64, parse_numeral};
use crate::text::str_equal;
use crate::value::{
    kind_rank, option_ref_view, option_view, value_less, values_view, SqlValue, Value,
};

verus! {

/// The model of everything an expression can see: the chain of bindings, and
/// the aggregate functions of the query with the values computed for the
/// group at hand.
pub struct Scope {
    pub chain: Seq<Binding>,
    pub aggregates: Seq<Aggregate>,
    pub values: Seq<SqlValue>,
}

/// The aggregate functions of a query and their values for one group.
#[derive(Clone, Copy)]
pub struct Aggregated<'a> {
    pub aggregates: &'a Vec<&'a Aggregate>,
    pub values: &'a Vec<Value>,
}

/// The model of the outcome of an evaluation.
pub open spec fn result_view(r: Result<Value, Error>) -> Result<SqlValue, Error> {
    match r {
        Ok(v) => Ok(v@),
        Err(e) => Err(e),
    }
}

/// The aggregate functions behind a list of references.
pub open spec fn aggregates_view(aggregates: Seq<&Aggregate>) -> Seq<Aggregate> {
    aggregates.map_values(|a: &Aggregate| *a)
}

/// The scope that a context and the aggregate values of a group make.
pub open spec fn scope_of(context: Option<&FilterContext>, aggregated: Option<&Aggregated>) -> Scope {
    Scope {
        chain: match context {
            Some(c) => c.chain(),
            None => Seq::empty(),
        },
        aggregates: match aggregated {
            Some(a) => aggregates_view(a.aggregates@),
            None => Seq::empty(),
        },
        values: match aggregated {
            Some(a) => values_view(a.values@),
            None => Seq::empty(),
        },
    }
}

/// Whether an integer fits 64 bits.
pub open spec fn in_i64(n: int) -> bool {
    i64::MIN <= n <= i64::MAX
}

/// The quotient rounded toward zero.
pub open spec fn trunc_div(x: int, d: int) -> int {
    if x == 0 {
        0
    } else if x > 0 && d > 0 {
        x / d
    } else if x < 0 && d < 0 {
        (x * -1) / (d * -1)
    } else if x < 0 {
        ((x * -1) / d) * -1
    } else {
        (x / (d * -1)) * -1
    }
}

/// The remainder that goes with `trunc_div`: it has the sign of `x`.
pub open spec fn trunc_rem(x: int, d: int) -> int {
    if x == 0 {
        0
    } else if x > 0 && d > 0 {
        x % d
    } else if x < 0 && d < 0 {
        ((x * -1) % (d * -1)) * -1
    } else if x < 0 {
        ((x * -1) % d) * -1
    } else {
        x % (d * -1)
    }
}

/// Whether an operator is one of `+ - * / %`.
pub open spec fn is_arithmetic(op: BinaryOperator) -> bool {
    op is Plus || op is Minus || op is Multiply || op is Divide || op is Modulo
}

/// Whether an operator is AND or OR.
pub open spec fn is_logic(op: BinaryOperator) -> bool {
    op is And || op is Or
}

/// The result of an arithmetic operator on two integers: an error where the
/// divisor is zero or the result does not fit 64 bits.
pub open spec fn arithmetic(op: BinaryOperator, x: int, y: int) -> Result<SqlValue, Error> {
    if (op is Divide || op is Modulo) && y == 0 {
        Err(Error::Value(ValueError::DivisorShouldNotBeZero))
    } else {
        let n = match op {
            BinaryOperator::Plus => x + y,
            BinaryOperator::Minus => x - y,
            BinaryOperator::Multiply => x * y,
            BinaryOperator::Divide => trunc_div(x, y),
            _ => trunc_rem(x, y),
        };
        if in_i64(n) {
            Ok(SqlValue::Int(n))
        } else {
            Err(Error::Value(ValueError::Overflow))
        }
    }
}

/// The result of a comparison operator on two values of one kind.
pub open spec fn comparison(op: BinaryOperator, l: SqlValue, r: SqlValue) -> bool {
    match op {
        BinaryOperator::Eq => l == r,
        BinaryOperator::NotEq => l != r,
        BinaryOperator::Lt => value_less(l, r),
        BinaryOperator::LtEq => !value_less(r, l),
        BinaryOperator::Gt => value_less(r, l),
        _ => !value_less(l, r),
    }
}

/// The truth value of a value: `Null` is unknown, and what is neither
/// `Null` nor a boolean has none.
pub open spec fn truth(v: SqlValue) -> Result<Option<bool>, Error> {
    match v {
        SqlValue::Null => Ok(None),
        SqlValue::Bool(b) => Ok(Some(b)),
        _ => Err(Error::Evaluate(EvaluateError::BooleanTypeRequired)),
    }
}

/// AND and OR in three-valued logic.
pub open spec fn logic(op: BinaryOperator, l: Option<bool>, r: Option<bool>) -> SqlValue {
    if op is And {
        if l == Some(false) || r == Some(false) {
            SqlValue::Bool(false)
        } else if l is None || r is None {
            SqlValue::Null
        } else {
            SqlValue::Bool(true)
        }
    } else {
        if l == Some(true) || r == Some(true) {
            SqlValue::Bool(true)
        } else if l is None || r is None {
            SqlValue::Null
        } else {
            SqlValue::Bool(false)
        }
    }
}

/// The result of a binary operator. AND and OR take truth values. The others
/// give `Null` where an operand is `Null`; arithmetic takes two integers, a
/// comparison two values of one kind, and anything else is an error.
pub open spec fn binary(op: BinaryOperator, l: SqlValue, r: SqlValue) -> Result<SqlValue, Error> {
    if is_logic(op) {
        match truth(l) {
            Err(e) => Err(e),
            Ok(a) => match truth(r) {
                Err(e) => Err(e),
                Ok(b) => Ok(logic(op, a, b)),
            },
        }
    } else if l is Null || r is Null {
        Ok(SqlValue::Null)
    } else if is_arithmetic(op) {
        match (l, r) {
            (SqlValue::Int(x), SqlValue::Int(y)) => arithmetic(op, x, y),
            _ => Err(Error::Value(ValueError::IncompatibleOperands(op))),
        }
    } else if kind_rank(l) == kind_rank(r) {
        Ok(SqlValue::Bool(comparison(op, l, r)))
    } else {
        Err(Error::Value(ValueError::IncompatibleOperands(op)))
    }
}

/// The result of a unary operator.
pub open spec fn unary(op: UnaryOperator, v: SqlValue) -> Result<SqlValue, Error> {
    match op {
        UnaryOperator::Not => match truth(v) {
            Err(e) => Err(e),
            Ok(Some(b)) => Ok(SqlValue::Bool(!b)),
            Ok(None) => Ok(SqlValue::Null),
        },
        _ => match v {
            SqlValue::Null => Ok(SqlValue::Null),
            SqlValue::Int(x) => if op is Plus {
                Ok(v)
            } else if in_i64(-x) {
                Ok(SqlValue::Int(-x))
            } else {
                Err(Error::Value(ValueError::Overflow))
            },
            _ => Err(Error::Value(ValueError::IncompatibleOperand(op))),
        },
    }
}

/// The value of a literal. A number literal must be the numeral of a 64-bit
/// integer.
pub open spec fn literal(lit: AstLiteral) -> Result<SqlValue, Error> {
    match lit {
        AstLiteral::Boolean(b) => Ok(SqlValue::Bool(b)),
        AstLiteral::Number(text) => match numeral_i64(text@) {
            Some(n) => Ok(SqlValue::Int(n as int)),
            None => Err(Error::Evaluate(EvaluateError::InvalidNumber(text))),
        },
        AstLiteral::QuotedString(s) => Ok(SqlValue::Text(s@)),
        AstLiteral::Null => Ok(SqlValue::Null),
    }
}

/// The absolute value of an integer; `Null` of `Null`.
pub open spec fn absolute(v: SqlValue) -> Result<SqlValue, Error> {
    match v {
        SqlValue::Null => Ok(SqlValue::Null),
        SqlValue::Int(x) => if x >= 0 {
            Ok(v)
        } else if in_i64(-x) {
            Ok(SqlValue::Int(-x))
        } else {
            Err(Error::Value(ValueError::Overflow))
        },
        _ => Err(Error::Value(ValueError::FunctionRequiresInteger)),
    }
}

/// The column that an expression names, as the parts of its name; nothing
/// where the expression is not a plain column reference.
pub open spec fn column_ref(e: Expr) -> Option<Seq<Seq<char>>> {
    match e {
        Expr::Identifier(name) => Some(seq![name@]),
        Expr::CompoundIdentifier(parts) => if parts@.len() == 2 {
            Some(names_view(parts@))
        } else {
            None
        },
        _ => None,
    }
}

/// What tells one aggregate function of a query from another: its kind, and
/// the column it folds. `COUNT(*)` folds no column. An aggregate over
/// anything but a column has no key.
pub open spec fn aggregate_key(a: Aggregate) -> Option<(int, Option<Seq<Seq<char>>>)> {
    match a {
        Aggregate::Count(CountArgExpr::Wildcard) => Some((0, None)),
        Aggregate::Count(CountArgExpr::Expr(e)) => match column_ref(e) {
            Some(c) => Some((0, Some(c))),
            None => None,
        },
        Aggregate::Sum(e) => match column_ref(e) {
            Some(c) => Some((1, Some(c))),
            None => None,
        },
        Aggregate::Max(e) => match column_ref(e) {
            Some(c) => Some((2, Some(c))),
            None => None,
        },
        Aggregate::Min(e) => match column_ref(e) {
            Some(c) => Some((3, Some(c))),
            None => None,
        },
    }
}

/// Whether two aggregate functions are the same function of the same column.
pub open spec fn same_aggregate(a: Aggregate, b: Aggregate) -> bool {
    aggregate_key(a) is Some && aggregate_key(a) == aggregate_key(b)
}

/// The value computed for the aggregate function `a`: that of the first of
/// `aggregates`, from index `from` on, which is the same function of the same
/// column.
pub open spec fn aggregate_value(
    aggregates: Seq<Aggregate>,
    values: Seq<SqlValue>,
    a: Aggregate,
    from: int,
) -> Option<SqlValue>
    decreases aggregates.len() - from,
{
    if from < 0 || from >= aggregates.len() || from >= values.len() {
        None
    } else if same_aggregate(aggregates[from], a) {
        Some(values[from])
    } else {
        aggregate_value(aggregates, values, a, from + 1)
    }
}

/// The value of `expr` in `scope`.
///
/// A column is looked up in the chain, the nearest relation first. The
/// operands of an operator are evaluated from left to right, and the first
/// error among them is the result.
pub open spec fn eval(scope: Scope, expr: Expr) -> Result<SqlValue, Error>
    decreases expr,
{
    match expr {
        Expr::Identifier(name) => match find(scope.chain, None, name@) {
            Some(r) => r,
            None => Err(Error::Evaluate(EvaluateError::ValueNotFound(name))),
        },
        Expr::CompoundIdentifier(parts) => if parts@.len() != 2 {
            Err(Error::Evaluate(EvaluateError::UnsupportedCompoundIdentifier))
        } else {
            match find(scope.chain, Some(parts@[0]@), parts@[1]@) {
                Some(r) => r,
                None => Err(Error::Evaluate(EvaluateError::ValueNotFound(parts@[1]))),
            }
        },
        Expr::IsNull(e) => match eval(scope, *e) {
            Err(err) => Err(err),
            Ok(v) => Ok(SqlValue::Bool(v is Null)),
        },
        Expr::IsNotNull(e) => match eval(scope, *e) {
            Err(err) => Err(err),
            Ok(v) => Ok(SqlValue::Bool(!(v is Null))),
        },
        Expr::InList { expr: e, list, negated } => match eval(scope, *e) {
            Err(err) => Err(err),
            Ok(v) => match eval_in_list(scope, v, list, 0) {
                Err(err) => Err(err),
                Ok(found) => if negated {
                    unary(UnaryOperator::Not, found)
                } else {
                    Ok(found)
                },
            },
        },
        Expr::Between { expr: e, negated, low, high } => match eval(scope, *e) {
            Err(err) => Err(err),
            Ok(v) => match eval(scope, *low) {
                Err(err) => Err(err),
                Ok(lo) => match eval(scope, *high) {
                    Err(err) => Err(err),
                    Ok(hi) => between(v, lo, hi, negated),
                },
            },
        },
        Expr::BinaryOp { left, op, right } => match eval(scope, *left) {
            Err(err) => Err(err),
            Ok(l) => match eval(scope, *right) {
                Err(err) => Err(err),
                Ok(r) => binary(op, l, r),
            },
        },
        Expr::UnaryOp { op, expr: e } => match eval(scope, *e) {
            Err(err) => Err(err),
            Ok(v) => unary(op, v),
        },
        Expr::Extract { field, expr: e } => match eval(scope, *e) {
            Err(err) => Err(err),
            Ok(v) => if v is Null {
                Ok(SqlValue::Null)
            } else {
                Err(Error::Evaluate(EvaluateError::ExtractFormatNotMatched))
            },
        },
        Expr::Nested(e) => eval(scope, *e),
        Expr::Literal(lit) => literal(lit),
        Expr::Function(f) => match *f {
            Function::Abs(e) => match eval(scope, e) {
                Err(err) => Err(err),
                Ok(v) => absolute(v),
            },
            Function::IfNull { expr: e, then } => match eval(scope, e) {
                Err(err) => Err(err),
                Ok(v) => if v is Null {
                    eval(scope, then)
                } else {
                    Ok(v)
                },
            },
        },
        Expr::Aggregate(a) => match aggregate_value(scope.aggregates, scope.values, *a, 0) {
            Some(v) => Ok(v),
            None => Err(Error::Evaluate(EvaluateError::UnreachableAggregate)),
        },
        Expr::Case { operand, when_then, else_result } => {
            let subject = match operand {
                Some(e) => match eval(scope, *e) {
                    Err(err) => Err(err),
                    Ok(v) => Ok(Some(v)),
                },
                None => Ok(None),
            };
            match subject {
                Err(err) => Err(err),
                Ok(operand_value) => match eval_case(scope, operand_value, when_then, 0) {
                    Some(r) => r,
                    None => match else_result {
                        Some(e) => eval(scope, *e),
                        None => Ok(SqlValue::Null),
                    },
                },
            }
        },
    }
}

/// `v BETWEEN lo AND hi`, negated or not.
pub open spec fn between(v: SqlValue, lo: SqlValue, hi: SqlValue, negated: bool) -> Result<
    SqlValue,
    Error,
> {
    match binary(BinaryOperator::GtEq, v, lo) {
        Err(err) => Err(err),
        Ok(a) => match binary(BinaryOperator::LtEq, v, hi) {
            Err(err) => Err(err),
            Ok(b) => match binary(BinaryOperator::And, a, b) {
                Err(err) => Err(err),
                Ok(r) => if negated {
                    unary(UnaryOperator::Not, r)
                } else {
                    Ok(r)
                },
            },
        },
    }
}

/// Whether `target` equals one of `list`, from index `from` on: true at the
/// first item that equals it, unknown where none does but a comparison was
/// unknown, false otherwise. Items behind the first equal one are not
/// evaluated.
pub open spec fn eval_in_list(scope: Scope, target: SqlValue, list: Vec<Expr>, from: int) -> Result<
    SqlValue,
    Error,
>
    decreases list, list.len() - from,
{
    if from < 0 || from >= list.len() {
        Ok(SqlValue::Bool(false))
    } else {
        match eval(scope, list[from]) {
            Err(err) => Err(err),
            Ok(item) => match binary(BinaryOperator::Eq, target, item) {
                Err(err) => Err(err),
                Ok(SqlValue::Bool(true)) => Ok(SqlValue::Bool(true)),
                Ok(m) => match eval_in_list(scope, target, list, from + 1) {
                    Err(err) => Err(err),
                    Ok(SqlValue::Bool(true)) => Ok(SqlValue::Bool(true)),
                    Ok(rest) => if m is Null {
                        Ok(SqlValue::Null)
                    } else {
                        Ok(rest)
                    },
                },
            },
        }
    }
}

/// The outcome of the branches of a CASE from branch `from` on: the result
/// of the first branch whose condition holds (with an operand: whose value
/// equals the operand), or the first error met on the way; nothing where no
/// branch is taken.
pub open spec fn eval_case(
    scope: Scope,
    operand: Option<SqlValue>,
    when_then: Vec<(Expr, Expr)>,
    from: int,
) -> Option<Result<SqlValue, Error>>
    decreases when_then, when_then.len() - from,
{
    if from < 0 || from >= when_then.len() {
        None
    } else {
        match eval(scope, when_then[from].0) {
            Err(err) => Some(Err(err)),
            Ok(w) => {
                let hit = match operand {
                    Some(v) => binary(BinaryOperator::Eq, v, w),
                    None => Ok(w),
                };
                match hit {
                    Err(err) => Some(Err(err)),
                    Ok(h) => match truth(h) {
                        Err(err) => Some(Err(err)),
                        Ok(Some(true)) => Some(eval(scope, when_then[from].1)),
                        Ok(_) => eval_case(scope, operand, when_then, from + 1),
                    },
                }
            },
        }
    }
}

fn to_truth(v: &Value) -> (r: Result<Option<bool>, Error>)
    ensures
        r == truth(v@),
{
    match v {
        Value::Null => Ok(None),
        Value::Bool(b) => Ok(Some(*b)),
        _ => Err(Error::Evaluate(EvaluateError::BooleanTypeRequired)),
    }
}

fn apply_arithmetic(op: BinaryOperator, x: i64, y: i64) -> (r: Result<Value, Error>)
    requires
        is_arithmetic(op),
    ensures
        result_view(r) == arithmetic(op, x as int, y as int),
{
    let computed: Option<i64> = match op {
        BinaryOperator::Plus => x.checked_add(y),
        BinaryOperator::Minus => x.checked_sub(y),
        BinaryOperator::Multiply => x.checked_mul(y),
        BinaryOperator::Divide => {
            if y == 0 {
                return Err(Error::Value(ValueError::DivisorShouldNotBeZero));
            }
            x.checked_div(y)
        },
        _ => {
            if y == 0 {
                return Err(Error::Value(ValueError::DivisorShouldNotBeZero));
            }
            if y == -1 {
                Some(0)
            } else {
                x.checked_rem(y)
            }
        },
    };
    match computed {
        Some(n) => Ok(Value::I64(n)),
        None => Err(Error::Value(ValueError::Overflow)),
    }
}

fn apply_comparison(op: BinaryOperator, l: &Value, r: &Value) -> (b: bool)
    ensures
        b == comparison(op, l@, r@),
{
    match op {
        BinaryOperator::Eq => l.equals(r),
        BinaryOperator::NotEq => !l.equals(r),
        BinaryOperator::Lt => l.less_than(r),
        BinaryOperator::LtEq => !r.less_than(l),
        BinaryOperator::Gt => r.less_than(l),
        _ => !l.less_than(r),
    }
}

fn apply_logic(op: BinaryOperator, l: Option<bool>, r: Option<bool>) -> (v: Value)
    ensures
        v@ == logic(op, l, r),
{
    let decisive: bool = match op {
        BinaryOperator::And => false,
        _ => true,
    };
    let l_decides: bool = match l {
        Some(b) => b == decisive,
        None => false,
    };
    let r_decides: bool = match r {
        Some(b) => b == decisive,
        None => false,
    };
    if l_decides || r_decides {
        Value::Bool(decisive)
    } else if l.is_none() || r.is_none() {
        Value::Null
    } else {
        Value::Bool(!decisive)
    }
}

/// Applies a binary operator to two values.
pub fn apply_binary(op: BinaryOperator, l: &Value, r: &Value) -> (res: Result<Value, Error>)
    ensures
        result_view(res) == binary(op, l@, r@),
{
    match op {
        BinaryOperator::And | BinaryOperator::Or => {
            let a = to_truth(l)?;
            let b = to_truth(r)?;
            Ok(apply_logic(op, a, b))
        },
        BinaryOperator::Plus
        | BinaryOperator::Minus
        | BinaryOperator::Multiply
        | BinaryOperator::Divide
        | BinaryOperator::Modulo => {
            match (l, r) {
                (Value::Null, _) => Ok(Value::Null),
                (_, Value::Null) => Ok(Value::Null),
                (Value::I64(x), Value::I64(y)) => apply_arithmetic(op, *x, *y),
                _ => Err(Error::Value(ValueError::IncompatibleOperands(op))),
            }
        },
        _ => {
            if l.is_null() || r.is_null() {
                Ok(Value::Null)
            } else if l.get_type() == r.get_type() {
                Ok(Value::Bool(apply_comparison(op, l, r)))
            } else {
                Err(Error::Value(ValueError::IncompatibleOperands(op)))
            }
        },
    }
}

/// Applies a unary operator to a value.
pub fn apply_unary(op: UnaryOperator, v: Value) -> (res: Result<Value, Error>)
    ensures
        result_view(res) == unary(op, v@),
{
    match op {
        UnaryOperator::Not => match to_truth(&v)? {
            Some(b) => Ok(Value::Bool(!b)),
            None => Ok(Value::Null),
        },
        UnaryOperator::Plus => match v {
            Value::Null => Ok(Value::Null),
            Value::I64(x) => Ok(Value::I64(x)),
            _ => Err(Error::Value(ValueError::IncompatibleOperand(op))),
        },
        UnaryOperator::Minus => match v {
            Value::Null => Ok(Value::Null),
            Value::I64(x) => match 0i64.checked_sub(x) {
                Some(n) => Ok(Value::I64(n)),
                None => Err(Error::Value(ValueError::Overflow)),
            },
            _ => Err(Error::Value(ValueError::IncompatibleOperand(op))),
        },
    }
}

fn literal_value(lit: &AstLiteral) -> (res: Result<Value, Error>)
    ensures
        result_view(res) == literal(*lit),
{
    match lit {
        AstLiteral::Boolean(b) => Ok(Value::Bool(*b)),
        AstLiteral::Number(text) => match parse_numeral(text.as_str()) {
            Some(n) => Ok(Value::I64(n)),
            None => Err(Error::Evaluate(EvaluateError::InvalidNumber(text.clone()))),
        },
        AstLiteral::QuotedString(s) => Ok(Value::Str(s.clone())),
        AstLiteral::Null => Ok(Value::Null),
    }
}

fn apply_absolute(v: Value) -> (res: Result<Value, Error>)
    ensures
        result_view(res) == absolute(v@),
{
    match v {
        Value::Null => Ok(Value::Null),
        Value::I64(x) => if x >= 0 {
            Ok(Value::I64(x))
        } else {
            match 0i64.checked_sub(x) {
                Some(n) => Ok(Value::I64(n)),
                None => Err(Error::Value(ValueError::Overflow)),
            }
        },
        _ => Err(Error::Value(ValueError::FunctionRequiresInteger)),
    }
}

fn apply_between(v: &Value, lo: &Value, hi: &Value, negated: bool) -> (res: Result<Value, Error>)
    ensures
        result_view(res) == between(v@, lo@, hi@, negated),
{
    let a = apply_binary(BinaryOperator::GtEq, v, lo)?;
    let b = apply_binary(BinaryOperator::LtEq, v, hi)?;
    let r = apply_binary(BinaryOperator::And, &a, &b)?;
    if negated {
        apply_unary(UnaryOperator::Not, r)
    } else {
        Ok(r)
    }
}

fn names_equal(a: &Vec<String>, b: &Vec<String>) -> (r: bool)
    ensures
        r == (names_view(a@) == names_view(b@)),
{
    if a.len() != b.len() {
        assert(names_view(a@).len() != names_view(b@).len());
        return false;
    }
    let n: usize = a.len();
    let mut i: usize = 0;
    while i < n
        invariant
            n == a.len(),
            n == b.len(),
            i <= n,
            forall|j: int| 0 <= j < i ==> a@[j]@ == b@[j]@,
        decreases n - i,
    {
        if !str_equal(a[i].as_str(), b[i].as_str()) {
            assert(names_view(a@)[i as int] != names_view(b@)[i as int]);
            return false;
        }
        i += 1;
    }
    assert(names_view(a@) =~= names_view(b@));
    true
}

fn same_column(a: &Expr, b: &Expr) -> (r: bool)
    ensures
        r == (column_ref(*a) is Some && column_ref(*a) == column_ref(*b)),
{
    match a {
        Expr::Identifier(x) => match b {
            Expr::Identifier(y) => {
                let r = str_equal(x.as_str(), y.as_str());
                assert(seq![x@][0] == x@ && seq![y@][0] == y@);
                r
            },
            Expr::CompoundIdentifier(parts) => {
                assert(seq![x@].len() == 1);
                assert(names_view(parts@).len() == parts@.len());
                false
            },
            _ => false,
        },
        Expr::CompoundIdentifier(p) => match b {
            Expr::Identifier(y) => {
                assert(seq![y@].len() == 1);
                assert(names_view(p@).len() == p@.len());
                false
            },
            Expr::CompoundIdentifier(q) => {
                assert(names_view(p@).len() == p@.len());
                assert(names_view(q@).len() == q@.len());
                p.len() == 2 && names_equal(p, q)
            },
            _ => false,
        },
        _ => false,
    }
}

/// Whether two aggregate functions are the same function of the same column.
pub fn aggregate_matches(a: &Aggregate, b: &Aggregate) -> (r: bool)
    ensures
        r == same_aggregate(*a, *b),
{
    match (a, b) {
        (Aggregate::Count(CountArgExpr::Wildcard), Aggregate::Count(CountArgExpr::Wildcard)) => {
            true
        },
        (Aggregate::Count(CountArgExpr::Expr(x)), Aggregate::Count(CountArgExpr::Expr(y))) => {
            same_column(x, y)
        },
        (Aggregate::Sum(x), Aggregate::Sum(y)) => same_column(x, y),
        (Aggregate::Max(x), Aggregate::Max(y)) => same_column(x, y),
        (Aggregate::Min(x), Aggregate::Min(y)) => same_column(x, y),
        _ => false,
    }
}

fn find_aggregate(aggregated: &Aggregated, a: &Aggregate) -> (r: Option<Value>)
    ensures
        option_view(r) == aggregate_value(
            aggregates_view(aggregated.aggregates@),
            values_view(aggregated.values@),
            *a,
            0,
        ),
{
    let ghost aggregates = aggregates_view(aggregated.aggregates@);
    let ghost values = values_view(aggregated.values@);
    let n: usize = aggregated.aggregates.len();
    let m: usize = aggregated.values.len();
    let mut i: usize = 0;
    while i < n && i < m
        invariant
            n == aggregated.aggregates.len(),
            m == aggregated.values.len(),
            aggregates == aggregates_view(aggregated.aggregates@),
            values == values_view(aggregated.values@),
            aggregate_value(aggregates, values, *a, 0) == aggregate_value(
                aggregates,
                values,
                *a,
                i as int,
            ),
        decreases n - i,
    {
        if aggregate_matches(aggregated.aggregates[i], a) {
            return Some(aggregated.values[i].clone());
        }
        i += 1;
    }
    None
}

/// Evaluates `expr` in the given context, with the values of the aggregate
/// functions of the group at hand where there are any.
pub fn evaluate(
    context: Option<&FilterContext>,
    aggregated: Option<&Aggregated>,
    expr: &Expr,
) -> (res: Result<Value, Error>)
    ensures
        result_view(res) == eval(scope_of(context, aggregated), *expr),
    decreases expr,
{
    let ghost scope = scope_of(context, aggregated);
    match expr {
        Expr::Identifier(name) => {
            let found = match context {
                Some(c) => c.get_value(None, name.as_str()),
                None => None,
            };
            assert(find(Seq::<Binding>::empty(), None, name@) is None);
            match found {
                Some(r) => r,
                None => Err(Error::Evaluate(EvaluateError::ValueNotFound(name.clone()))),
            }
        },
        Expr::CompoundIdentifier(parts) => {
            if parts.len() != 2 {
                return Err(Error::Evaluate(EvaluateError::UnsupportedCompoundIdentifier));
            }
            let found = match context {
                Some(c) => c.get_value(Some(parts[0].as_str()), parts[1].as_str()),
                None => None,
            };
            assert(find(Seq::<Binding>::empty(), Some(parts@[0]@), parts@[1]@) is None);
            match found {
                Some(r) => r,
                None => Err(Error::Evaluate(EvaluateError::ValueNotFound(parts[1].clone()))),
            }
        },
        Expr::IsNull(e) => {
            let v = evaluate(context, aggregated, e)?;
            Ok(Value::Bool(v.is_null()))
        },
        Expr::IsNotNull(e) => {
            let v = evaluate(context, aggregated, e)?;
            Ok(Value::Bool(!v.is_null()))
        },
        Expr::InList { expr: e, list, negated } => {
            let v = evaluate(context, aggregated, e)?;
            let found = evaluate_in_list(context, aggregated, &v, list, 0)?;
            if *negated {
                apply_unary(UnaryOperator::Not, found)
            } else {
                Ok(found)
            }
        },
        Expr::Between { expr: e, negated, low, high } => {
            let v = evaluate(context, aggregated, e)?;
            let lo = evaluate(context, aggregated, low)?;
            let hi = evaluate(context, aggregated, high)?;
            apply_between(&v, &lo, &hi, *negated)
        },
        Expr::BinaryOp { left, op, right } => {
            let l = evaluate(context, aggregated, left)?;
            let r = evaluate(context, aggregated, right)?;
            apply_binary(*op, &l, &r)
        },
        Expr::UnaryOp { op, expr: e } => {
            let v = evaluate(context, aggregated, e)?;
            apply_unary(*op, v)
        },
        Expr::Extract { field, expr: e } => {
            let v = evaluate(context, aggregated, e)?;
            if v.is_null() {
                Ok(Value::Null)
            } else {
                Err(Error::Evaluate(EvaluateError::ExtractFormatNotMatched))
            }
        },
        Expr::Nested(e) => evaluate(context, aggregated, e),
        Expr::Literal(lit) => literal_value(lit),
        Expr::Function(f) => match &**f {
            Function::Abs(e) => {
                let v = evaluate(context, aggregated, e)?;
                apply_absolute(v)
            },
            Function::IfNull { expr: e, then } => {
                let v = evaluate(context, aggregated, e)?;
                if v.is_null() {
                    evaluate(context, aggregated, then)
                } else {
                    Ok(v)
                }
            },
        },
        Expr::Aggregate(a) => {
            let found = match aggregated {
                Some(g) => find_aggregate(g, a),
                None => None,
            };
            assert(aggregate_value(Seq::empty(), Seq::empty(), **a, 0) is None);
            match found {
                Some(v) => Ok(v),
                None => Err(Error::Evaluate(EvaluateError::UnreachableAggregate)),
            }
        },
        Expr::Case { operand, when_then, else_result } => {
            let subject: Option<Value> = match operand {
                Some(e) => Some(evaluate(context, aggregated, e)?),
                None => None,
            };
            match evaluate_case(context, aggregated, subject.as_ref(), when_then, 0) {
                Some(r) => r,
                None => match else_result {
                    Some(e) => evaluate(context, aggregated, e),
                    None => Ok(Value::Null),
                },
            }
        },
    }
}

fn evaluate_in_list(
    context: Option<&FilterContext>,
    aggregated: Option<&Aggregated>,
    target: &Value,
    list: &Vec<Expr>,
    from: usize,
) -> (res: Result<Value, Error>)
    ensures
        result_view(res) == eval_in_list(
            scope_of(context, aggregated),
            target@,
            *list,
            from as int,
        ),
    decreases list, list.len() - from,
{
    if from >= list.len() {
        return Ok(Value::Bool(false));
    }
    let item = evaluate(context, aggregated, &list[from])?;
    let m = apply_binary(BinaryOperator::Eq, target, &item)?;
    if let Value::Bool(true) = m {
        return Ok(m);
    }
    let rest = evaluate_in_list(context, aggregated, target, list, from + 1)?;
    if let Value::Bool(true) = rest {
        return Ok(rest);
    }
    if m.is_null() {
        Ok(Value::Null)
    } else {
        Ok(rest)
    }
}

fn evaluate_case(
    context: Option<&FilterContext>,
    aggregated: Option<&Aggregated>,
    operand: Option<&Value>,
    when_then: &Vec<(Expr, Expr)>,
    from: usize,
) -> (res: Option<Result<Value, Error>>)
    ensures
        found_view(res) == eval_case(
            scope_of(context, aggregated),
            option_ref_view(operand),
            *when_then,
            from as int,
        ),
    decreases when_then, when_then.len() - from,
{
    if from >= when_then.len() {
        return None;
    }
    let w = match evaluate(context, aggregated, &when_then[from].0) {
        Ok(w) => w,
        Err(e) => {
            return Some(Err(e));
        },
    };
    let hit: Result<Value, Error> = match operand {
        Some(v) => apply_binary(BinaryOperator::Eq, v, &w),
        None => Ok(w),
    };
    let h = match hit {
        Ok(h) => h,
        Err(e) => {
            return Some(Err(e));
        },
    };
    match to_truth(&h) {
        Err(e) => Some(Err(e)),
        Ok(Some(true)) => Some(evaluate(context, aggregated, &when_then[from].1)),
        Ok(_) => evaluate_case(context, aggregated, operand, when_then, from + 1),
    }
}

} // verus!
