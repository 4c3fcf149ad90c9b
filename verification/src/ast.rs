//! The syntax tree of a query, as the pipeline consumes it.

use vstd::prelude::*;

verus! {

/// An operator between two operands.
#[derive(Clone, Copy, Debug, PartialEq, Eq, Structural)]
pub enum BinaryOperator {
    Plus,
    Minus,
    Multiply,
    Divide,
    Modulo,
    Gt,
    Lt,
    GtEq,
    LtEq,
    Eq,
    NotEq,
    And,
    Or,
}

/// An operator before one operand.
#[derive(Clone, Copy, Debug, PartialEq, Eq, Structural)]
pub enum UnaryOperator {
    Plus,
    Minus,
    Not,
}

/// The part of a date or time that EXTRACT asks for.
#[derive(Clone, Copy, Debug, PartialEq, Eq, Structural)]
pub enum DateTimeField {
    Year,
    Month,
    Day,
    Hour,
    Minute,
    Second,
}

/// A literal of the query text. A number is kept as its decimal numeral.
#[derive(Debug, PartialEq, Eq)]
pub enum AstLiteral {
    Boolean(bool),
    Number(String),
    QuotedString(String),
    Null,
}

/// A scalar expression.
#[derive(Debug, PartialEq, Eq)]
#[allow(inconsistent_fields)]
pub enum Expr {
    Identifier(String),
    CompoundIdentifier(Vec<String>),
    IsNull(Box<Expr>),
    IsNotNull(Box<Expr>),
    InList { expr: Box<Expr>, list: Vec<Expr>, negated: bool },
    Between { expr: Box<Expr>, negated: bool, low: Box<Expr>, high: Box<Expr> },
    BinaryOp { left: Box<Expr>, op: BinaryOperator, right: Box<Expr> },
    UnaryOp { op: UnaryOperator, expr: Box<Expr> },
    Extract { field: DateTimeField, expr: Box<Expr> },
    Nested(Box<Expr>),
    Literal(AstLiteral),
    Function(Box<Function>),
    Aggregate(Box<Aggregate>),
    Case { operand: Option<Box<Expr>>, when_then: Vec<(Expr, Expr)>, else_result: Option<Box<Expr>> },
}

/// A scalar function of the engine.
#[derive(Debug, PartialEq, Eq)]
pub enum Function {
    Abs(Expr),
    IfNull { expr: Expr, then: Expr },
}

/// What COUNT counts: the rows, or the values of an expression that are not
/// null.
#[derive(Debug, PartialEq, Eq)]
pub enum CountArgExpr {
    Expr(Expr),
    Wildcard,
}

/// An aggregate function of a column.
#[derive(Debug, PartialEq, Eq)]
pub enum Aggregate {
    Count(CountArgExpr),
    Sum(Expr),
    Max(Expr),
    Min(Expr),
}

/// The name of a table or an alias, part by part; the last part names it.
#[derive(Debug, PartialEq, Eq)]
pub struct ObjectName(pub Vec<String>);

/// One item of a projection.
#[derive(Debug, PartialEq, Eq)]
pub enum SelectItem {
    /// An expression with the label of its output column.
    Expr { expr: Expr, label: String },
    /// `alias.*`
    QualifiedWildcard(ObjectName),
    /// `*`
    Wildcard,
}

/// The name that a query gives to a relation.
#[derive(Debug, PartialEq, Eq)]
pub struct TableAlias {
    pub name: String,
}

/// A relation of a query: a table, under an alias or under its own name.
#[derive(Debug, PartialEq, Eq)]
pub enum TableFactor {
    Table { name: ObjectName, alias: Option<TableAlias> },
}

/// The condition under which two rows are joined.
#[derive(Debug, PartialEq, Eq)]
pub enum JoinConstraint {
    On(Expr),
    /// No predicate: every pair of rows matches.
    Unconstrained,
}

/// The kind of a join, with its condition.
#[derive(Debug, PartialEq, Eq)]
pub enum JoinOperator {
    Inner(JoinConstraint),
    LeftOuter(JoinConstraint),
}

/// One join clause: the relation that is joined, and how.
#[derive(Debug, PartialEq, Eq)]
pub struct Join {
    pub relation: TableFactor,
    pub join_operator: JoinOperator,
}

/// The base relation of a query and the relations joined to it, in order.
#[derive(Debug, PartialEq, Eq)]
pub struct TableWithJoins {
    pub relation: TableFactor,
    pub joins: Vec<Join>,
}

/// One key of ORDER BY.
#[derive(Debug, PartialEq, Eq)]
pub struct OrderByExpr {
    pub expr: Expr,
    /// `Some(false)` sorts descending; ascending otherwise.
    pub asc: Option<bool>,
}

/// A SELECT statement.
#[derive(Debug, PartialEq, Eq)]
pub struct Select {
    pub projection: Vec<SelectItem>,
    pub from: TableWithJoins,
    pub selection: Option<Expr>,
    pub group_by: Vec<Expr>,
    pub having: Option<Expr>,
    pub order_by: Vec<OrderByExpr>,
}

/// The tuples of a `VALUES` list.
#[derive(Debug, PartialEq, Eq)]
pub struct Values(pub Vec<Vec<Expr>>);

/// The body of a query.
#[derive(Debug, PartialEq, Eq)]
pub enum SetExpr {
    Select(Box<Select>),
    Values(Values),
}

/// A query: its body, and how many rows to skip and to take.
#[derive(Debug, PartialEq, Eq)]
pub struct Query {
    pub body: SetExpr,
    pub limit: Option<Expr>,
    pub offset: Option<Expr>,
}

impl Clone for AstLiteral {
    fn clone(&self) -> (r: Self)
        ensures
            r == *self,
    {
        match self {
            AstLiteral::Boolean(b) => AstLiteral::Boolean(*b),
            AstLiteral::Number(text) => AstLiteral::Number(text.clone()),
            AstLiteral::QuotedString(text) => AstLiteral::QuotedString(text.clone()),
            AstLiteral::Null => AstLiteral::Null,
        }
    }
}

/// Whether two expressions are the same tree: the same operators, names and
/// literals in the same places.
pub open spec fn same_expr(a: Expr, b: Expr) -> bool
    decreases a,
{
    match a {
        Expr::Identifier(name) => b == Expr::Identifier(name),
        Expr::CompoundIdentifier(parts) => {
            &&& b matches Expr::CompoundIdentifier(other)
            &&& other@ == parts@
        },
        Expr::IsNull(x) => {
            &&& b matches Expr::IsNull(y)
            &&& same_expr(*x, *y)
        },
        Expr::IsNotNull(x) => {
            &&& b matches Expr::IsNotNull(y)
            &&& same_expr(*x, *y)
        },
        Expr::InList { expr, list, negated } => {
            &&& b matches Expr::InList { expr: y, list: items, negated: n }
            &&& n == negated
            &&& same_expr(*expr, *y)
            &&& same_exprs(list, items)
        },
        Expr::Between { expr, negated, low, high } => {
            &&& b matches Expr::Between { expr: y, negated: n, low: l, high: h }
            &&& n == negated
            &&& same_expr(*expr, *y)
            &&& same_expr(*low, *l)
            &&& same_expr(*high, *h)
        },
        Expr::BinaryOp { left, op, right } => {
            &&& b matches Expr::BinaryOp { left: l, op: o, right: r }
            &&& o == op
            &&& same_expr(*left, *l)
            &&& same_expr(*right, *r)
        },
        Expr::UnaryOp { op, expr } => {
            &&& b matches Expr::UnaryOp { op: o, expr: y }
            &&& o == op
            &&& same_expr(*expr, *y)
        },
        Expr::Extract { field, expr } => {
            &&& b matches Expr::Extract { field: f, expr: y }
            &&& f == field
            &&& same_expr(*expr, *y)
        },
        Expr::Nested(x) => {
            &&& b matches Expr::Nested(y)
            &&& same_expr(*x, *y)
        },
        Expr::Literal(literal) => b == Expr::Literal(literal),
        Expr::Function(f) => {
            &&& b matches Expr::Function(g)
            &&& same_function(*f, *g)
        },
        Expr::Aggregate(f) => {
            &&& b matches Expr::Aggregate(g)
            &&& same_aggregate_tree(*f, *g)
        },
        Expr::Case { operand, when_then, else_result } => {
            &&& b matches Expr::Case { operand: o, when_then: branches, else_result: other }
            &&& same_option(operand, o)
            &&& same_branches(when_then, branches)
            &&& same_option(else_result, other)
        },
    }
}

/// Whether two lists of expressions are the same trees, one by one.
pub open spec fn same_exprs(a: Vec<Expr>, b: Vec<Expr>) -> bool
    decreases a,
{
    &&& b.len() == a.len()
    &&& forall|i: int| 0 <= i < a.len() ==> same_expr(a[i], #[trigger] b[i])
}

/// Whether the branches of two CASE expressions are the same trees.
pub open spec fn same_branches(a: Vec<(Expr, Expr)>, b: Vec<(Expr, Expr)>) -> bool
    decreases a,
{
    &&& b.len() == a.len()
    &&& forall|i: int|
        0 <= i < a.len() ==> same_expr(a[i].0, (#[trigger] b[i]).0) && same_expr(a[i].1, b[i].1)
}

/// Whether two optional expressions are the same tree, or both absent.
pub open spec fn same_option(a: Option<Box<Expr>>, b: Option<Box<Expr>>) -> bool
    decreases a,
{
    match a {
        None => b is None,
        Some(x) => {
            &&& b matches Some(y)
            &&& same_expr(*x, *y)
        },
    }
}

/// Whether two scalar functions are the same function of the same trees.
pub open spec fn same_function(a: Function, b: Function) -> bool
    decreases a,
{
    match a {
        Function::Abs(x) => {
            &&& b matches Function::Abs(y)
            &&& same_expr(x, y)
        },
        Function::IfNull { expr, then } => {
            &&& b matches Function::IfNull { expr: y, then: t }
            &&& same_expr(expr, y)
            &&& same_expr(then, t)
        },
    }
}

/// Whether two aggregate functions are the same function of the same tree.
pub open spec fn same_aggregate_tree(a: Aggregate, b: Aggregate) -> bool
    decreases a,
{
    match a {
        Aggregate::Count(arg) => {
            &&& b matches Aggregate::Count(other)
            &&& same_count_arg(arg, other)
        },
        Aggregate::Sum(x) => {
            &&& b matches Aggregate::Sum(y)
            &&& same_expr(x, y)
        },
        Aggregate::Max(x) => {
            &&& b matches Aggregate::Max(y)
            &&& same_expr(x, y)
        },
        Aggregate::Min(x) => {
            &&& b matches Aggregate::Min(y)
            &&& same_expr(x, y)
        },
    }
}

/// Whether two arguments of COUNT are the same.
pub open spec fn same_count_arg(a: CountArgExpr, b: CountArgExpr) -> bool
    decreases a,
{
    match a {
        CountArgExpr::Wildcard => b is Wildcard,
        CountArgExpr::Expr(x) => {
            &&& b matches CountArgExpr::Expr(y)
            &&& same_expr(x, y)
        },
    }
}

/// A copy of a list of names.
pub fn clone_strings(names: &Vec<String>) -> (out: Vec<String>)
    ensures
        out@ == names@,
{
    let mut out: Vec<String> = Vec::new();
    let n: usize = names.len();
    let mut i: usize = 0;
    while i < n
        invariant
            n == names@.len(),
            i <= n,
            out@ == names@.take(i as int),
        decreases n - i,
    {
        out.push(names[i].clone());
        assert(names@.take(i + 1) == names@.take(i as int).push(names@[i as int]));
        i += 1;
    }
    assert(names@.take(n as int) == names@);
    out
}

fn clone_expr(e: &Expr) -> (r: Expr)
    ensures
        same_expr(*e, r),
    decreases e,
{
    match e {
        Expr::Identifier(name) => Expr::Identifier(name.clone()),
        Expr::CompoundIdentifier(parts) => Expr::CompoundIdentifier(clone_strings(parts)),
        Expr::IsNull(x) => Expr::IsNull(Box::new(clone_expr(x))),
        Expr::IsNotNull(x) => Expr::IsNotNull(Box::new(clone_expr(x))),
        Expr::InList { expr, list, negated } => Expr::InList {
            expr: Box::new(clone_expr(expr)),
            list: clone_exprs(list),
            negated: *negated,
        },
        Expr::Between { expr, negated, low, high } => Expr::Between {
            expr: Box::new(clone_expr(expr)),
            negated: *negated,
            low: Box::new(clone_expr(low)),
            high: Box::new(clone_expr(high)),
        },
        Expr::BinaryOp { left, op, right } => Expr::BinaryOp {
            left: Box::new(clone_expr(left)),
            op: *op,
            right: Box::new(clone_expr(right)),
        },
        Expr::UnaryOp { op, expr } => Expr::UnaryOp { op: *op, expr: Box::new(clone_expr(expr)) },
        Expr::Extract { field, expr } => Expr::Extract {
            field: *field,
            expr: Box::new(clone_expr(expr)),
        },
        Expr::Nested(x) => Expr::Nested(Box::new(clone_expr(x))),
        Expr::Literal(literal) => Expr::Literal(literal.clone()),
        Expr::Function(f) => Expr::Function(Box::new(clone_function(f))),
        Expr::Aggregate(f) => Expr::Aggregate(Box::new(clone_aggregate(f))),
        Expr::Case { operand, when_then, else_result } => Expr::Case {
            operand: clone_option(operand),
            when_then: clone_branches(when_then),
            else_result: clone_option(else_result),
        },
    }
}

fn clone_option(e: &Option<Box<Expr>>) -> (r: Option<Box<Expr>>)
    ensures
        same_option(*e, r),
    decreases e,
{
    match e {
        Some(x) => Some(Box::new(clone_expr(x))),
        None => None,
    }
}

fn clone_exprs(list: &Vec<Expr>) -> (out: Vec<Expr>)
    ensures
        same_exprs(*list, out),
    decreases list, 0int,
{
    let mut out: Vec<Expr> = Vec::new();
    let n: usize = list.len();
    let mut i: usize = 0;
    while i < n
        invariant
            n == list.len(),
            i <= n,
            out@.len() == i,
            forall|j: int| 0 <= j < i ==> same_expr(list[j], #[trigger] out@[j]),
        decreases n - i,
    {
        out.push(clone_expr(&list[i]));
        i += 1;
    }
    out
}

fn clone_branches(when_then: &Vec<(Expr, Expr)>) -> (out: Vec<(Expr, Expr)>)
    ensures
        same_branches(*when_then, out),
    decreases when_then, 0int,
{
    let mut out: Vec<(Expr, Expr)> = Vec::new();
    let n: usize = when_then.len();
    let mut i: usize = 0;
    while i < n
        invariant
            n == when_then.len(),
            i <= n,
            out@.len() == i,
            forall|j: int|
                0 <= j < i ==> same_expr(when_then[j].0, (#[trigger] out@[j]).0) && same_expr(
                    when_then[j].1,
                    out@[j].1,
                ),
        decreases n - i,
    {
        let when = clone_expr(&when_then[i].0);
        let then = clone_expr(&when_then[i].1);
        out.push((when, then));
        i += 1;
    }
    out
}

fn clone_function(f: &Function) -> (r: Function)
    ensures
        same_function(*f, r),
    decreases f,
{
    match f {
        Function::Abs(x) => Function::Abs(clone_expr(x)),
        Function::IfNull { expr, then } => Function::IfNull {
            expr: clone_expr(expr),
            then: clone_expr(then),
        },
    }
}

fn clone_aggregate(f: &Aggregate) -> (r: Aggregate)
    ensures
        same_aggregate_tree(*f, r),
    decreases f,
{
    match f {
        Aggregate::Count(arg) => Aggregate::Count(clone_count_arg(arg)),
        Aggregate::Sum(x) => Aggregate::Sum(clone_expr(x)),
        Aggregate::Max(x) => Aggregate::Max(clone_expr(x)),
        Aggregate::Min(x) => Aggregate::Min(clone_expr(x)),
    }
}

fn clone_count_arg(arg: &CountArgExpr) -> (r: CountArgExpr)
    ensures
        same_count_arg(*arg, r),
    decreases arg,
{
    match arg {
        CountArgExpr::Wildcard => CountArgExpr::Wildcard,
        CountArgExpr::Expr(x) => CountArgExpr::Expr(clone_expr(x)),
    }
}

impl Clone for Expr {
    /// A copy of the tree.
    fn clone(&self) -> (r: Self)
        ensures
            same_expr(*self, r),
    {
        clone_expr(self)
    }
}

impl Clone for Function {
    /// A copy of the function and its trees.
    fn clone(&self) -> (r: Self)
        ensures
            same_function(*self, r),
    {
        clone_function(self)
    }
}

impl Clone for Aggregate {
    /// A copy of the aggregate function and its tree.
    fn clone(&self) -> (r: Self)
        ensures
            same_aggregate_tree(*self, r),
    {
        clone_aggregate(self)
    }
}

impl Clone for CountArgExpr {
    /// A copy of the argument.
    fn clone(&self) -> (r: Self)
        ensures
            same_count_arg(*self, r),
    {
        clone_count_arg(self)
    }
}

} // verus!
