//! A fluent way to write expressions: nodes that are built by function calls
//! and lowered to the syntax tree.

use vstd::prelude::*;
use vstd::std_specs::convert::FromSpecImpl;
use bigdecimal::BigDecimal;
use crate::ast::{
    clone_strings, same_expr, Aggregate, AstLiteral, BinaryOperator, CountArgExpr, DateTimeField,
    Expr, Function, UnaryOperator,
};
use crate::context::names_view;
use crate::error::Error;
use crate::numeral::int_numeral;
use crate::text::{split, split_on};

verus! {

/// An expression under construction.
#[derive(Debug, PartialEq, Eq)]
#[allow(inconsistent_fields)]
pub enum ExprNode {
    Expr(Expr),
    SqlExpr(String),
    Identifier(String),
    CompoundIdentifier(Vec<String>),
    Between { expr: Box<ExprNode>, negated: bool, low: Box<ExprNode>, high: Box<ExprNode> },
    BinaryOp { left: Box<ExprNode>, op: BinaryOperator, right: Box<ExprNode> },
    UnaryOp { op: UnaryOperator, expr: Box<ExprNode> },
    Extract { field: DateTimeField, expr: Box<ExprNode> },
    IsNull(Box<ExprNode>),
    IsNotNull(Box<ExprNode>),
    InList { expr: Box<ExprNode>, list: Vec<ExprNode>, negated: bool },
    Case {
        operand: Option<Box<ExprNode>>,
        when_then: Vec<(ExprNode, ExprNode)>,
        else_result: Option<Box<ExprNode>>,
    },
    Nested(Box<ExprNode>),
    Function(Box<FunctionNode>),
    Aggregate(Box<AggregateNode>),
}

/// A scalar function under construction.
#[derive(Debug, PartialEq, Eq)]
pub enum FunctionNode {
    Abs(ExprNode),
    IfNull { expr: ExprNode, then: ExprNode },
}

/// The argument of COUNT under construction.
#[derive(Debug, PartialEq, Eq)]
pub enum CountArgExprNode {
    Expr(ExprNode),
    Wildcard,
}

/// An aggregate function under construction.
#[derive(Debug, PartialEq, Eq)]
pub enum AggregateNode {
    Count(CountArgExprNode),
    Sum(ExprNode),
    Max(ExprNode),
    Min(ExprNode),
}

/// The SQL texts of a node, in the order of writing.
pub open spec fn sql_texts(node: ExprNode) -> Seq<String>
    decreases node,
{
    match node {
        ExprNode::Expr(_) => Seq::empty(),
        ExprNode::SqlExpr(text) => seq![text],
        ExprNode::Identifier(_) => Seq::empty(),
        ExprNode::CompoundIdentifier(_) => Seq::empty(),
        ExprNode::Between { expr, negated, low, high } => sql_texts(*expr) + sql_texts(*low)
            + sql_texts(*high),
        ExprNode::BinaryOp { left, op, right } => sql_texts(*left) + sql_texts(*right),
        ExprNode::UnaryOp { op, expr } => sql_texts(*expr),
        ExprNode::Extract { field, expr } => sql_texts(*expr),
        ExprNode::IsNull(expr) => sql_texts(*expr),
        ExprNode::IsNotNull(expr) => sql_texts(*expr),
        ExprNode::InList { expr, list, negated } => sql_texts(*expr) + sql_texts_list(
            list,
            list.len() as int,
        ),
        ExprNode::Case { operand, when_then, else_result } => sql_texts_option(operand)
            + sql_texts_branches(when_then, when_then.len() as int) + sql_texts_option(
            else_result,
        ),
        ExprNode::Nested(expr) => sql_texts(*expr),
        ExprNode::Function(f) => match *f {
            FunctionNode::Abs(expr) => sql_texts(expr),
            FunctionNode::IfNull { expr, then } => sql_texts(expr) + sql_texts(then),
        },
        ExprNode::Aggregate(a) => match *a {
            AggregateNode::Count(CountArgExprNode::Wildcard) => Seq::empty(),
            AggregateNode::Count(CountArgExprNode::Expr(expr)) => sql_texts(expr),
            AggregateNode::Sum(expr) => sql_texts(expr),
            AggregateNode::Max(expr) => sql_texts(expr),
            AggregateNode::Min(expr) => sql_texts(expr),
        },
    }
}

/// The SQL texts of an optional node.
pub open spec fn sql_texts_option(node: Option<Box<ExprNode>>) -> Seq<String>
    decreases node,
{
    match node {
        Some(n) => sql_texts(*n),
        None => Seq::empty(),
    }
}

/// The SQL texts of the first `n` nodes of a list.
pub open spec fn sql_texts_list(list: Vec<ExprNode>, n: int) -> Seq<String>
    decreases list, n,
{
    if n <= 0 || n > list.len() {
        Seq::empty()
    } else {
        sql_texts_list(list, n - 1) + sql_texts(list[n - 1])
    }
}

/// The SQL texts of the first `n` branches of a CASE.
pub open spec fn sql_texts_branches(when_then: Vec<(ExprNode, ExprNode)>, n: int) -> Seq<String>
    decreases when_then, n,
{
    if n <= 0 || n > when_then.len() {
        Seq::empty()
    } else {
        sql_texts_branches(when_then, n - 1) + sql_texts(when_then[n - 1].0) + sql_texts(
            when_then[n - 1].1,
        )
    }
}

/// Whether `e` is the expression that `node` stands for, where the SQL
/// texts of the node have been read and `parsed` holds, from index `at` on,
/// what each of them was read as: the same tree node for node, with the
/// expression of each SQL text in the place of its node.
pub open spec fn lowers_at(node: ExprNode, parsed: Seq<Result<Expr, Error>>, at: int, e: Expr) -> bool
    decreases node,
{
    match node {
        ExprNode::Expr(x) => e == x,
        ExprNode::SqlExpr(_) => 0 <= at < parsed.len() && parsed[at] == Ok::<Expr, Error>(e),
        ExprNode::Identifier(name) => e == Expr::Identifier(name),
        ExprNode::CompoundIdentifier(parts) => e == Expr::CompoundIdentifier(parts),
        ExprNode::Between { expr, negated, low, high } => {
            &&& e matches Expr::Between { expr: x, negated: n, low: l, high: h }
            &&& n == negated
            &&& lowers_at(*expr, parsed, at, *x)
            &&& lowers_at(*low, parsed, at + sql_texts(*expr).len(), *l)
            &&& lowers_at(*high, parsed, at + sql_texts(*expr).len() + sql_texts(*low).len(), *h)
        },
        ExprNode::BinaryOp { left, op, right } => {
            &&& e matches Expr::BinaryOp { left: l, op: o, right: r }
            &&& o == op
            &&& lowers_at(*left, parsed, at, *l)
            &&& lowers_at(*right, parsed, at + sql_texts(*left).len(), *r)
        },
        ExprNode::UnaryOp { op, expr } => {
            &&& e matches Expr::UnaryOp { op: o, expr: x }
            &&& o == op
            &&& lowers_at(*expr, parsed, at, *x)
        },
        ExprNode::Extract { field, expr } => {
            &&& e matches Expr::Extract { field: f, expr: x }
            &&& f == field
            &&& lowers_at(*expr, parsed, at, *x)
        },
        ExprNode::IsNull(expr) => {
            &&& e matches Expr::IsNull(x)
            &&& lowers_at(*expr, parsed, at, *x)
        },
        ExprNode::IsNotNull(expr) => {
            &&& e matches Expr::IsNotNull(x)
            &&& lowers_at(*expr, parsed, at, *x)
        },
        ExprNode::InList { expr, list, negated } => {
            &&& e matches Expr::InList { expr: x, list: items, negated: n }
            &&& n == negated
            &&& lowers_at(*expr, parsed, at, *x)
            &&& list_lowers_at(list, parsed, at + sql_texts(*expr).len(), items)
        },
        ExprNode::Case { operand, when_then, else_result } => {
            &&& e matches Expr::Case { operand: o, when_then: branches, else_result: other }
            &&& option_lowers_at(operand, parsed, at, o)
            &&& branches_lower_at(
                when_then,
                parsed,
                at + sql_texts_option(operand).len(),
                branches,
            )
            &&& option_lowers_at(
                else_result,
                parsed,
                at + sql_texts_option(operand).len() + sql_texts_branches(
                    when_then,
                    when_then.len() as int,
                ).len(),
                other,
            )
        },
        ExprNode::Nested(expr) => {
            &&& e matches Expr::Nested(x)
            &&& lowers_at(*expr, parsed, at, *x)
        },
        ExprNode::Function(f) => {
            &&& e matches Expr::Function(g)
            &&& match *f {
                FunctionNode::Abs(expr) => {
                    &&& *g matches Function::Abs(x)
                    &&& lowers_at(expr, parsed, at, x)
                },
                FunctionNode::IfNull { expr, then } => {
                    &&& *g matches Function::IfNull { expr: x, then: t }
                    &&& lowers_at(expr, parsed, at, x)
                    &&& lowers_at(then, parsed, at + sql_texts(expr).len(), t)
                },
            }
        },
        ExprNode::Aggregate(a) => {
            &&& e matches Expr::Aggregate(g)
            &&& match *a {
                AggregateNode::Count(CountArgExprNode::Wildcard) => *g == Aggregate::Count(
                    CountArgExpr::Wildcard,
                ),
                AggregateNode::Count(CountArgExprNode::Expr(expr)) => {
                    &&& *g matches Aggregate::Count(CountArgExpr::Expr(x))
                    &&& lowers_at(expr, parsed, at, x)
                },
                AggregateNode::Sum(expr) => {
                    &&& *g matches Aggregate::Sum(x)
                    &&& lowers_at(expr, parsed, at, x)
                },
                AggregateNode::Max(expr) => {
                    &&& *g matches Aggregate::Max(x)
                    &&& lowers_at(expr, parsed, at, x)
                },
                AggregateNode::Min(expr) => {
                    &&& *g matches Aggregate::Min(x)
                    &&& lowers_at(expr, parsed, at, x)
                },
            }
        },
    }
}

/// Whether an optional expression is what an optional node stands for.
pub open spec fn option_lowers_at(
    node: Option<Box<ExprNode>>,
    parsed: Seq<Result<Expr, Error>>,
    at: int,
    e: Option<Box<Expr>>,
) -> bool
    decreases node,
{
    match node {
        None => e is None,
        Some(n) => {
            &&& e matches Some(x)
            &&& lowers_at(*n, parsed, at, *x)
        },
    }
}

/// Whether a list of expressions is what a list of nodes stands for, node
/// by node; the SQL texts of a node follow those of the nodes before it.
pub open spec fn list_lowers_at(
    list: Vec<ExprNode>,
    parsed: Seq<Result<Expr, Error>>,
    at: int,
    items: Vec<Expr>,
) -> bool
    decreases list,
{
    &&& items.len() == list.len()
    &&& forall|i: int|
        0 <= i < list.len() ==> lowers_at(
            list[i],
            parsed,
            at + sql_texts_list(list, i).len(),
            #[trigger] items[i],
        )
}

/// Whether the branches of a CASE are what the pairs of nodes stand for.
pub open spec fn branches_lower_at(
    when_then: Vec<(ExprNode, ExprNode)>,
    parsed: Seq<Result<Expr, Error>>,
    at: int,
    branches: Vec<(Expr, Expr)>,
) -> bool
    decreases when_then,
{
    &&& branches.len() == when_then.len()
    &&& forall|i: int|
        0 <= i < when_then.len() ==> lowers_at(
            when_then[i].0,
            parsed,
            at + sql_texts_branches(when_then, i).len(),
            (#[trigger] branches[i]).0,
        ) && lowers_at(
            when_then[i].1,
            parsed,
            at + sql_texts_branches(when_then, i).len() + sql_texts(when_then[i].0).len(),
            branches[i].1,
        )
}

/// The index of the first error among what the SQL texts were read as, from
/// index `from` on; the number of the texts where there is none.
pub open spec fn first_err(parsed: Seq<Result<Expr, Error>>, from: int) -> int
    decreases parsed.len() - from,
{
    if from < 0 || from >= parsed.len() {
        parsed.len() as int
    } else if parsed[from] is Err {
        from
    } else {
        first_err(parsed, from + 1)
    }
}

/// What the lowering of a node gives, where `parsed` holds what each SQL
/// text of the node was read as, in the order of writing: the expression
/// that the node stands for where every text was read, else the error of
/// the first text that was not.
pub open spec fn lowering_with(
    node: ExprNode,
    parsed: Seq<Result<Expr, Error>>,
    r: Result<Expr, Error>,
) -> bool {
    match r {
        Ok(e) => first_err(parsed, 0) == parsed.len() && lowers_at(node, parsed, 0, e),
        Err(err) => 0 <= first_err(parsed, 0) < parsed.len() && parsed[first_err(parsed, 0)]
            == Err::<Expr, Error>(err),
    }
}

/// The first error lies at or behind the index from which it is looked for,
/// and where there is none before an index, it is the first from there on.
pub proof fn lemma_first_err(parsed: Seq<Result<Expr, Error>>, from: int, k: int)
    requires
        0 <= from <= k <= parsed.len(),
    ensures
        from <= first_err(parsed, from) <= parsed.len(),
        first_err(parsed, from) < parsed.len() ==> parsed[first_err(parsed, from)] is Err,
        first_err(parsed, from) >= k ==> first_err(parsed, from) == first_err(parsed, k),
    decreases parsed.len() - from,
{
    if from < parsed.len() && !(parsed[from] is Err) {
        if from < k {
            lemma_first_err(parsed, from + 1, k);
        } else {
            lemma_first_err(parsed, from + 1, from + 1);
        }
    }
}

/// The first nodes of a list hold no more SQL texts than more of them.
pub proof fn lemma_sql_texts_list_grows(list: Vec<ExprNode>, i: int, n: int)
    requires
        0 <= i <= n <= list.len(),
    ensures
        sql_texts_list(list, i).len() <= sql_texts_list(list, n).len(),
    decreases n - i,
{
    if i < n {
        lemma_sql_texts_list_grows(list, i, n - 1);
    }
}

/// The first branches of a CASE hold no more SQL texts than more of them.
pub proof fn lemma_sql_texts_branches_grow(when_then: Vec<(ExprNode, ExprNode)>, i: int, n: int)
    requires
        0 <= i <= n <= when_then.len(),
    ensures
        sql_texts_branches(when_then, i).len() <= sql_texts_branches(when_then, n).len(),
    decreases n - i,
{
    if i < n {
        lemma_sql_texts_branches_grow(when_then, i, n - 1);
    }
}

/// Appends the SQL texts of a node to `out`.
fn push_sql_texts(node: &ExprNode, out: &mut Vec<String>)
    ensures
        final(out)@ == old(out)@ + sql_texts(*node),
    decreases node,
{
    let ghost start = out@;
    match node {
        ExprNode::Expr(_) | ExprNode::Identifier(_) | ExprNode::CompoundIdentifier(_) => {
            assert(start + Seq::<String>::empty() =~= start);
        },
        ExprNode::SqlExpr(text) => {
            out.push(text.clone());
            assert(start.push(*text) =~= start + seq![*text]);
        },
        ExprNode::Between { expr, negated, low, high } => {
            push_sql_texts(expr, out);
            push_sql_texts(low, out);
            push_sql_texts(high, out);
            assert(start + sql_texts(**expr) + sql_texts(**low) + sql_texts(**high) =~= start + (
            sql_texts(**expr) + sql_texts(**low) + sql_texts(**high)));
        },
        ExprNode::BinaryOp { left, op, right } => {
            push_sql_texts(left, out);
            push_sql_texts(right, out);
            assert(start + sql_texts(**left) + sql_texts(**right) =~= start + (sql_texts(**left)
                + sql_texts(**right)));
        },
        ExprNode::UnaryOp { op, expr } => push_sql_texts(expr, out),
        ExprNode::Extract { field, expr } => push_sql_texts(expr, out),
        ExprNode::IsNull(expr) => push_sql_texts(expr, out),
        ExprNode::IsNotNull(expr) => push_sql_texts(expr, out),
        ExprNode::Nested(expr) => push_sql_texts(expr, out),
        ExprNode::InList { expr, list, negated } => {
            push_sql_texts(expr, out);
            push_sql_texts_list(list, out);
            let ghost n = list.len();
            assert(start + sql_texts(**expr) + sql_texts_list(*list, n as int) =~= start + (
            sql_texts(**expr) + sql_texts_list(*list, n as int)));
        },
        ExprNode::Case { operand, when_then, else_result } => {
            match operand {
                Some(o) => push_sql_texts(o, out),
                None => {
                    assert(start + Seq::<String>::empty() =~= start);
                },
            }
            push_sql_texts_branches(when_then, out);
            let ghost n = when_then.len();
            let ghost late = out@;
            match else_result {
                Some(o) => push_sql_texts(o, out),
                None => {
                    assert(late + Seq::<String>::empty() =~= late);
                },
            }
            assert(start + sql_texts_option(*operand) + sql_texts_branches(*when_then, n as int)
                + sql_texts_option(*else_result) =~= start + (sql_texts_option(*operand)
                + sql_texts_branches(*when_then, n as int) + sql_texts_option(*else_result)));
        },
        ExprNode::Function(f) => match &**f {
            FunctionNode::Abs(expr) => push_sql_texts(expr, out),
            FunctionNode::IfNull { expr, then } => {
                push_sql_texts(expr, out);
                push_sql_texts(then, out);
                assert(start + sql_texts(*expr) + sql_texts(*then) =~= start + (sql_texts(*expr)
                    + sql_texts(*then)));
            },
        },
        ExprNode::Aggregate(a) => match &**a {
            AggregateNode::Count(CountArgExprNode::Wildcard) => {
                assert(start + Seq::<String>::empty() =~= start);
            },
            AggregateNode::Count(CountArgExprNode::Expr(expr)) => push_sql_texts(expr, out),
            AggregateNode::Sum(expr) => push_sql_texts(expr, out),
            AggregateNode::Max(expr) => push_sql_texts(expr, out),
            AggregateNode::Min(expr) => push_sql_texts(expr, out),
        },
    }
}

fn push_sql_texts_list(list: &Vec<ExprNode>, out: &mut Vec<String>)
    ensures
        final(out)@ == old(out)@ + sql_texts_list(*list, list.len() as int),
    decreases list, 0int,
{
    let ghost start = out@;
    let n: usize = list.len();
    let mut i: usize = 0;
    assert(start + sql_texts_list(*list, 0) =~= start);
    while i < n
        invariant
            n == list.len(),
            i <= n,
            out@ == start + sql_texts_list(*list, i as int),
        decreases n - i,
    {
        push_sql_texts(&list[i], out);
        assert(start + sql_texts_list(*list, i as int) + sql_texts(list[i as int]) =~= start
            + sql_texts_list(*list, i + 1));
        i += 1;
    }
}

fn push_sql_texts_branches(when_then: &Vec<(ExprNode, ExprNode)>, out: &mut Vec<String>)
    ensures
        final(out)@ == old(out)@ + sql_texts_branches(*when_then, when_then.len() as int),
    decreases when_then, 0int,
{
    let ghost start = out@;
    let n: usize = when_then.len();
    let mut i: usize = 0;
    assert(start + sql_texts_branches(*when_then, 0) =~= start);
    while i < n
        invariant
            n == when_then.len(),
            i <= n,
            out@ == start + sql_texts_branches(*when_then, i as int),
        decreases n - i,
    {
        push_sql_texts(&when_then[i].0, out);
        push_sql_texts(&when_then[i].1, out);
        assert(start + sql_texts_branches(*when_then, i as int) + sql_texts(
            when_then[i as int].0,
        ) + sql_texts(when_then[i as int].1) =~= start + sql_texts_branches(*when_then, i + 1));
        i += 1;
    }
}

/// The SQL texts of a node, in the order of writing: what has to be read
/// before the node can be lowered.
pub fn sql_texts_of(node: &ExprNode) -> (r: Vec<String>)
    ensures
        r@ == sql_texts(*node),
{
    let mut out: Vec<String> = Vec::new();
    push_sql_texts(node, &mut out);
    assert(Seq::<String>::empty() + sql_texts(*node) =~= sql_texts(*node));
    out
}

/// Whether `rest` holds, the last first, what of `parsed` lies at index `at`
/// and behind it.
pub open spec fn stack_of(
    rest: Seq<Result<Expr, Error>>,
    parsed: Seq<Result<Expr, Error>>,
    at: int,
) -> bool {
    &&& 0 <= at <= parsed.len()
    &&& rest.len() == parsed.len() - at
    &&& forall|j: int| 0 <= j < rest.len() ==> #[trigger] rest[j] == parsed[parsed.len() - 1 - j]
}

/// What the lowering of a part of a tree gives, whose SQL texts begin at
/// index `at` of `parsed` and are `count` in number.
pub open spec fn lowered_part(
    parsed: Seq<Result<Expr, Error>>,
    at: int,
    count: int,
    ok: bool,
    err: Error,
    rest: Seq<Result<Expr, Error>>,
) -> bool {
    if ok {
        stack_of(rest, parsed, at + count) && first_err(parsed, at) >= at + count
    } else {
        at <= first_err(parsed, at) < at + count && parsed[first_err(parsed, at)] == Err::<
            Expr,
            Error,
        >(err)
    }
}

fn lower_option(
    node: Option<Box<ExprNode>>,
    rest: &mut Vec<Result<Expr, Error>>,
    Ghost(parsed): Ghost<Seq<Result<Expr, Error>>>,
    Ghost(at): Ghost<int>,
) -> (r: Result<Option<Box<Expr>>, Error>)
    requires
        stack_of(old(rest)@, parsed, at),
        at + sql_texts_option(node).len() <= parsed.len(),
    ensures
        match r {
            Ok(e) => lowered_part(
                parsed,
                at,
                sql_texts_option(node).len() as int,
                true,
                arbitrary(),
                final(rest)@,
            ) && option_lowers_at(node, parsed, at, e),
            Err(err) => lowered_part(
                parsed,
                at,
                sql_texts_option(node).len() as int,
                false,
                err,
                final(rest)@,
            ),
        },
    decreases node,
{
    proof {
        lemma_first_err(parsed, at, at);
    }
    match node {
        None => Ok(None),
        Some(n) => {
            let x = lower_from(*n, rest, Ghost(parsed), Ghost(at))?;
            Ok(Some(Box::new(x)))
        },
    }
}

fn lower_list(
    list: Vec<ExprNode>,
    rest: &mut Vec<Result<Expr, Error>>,
    Ghost(parsed): Ghost<Seq<Result<Expr, Error>>>,
    Ghost(at): Ghost<int>,
) -> (r: Result<Vec<Expr>, Error>)
    requires
        stack_of(old(rest)@, parsed, at),
        at + sql_texts_list(list, list.len() as int).len() <= parsed.len(),
    ensures
        match r {
            Ok(items) => lowered_part(
                parsed,
                at,
                sql_texts_list(list, list.len() as int).len() as int,
                true,
                arbitrary(),
                final(rest)@,
            ) && list_lowers_at(list, parsed, at, items),
            Err(err) => lowered_part(
                parsed,
                at,
                sql_texts_list(list, list.len() as int).len() as int,
                false,
                err,
                final(rest)@,
            ),
        },
    decreases list, 0int,
{
    let ghost nodes = list;
    let ghost total = sql_texts_list(nodes, nodes.len() as int).len() as int;
    let mut out: Vec<Expr> = Vec::new();
    proof {
        lemma_first_err(parsed, at, at);
    }
    for node in it: list.into_iter()
        invariant
            it.seq() == nodes@,
            nodes == list,
            total == sql_texts_list(nodes, nodes.len() as int).len(),
            at + total <= parsed.len(),
            0 <= at,
            out@.len() == it.index(),
            stack_of(rest@, parsed, at + sql_texts_list(nodes, it.index() as int).len()),
            first_err(parsed, at) >= at + sql_texts_list(nodes, it.index() as int).len(),
            forall|i: int|
                0 <= i < it.index() ==> lowers_at(
                    nodes[i],
                    parsed,
                    at + sql_texts_list(nodes, i).len(),
                    #[trigger] out@[i],
                ),
    {
        let ghost i = it.index() as int;
        let ghost here = at + sql_texts_list(nodes, i).len();
        assert(0 <= i < nodes@.len());
        assert(node == nodes[i]);
        proof {
            lemma_sql_texts_list_grows(nodes, i + 1, nodes.len() as int);
            lemma_first_err(parsed, at, here);
            lemma_first_err(parsed, here, here + sql_texts(nodes[i]).len());
        }
        match lower_from(node, rest, Ghost(parsed), Ghost(here)) {
            Ok(e) => out.push(e),
            Err(e) => {
                return Err(e);
            },
        }
    }
    Ok(out)
}

fn lower_branches(
    when_then: Vec<(ExprNode, ExprNode)>,
    rest: &mut Vec<Result<Expr, Error>>,
    Ghost(parsed): Ghost<Seq<Result<Expr, Error>>>,
    Ghost(at): Ghost<int>,
) -> (r: Result<Vec<(Expr, Expr)>, Error>)
    requires
        stack_of(old(rest)@, parsed, at),
        at + sql_texts_branches(when_then, when_then.len() as int).len() <= parsed.len(),
    ensures
        match r {
            Ok(branches) => lowered_part(
                parsed,
                at,
                sql_texts_branches(when_then, when_then.len() as int).len() as int,
                true,
                arbitrary(),
                final(rest)@,
            ) && branches_lower_at(when_then, parsed, at, branches),
            Err(err) => lowered_part(
                parsed,
                at,
                sql_texts_branches(when_then, when_then.len() as int).len() as int,
                false,
                err,
                final(rest)@,
            ),
        },
    decreases when_then, 0int,
{
    let ghost nodes = when_then;
    let ghost total = sql_texts_branches(nodes, nodes.len() as int).len() as int;
    let mut out: Vec<(Expr, Expr)> = Vec::new();
    proof {
        lemma_first_err(parsed, at, at);
    }
    for pair in it: when_then.into_iter()
        invariant
            it.seq() == nodes@,
            nodes == when_then,
            total == sql_texts_branches(nodes, nodes.len() as int).len(),
            at + total <= parsed.len(),
            0 <= at,
            out@.len() == it.index(),
            stack_of(rest@, parsed, at + sql_texts_branches(nodes, it.index() as int).len()),
            first_err(parsed, at) >= at + sql_texts_branches(nodes, it.index() as int).len(),
            forall|i: int|
                0 <= i < it.index() ==> lowers_at(
                    nodes[i].0,
                    parsed,
                    at + sql_texts_branches(nodes, i).len(),
                    (#[trigger] out@[i]).0,
                ) && lowers_at(
                    nodes[i].1,
                    parsed,
                    at + sql_texts_branches(nodes, i).len() + sql_texts(nodes[i].0).len(),
                    out@[i].1,
                ),
    {
        let ghost i = it.index() as int;
        let ghost here = at + sql_texts_branches(nodes, i).len();
        assert(0 <= i < nodes@.len());
        assert(pair == nodes[i]);
        let ghost middle = here + sql_texts(nodes[i].0).len();
        proof {
            lemma_sql_texts_branches_grow(nodes, i + 1, nodes.len() as int);
            lemma_first_err(parsed, at, here);
            lemma_first_err(parsed, here, middle);
            lemma_first_err(parsed, middle, middle + sql_texts(nodes[i].1).len());
        }
        let (when, then) = pair;
        let w = match lower_from(when, rest, Ghost(parsed), Ghost(here)) {
            Ok(e) => e,
            Err(e) => {
                return Err(e);
            },
        };
        let t = match lower_from(then, rest, Ghost(parsed), Ghost(middle)) {
            Ok(e) => e,
            Err(e) => {
                return Err(e);
            },
        };
        out.push((w, t));
    }
    Ok(out)
}

/// Lowers a part of a tree, taking from `rest` what its SQL texts were read
/// as.
fn lower_from(
    node: ExprNode,
    rest: &mut Vec<Result<Expr, Error>>,
    Ghost(parsed): Ghost<Seq<Result<Expr, Error>>>,
    Ghost(at): Ghost<int>,
) -> (r: Result<Expr, Error>)
    requires
        stack_of(old(rest)@, parsed, at),
        at + sql_texts(node).len() <= parsed.len(),
    ensures
        match r {
            Ok(e) => lowered_part(
                parsed,
                at,
                sql_texts(node).len() as int,
                true,
                arbitrary(),
                final(rest)@,
            ) && lowers_at(node, parsed, at, e),
            Err(err) => lowered_part(
                parsed,
                at,
                sql_texts(node).len() as int,
                false,
                err,
                final(rest)@,
            ),
        },
    decreases node,
{
    proof {
        lemma_first_err(parsed, at, at);
    }
    match node {
        ExprNode::Expr(e) => Ok(e),
        ExprNode::SqlExpr(text) => {
            proof {
                lemma_first_err(parsed, at + 1, at + 1);
            }
            let read = rest.pop();
            read.unwrap()
        },
        ExprNode::Identifier(name) => Ok(Expr::Identifier(name)),
        ExprNode::CompoundIdentifier(parts) => Ok(Expr::CompoundIdentifier(parts)),
        ExprNode::Between { expr, negated, low, high } => {
            let ghost a = at + sql_texts(*expr).len();
            let ghost b = a + sql_texts(*low).len();
            proof {
                lemma_first_err(parsed, at, a);
                lemma_first_err(parsed, a, b);
                lemma_first_err(parsed, b, b + sql_texts(*high).len());
            }
            let x = lower_from(*expr, rest, Ghost(parsed), Ghost(at))?;
            let l = lower_from(*low, rest, Ghost(parsed), Ghost(a))?;
            let h = lower_from(*high, rest, Ghost(parsed), Ghost(b))?;
            Ok(Expr::Between { expr: Box::new(x), negated, low: Box::new(l), high: Box::new(h) })
        },
        ExprNode::BinaryOp { left, op, right } => {
            let ghost a = at + sql_texts(*left).len();
            proof {
                lemma_first_err(parsed, at, a);
                lemma_first_err(parsed, a, a + sql_texts(*right).len());
            }
            let l = lower_from(*left, rest, Ghost(parsed), Ghost(at))?;
            let r = lower_from(*right, rest, Ghost(parsed), Ghost(a))?;
            Ok(Expr::BinaryOp { left: Box::new(l), op, right: Box::new(r) })
        },
        ExprNode::UnaryOp { op, expr } => {
            let x = lower_from(*expr, rest, Ghost(parsed), Ghost(at))?;
            Ok(Expr::UnaryOp { op, expr: Box::new(x) })
        },
        ExprNode::Extract { field, expr } => {
            let x = lower_from(*expr, rest, Ghost(parsed), Ghost(at))?;
            Ok(Expr::Extract { field, expr: Box::new(x) })
        },
        ExprNode::IsNull(expr) => {
            let x = lower_from(*expr, rest, Ghost(parsed), Ghost(at))?;
            Ok(Expr::IsNull(Box::new(x)))
        },
        ExprNode::IsNotNull(expr) => {
            let x = lower_from(*expr, rest, Ghost(parsed), Ghost(at))?;
            Ok(Expr::IsNotNull(Box::new(x)))
        },
        ExprNode::InList { expr, list, negated } => {
            let ghost a = at + sql_texts(*expr).len();
            proof {
                lemma_first_err(parsed, at, a);
                lemma_first_err(parsed, a, a + sql_texts_list(list, list.len() as int).len());
            }
            let x = lower_from(*expr, rest, Ghost(parsed), Ghost(at))?;
            let items = lower_list(list, rest, Ghost(parsed), Ghost(a))?;
            Ok(Expr::InList { expr: Box::new(x), list: items, negated })
        },
        ExprNode::Case { operand, when_then, else_result } => {
            let ghost a = at + sql_texts_option(operand).len();
            let ghost b = a + sql_texts_branches(when_then, when_then.len() as int).len();
            proof {
                lemma_first_err(parsed, at, a);
                lemma_first_err(parsed, a, b);
                lemma_first_err(parsed, b, b + sql_texts_option(else_result).len());
            }
            let o = lower_option(operand, rest, Ghost(parsed), Ghost(at))?;
            let branches = lower_branches(when_then, rest, Ghost(parsed), Ghost(a))?;
            let other = lower_option(else_result, rest, Ghost(parsed), Ghost(b))?;
            Ok(Expr::Case { operand: o, when_then: branches, else_result: other })
        },
        ExprNode::Nested(expr) => {
            let x = lower_from(*expr, rest, Ghost(parsed), Ghost(at))?;
            Ok(Expr::Nested(Box::new(x)))
        },
        ExprNode::Function(f) => match *f {
            FunctionNode::Abs(expr) => {
                let x = lower_from(expr, rest, Ghost(parsed), Ghost(at))?;
                Ok(Expr::Function(Box::new(Function::Abs(x))))
            },
            FunctionNode::IfNull { expr, then } => {
                let ghost a = at + sql_texts(expr).len();
                proof {
                    lemma_first_err(parsed, at, a);
                    lemma_first_err(parsed, a, a + sql_texts(then).len());
                }
                let x = lower_from(expr, rest, Ghost(parsed), Ghost(at))?;
                let t = lower_from(then, rest, Ghost(parsed), Ghost(a))?;
                Ok(Expr::Function(Box::new(Function::IfNull { expr: x, then: t })))
            },
        },
        ExprNode::Aggregate(a) => match *a {
            AggregateNode::Count(CountArgExprNode::Wildcard) => Ok(
                Expr::Aggregate(Box::new(Aggregate::Count(CountArgExpr::Wildcard))),
            ),
            AggregateNode::Count(CountArgExprNode::Expr(expr)) => {
                let x = lower_from(expr, rest, Ghost(parsed), Ghost(at))?;
                Ok(Expr::Aggregate(Box::new(Aggregate::Count(CountArgExpr::Expr(x)))))
            },
            AggregateNode::Sum(expr) => {
                let x = lower_from(expr, rest, Ghost(parsed), Ghost(at))?;
                Ok(Expr::Aggregate(Box::new(Aggregate::Sum(x))))
            },
            AggregateNode::Max(expr) => {
                let x = lower_from(expr, rest, Ghost(parsed), Ghost(at))?;
                Ok(Expr::Aggregate(Box::new(Aggregate::Max(x))))
            },
            AggregateNode::Min(expr) => {
                let x = lower_from(expr, rest, Ghost(parsed), Ghost(at))?;
                Ok(Expr::Aggregate(Box::new(Aggregate::Min(x))))
            },
        },
    }
}

/// Lowers a node to the expression that it stands for. Reading SQL text is
/// not this library's part: `parsed` holds, for each SQL text of the node
/// in the order of `sql_texts_of`, what it was read as.
pub fn lower_with(node: ExprNode, parsed: Vec<Result<Expr, Error>>) -> (r: Result<Expr, Error>)
    requires
        parsed@.len() == sql_texts(node).len(),
    ensures
        lowering_with(node, parsed@, r),
{
    let ghost all = parsed@;
    let mut parsed = parsed;
    let mut rest: Vec<Result<Expr, Error>> = Vec::new();
    while parsed.len() > 0
        invariant
            parsed@ == all.take(parsed@.len() as int),
            parsed@.len() <= all.len(),
            rest@.len() == all.len() - parsed@.len(),
            forall|j: int| 0 <= j < rest@.len() ==> #[trigger] rest@[j] == all[all.len() - 1 - j],
        decreases parsed@.len(),
    {
        let ghost before = parsed@;
        let last = parsed.pop().unwrap();
        assert(last == all[before.len() - 1]);
        rest.push(last);
        assert(parsed@ =~= all.take(parsed@.len() as int));
    }
    proof {
        lemma_first_err(all, 0, 0);
    }
    lower_from(node, &mut rest, Ghost(all), Ghost(0))
}

impl Expr {
    /// Lowers a node that holds no SQL text to the expression that it stands
    /// for.
    pub fn try_from(expr_node: ExprNode) -> (r: Result<Expr, Error>)
        requires
            sql_texts(expr_node).len() == 0,
        ensures
            r matches Ok(e) && lowers_at(expr_node, Seq::empty(), 0, e),
    {
        lower_with(expr_node, Vec::new())
    }
}

impl From<Expr> for ExprNode {
    fn from(expr: Expr) -> (r: ExprNode) {
        ExprNode::Expr(expr)
    }
}

impl FromSpecImpl<Expr> for ExprNode {
    open spec fn obeys_from_spec() -> bool {
        true
    }

    open spec fn from_spec(expr: Expr) -> ExprNode {
        ExprNode::Expr(expr)
    }
}

impl<'a> From<&'a str> for ExprNode {
    /// A node of SQL text, as `expr` gives it.
    fn from(value: &'a str) -> (r: ExprNode)
        ensures
            r matches ExprNode::SqlExpr(s) && s@ == value@,
    {
        expr(value)
    }
}

/// A node of SQL text is told by the characters of its text; which string
/// holds them is not, so the equation with `from_spec` is not claimed and
/// the `ensures` of `from` says what holds.
impl<'a> FromSpecImpl<&'a str> for ExprNode {
    open spec fn obeys_from_spec() -> bool {
        false
    }

    open spec fn from_spec(value: &'a str) -> ExprNode {
        ExprNode::SqlExpr(choose|s: String| s@ == value@)
    }
}

impl From<i64> for ExprNode {
    /// An integer literal, as `num` gives it.
    fn from(n: i64) -> (r: ExprNode)
        ensures
            r matches ExprNode::Expr(Expr::Literal(AstLiteral::Number(s))) && s@ == int_numeral(
                n as int,
            ),
    {
        num(n)
    }
}

/// A number literal is told by the characters of its numeral; which string
/// holds them is not, so the equation with `from_spec` is not claimed and
/// the `ensures` of `from` says what holds.
impl FromSpecImpl<i64> for ExprNode {
    open spec fn obeys_from_spec() -> bool {
        false
    }

    open spec fn from_spec(n: i64) -> ExprNode {
        ExprNode::Expr(
            Expr::Literal(AstLiteral::Number(choose|s: String| s@ == int_numeral(n as int))),
        )
    }
}

/// The decimal numeral of `n`.
///
/// Makes a `BigDecimal` of `n` with `BigDecimal::from` and writes it with its
/// `Display`. The decimal has the digits of `n` and scale zero, for which
/// `Display` writes the digits of the integer, a minus sign before them
/// where it is negative.
#[verifier::external_body]
fn decimal_text(n: i64) -> (s: String)
    ensures
        s@ == int_numeral(n as int),
{
    BigDecimal::from(n).to_string()
}

/// A node of SQL text.
pub fn expr(value: &str) -> (r: ExprNode)
    ensures
        r matches ExprNode::SqlExpr(s) && s@ == value@,
{
    ExprNode::SqlExpr(value.to_owned())
}

/// Whether `r` is the column that `value` names: an identifier where the
/// text has no dot, else a compound identifier of the pieces between the
/// dots.
pub open spec fn is_col(value: Seq<char>, r: ExprNode) -> bool {
    if split_on(value, '.').len() == 1 {
        r matches ExprNode::Identifier(s) && s@ == value
    } else {
        r matches ExprNode::CompoundIdentifier(parts) && names_view(parts@) == split_on(value, '.')
    }
}

/// A column reference: `name`, or `alias.name`.
pub fn col(value: &str) -> (r: ExprNode)
    ensures
        is_col(value@, r),
{
    let idents = split(value, '.');
    assert(names_view(idents@).len() == idents@.len());
    if idents.len() == 1 {
        ExprNode::Identifier(value.to_owned())
    } else {
        ExprNode::CompoundIdentifier(idents)
    }
}

/// An integer literal.
pub fn num(value: i64) -> (r: ExprNode)
    ensures
        r matches ExprNode::Expr(Expr::Literal(AstLiteral::Number(s))) && s@ == int_numeral(
            value as int,
        ),
{
    ExprNode::Expr(Expr::Literal(AstLiteral::Number(decimal_text(value))))
}

/// A string literal.
pub fn text(value: &str) -> (r: ExprNode)
    ensures
        r matches ExprNode::Expr(Expr::Literal(AstLiteral::QuotedString(s))) && s@ == value@,
{
    ExprNode::Expr(Expr::Literal(AstLiteral::QuotedString(value.to_owned())))
}

/// Whether two nodes are the same tree: the same operators, names, texts
/// and expressions in the same places.
pub open spec fn same_node(a: ExprNode, b: ExprNode) -> bool
    decreases a,
{
    match a {
        ExprNode::Expr(x) => {
            &&& b matches ExprNode::Expr(y)
            &&& same_expr(x, y)
        },
        ExprNode::SqlExpr(text) => b == ExprNode::SqlExpr(text),
        ExprNode::Identifier(name) => b == ExprNode::Identifier(name),
        ExprNode::CompoundIdentifier(parts) => {
            &&& b matches ExprNode::CompoundIdentifier(other)
            &&& other@ == parts@
        },
        ExprNode::Between { expr, negated, low, high } => {
            &&& b matches ExprNode::Between { expr: y, negated: n, low: l, high: h }
            &&& n == negated
            &&& same_node(*expr, *y)
            &&& same_node(*low, *l)
            &&& same_node(*high, *h)
        },
        ExprNode::BinaryOp { left, op, right } => {
            &&& b matches ExprNode::BinaryOp { left: l, op: o, right: r }
            &&& o == op
            &&& same_node(*left, *l)
            &&& same_node(*right, *r)
        },
        ExprNode::UnaryOp { op, expr } => {
            &&& b matches ExprNode::UnaryOp { op: o, expr: y }
            &&& o == op
            &&& same_node(*expr, *y)
        },
        ExprNode::Extract { field, expr } => {
            &&& b matches ExprNode::Extract { field: f, expr: y }
            &&& f == field
            &&& same_node(*expr, *y)
        },
        ExprNode::IsNull(x) => {
            &&& b matches ExprNode::IsNull(y)
            &&& same_node(*x, *y)
        },
        ExprNode::IsNotNull(x) => {
            &&& b matches ExprNode::IsNotNull(y)
            &&& same_node(*x, *y)
        },
        ExprNode::InList { expr, list, negated } => {
            &&& b matches ExprNode::InList { expr: y, list: items, negated: n }
            &&& n == negated
            &&& same_node(*expr, *y)
            &&& same_nodes(list, items)
        },
        ExprNode::Case { operand, when_then, else_result } => {
            &&& b matches ExprNode::Case { operand: o, when_then: branches, else_result: other }
            &&& same_option_node(operand, o)
            &&& same_node_branches(when_then, branches)
            &&& same_option_node(else_result, other)
        },
        ExprNode::Nested(x) => {
            &&& b matches ExprNode::Nested(y)
            &&& same_node(*x, *y)
        },
        ExprNode::Function(f) => {
            &&& b matches ExprNode::Function(g)
            &&& same_function_node(*f, *g)
        },
        ExprNode::Aggregate(f) => {
            &&& b matches ExprNode::Aggregate(g)
            &&& same_aggregate_node(*f, *g)
        },
    }
}

/// Whether two lists of nodes are the same trees, one by one.
pub open spec fn same_nodes(a: Vec<ExprNode>, b: Vec<ExprNode>) -> bool
    decreases a,
{
    &&& b.len() == a.len()
    &&& forall|i: int| 0 <= i < a.len() ==> same_node(a[i], #[trigger] b[i])
}

/// Whether the branches of two CASE nodes are the same trees.
pub open spec fn same_node_branches(a: Vec<(ExprNode, ExprNode)>, b: Vec<(ExprNode, ExprNode)>) -> bool
    decreases a,
{
    &&& b.len() == a.len()
    &&& forall|i: int|
        0 <= i < a.len() ==> same_node(a[i].0, (#[trigger] b[i]).0) && same_node(a[i].1, b[i].1)
}

/// Whether two optional nodes are the same tree, or both absent.
pub open spec fn same_option_node(a: Option<Box<ExprNode>>, b: Option<Box<ExprNode>>) -> bool
    decreases a,
{
    match a {
        None => b is None,
        Some(x) => {
            &&& b matches Some(y)
            &&& same_node(*x, *y)
        },
    }
}

/// Whether two function nodes are the same function of the same trees.
pub open spec fn same_function_node(a: FunctionNode, b: FunctionNode) -> bool
    decreases a,
{
    match a {
        FunctionNode::Abs(x) => {
            &&& b matches FunctionNode::Abs(y)
            &&& same_node(x, y)
        },
        FunctionNode::IfNull { expr, then } => {
            &&& b matches FunctionNode::IfNull { expr: y, then: t }
            &&& same_node(expr, y)
            &&& same_node(then, t)
        },
    }
}

/// Whether two aggregate nodes are the same function of the same tree.
pub open spec fn same_aggregate_node(a: AggregateNode, b: AggregateNode) -> bool
    decreases a,
{
    match a {
        AggregateNode::Count(arg) => {
            &&& b matches AggregateNode::Count(other)
            &&& same_count_arg_node(arg, other)
        },
        AggregateNode::Sum(x) => {
            &&& b matches AggregateNode::Sum(y)
            &&& same_node(x, y)
        },
        AggregateNode::Max(x) => {
            &&& b matches AggregateNode::Max(y)
            &&& same_node(x, y)
        },
        AggregateNode::Min(x) => {
            &&& b matches AggregateNode::Min(y)
            &&& same_node(x, y)
        },
    }
}

/// Whether two arguments of a COUNT node are the same.
pub open spec fn same_count_arg_node(a: CountArgExprNode, b: CountArgExprNode) -> bool
    decreases a,
{
    match a {
        CountArgExprNode::Wildcard => b is Wildcard,
        CountArgExprNode::Expr(x) => {
            &&& b matches CountArgExprNode::Expr(y)
            &&& same_node(x, y)
        },
    }
}

fn clone_node(node: &ExprNode) -> (r: ExprNode)
    ensures
        same_node(*node, r),
    decreases node,
{
    match node {
        ExprNode::Expr(x) => ExprNode::Expr(x.clone()),
        ExprNode::SqlExpr(text) => ExprNode::SqlExpr(text.clone()),
        ExprNode::Identifier(name) => ExprNode::Identifier(name.clone()),
        ExprNode::CompoundIdentifier(parts) => ExprNode::CompoundIdentifier(clone_strings(parts)),
        ExprNode::Between { expr, negated, low, high } => ExprNode::Between {
            expr: Box::new(clone_node(expr)),
            negated: *negated,
            low: Box::new(clone_node(low)),
            high: Box::new(clone_node(high)),
        },
        ExprNode::BinaryOp { left, op, right } => ExprNode::BinaryOp {
            left: Box::new(clone_node(left)),
            op: *op,
            right: Box::new(clone_node(right)),
        },
        ExprNode::UnaryOp { op, expr } => ExprNode::UnaryOp {
            op: *op,
            expr: Box::new(clone_node(expr)),
        },
        ExprNode::Extract { field, expr } => ExprNode::Extract {
            field: *field,
            expr: Box::new(clone_node(expr)),
        },
        ExprNode::IsNull(x) => ExprNode::IsNull(Box::new(clone_node(x))),
        ExprNode::IsNotNull(x) => ExprNode::IsNotNull(Box::new(clone_node(x))),
        ExprNode::InList { expr, list, negated } => ExprNode::InList {
            expr: Box::new(clone_node(expr)),
            list: clone_nodes(list),
            negated: *negated,
        },
        ExprNode::Case { operand, when_then, else_result } => ExprNode::Case {
            operand: clone_option_node(operand),
            when_then: clone_node_branches(when_then),
            else_result: clone_option_node(else_result),
        },
        ExprNode::Nested(x) => ExprNode::Nested(Box::new(clone_node(x))),
        ExprNode::Function(f) => ExprNode::Function(Box::new(clone_function_node(f))),
        ExprNode::Aggregate(f) => ExprNode::Aggregate(Box::new(clone_aggregate_node(f))),
    }
}

fn clone_option_node(node: &Option<Box<ExprNode>>) -> (r: Option<Box<ExprNode>>)
    ensures
        same_option_node(*node, r),
    decreases node,
{
    match node {
        Some(x) => Some(Box::new(clone_node(x))),
        None => None,
    }
}

fn clone_nodes(list: &Vec<ExprNode>) -> (out: Vec<ExprNode>)
    ensures
        same_nodes(*list, out),
    decreases list, 0int,
{
    let mut out: Vec<ExprNode> = Vec::new();
    let n: usize = list.len();
    let mut i: usize = 0;
    while i < n
        invariant
            n == list.len(),
            i <= n,
            out@.len() == i,
            forall|j: int| 0 <= j < i ==> same_node(list[j], #[trigger] out@[j]),
        decreases n - i,
    {
        out.push(clone_node(&list[i]));
        i += 1;
    }
    out
}

fn clone_node_branches(when_then: &Vec<(ExprNode, ExprNode)>) -> (out: Vec<(ExprNode, ExprNode)>)
    ensures
        same_node_branches(*when_then, out),
    decreases when_then, 0int,
{
    let mut out: Vec<(ExprNode, ExprNode)> = Vec::new();
    let n: usize = when_then.len();
    let mut i: usize = 0;
    while i < n
        invariant
            n == when_then.len(),
            i <= n,
            out@.len() == i,
            forall|j: int|
                0 <= j < i ==> same_node(when_then[j].0, (#[trigger] out@[j]).0) && same_node(
                    when_then[j].1,
                    out@[j].1,
                ),
        decreases n - i,
    {
        let when = clone_node(&when_then[i].0);
        let then = clone_node(&when_then[i].1);
        out.push((when, then));
        i += 1;
    }
    out
}

fn clone_function_node(f: &FunctionNode) -> (r: FunctionNode)
    ensures
        same_function_node(*f, r),
    decreases f,
{
    match f {
        FunctionNode::Abs(x) => FunctionNode::Abs(clone_node(x)),
        FunctionNode::IfNull { expr, then } => FunctionNode::IfNull {
            expr: clone_node(expr),
            then: clone_node(then),
        },
    }
}

fn clone_aggregate_node(f: &AggregateNode) -> (r: AggregateNode)
    ensures
        same_aggregate_node(*f, r),
    decreases f,
{
    match f {
        AggregateNode::Count(arg) => AggregateNode::Count(clone_count_arg_node(arg)),
        AggregateNode::Sum(x) => AggregateNode::Sum(clone_node(x)),
        AggregateNode::Max(x) => AggregateNode::Max(clone_node(x)),
        AggregateNode::Min(x) => AggregateNode::Min(clone_node(x)),
    }
}

fn clone_count_arg_node(arg: &CountArgExprNode) -> (r: CountArgExprNode)
    ensures
        same_count_arg_node(*arg, r),
    decreases arg,
{
    match arg {
        CountArgExprNode::Wildcard => CountArgExprNode::Wildcard,
        CountArgExprNode::Expr(x) => CountArgExprNode::Expr(clone_node(x)),
    }
}

impl Clone for ExprNode {
    /// A copy of the tree.
    fn clone(&self) -> (r: Self)
        ensures
            same_node(*self, r),
    {
        clone_node(self)
    }
}

impl Clone for FunctionNode {
    /// A copy of the function node and its trees.
    fn clone(&self) -> (r: Self)
        ensures
            same_function_node(*self, r),
    {
        clone_function_node(self)
    }
}

impl Clone for AggregateNode {
    /// A copy of the aggregate node and its tree.
    fn clone(&self) -> (r: Self)
        ensures
            same_aggregate_node(*self, r),
    {
        clone_aggregate_node(self)
    }
}

impl Clone for CountArgExprNode {
    /// A copy of the argument.
    fn clone(&self) -> (r: Self)
        ensures
            same_count_arg_node(*self, r),
    {
        clone_count_arg_node(self)
    }
}

} // verus!
