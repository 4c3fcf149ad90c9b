//! The aggregate functions that the expressions of a query hold.

use vstd::prelude::*;
use crate::ast::{Aggregate, Expr, Function, OrderByExpr, SelectItem};
use crate::evaluate::aggregates_view;

verus! {

/// The aggregate functions in an expression, in the order in which they are
/// written.
pub open spec fn aggregates_in(e: Expr) -> Seq<Aggregate>
    decreases e,
{
    match e {
        Expr::Identifier(_) => Seq::empty(),
        Expr::CompoundIdentifier(_) => Seq::empty(),
        Expr::Literal(_) => Seq::empty(),
        Expr::IsNull(x) => aggregates_in(*x),
        Expr::IsNotNull(x) => aggregates_in(*x),
        Expr::Nested(x) => aggregates_in(*x),
        Expr::UnaryOp { op, expr: x } => aggregates_in(*x),
        Expr::Extract { field, expr: x } => aggregates_in(*x),
        Expr::InList { expr: x, list, negated } => aggregates_in(*x) + aggregates_in_list(
            list,
            list.len() as int,
        ),
        Expr::Between { expr: x, negated, low, high } => aggregates_in(*x) + aggregates_in(*low)
            + aggregates_in(*high),
        Expr::BinaryOp { left, op, right } => aggregates_in(*left) + aggregates_in(*right),
        Expr::Function(f) => match *f {
            Function::Abs(x) => aggregates_in(x),
            Function::IfNull { expr: x, then } => aggregates_in(x) + aggregates_in(then),
        },
        Expr::Aggregate(a) => seq![*a],
        Expr::Case { operand, when_then, else_result } => (match operand {
            Some(x) => aggregates_in(*x),
            None => Seq::empty(),
        }) + aggregates_in_branches(when_then, when_then.len() as int) + (match else_result {
            Some(x) => aggregates_in(*x),
            None => Seq::empty(),
        }),
    }
}

/// The aggregate functions in the first `n` expressions of a list.
pub open spec fn aggregates_in_list(list: Vec<Expr>, n: int) -> Seq<Aggregate>
    decreases list, n,
{
    if n <= 0 || n > list.len() {
        Seq::empty()
    } else {
        aggregates_in_list(list, n - 1) + aggregates_in(list[n - 1])
    }
}

/// The aggregate functions in the first `n` branches of a CASE.
pub open spec fn aggregates_in_branches(when_then: Vec<(Expr, Expr)>, n: int) -> Seq<Aggregate>
    decreases when_then, n,
{
    if n <= 0 || n > when_then.len() {
        Seq::empty()
    } else {
        aggregates_in_branches(when_then, n - 1) + aggregates_in(when_then[n - 1].0)
            + aggregates_in(when_then[n - 1].1)
    }
}

/// The aggregate functions in the first `n` items of a projection.
pub open spec fn aggregates_in_fields(fields: Seq<SelectItem>, n: int) -> Seq<Aggregate>
    decreases n,
{
    if n <= 0 || n > fields.len() {
        Seq::empty()
    } else {
        aggregates_in_fields(fields, n - 1) + match fields[n - 1] {
            SelectItem::Expr { expr, label } => aggregates_in(expr),
            _ => Seq::empty(),
        }
    }
}

/// The aggregate functions in the first `n` keys of ORDER BY.
pub open spec fn aggregates_in_order(order_by: Seq<OrderByExpr>, n: int) -> Seq<Aggregate>
    decreases n,
{
    if n <= 0 || n > order_by.len() {
        Seq::empty()
    } else {
        aggregates_in_order(order_by, n - 1) + aggregates_in(order_by[n - 1].expr)
    }
}

/// The aggregate functions of a query: those of the projection, then those
/// of HAVING, then those of ORDER BY.
pub open spec fn query_aggregates(
    fields: Seq<SelectItem>,
    having: Option<&Expr>,
    order_by: Seq<OrderByExpr>,
) -> Seq<Aggregate> {
    aggregates_in_fields(fields, fields.len() as int) + (match having {
        Some(e) => aggregates_in(*e),
        None => Seq::empty(),
    }) + aggregates_in_order(order_by, order_by.len() as int)
}

proof fn lemma_view_push(s: Seq<&Aggregate>, a: &Aggregate)
    ensures
        aggregates_view(s.push(a)) == aggregates_view(s) + seq![*a],
{
    assert(aggregates_view(s.push(a)) =~= aggregates_view(s) + seq![*a]);
}

/// Appends the aggregate functions of `expr` to `out`.
pub fn collect<'a>(expr: &'a Expr, out: &mut Vec<&'a Aggregate>)
    ensures
        aggregates_view(final(out)@) == aggregates_view(old(out)@) + aggregates_in(*expr),
    decreases expr,
{
    let ghost start = aggregates_view(out@);
    match expr {
        Expr::Identifier(_) | Expr::CompoundIdentifier(_) | Expr::Literal(_) => {
            assert(start + Seq::<Aggregate>::empty() =~= start);
        },
        Expr::IsNull(x) => collect(x, out),
        Expr::IsNotNull(x) => collect(x, out),
        Expr::Nested(x) => collect(x, out),
        Expr::UnaryOp { op, expr: x } => collect(x, out),
        Expr::Extract { field, expr: x } => collect(x, out),
        Expr::InList { expr: x, list, negated } => {
            collect(x, out);
            collect_list(list, out);
            assert(start + aggregates_in(**x) + aggregates_in_list(*list, list.len() as int)
                =~= start + (aggregates_in(**x) + aggregates_in_list(*list, list.len() as int)));
        },
        Expr::Between { expr: x, negated, low, high } => {
            collect(x, out);
            collect(low, out);
            collect(high, out);
            assert(start + aggregates_in(**x) + aggregates_in(**low) + aggregates_in(**high)
                =~= start + (aggregates_in(**x) + aggregates_in(**low) + aggregates_in(**high)));
        },
        Expr::BinaryOp { left, op, right } => {
            collect(left, out);
            collect(right, out);
            assert(start + aggregates_in(**left) + aggregates_in(**right) =~= start + (
            aggregates_in(**left) + aggregates_in(**right)));
        },
        Expr::Function(f) => match &**f {
            Function::Abs(x) => collect(x, out),
            Function::IfNull { expr: x, then } => {
                collect(x, out);
                collect(then, out);
                assert(start + aggregates_in(*x) + aggregates_in(*then) =~= start + (
                aggregates_in(*x) + aggregates_in(*then)));
            },
        },
        Expr::Aggregate(a) => {
            proof {
                lemma_view_push(out@, &**a);
            }
            out.push(&**a);
        },
        Expr::Case { operand, when_then, else_result } => {
            let ghost first: Seq<Aggregate> = match operand {
                Some(x) => aggregates_in(**x),
                None => Seq::empty(),
            };
            let ghost last: Seq<Aggregate> = match else_result {
                Some(x) => aggregates_in(**x),
                None => Seq::empty(),
            };
            match operand {
                Some(x) => collect(x, out),
                None => {
                    assert(start + first =~= start);
                },
            }
            collect_branches(when_then, out);
            let ghost middle = aggregates_view(out@);
            match else_result {
                Some(x) => collect(x, out),
                None => {
                    assert(middle + last =~= middle);
                },
            }
            assert(start + first + aggregates_in_branches(*when_then, when_then.len() as int)
                + last =~= start + (first + aggregates_in_branches(
                *when_then,
                when_then.len() as int,
            ) + last));
        },
    }
}

fn collect_list<'a>(list: &'a Vec<Expr>, out: &mut Vec<&'a Aggregate>)
    ensures
        aggregates_view(final(out)@) == aggregates_view(old(out)@) + aggregates_in_list(
            *list,
            list.len() as int,
        ),
    decreases list, 0int,
{
    let ghost start = aggregates_view(out@);
    let n: usize = list.len();
    let mut i: usize = 0;
    assert(start + aggregates_in_list(*list, 0) =~= start);
    while i < n
        invariant
            n == list.len(),
            i <= n,
            aggregates_view(out@) == start + aggregates_in_list(*list, i as int),
        decreases n - i,
    {
        collect(&list[i], out);
        assert(start + aggregates_in_list(*list, i as int) + aggregates_in(list[i as int]) =~= start
            + aggregates_in_list(*list, i + 1));
        i += 1;
    }
}

fn collect_branches<'a>(when_then: &'a Vec<(Expr, Expr)>, out: &mut Vec<&'a Aggregate>)
    ensures
        aggregates_view(final(out)@) == aggregates_view(old(out)@) + aggregates_in_branches(
            *when_then,
            when_then.len() as int,
        ),
    decreases when_then, 0int,
{
    let ghost start = aggregates_view(out@);
    let n: usize = when_then.len();
    let mut i: usize = 0;
    assert(start + aggregates_in_branches(*when_then, 0) =~= start);
    while i < n
        invariant
            n == when_then.len(),
            i <= n,
            aggregates_view(out@) == start + aggregates_in_branches(*when_then, i as int),
        decreases n - i,
    {
        collect(&when_then[i].0, out);
        collect(&when_then[i].1, out);
        assert(start + aggregates_in_branches(*when_then, i as int) + aggregates_in(
            when_then[i as int].0,
        ) + aggregates_in(when_then[i as int].1) =~= start + aggregates_in_branches(
            *when_then,
            i + 1,
        ));
        i += 1;
    }
}

/// The aggregate functions of a query, in the order of `query_aggregates`.
pub fn collect_query<'a>(
    fields: &'a Vec<SelectItem>,
    having: Option<&'a Expr>,
    order_by: &'a Vec<OrderByExpr>,
) -> (out: Vec<&'a Aggregate>)
    ensures
        aggregates_view(out@) == query_aggregates(fields@, having, order_by@),
{
    let mut out: Vec<&'a Aggregate> = Vec::new();
    let n: usize = fields.len();
    let mut i: usize = 0;
    assert(aggregates_view(out@) =~= aggregates_in_fields(fields@, 0));
    while i < n
        invariant
            n == fields.len(),
            i <= n,
            aggregates_view(out@) == aggregates_in_fields(fields@, i as int),
        decreases n - i,
    {
        let ghost before = aggregates_view(out@);
        match &fields[i] {
            SelectItem::Expr { expr, label } => collect(expr, &mut out),
            _ => {
                assert(before + Seq::<Aggregate>::empty() =~= before);
            },
        }
        i += 1;
    }
    let ghost first = aggregates_view(out@);
    match having {
        Some(e) => collect(e, &mut out),
        None => {
            assert(first + Seq::<Aggregate>::empty() =~= first);
        },
    }
    let ghost second = aggregates_view(out@);
    let m: usize = order_by.len();
    let mut j: usize = 0;
    assert(second + aggregates_in_order(order_by@, 0) =~= second);
    while j < m
        invariant
            m == order_by.len(),
            j <= m,
            aggregates_view(out@) == second + aggregates_in_order(order_by@, j as int),
        decreases m - j,
    {
        collect(&order_by[j].expr, &mut out);
        assert(second + aggregates_in_order(order_by@, j as int) + aggregates_in(
            order_by@[j as int].expr,
        ) =~= second + aggregates_in_order(order_by@, j + 1));
        j += 1;
    }
    out
}

} // verus!
