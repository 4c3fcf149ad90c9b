//! The sort stage: ORDER BY over the groups, evaluated before projection.

use vstd::prelude::*;
use std::rc::Rc;
use crate::aggregate::{
    group_item_view, group_scope, groups_view, keys_model, keys_of, lemma_keys_error_stays,
    stage_view, values_result_view, AggregateContext, GroupModel,
};
use crate::ast::{Aggregate, Expr, OrderByExpr};
use crate::context::{blend_chain, context_chain, share_option, FilterContext};
use crate::error::Error;
use crate::evaluate::{aggregates_view, evaluate, scope_of, Aggregated, Scope};
use crate::filter::outer_scope;
use crate::value::{clone_values, lemma_values_view_push, value_less, values_view, SqlValue, Value};

verus! {

/// Whether a value sorts before another under one key: `Null` before every
/// other value, whatever the direction; the other values in their order, or
/// against it where the key is descending.
pub open spec fn key_before(a: SqlValue, b: SqlValue, descending: bool) -> bool {
    if a is Null || b is Null {
        a is Null && !(b is Null)
    } else if descending {
        value_less(b, a)
    } else {
        value_less(a, b)
    }
}

/// Whether one list of key values sorts before another: the first key at
/// which they differ decides, from index `from` on.
pub open spec fn keys_before(a: Seq<SqlValue>, b: Seq<SqlValue>, descending: Seq<bool>, from: int) -> bool
    decreases descending.len() - from,
{
    if from < 0 || from >= descending.len() || from >= a.len() || from >= b.len() {
        false
    } else if key_before(a[from], b[from], descending[from]) {
        true
    } else if key_before(b[from], a[from], descending[from]) {
        false
    } else {
        keys_before(a, b, descending, from + 1)
    }
}

/// Where a new key goes into an order that is sorted already: in front of
/// the first item, from position `from` on, that it sorts before; behind all
/// of them where there is none.
pub open spec fn insert_position(
    order: Seq<int>,
    keys: Seq<Seq<SqlValue>>,
    descending: Seq<bool>,
    key: Seq<SqlValue>,
    from: int,
) -> int
    decreases order.len() - from,
{
    if from < 0 || from >= order.len() {
        order.len() as int
    } else if keys_before(key, keys[order[from]], descending, 0) {
        from
    } else {
        insert_position(order, keys, descending, key, from + 1)
    }
}

/// The order in which the first `n` items come out: each item in turn is
/// put behind all that do not sort after it. The result lists the items'
/// indices.
pub open spec fn sorted_order(keys: Seq<Seq<SqlValue>>, descending: Seq<bool>, n: int) -> Seq<int>
    decreases n,
{
    if n <= 0 {
        Seq::empty()
    } else {
        let before = sorted_order(keys, descending, n - 1);
        before.insert(insert_position(before, keys, descending, keys[n - 1], 0), n - 1)
    }
}

/// The expressions of the keys of ORDER BY.
pub open spec fn order_exprs(order_by: Seq<OrderByExpr>) -> Seq<Expr> {
    order_by.map_values(|o: OrderByExpr| o.expr)
}

/// For each key of ORDER BY, whether it is descending.
pub open spec fn directions(order_by: Seq<OrderByExpr>) -> Seq<bool> {
    order_by.map_values(|o: OrderByExpr| o.asc == Some(false))
}

/// The scope in which ORDER BY and the projection see an item: the chain of
/// its row before the enclosing context, and the aggregate values where the
/// item is a group.
pub open spec fn item_scope(g: GroupModel, aggregates: Seq<Aggregate>, base: Scope) -> Scope {
    match g.values {
        Some(v) => group_scope(g.chain, aggregates, v, base),
        None => group_scope(g.chain, Seq::empty(), Seq::empty(), base),
    }
}

/// The key values of the first `n` items; the first error of the stream or
/// of an evaluation is the result.
pub open spec fn sort_keys(
    items: Seq<Result<GroupModel, Error>>,
    order_by: Seq<OrderByExpr>,
    aggregates: Seq<Aggregate>,
    base: Scope,
    n: int,
) -> Result<Seq<Seq<SqlValue>>, Error>
    decreases n,
{
    if n <= 0 {
        Ok(Seq::empty())
    } else {
        match sort_keys(items, order_by, aggregates, base, n - 1) {
            Err(e) => Err(e),
            Ok(done) => match items[n - 1] {
                Err(e) => Err(e),
                Ok(g) => match keys_of(
                    order_exprs(order_by),
                    item_scope(g, aggregates, base),
                    order_by.len() as int,
                ) {
                    Err(e) => Err(e),
                    Ok(key) => Ok(done.push(key)),
                },
            },
        }
    }
}

/// The outcome of the stage: the stream itself where there is no ORDER BY;
/// else all its items in sorted order, or the first error.
pub open spec fn sorted(
    items: Seq<Result<GroupModel, Error>>,
    order_by: Seq<OrderByExpr>,
    aggregates: Seq<Aggregate>,
    base: Scope,
) -> Result<Seq<Result<GroupModel, Error>>, Error> {
    if order_by.len() == 0 {
        Ok(items)
    } else {
        match sort_keys(items, order_by, aggregates, base, items.len() as int) {
            Err(e) => Err(e),
            Ok(keys) => Ok(
                sorted_order(keys, directions(order_by), items.len() as int).map_values(
                    |i: int| items[i],
                ),
            ),
        }
    }
}

/// Once the evaluation of the sort keys has met an error, that error is its
/// result.
pub proof fn lemma_sort_keys_error_stays(
    items: Seq<Result<GroupModel, Error>>,
    order_by: Seq<OrderByExpr>,
    aggregates: Seq<Aggregate>,
    base: Scope,
    i: int,
    n: int,
)
    requires
        0 <= i <= n,
        sort_keys(items, order_by, aggregates, base, i) is Err,
    ensures
        sort_keys(items, order_by, aggregates, base, n) == sort_keys(
            items,
            order_by,
            aggregates,
            base,
            i,
        ),
    decreases n - i,
{
    if i < n {
        lemma_sort_keys_error_stays(items, order_by, aggregates, base, i, n - 1);
    }
}

/// Every index in the order of `n` items is the index of one of them, and
/// the order has `n` places.
pub proof fn lemma_sorted_order_range(keys: Seq<Seq<SqlValue>>, descending: Seq<bool>, n: int)
    requires
        0 <= n,
    ensures
        sorted_order(keys, descending, n).len() == n,
        forall|k: int|
            0 <= k < n ==> 0 <= #[trigger] sorted_order(keys, descending, n)[k] < n,
    decreases n,
{
    if n > 0 {
        lemma_sorted_order_range(keys, descending, n - 1);
        let before = sorted_order(keys, descending, n - 1);
        lemma_insert_position_range(before, keys, descending, keys[n - 1], 0);
    }
}

/// The place of a new key lies within the order.
pub proof fn lemma_insert_position_range(
    order: Seq<int>,
    keys: Seq<Seq<SqlValue>>,
    descending: Seq<bool>,
    key: Seq<SqlValue>,
    from: int,
)
    requires
        0 <= from <= order.len(),
    ensures
        from <= insert_position(order, keys, descending, key, from) <= order.len(),
    decreases order.len() - from,
{
    if from < order.len() && !keys_before(key, keys[order[from]], descending, 0) {
        lemma_insert_position_range(order, keys, descending, key, from + 1);
    }
}

fn value_sorts_before(a: &Value, b: &Value, descending: bool) -> (r: bool)
    ensures
        r == key_before(a@, b@, descending),
{
    if a.is_null() || b.is_null() {
        a.is_null() && !b.is_null()
    } else if descending {
        b.less_than(a)
    } else {
        a.less_than(b)
    }
}

fn sorts_before(a: &Vec<Value>, b: &Vec<Value>, descending: &Vec<bool>) -> (r: bool)
    ensures
        r == keys_before(values_view(a@), values_view(b@), descending@, 0),
{
    let ghost x = values_view(a@);
    let ghost y = values_view(b@);
    let n: usize = descending.len();
    let mut i: usize = 0;
    while i < n && i < a.len() && i < b.len()
        invariant
            n == descending@.len(),
            x == values_view(a@),
            y == values_view(b@),
            keys_before(x, y, descending@, 0) == keys_before(x, y, descending@, i as int),
        decreases n - i,
    {
        if value_sorts_before(&a[i], &b[i], descending[i]) {
            return true;
        }
        if value_sorts_before(&b[i], &a[i], descending[i]) {
            return false;
        }
        i += 1;
    }
    false
}

/// The indices of an order as integers.
pub open spec fn order_view(order: Seq<usize>) -> Seq<int> {
    order.map_values(|i: usize| i as int)
}

/// The order in which items with the given keys come out.
fn sort_order(keys: &Vec<Vec<Value>>, descending: &Vec<bool>) -> (order: Vec<usize>)
    ensures
        order_view(order@) == sorted_order(keys_model(keys@), descending@, keys@.len() as int),
{
    let ghost model = keys_model(keys@);
    let mut order: Vec<usize> = Vec::new();
    let n: usize = keys.len();
    let mut i: usize = 0;
    assert(order_view(order@) =~= sorted_order(model, descending@, 0));
    while i < n
        invariant
            n == keys@.len(),
            i <= n,
            model == keys_model(keys@),
            order_view(order@) == sorted_order(model, descending@, i as int),
        decreases n - i,
    {
        let ghost before = order_view(order@);
        proof {
            lemma_sorted_order_range(model, descending@, i as int);
        }
        let m: usize = order.len();
        let mut p: usize = 0;
        while p < m && !sorts_before(&keys[i], &keys[order[p]], descending)
            invariant
                m == order@.len(),
                m == i,
                i < n,
                n == keys@.len(),
                p <= m,
                model == keys_model(keys@),
                before == order_view(order@),
                forall|k: int| 0 <= k < m ==> 0 <= #[trigger] before[k] < i,
                insert_position(before, model, descending@, model[i as int], 0)
                    == insert_position(before, model, descending@, model[i as int], p as int),
            decreases m - p,
        {
            assert(before[p as int] == order@[p as int] as int);
            p += 1;
        }
        proof {
            if p < m {
                assert(before[p as int] == order@[p as int] as int);
            }
        }
        order.insert(p, i);
        assert(order_view(order@) =~= before.insert(p as int, i as int));
        i += 1;
    }
    order
}

fn copy_item(item: &AggregateContext) -> (r: AggregateContext)
    ensures
        r@ == item@,
{
    let aggregated: Option<Vec<Value>> = match &item.aggregated {
        Some(values) => Some(clone_values(values)),
        None => None,
    };
    AggregateContext { aggregated, next: share_option(&item.next) }
}

/// ORDER BY with the aggregate functions of the query and the context of the
/// enclosing query.
pub struct Sort<'a> {
    pub order_by: &'a Vec<OrderByExpr>,
    pub aggregates: &'a Vec<&'a Aggregate>,
    pub filter_context: Option<Rc<FilterContext>>,
}

impl<'a> Sort<'a> {
    /// What every row sees behind its own chain.
    pub open spec fn base(&self) -> Scope {
        outer_scope(context_chain(self.filter_context))
    }

    /// A sort by the given keys.
    pub fn new(
        filter_context: Option<Rc<FilterContext>>,
        order_by: &'a Vec<OrderByExpr>,
        aggregates: &'a Vec<&'a Aggregate>,
    ) -> (r: Sort<'a>)
        ensures
            r.order_by == order_by,
            r.aggregates == aggregates,
            r.filter_context == filter_context,
    {
        Sort { order_by, aggregates, filter_context }
    }

    /// The values of the sort keys for one item.
    fn item_keys(&self, item: &AggregateContext) -> (r: Result<Vec<Value>, Error>)
        ensures
            values_result_view(r) == keys_of(
                order_exprs(self.order_by@),
                item_scope(item@, aggregates_view(self.aggregates@), self.base()),
                self.order_by@.len() as int,
            ),
    {
        let context = FilterContext::new(share_option(&item.next), share_option(&self.filter_context));
        assert(context.chain() =~= blend_chain(item.next) + self.base().chain);
        let aggregated: Option<Aggregated> = match &item.aggregated {
            Some(values) => Some(Aggregated { aggregates: self.aggregates, values: values }),
            None => None,
        };
        let bound: Option<&Aggregated> = aggregated.as_ref();
        let ghost scope = scope_of(Some(&context), bound);
        assert(scope == item_scope(item@, aggregates_view(self.aggregates@), self.base()));
        let ghost exprs = order_exprs(self.order_by@);
        let mut out: Vec<Value> = Vec::new();
        let n: usize = self.order_by.len();
        let mut i: usize = 0;
        assert(values_view(out@) =~= Seq::<SqlValue>::empty());
        while i < n
            invariant
                n == self.order_by@.len(),
                i <= n,
                exprs == order_exprs(self.order_by@),
                scope == scope_of(Some(&context), bound),
                scope == item_scope(item@, aggregates_view(self.aggregates@), self.base()),
                keys_of(exprs, scope, i as int) == Ok::<Seq<SqlValue>, Error>(values_view(out@)),
            decreases n - i,
        {
            assert(exprs[i as int] == self.order_by@[i as int].expr);
            let v = match evaluate(Some(&context), bound, &self.order_by[i].expr) {
                Ok(v) => v,
                Err(e) => {
                    proof {
                        lemma_keys_error_stays(exprs, scope, i + 1, n as int);
                    }
                    return Err(e);
                },
            };
            proof {
                lemma_values_view_push(out@, v);
            }
            out.push(v);
            i += 1;
        }
        Ok(out)
    }

    fn descending(&self) -> (r: Vec<bool>)
        ensures
            r@ == directions(self.order_by@),
    {
        let mut out: Vec<bool> = Vec::new();
        let n: usize = self.order_by.len();
        let mut i: usize = 0;
        while i < n
            invariant
                n == self.order_by@.len(),
                i <= n,
                out@.len() == i,
                forall|j: int| 0 <= j < i ==> out@[j] == (self.order_by@[j].asc == Some(false)),
            decreases n - i,
        {
            let d: bool = match self.order_by[i].asc {
                Some(asc) => !asc,
                None => false,
            };
            out.push(d);
            i += 1;
        }
        assert(out@ =~= directions(self.order_by@));
        out
    }

    /// Sorts the stream by the keys of ORDER BY; equal items keep their
    /// order. Hands the stream on as it is where there is no ORDER BY.
    pub fn apply(&self, rows: Vec<Result<AggregateContext, Error>>) -> (r: Result<
        Vec<Result<AggregateContext, Error>>,
        Error,
    >)
        ensures
            stage_view(r) == sorted(
                groups_view(rows@),
                self.order_by@,
                aggregates_view(self.aggregates@),
                self.base(),
            ),
    {
        if self.order_by.len() == 0 {
            return Ok(rows);
        }
        let ghost items = groups_view(rows@);
        let ghost aggs = aggregates_view(self.aggregates@);
        let ghost base = self.base();
        assert(items.len() == rows@.len());
        let mut keys: Vec<Vec<Value>> = Vec::new();
        let n: usize = rows.len();
        let mut i: usize = 0;
        assert(keys_model(keys@) =~= Seq::<Seq<SqlValue>>::empty());
        while i < n
            invariant
                n == rows@.len(),
                i <= n,
                items == groups_view(rows@),
                aggs == aggregates_view(self.aggregates@),
                base == self.base(),
                keys@.len() == i,
                self.order_by@.len() > 0,
                items.len() == n,
                forall|j: int| 0 <= j < i ==> rows@[j] is Ok,
                sort_keys(items, self.order_by@, aggs, base, i as int) == Ok::<
                    Seq<Seq<SqlValue>>,
                    Error,
                >(keys_model(keys@)),
            decreases n - i,
        {
            assert(items[i as int] == group_item_view(rows@[i as int]));
            let item = match &rows[i] {
                Ok(item) => item,
                Err(e) => {
                    proof {
                        lemma_sort_keys_error_stays(
                            items,
                            self.order_by@,
                            aggs,
                            base,
                            i + 1,
                            n as int,
                        );
                    }
                    return Err(e.clone());
                },
            };
            let key = match self.item_keys(item) {
                Ok(key) => key,
                Err(e) => {
                    proof {
                        lemma_sort_keys_error_stays(
                            items,
                            self.order_by@,
                            aggs,
                            base,
                            i + 1,
                            n as int,
                        );
                    }
                    return Err(e);
                },
            };
            let ghost before = keys@;
            keys.push(key);
            assert(keys_model(keys@) =~= keys_model(before).push(values_view(key@)));
            i += 1;
        }
        let descending = self.descending();
        let order = sort_order(&keys, &descending);
        let ghost places = sorted_order(keys_model(keys@), descending@, n as int);
        proof {
            lemma_sorted_order_range(keys_model(keys@), descending@, n as int);
        }
        let mut out: Vec<Result<AggregateContext, Error>> = Vec::new();
        let mut k: usize = 0;
        while k < n
            invariant
                n == rows@.len(),
                k <= n,
                items == groups_view(rows@),
                order_view(order@) == places,
                places.len() == n,
                forall|j: int| 0 <= j < n ==> 0 <= #[trigger] places[j] < n,
                forall|j: int| 0 <= j < n ==> rows@[j] is Ok,
                out@.len() == k,
                forall|j: int| 0 <= j < k ==> group_item_view(out@[j]) == items[places[j]],
            decreases n - k,
        {
            assert(places[k as int] == order@[k as int] as int);
            let at: usize = order[k];
            assert(items[at as int] == group_item_view(rows@[at as int]));
            match &rows[at] {
                Ok(item) => out.push(Ok(copy_item(item))),
                Err(e) => out.push(Err(e.clone())),
            }
            k += 1;
        }
        assert(groups_view(out@) =~= places.map_values(|i: int| items[i]));
        Ok(out)
    }
}

} // verus!
