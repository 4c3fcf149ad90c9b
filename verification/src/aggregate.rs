//! The aggregation stage: GROUP BY, the aggregate functions and HAVING.

use vstd::prelude::*;
use std::rc::Rc;
use crate::ast::{Aggregate, CountArgExpr, Expr, OrderByExpr, SelectItem};
use crate::collect::{collect_query, query_aggregates};
use crate::context::{
    blend_chain, context_chain, share,
    share_option, Binding, BlendContext, FilterContext,
};
use crate::error::{AggregateError, Error};
use crate::evaluate::{
    aggregates_view, column_ref, eval, evaluate, in_i64, result_view, scope_of, Aggregated, Scope,
};
use crate::filter::{contexts_view, item_view, outer_scope, predicate, row_scope, Filter};
use crate::value::{clone_values, lemma_values_view_push, value_less, values_view, SqlValue, Value};

verus! {

/// The model of a group while its rows are folded: its key, the values of
/// the aggregate functions so far, and the chain of its first row.
pub struct GroupState {
    pub key: Seq<SqlValue>,
    pub values: Seq<SqlValue>,
    pub chain: Seq<Binding>,
}

/// The model of what the stage hands on for a group: the values of the
/// aggregate functions (absent where the query does not aggregate), and the
/// chain of the row that stands for the group.
pub struct GroupModel {
    pub values: Option<Seq<SqlValue>>,
    pub chain: Seq<Binding>,
}

/// What the stage hands on for a group.
#[derive(Debug)]
pub struct AggregateContext {
    pub aggregated: Option<Vec<Value>>,
    pub next: Option<Rc<BlendContext>>,
}

impl View for AggregateContext {
    type V = GroupModel;

    open spec fn view(&self) -> GroupModel {
        GroupModel {
            values: match self.aggregated {
                Some(v) => Some(values_view(v@)),
                None => None,
            },
            chain: blend_chain(self.next),
        }
    }
}

/// The model of one item of a stream of groups.
pub open spec fn group_item_view(item: Result<AggregateContext, Error>) -> Result<
    GroupModel,
    Error,
> {
    match item {
        Ok(g) => Ok(g@),
        Err(e) => Err(e),
    }
}

/// The model of a stream of groups.
pub open spec fn groups_view(items: Seq<Result<AggregateContext, Error>>) -> Seq<
    Result<GroupModel, Error>,
> {
    items.map_values(|item: Result<AggregateContext, Error>| group_item_view(item))
}

/// The value of an aggregate function over no rows: zero for COUNT, `Null`
/// for the others.
pub open spec fn initial(a: Aggregate) -> SqlValue {
    match a {
        Aggregate::Count(_) => SqlValue::Int(0),
        _ => SqlValue::Null,
    }
}

/// The values of the aggregate functions over no rows.
pub open spec fn initials(aggregates: Seq<Aggregate>) -> Seq<SqlValue> {
    aggregates.map_values(|a: Aggregate| initial(a))
}

/// The value that a row gives to the argument of an aggregate function,
/// which must be a plain column reference.
pub open spec fn argument(e: Expr, scope: Scope) -> Result<SqlValue, Error> {
    if column_ref(e) is None {
        Err(Error::Aggregate(AggregateError::OnlyIdentifierAllowed))
    } else {
        eval(scope, e)
    }
}

/// A count with one more row in it.
pub open spec fn count_up(acc: SqlValue) -> Result<SqlValue, Error> {
    match acc {
        SqlValue::Int(n) => if in_i64(n + 1) {
            Ok(SqlValue::Int(n + 1))
        } else {
            Err(Error::Aggregate(AggregateError::Overflow))
        },
        _ => Err(Error::Aggregate(AggregateError::IntegerRequired)),
    }
}

/// A sum with one more value in it. `Null` is skipped, and the sum of no
/// values is `Null`.
pub open spec fn sum_up(acc: SqlValue, v: SqlValue) -> Result<SqlValue, Error> {
    match v {
        SqlValue::Null => Ok(acc),
        SqlValue::Int(x) => match acc {
            SqlValue::Null => Ok(v),
            SqlValue::Int(s) => if in_i64(s + x) {
                Ok(SqlValue::Int(s + x))
            } else {
                Err(Error::Aggregate(AggregateError::Overflow))
            },
            _ => Err(Error::Aggregate(AggregateError::IntegerRequired)),
        },
        _ => Err(Error::Aggregate(AggregateError::IntegerRequired)),
    }
}

/// The greater (or, for MIN, the lesser) of the value so far and one more
/// value, in the total order of values. `Null` is skipped.
pub open spec fn extreme(acc: SqlValue, v: SqlValue, greatest: bool) -> SqlValue {
    if v is Null {
        acc
    } else if acc is Null {
        v
    } else if greatest && value_less(acc, v) {
        v
    } else if !greatest && value_less(v, acc) {
        v
    } else {
        acc
    }
}

/// The value of an aggregate function after one more row.
pub open spec fn accumulate(a: Aggregate, acc: SqlValue, scope: Scope) -> Result<SqlValue, Error> {
    match a {
        Aggregate::Count(CountArgExpr::Wildcard) => count_up(acc),
        Aggregate::Count(CountArgExpr::Expr(e)) => match argument(e, scope) {
            Err(err) => Err(err),
            Ok(v) => if v is Null {
                Ok(acc)
            } else {
                count_up(acc)
            },
        },
        Aggregate::Sum(e) => match argument(e, scope) {
            Err(err) => Err(err),
            Ok(v) => sum_up(acc, v),
        },
        Aggregate::Max(e) => match argument(e, scope) {
            Err(err) => Err(err),
            Ok(v) => Ok(extreme(acc, v, true)),
        },
        Aggregate::Min(e) => match argument(e, scope) {
            Err(err) => Err(err),
            Ok(v) => Ok(extreme(acc, v, false)),
        },
    }
}

/// The first `n` aggregate values after one more row; the first error wins.
pub open spec fn accumulate_all(
    aggregates: Seq<Aggregate>,
    accs: Seq<SqlValue>,
    scope: Scope,
    n: int,
) -> Result<Seq<SqlValue>, Error>
    decreases n,
{
    if n <= 0 {
        Ok(Seq::empty())
    } else {
        match accumulate_all(aggregates, accs, scope, n - 1) {
            Err(e) => Err(e),
            Ok(done) => match accumulate(aggregates[n - 1], accs[n - 1], scope) {
                Err(e) => Err(e),
                Ok(v) => Ok(done.push(v)),
            },
        }
    }
}

/// The values of the first `n` expressions, from left to right; the first
/// error wins.
pub open spec fn keys_of(exprs: Seq<Expr>, scope: Scope, n: int) -> Result<Seq<SqlValue>, Error>
    decreases n,
{
    if n <= 0 {
        Ok(Seq::empty())
    } else {
        match keys_of(exprs, scope, n - 1) {
            Err(e) => Err(e),
            Ok(done) => match eval(scope, exprs[n - 1]) {
                Err(e) => Err(e),
                Ok(v) => Ok(done.push(v)),
            },
        }
    }
}

/// The keys of the groups, in the order of the groups.
pub open spec fn group_keys(groups: Seq<GroupState>) -> Seq<Seq<SqlValue>> {
    groups.map_values(|g: GroupState| g.key)
}

/// The groups after one more row: the row joins the group of its key, where
/// `Null` equals `Null`, or founds a new group behind the others.
pub open spec fn add_row(
    groups: Seq<GroupState>,
    chain: Seq<Binding>,
    group_by: Seq<Expr>,
    aggregates: Seq<Aggregate>,
    base: Scope,
) -> Result<Seq<GroupState>, Error> {
    let scope = row_scope(chain, base);
    match keys_of(group_by, scope, group_by.len() as int) {
        Err(e) => Err(e),
        Ok(key) => match group_keys(groups).index_of_first(key) {
            Some(i) => match accumulate_all(
                aggregates,
                groups[i].values,
                scope,
                aggregates.len() as int,
            ) {
                Err(e) => Err(e),
                Ok(values) => Ok(
                    groups.update(
                        i,
                        GroupState { key: groups[i].key, values: values, chain: groups[i].chain },
                    ),
                ),
            },
            None => match accumulate_all(
                aggregates,
                initials(aggregates),
                scope,
                aggregates.len() as int,
            ) {
                Err(e) => Err(e),
                Ok(values) => Ok(
                    groups.push(GroupState { key: key, values: values, chain: chain }),
                ),
            },
        },
    }
}

/// The groups of the first `n` items of a stream; the first error of the
/// stream or of the folding is the result.
pub open spec fn grouped(
    items: Seq<Result<Seq<Binding>, Error>>,
    group_by: Seq<Expr>,
    aggregates: Seq<Aggregate>,
    base: Scope,
    n: int,
) -> Result<Seq<GroupState>, Error>
    decreases n,
{
    if n <= 0 {
        Ok(Seq::empty())
    } else {
        match grouped(items, group_by, aggregates, base, n - 1) {
            Err(e) => Err(e),
            Ok(groups) => match items[n - 1] {
                Err(e) => Err(e),
                Ok(chain) => add_row(groups, chain, group_by, aggregates, base),
            },
        }
    }
}

/// Without GROUP BY the whole input is one group, also where it is empty:
/// then the group has the initial values and no row.
pub open spec fn with_implicit(
    groups: Seq<GroupState>,
    group_by: Seq<Expr>,
    aggregates: Seq<Aggregate>,
) -> Seq<GroupState> {
    if groups.len() == 0 && group_by.len() == 0 {
        seq![
            GroupState { key: Seq::empty(), values: initials(aggregates), chain: Seq::empty() },
        ]
    } else {
        groups
    }
}

/// The scope in which HAVING, ORDER BY and the projection see a group.
pub open spec fn group_scope(
    chain: Seq<Binding>,
    aggregates: Seq<Aggregate>,
    values: Seq<SqlValue>,
    base: Scope,
) -> Scope {
    Scope { chain: chain + base.chain, aggregates: aggregates, values: values }
}

/// What HAVING makes of a group: the group where it holds, nothing where it
/// does not, the error where it cannot be evaluated.
pub open spec fn having_item(
    g: GroupState,
    aggregates: Seq<Aggregate>,
    having: Option<&Expr>,
    base: Scope,
) -> Seq<Result<GroupModel, Error>> {
    match predicate(group_scope(g.chain, aggregates, g.values, base), having) {
        Err(e) => seq![Err(e)],
        Ok(true) => seq![Ok(GroupModel { values: Some(g.values), chain: g.chain })],
        Ok(false) => seq![],
    }
}

/// What HAVING makes of the first `n` groups, in their order.
pub open spec fn having_groups(
    groups: Seq<GroupState>,
    aggregates: Seq<Aggregate>,
    having: Option<&Expr>,
    base: Scope,
    n: int,
) -> Seq<Result<GroupModel, Error>>
    decreases n,
{
    if n <= 0 {
        Seq::empty()
    } else {
        having_groups(groups, aggregates, having, base, n - 1) + having_item(
            groups[n - 1],
            aggregates,
            having,
            base,
        )
    }
}

/// What a stream that is not aggregated gives for one item: every row is a
/// group by itself, without aggregate values, and is handed on where HAVING
/// holds of it.
pub open spec fn plain_item(item: Result<Seq<Binding>, Error>, having: Option<&Expr>, base: Scope) -> Seq<
    Result<GroupModel, Error>,
> {
    match item {
        Err(e) => seq![Err(e)],
        Ok(chain) => match predicate(row_scope(chain, base), having) {
            Err(e) => seq![Err(e)],
            Ok(true) => seq![Ok(GroupModel { values: None, chain: chain })],
            Ok(false) => seq![],
        },
    }
}

/// What a stream that is not aggregated gives for its first `n` items.
pub open spec fn plain(
    items: Seq<Result<Seq<Binding>, Error>>,
    having: Option<&Expr>,
    base: Scope,
    n: int,
) -> Seq<Result<GroupModel, Error>>
    decreases n,
{
    if n <= 0 {
        Seq::empty()
    } else {
        plain(items, having, base, n - 1) + plain_item(items[n - 1], having, base)
    }
}

/// Whether a query aggregates at all: it has a GROUP BY, or an aggregate
/// function stands in its projection, its HAVING or its ORDER BY.
pub open spec fn is_aggregating(group_by: Seq<Expr>, aggregates: Seq<Aggregate>) -> bool {
    group_by.len() > 0 || aggregates.len() > 0
}

/// The outcome of the stage. Where the query does not aggregate, every row
/// of which HAVING holds, in the order of the stream. Else the groups in the
/// order in which their keys first appear, as far as HAVING holds of them.
pub open spec fn aggregated(
    items: Seq<Result<Seq<Binding>, Error>>,
    group_by: Seq<Expr>,
    aggregates: Seq<Aggregate>,
    having: Option<&Expr>,
    base: Scope,
) -> Result<Seq<Result<GroupModel, Error>>, Error> {
    if !is_aggregating(group_by, aggregates) {
        Ok(plain(items, having, base, items.len() as int))
    } else {
        match grouped(items, group_by, aggregates, base, items.len() as int) {
            Err(e) => Err(e),
            Ok(groups) => {
                let all = with_implicit(groups, group_by, aggregates);
                Ok(having_groups(all, aggregates, having, base, all.len() as int))
            },
        }
    }
}

/// Once the folding of a row has met an error, that error is its result.
pub proof fn lemma_accumulate_error_stays(
    aggregates: Seq<Aggregate>,
    accs: Seq<SqlValue>,
    scope: Scope,
    i: int,
    n: int,
)
    requires
        0 <= i <= n,
        accumulate_all(aggregates, accs, scope, i) is Err,
    ensures
        accumulate_all(aggregates, accs, scope, n) == accumulate_all(aggregates, accs, scope, i),
    decreases n - i,
{
    if i < n {
        lemma_accumulate_error_stays(aggregates, accs, scope, i, n - 1);
    }
}

/// Once the evaluation of a list has met an error, that error is its result.
pub proof fn lemma_keys_error_stays(exprs: Seq<Expr>, scope: Scope, i: int, n: int)
    requires
        0 <= i <= n,
        keys_of(exprs, scope, i) is Err,
    ensures
        keys_of(exprs, scope, n) == keys_of(exprs, scope, i),
    decreases n - i,
{
    if i < n {
        lemma_keys_error_stays(exprs, scope, i, n - 1);
    }
}

/// Whether two lists of values are the same, value by value.
pub fn values_equal(a: &Vec<Value>, b: &Vec<Value>) -> (r: bool)
    ensures
        r == (values_view(a@) == values_view(b@)),
{
    if a.len() != b.len() {
        assert(values_view(a@).len() != values_view(b@).len());
        return false;
    }
    let n: usize = a.len();
    let mut i: usize = 0;
    while i < n
        invariant
            n == a.len(),
            n == b.len(),
            i <= n,
            forall|j: int| 0 <= j < i ==> a@[j]@ == b@[j]@,
        decreases n - i,
    {
        if !a[i].equals(&b[i]) {
            assert(values_view(a@)[i as int] != values_view(b@)[i as int]);
            return false;
        }
        i += 1;
    }
    assert(values_view(a@) =~= values_view(b@));
    true
}

fn argument_value(e: &Expr, context: &FilterContext) -> (r: Result<Value, Error>)
    ensures
        result_view(r) == argument(*e, scope_of(Some(context), None)),
{
    match e {
        Expr::Identifier(_) => evaluate(Some(context), None, e),
        Expr::CompoundIdentifier(parts) => {
            if parts.len() == 2 {
                evaluate(Some(context), None, e)
            } else {
                Err(Error::Aggregate(AggregateError::OnlyIdentifierAllowed))
            }
        },
        _ => Err(Error::Aggregate(AggregateError::OnlyIdentifierAllowed)),
    }
}

fn count_one(acc: &Value) -> (r: Result<Value, Error>)
    ensures
        result_view(r) == count_up(acc@),
{
    match acc {
        Value::I64(n) => match n.checked_add(1) {
            Some(m) => Ok(Value::I64(m)),
            None => Err(Error::Aggregate(AggregateError::Overflow)),
        },
        _ => Err(Error::Aggregate(AggregateError::IntegerRequired)),
    }
}

fn sum_one(acc: &Value, v: Value) -> (r: Result<Value, Error>)
    ensures
        result_view(r) == sum_up(acc@, v@),
{
    match v {
        Value::Null => Ok(acc.clone()),
        Value::I64(x) => match acc {
            Value::Null => Ok(Value::I64(x)),
            Value::I64(s) => match s.checked_add(x) {
                Some(t) => Ok(Value::I64(t)),
                None => Err(Error::Aggregate(AggregateError::Overflow)),
            },
            _ => Err(Error::Aggregate(AggregateError::IntegerRequired)),
        },
        _ => Err(Error::Aggregate(AggregateError::IntegerRequired)),
    }
}

fn extreme_one(acc: &Value, v: Value, greatest: bool) -> (r: Value)
    ensures
        r@ == extreme(acc@, v@, greatest),
{
    if v.is_null() {
        acc.clone()
    } else if acc.is_null() {
        v
    } else if greatest && acc.less_than(&v) {
        v
    } else if !greatest && v.less_than(acc) {
        v
    } else {
        acc.clone()
    }
}

fn accumulate_one(a: &Aggregate, acc: &Value, context: &FilterContext) -> (r: Result<Value, Error>)
    ensures
        result_view(r) == accumulate(*a, acc@, scope_of(Some(context), None)),
{
    match a {
        Aggregate::Count(CountArgExpr::Wildcard) => count_one(acc),
        Aggregate::Count(CountArgExpr::Expr(e)) => {
            let v = argument_value(e, context)?;
            if v.is_null() {
                Ok(acc.clone())
            } else {
                count_one(acc)
            }
        },
        Aggregate::Sum(e) => {
            let v = argument_value(e, context)?;
            sum_one(acc, v)
        },
        Aggregate::Max(e) => {
            let v = argument_value(e, context)?;
            Ok(extreme_one(acc, v, true))
        },
        Aggregate::Min(e) => {
            let v = argument_value(e, context)?;
            Ok(extreme_one(acc, v, false))
        },
    }
}

/// The model of the outcome of a list of evaluations.
pub open spec fn values_result_view(r: Result<Vec<Value>, Error>) -> Result<Seq<SqlValue>, Error> {
    match r {
        Ok(v) => Ok(values_view(v@)),
        Err(e) => Err(e),
    }
}

fn accumulate_row(aggregates: &Vec<&Aggregate>, accs: &Vec<Value>, context: &FilterContext) -> (r:
    Result<Vec<Value>, Error>)
    requires
        accs@.len() == aggregates@.len(),
    ensures
        values_result_view(r) == accumulate_all(
            aggregates_view(aggregates@),
            values_view(accs@),
            scope_of(Some(context), None),
            aggregates@.len() as int,
        ),
        r matches Ok(v) ==> v@.len() == aggregates@.len(),
{
    let ghost scope = scope_of(Some(context), None);
    let mut out: Vec<Value> = Vec::new();
    let n: usize = aggregates.len();
    let mut i: usize = 0;
    assert(values_view(out@) =~= Seq::<SqlValue>::empty());
    while i < n
        invariant
            n == aggregates@.len(),
            n == accs@.len(),
            i <= n,
            out@.len() == i,
            scope == scope_of(Some(context), None),
            accumulate_all(aggregates_view(aggregates@), values_view(accs@), scope, i as int)
                == Ok::<Seq<SqlValue>, Error>(values_view(out@)),
        decreases n - i,
    {
        let v = match accumulate_one(aggregates[i], &accs[i], context) {
            Ok(v) => v,
            Err(e) => {
                proof {
                    assert(aggregates_view(aggregates@)[i as int] == *aggregates@[i as int]);
                    lemma_accumulate_error_stays(
                        aggregates_view(aggregates@),
                        values_view(accs@),
                        scope,
                        i + 1,
                        n as int,
                    );
                }
                return Err(e);
            },
        };
        proof {
            assert(aggregates_view(aggregates@)[i as int] == *aggregates@[i as int]);
            lemma_values_view_push(out@, v);
        }
        out.push(v);
        i += 1;
    }
    Ok(out)
}

/// The values of a list of expressions in a context, from left to right.
pub fn evaluate_all(
    exprs: &Vec<Expr>,
    context: Option<&FilterContext>,
    aggregated: Option<&Aggregated>,
) -> (r: Result<Vec<Value>, Error>)
    ensures
        values_result_view(r) == keys_of(exprs@, scope_of(context, aggregated), exprs@.len() as int),
{
    let ghost scope = scope_of(context, aggregated);
    let mut out: Vec<Value> = Vec::new();
    let n: usize = exprs.len();
    let mut i: usize = 0;
    assert(values_view(out@) =~= Seq::<SqlValue>::empty());
    while i < n
        invariant
            n == exprs@.len(),
            i <= n,
            scope == scope_of(context, aggregated),
            keys_of(exprs@, scope, i as int) == Ok::<Seq<SqlValue>, Error>(values_view(out@)),
        decreases n - i,
    {
        let v = match evaluate(context, aggregated, &exprs[i]) {
            Ok(v) => v,
            Err(e) => {
                proof {
                    lemma_keys_error_stays(exprs@, scope, i + 1, n as int);
                }
                return Err(e);
            },
        };
        proof {
            lemma_values_view_push(out@, v);
        }
        out.push(v);
        i += 1;
    }
    Ok(out)
}

/// Once the folding of a stream has met an error, that error is its result.
pub proof fn lemma_grouped_error_stays(
    items: Seq<Result<Seq<Binding>, Error>>,
    group_by: Seq<Expr>,
    aggregates: Seq<Aggregate>,
    base: Scope,
    i: int,
    n: int,
)
    requires
        0 <= i <= n,
        grouped(items, group_by, aggregates, base, i) is Err,
    ensures
        grouped(items, group_by, aggregates, base, n) == grouped(
            items,
            group_by,
            aggregates,
            base,
            i,
        ),
    decreases n - i,
{
    if i < n {
        lemma_grouped_error_stays(items, group_by, aggregates, base, i, n - 1);
    }
}

/// The model of the keys of the groups found so far.
pub open spec fn keys_model(keys: Seq<Vec<Value>>) -> Seq<Seq<SqlValue>> {
    keys.map_values(|k: Vec<Value>| values_view(k@))
}

/// The model of the groups found so far, held as three lists side by side.
pub open spec fn groups_model(
    keys: Seq<Vec<Value>>,
    vals: Seq<Vec<Value>>,
    ctxs: Seq<Option<Rc<BlendContext>>>,
) -> Seq<GroupState> {
    Seq::new(
        keys.len(),
        |k: int|
            GroupState {
                key: values_view(keys[k]@),
                values: values_view(vals[k]@),
                chain: blend_chain(ctxs[k]),
            },
    )
}

fn find_group(keys: &Vec<Vec<Value>>, key: &Vec<Value>) -> (r: Option<usize>)
    ensures
        match r {
            Some(i) => i < keys@.len() && keys_model(keys@).index_of_first(values_view(key@))
                == Some(i as int),
            None => keys_model(keys@).index_of_first(values_view(key@)) is None,
        },
{
    let ghost model = keys_model(keys@);
    let ghost target = values_view(key@);
    let n: usize = keys.len();
    let mut i: usize = 0;
    while i < n
        invariant
            n == keys.len(),
            model == keys_model(keys@),
            target == values_view(key@),
            i <= n,
            forall|j: int| 0 <= j < i ==> model[j] != target,
        decreases n - i,
    {
        if values_equal(&keys[i], key) {
            proof {
                assert(model[i as int] == target);
                model.index_of_first_ensures(target);
            }
            return Some(i);
        }
        i += 1;
    }
    proof {
        model.index_of_first_ensures(target);
    }
    None
}

fn initial_values(aggregates: &Vec<&Aggregate>) -> (out: Vec<Value>)
    ensures
        values_view(out@) == initials(aggregates_view(aggregates@)),
        out@.len() == aggregates@.len(),
{
    let mut out: Vec<Value> = Vec::new();
    let n: usize = aggregates.len();
    let mut i: usize = 0;
    while i < n
        invariant
            n == aggregates@.len(),
            i <= n,
            out@.len() == i,
            forall|j: int| 0 <= j < i ==> out@[j]@ == initial(*aggregates@[j]),
        decreases n - i,
    {
        match aggregates[i] {
            Aggregate::Count(_) => out.push(Value::I64(0)),
            _ => out.push(Value::Null),
        }
        i += 1;
    }
    assert(values_view(out@) =~= initials(aggregates_view(aggregates@)));
    out
}

/// The model of the outcome of a stage that hands on groups.
pub open spec fn stage_view(r: Result<Vec<Result<AggregateContext, Error>>, Error>) -> Result<
    Seq<Result<GroupModel, Error>>,
    Error,
> {
    match r {
        Ok(items) => Ok(groups_view(items@)),
        Err(e) => Err(e),
    }
}

/// The model of a stream with one more item is the model with one more item.
pub proof fn lemma_groups_view_push(
    items: Seq<Result<AggregateContext, Error>>,
    item: Result<AggregateContext, Error>,
)
    ensures
        groups_view(items.push(item)) == groups_view(items).push(group_item_view(item)),
{
    assert(groups_view(items.push(item)) =~= groups_view(items).push(group_item_view(item)));
}

/// GROUP BY, the aggregate functions of the query, HAVING, and the context
/// of the enclosing query.
pub struct Aggregator<'a> {
    pub group_by: &'a Vec<Expr>,
    pub having: Option<&'a Expr>,
    pub aggregates: Vec<&'a Aggregate>,
    pub filter_context: Option<Rc<FilterContext>>,
}

impl<'a> Aggregator<'a> {
    /// What every row sees behind its own chain.
    pub open spec fn base(&self) -> Scope {
        outer_scope(context_chain(self.filter_context))
    }

    /// Gathers the aggregate functions of the projection, of HAVING and of
    /// ORDER BY.
    pub fn new(
        fields: &'a Vec<SelectItem>,
        group_by: &'a Vec<Expr>,
        having: Option<&'a Expr>,
        order_by: &'a Vec<OrderByExpr>,
        filter_context: Option<Rc<FilterContext>>,
    ) -> (r: Aggregator<'a>)
        ensures
            r.group_by == group_by,
            r.having == having,
            aggregates_view(r.aggregates@) == query_aggregates(fields@, having, order_by@),
            r.filter_context == filter_context,
    {
        Aggregator {
            group_by,
            having,
            aggregates: collect_query(fields, having, order_by),
            filter_context,
        }
    }

    fn pass(&self, rows: &Vec<Result<Rc<BlendContext>, Error>>) -> (out: Vec<
        Result<AggregateContext, Error>,
    >)
        ensures
            groups_view(out@) == plain(
                contexts_view(rows@),
                self.having,
                self.base(),
                rows@.len() as int,
            ),
    {
        let ghost items = contexts_view(rows@);
        let ghost base = self.base();
        let filter = Filter::new(self.having, share_option(&self.filter_context), None);
        assert(filter.base() == base);
        let mut out: Vec<Result<AggregateContext, Error>> = Vec::new();
        let n: usize = rows.len();
        let mut i: usize = 0;
        assert(groups_view(out@) =~= plain(items, self.having, base, 0));
        while i < n
            invariant
                n == rows@.len(),
                i <= n,
                items == contexts_view(rows@),
                base == self.base(),
                filter.where_clause == self.having,
                filter.base() == base,
                groups_view(out@) == plain(items, self.having, base, i as int),
            decreases n - i,
        {
            let ghost before = out@;
            assert(items[i as int] == item_view(rows@[i as int]));
            match &rows[i] {
                Err(e) => {
                    out.push(Err(e.clone()));
                },
                Ok(c) => match filter.check(Some(share(c))) {
                    Err(e) => {
                        out.push(Err(e));
                    },
                    Ok(pass) => {
                        if pass {
                            out.push(Ok(AggregateContext { aggregated: None, next: Some(share(c)) }));
                        }
                    },
                },
            }
            proof {
                let added = plain_item(items[i as int], self.having, base);
                if added.len() == 0 {
                    assert(groups_view(out@) + added =~= groups_view(out@));
                } else {
                    lemma_groups_view_push(before, out@.last());
                    assert(out@ == before.push(out@.last()));
                    assert(groups_view(before) + added =~= groups_view(before).push(added[0]));
                }
            }
            i += 1;
        }
        out
    }

    fn fold(&self, rows: &Vec<Result<Rc<BlendContext>, Error>>) -> (r: Result<
        (Vec<Vec<Value>>, Vec<Vec<Value>>, Vec<Option<Rc<BlendContext>>>),
        Error,
    >)
        ensures
            match r {
                Ok((keys, vals, ctxs)) => {
                    &&& keys@.len() == vals@.len()
                    &&& keys@.len() == ctxs@.len()
                    &&& forall|k: int|
                        0 <= k < vals@.len() ==> (#[trigger] vals@[k])@.len()
                            == self.aggregates@.len()
                    &&& grouped(
                        contexts_view(rows@),
                        self.group_by@,
                        aggregates_view(self.aggregates@),
                        self.base(),
                        rows@.len() as int,
                    ) == Ok::<Seq<GroupState>, Error>(groups_model(keys@, vals@, ctxs@))
                },
                Err(e) => grouped(
                    contexts_view(rows@),
                    self.group_by@,
                    aggregates_view(self.aggregates@),
                    self.base(),
                    rows@.len() as int,
                ) == Err::<Seq<GroupState>, Error>(e),
            },
    {
        let ghost items = contexts_view(rows@);
        let ghost aggs = aggregates_view(self.aggregates@);
        let ghost base = self.base();
        let mut keys: Vec<Vec<Value>> = Vec::new();
        let mut vals: Vec<Vec<Value>> = Vec::new();
        let mut ctxs: Vec<Option<Rc<BlendContext>>> = Vec::new();
        let n: usize = rows.len();
        let mut i: usize = 0;
        assert(groups_model(keys@, vals@, ctxs@) =~= Seq::<GroupState>::empty());
        while i < n
            invariant
                n == rows@.len(),
                i <= n,
                items == contexts_view(rows@),
                aggs == aggregates_view(self.aggregates@),
                base == self.base(),
                keys@.len() == vals@.len(),
                keys@.len() == ctxs@.len(),
                forall|k: int|
                    0 <= k < vals@.len() ==> (#[trigger] vals@[k])@.len() == self.aggregates@.len(),
                grouped(items, self.group_by@, aggs, base, i as int) == Ok::<
                    Seq<GroupState>,
                    Error,
                >(groups_model(keys@, vals@, ctxs@)),
            decreases n - i,
        {
            let ghost groups = groups_model(keys@, vals@, ctxs@);
            assert(items[i as int] == item_view(rows@[i as int]));
            let c = match &rows[i] {
                Ok(c) => c,
                Err(e) => {
                    proof {
                        lemma_grouped_error_stays(
                            items,
                            self.group_by@,
                            aggs,
                            base,
                            i + 1,
                            n as int,
                        );
                    }
                    return Err(e.clone());
                },
            };
            let context = FilterContext::new(Some(share(c)), share_option(&self.filter_context));
            assert(context.chain() =~= c.chain() + base.chain);
            assert(scope_of(Some(&context), None) == row_scope(c.chain(), base));
            let key = match evaluate_all(self.group_by, Some(&context), None) {
                Ok(key) => key,
                Err(e) => {
                    proof {
                        lemma_grouped_error_stays(
                            items,
                            self.group_by@,
                            aggs,
                            base,
                            i + 1,
                            n as int,
                        );
                    }
                    return Err(e);
                },
            };
            assert(group_keys(groups) =~= keys_model(keys@));
            match find_group(&keys, &key) {
                Some(g) => {
                    assert(groups[g as int].values == values_view(vals@[g as int]@));
                    let updated = match accumulate_row(&self.aggregates, &vals[g], &context) {
                        Ok(v) => v,
                        Err(e) => {
                            proof {
                                lemma_grouped_error_stays(
                                    items,
                                    self.group_by@,
                                    aggs,
                                    base,
                                    i + 1,
                                    n as int,
                                );
                            }
                            return Err(e);
                        },
                    };
                    vals.set(g, updated);
                    assert(groups_model(keys@, vals@, ctxs@) =~= groups.update(
                        g as int,
                        GroupState {
                            key: groups[g as int].key,
                            values: values_view(updated@),
                            chain: groups[g as int].chain,
                        },
                    ));
                },
                None => {
                    let start = initial_values(&self.aggregates);
                    let first = match accumulate_row(&self.aggregates, &start, &context) {
                        Ok(v) => v,
                        Err(e) => {
                            proof {
                                lemma_grouped_error_stays(
                                    items,
                                    self.group_by@,
                                    aggs,
                                    base,
                                    i + 1,
                                    n as int,
                                );
                            }
                            return Err(e);
                        },
                    };
                    keys.push(key);
                    vals.push(first);
                    ctxs.push(Some(share(c)));
                    assert(groups_model(keys@, vals@, ctxs@) =~= groups.push(
                        GroupState {
                            key: values_view(key@),
                            values: values_view(first@),
                            chain: c.chain(),
                        },
                    ));
                },
            }
            i += 1;
        }
        Ok((keys, vals, ctxs))
    }

    /// Groups the stream and applies HAVING. Where the query does not
    /// aggregate, every row is a group by itself.
    pub fn apply(&self, rows: Vec<Result<Rc<BlendContext>, Error>>) -> (r: Result<
        Vec<Result<AggregateContext, Error>>,
        Error,
    >)
        ensures
            stage_view(r) == aggregated(
                contexts_view(rows@),
                self.group_by@,
                aggregates_view(self.aggregates@),
                self.having,
                self.base(),
            ),
    {
        let ghost items = contexts_view(rows@);
        let ghost aggs = aggregates_view(self.aggregates@);
        let ghost base = self.base();
        assert(items.len() == rows@.len());
        assert(aggs.len() == self.aggregates@.len());
        if self.group_by.len() == 0 && self.aggregates.len() == 0 {
            return Ok(self.pass(&rows));
        }
        let (mut keys, mut vals, mut ctxs) = self.fold(&rows)?;
        let ghost folded = groups_model(keys@, vals@, ctxs@);
        if keys.len() == 0 && self.group_by.len() == 0 {
            keys.push(Vec::new());
            vals.push(initial_values(&self.aggregates));
            ctxs.push(None);
            assert(values_view(Seq::<Value>::empty()) =~= Seq::<SqlValue>::empty());
            assert(groups_model(keys@, vals@, ctxs@) =~= with_implicit(
                folded,
                self.group_by@,
                aggs,
            ));
        }
        let ghost groups = groups_model(keys@, vals@, ctxs@);
        assert(groups == with_implicit(folded, self.group_by@, aggs));
        let mut out: Vec<Result<AggregateContext, Error>> = Vec::new();
        let n: usize = keys.len();
        let mut k: usize = 0;
        assert(groups_view(out@) =~= having_groups(groups, aggs, self.having, base, 0));
        while k < n
            invariant
                n == keys@.len(),
                n == vals@.len(),
                n == ctxs@.len(),
                k <= n,
                aggs == aggregates_view(self.aggregates@),
                base == self.base(),
                groups == groups_model(keys@, vals@, ctxs@),
                groups_view(out@) == having_groups(groups, aggs, self.having, base, k as int),
            decreases n - k,
        {
            let ghost before = out@;
            let aggregated = Aggregated { aggregates: &self.aggregates, values: &vals[k] };
            let filter = Filter::new(
                self.having,
                share_option(&self.filter_context),
                Some(aggregated),
            );
            assert(filter.scope(ctxs@[k as int]) == group_scope(
                groups[k as int].chain,
                aggs,
                groups[k as int].values,
                base,
            ));
            match filter.check(share_option(&ctxs[k])) {
                Err(e) => {
                    out.push(Err(e));
                },
                Ok(pass) => {
                    if pass {
                        out.push(
                            Ok(
                                AggregateContext {
                                    aggregated: Some(clone_values(&vals[k])),
                                    next: share_option(&ctxs[k]),
                                },
                            ),
                        );
                    }
                },
            }
            proof {
                let added = having_item(groups[k as int], aggs, self.having, base);
                if added.len() == 0 {
                    assert(groups_view(out@) + added =~= groups_view(out@));
                } else {
                    lemma_groups_view_push(before, out@.last());
                    assert(out@ == before.push(out@.last()));
                    assert(groups_view(before) + added =~= groups_view(before).push(added[0]));
                }
            }
            k += 1;
        }
        Ok(out)
    }
}

} // verus!
