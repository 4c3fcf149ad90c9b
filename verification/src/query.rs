//! What holds of the rows of whole queries of simple shapes.

use vstd::prelude::*;
use crate::aggregate::{
    aggregated, group_keys, group_scope, grouped, having_groups, is_aggregating, plain, plain_item,
    with_implicit, GroupModel, GroupState,
};
use crate::ast::{Aggregate, Expr, JoinOperator, Query, Select};
use crate::blend::{binding_values, blended, blended_item, blended_rows, chain_values, item_values};
use crate::collect::{aggregates_in_fields, aggregates_in_order, query_aggregates};
use crate::context::{names_view, Binding};
use crate::error::{Error, RowError, SelectError};
use crate::evaluate::Scope;
use crate::fetch::{
    alias_of, join_columns_of, lemma_join_columns_len, relation_columns, relation_rows,
};
use crate::filter::{filter_item, filter_stream, outer_scope, predicate, row_scope};
use crate::join::{
    candidate, candidates, constraint, extended, is_match, joined, joined_item, joined_row, joined_rows, match_count,
    RelationModel, StepModel,
};
use crate::laws::{
    first_row, law_group_order, law_having, law_inner_join_row, law_left_outer_join_row, law_sorted,
    ok_count, row_key,
};
use crate::limit::{limit_of, Limit};
use crate::select::{
    base_item, base_items, join_labels, join_steps, labels, option_ref, select_labels, select_rows,
    selected, wildcard_labels,
};
use crate::shape::{
    base_shape, chain_columns, expected_shape, lemma_base_items_shape, lemma_chain_columns_expected,
    lemma_filter_shape, lemma_join_steps_shape, lemma_joined_shape, shape, steps_shape,
};
use crate::sort::{directions, keys_before, sort_keys, sorted, sorted_order};
use crate::store::{stored_view, Store};
use crate::value::SqlValue;

verus! {

/// The row that `*` gives for one item of a stream of contexts: the values
/// of the relations of its chain, the base relation first; an error stays.
pub open spec fn wildcard_row(item: Result<Seq<Binding>, Error>) -> Result<Seq<SqlValue>, Error> {
    match item {
        Err(e) => Err(e),
        Ok(chain) => if chain.len() == 0 {
            Err(Error::Select(SelectError::WildcardOnEmptyGroup))
        } else {
            chain_values(chain)
        },
    }
}

/// The rows that `*` gives for a stream of contexts, item by item.
pub open spec fn wildcard_rows(items: Seq<Result<Seq<Binding>, Error>>) -> Seq<
    Result<Seq<SqlValue>, Error>,
> {
    items.map_values(|item: Result<Seq<Binding>, Error>| wildcard_row(item))
}

/// Whether a SELECT does nothing but read, join and filter, and shows every
/// column: `SELECT * FROM ... [JOIN ...] [WHERE ...]`.
pub open spec fn is_plain(select: Select) -> bool {
    &&& select.projection@.len() == 1
    &&& select.projection@[0] is Wildcard
    &&& select.group_by@.len() == 0
    &&& select.having is None
    &&& select.order_by@.len() == 0
}

/// The contexts of a SELECT before they are grouped: the rows of the base
/// relation, joined, and filtered by WHERE.
pub open spec fn filtered_contexts(
    select: Select,
    rows: Seq<Result<(u64, Seq<SqlValue>), Error>>,
    columns: Seq<String>,
    steps: Seq<StepModel>,
    outer: Seq<Binding>,
) -> Seq<Result<Seq<Binding>, Error>> {
    let base = outer_scope(outer);
    let fetched = base_items(rows, alias_of(select.from.relation), names_view(columns));
    let joined_items = joined(fetched, steps, base, steps.len() as int);
    filter_stream(joined_items, option_ref(&select.selection), base, joined_items.len() as int)
}

/// A stream that is not aggregated and has no HAVING is handed on item by
/// item.
pub proof fn lemma_plain_every_item(items: Seq<Result<Seq<Binding>, Error>>, base: Scope, n: int)
    requires
        0 <= n <= items.len(),
    ensures
        plain(items, None, base, n).len() == n,
        forall|i: int|
            0 <= i < n ==> #[trigger] plain(items, None, base, n)[i] == match items[i] {
                Ok(chain) => Ok::<GroupModel, Error>(GroupModel { values: None, chain: chain }),
                Err(e) => Err::<GroupModel, Error>(e),
            },
    decreases n,
{
    if n > 0 {
        lemma_plain_every_item(items, base, n - 1);
        let before = plain(items, None, base, n - 1);
        let added = plain_item(items[n - 1], None, base);
        let all = plain(items, None, base, n);
        assert(added.len() == 1);
        assert forall|i: int| 0 <= i < n implies #[trigger] all[i] == match items[i] {
            Ok(chain) => Ok::<GroupModel, Error>(GroupModel { values: None, chain: chain }),
            Err(e) => Err::<GroupModel, Error>(e),
        } by {
            if i < n - 1 {
                assert(all[i] == before[i]);
            } else {
                assert(all[i] == added[0]);
            }
        }
    }
}

/// The rows of a plain SELECT without OFFSET and LIMIT: for each context
/// that the joins and WHERE leave, in their order, the row that `*` gives.
pub proof fn law_plain_rows(
    select: Select,
    rows: Seq<Result<(u64, Seq<SqlValue>), Error>>,
    columns: Seq<String>,
    steps: Seq<StepModel>,
    outer: Seq<Binding>,
)
    requires
        is_plain(select),
    ensures
        select_rows(select, rows, columns, steps, Limit { limit: None, offset: None }, outer)
            == Ok::<Seq<Result<Seq<SqlValue>, Error>>, Error>(
            wildcard_rows(filtered_contexts(select, rows, columns, steps, outer)),
        ),
{
    let base = outer_scope(outer);
    let limit = Limit { limit: None, offset: None };
    let stream = filtered_contexts(select, rows, columns, steps, outer);
    let fields = select.projection@;
    let having = option_ref(&select.having);
    assert(having is None);
    assert(aggregates_in_fields(fields, 0) =~= Seq::<Aggregate>::empty());
    assert(aggregates_in_fields(fields, 1) =~= Seq::<Aggregate>::empty());
    assert(aggregates_in_order(select.order_by@, 0) =~= Seq::<Aggregate>::empty());
    let aggregates = query_aggregates(fields, having, select.order_by@);
    assert(aggregates =~= Seq::<Aggregate>::empty());
    assert(!is_aggregating(select.group_by@, aggregates));
    let groups = plain(stream, having, base, stream.len() as int);
    assert(aggregated(stream, select.group_by@, aggregates, having, base) == Ok::<
        Seq<Result<GroupModel, Error>>,
        Error,
    >(groups));
    lemma_plain_every_item(stream, base, stream.len() as int);
    assert(sorted(groups, select.order_by@, aggregates, base) == Ok::<
        Seq<Result<GroupModel, Error>>,
        Error,
    >(groups));
    let out = blended_rows(groups, fields, aggregates, base);
    let wanted = wildcard_rows(stream);
    assert(out.len() == wanted.len());
    assert forall|i: int| 0 <= i < out.len() implies out[i] == wanted[i] by {
        assert(out[i] == blended_item(groups[i], fields, aggregates, base));
        match stream[i] {
            Err(e) => {},
            Ok(chain) => {
                let g = GroupModel { values: None, chain: chain };
                assert(groups[i] == Ok::<GroupModel, Error>(g));
                assert(blended(fields, g, aggregates, base, 0) == Ok::<Seq<SqlValue>, Error>(
                    Seq::empty(),
                ));
                let more = item_values(fields[0], g, aggregates, base);
                if more is Ok {
                    assert(Seq::<SqlValue>::empty() + more->Ok_0 =~= more->Ok_0);
                }
            },
        }
    }
    assert(out =~= wanted);
    assert(limit.slice(out) =~= out);
}

/// What WHERE and `*` make of one stored row of a relation that is read
/// alone: a row that could not be read keeps its error; a row of which the
/// predicate holds gives its values, one for each column; a row of which it
/// is false or `Null` gives nothing; a row of which it cannot be decided
/// gives that error.
pub open spec fn where_row(
    item: Result<(u64, Seq<SqlValue>), Error>,
    alias: Result<String, Error>,
    columns: Seq<Seq<char>>,
    expr: Option<&Expr>,
    outer: Seq<Binding>,
) -> Seq<Result<Seq<SqlValue>, Error>> {
    match base_item(item, alias, columns) {
        Err(e) => seq![Err(e)],
        Ok(chain) => match predicate(row_scope(chain, outer_scope(outer)), expr) {
            Err(e) => seq![Err(e)],
            Ok(true) => seq![binding_values(chain[0])],
            Ok(false) => seq![],
        },
    }
}

/// What WHERE and `*` make of the first `n` stored rows, in their order.
pub open spec fn where_rows(
    rows: Seq<Result<(u64, Seq<SqlValue>), Error>>,
    alias: Result<String, Error>,
    columns: Seq<Seq<char>>,
    expr: Option<&Expr>,
    outer: Seq<Binding>,
    n: int,
) -> Seq<Result<Seq<SqlValue>, Error>>
    decreases n,
{
    if n <= 0 {
        Seq::empty()
    } else {
        where_rows(rows, alias, columns, expr, outer, n - 1) + where_row(
            rows[n - 1],
            alias,
            columns,
            expr,
            outer,
        )
    }
}

/// `*` gives for a chain of one relation the values of that relation.
pub proof fn lemma_single_chain_values(chain: Seq<Binding>)
    requires
        chain.len() == 1,
    ensures
        chain_values(chain) == binding_values(chain[0]),
{
    assert(chain.drop_first().len() == 0);
    assert(chain_values(chain.drop_first()) == Ok::<Seq<SqlValue>, Error>(Seq::empty()));
    let own = binding_values(chain[0]);
    if own is Ok {
        assert(Seq::<SqlValue>::empty() + own->Ok_0 =~= own->Ok_0);
    }
}

/// What `*` gives for the filtered rows of one relation is what WHERE and
/// `*` make of its stored rows.
pub proof fn lemma_where_rows(
    rows: Seq<Result<(u64, Seq<SqlValue>), Error>>,
    alias: Result<String, Error>,
    columns: Seq<Seq<char>>,
    expr: Option<&Expr>,
    outer: Seq<Binding>,
    n: int,
)
    requires
        0 <= n <= rows.len(),
    ensures
        wildcard_rows(
            filter_stream(base_items(rows, alias, columns), expr, outer_scope(outer), n),
        ) == where_rows(rows, alias, columns, expr, outer, n),
    decreases n,
{
    let items = base_items(rows, alias, columns);
    let base = outer_scope(outer);
    if n <= 0 {
        assert(wildcard_rows(filter_stream(items, expr, base, n)) =~= where_rows(
            rows,
            alias,
            columns,
            expr,
            outer,
            n,
        ));
    } else {
        lemma_where_rows(rows, alias, columns, expr, outer, n - 1);
        let before = filter_stream(items, expr, base, n - 1);
        let added = filter_item(items[n - 1], expr, base);
        assert(items[n - 1] == base_item(rows[n - 1], alias, columns));
        let row = where_row(rows[n - 1], alias, columns, expr, outer);
        if items[n - 1] is Ok {
            lemma_single_chain_values(items[n - 1]->Ok_0);
        }
        assert(wildcard_rows(added) =~= row);
        assert(wildcard_rows(before + added) =~= wildcard_rows(before) + wildcard_rows(added));
    }
}

/// WHERE over one relation: the rows of `SELECT * FROM t WHERE p` are, in
/// the order of the storage, the rows of `t` of which `p` holds; a row of
/// which `p` is `Null` is left out like one of which it is false, and a row
/// of which `p` cannot be evaluated gives its error in its place.
pub proof fn law_where_query(storage: Store, query: Query, outer: Seq<Binding>, with_labels: bool)
    requires
        query.body is Select,
        is_plain(*query.body->Select_0),
        query.body->Select_0.from.joins@.len() == 0,
        query.limit is None,
        query.offset is None,
    ensures
        selected(storage, query, outer, with_labels) matches Ok(out) ==> {
            let select = *query.body->Select_0;
            let rows = stored_view(relation_rows(storage, select.from.relation)->Ok_0@);
            let columns = names_view(relation_columns(storage, select.from.relation)->Ok_0);
            out.1 == where_rows(
                rows,
                alias_of(select.from.relation),
                columns,
                option_ref(&select.selection),
                outer,
                rows.len() as int,
            )
        },
{
    if selected(storage, query, outer, with_labels) is Ok {
        let select = *query.body->Select_0;
        let stored = stored_view(relation_rows(storage, select.from.relation)->Ok_0@);
        let columns = relation_columns(storage, select.from.relation)->Ok_0;
        let join_columns = join_columns_of(select.from.joins@, storage, 0)->Ok_0;
        let steps = join_steps(select.from.joins@, storage, join_columns, 0)->Ok_0;
        assert(steps.len() == 0);
        let limit = limit_of(option_ref(&query.limit), option_ref(&query.offset))->Ok_0;
        assert(limit == Limit { limit: None, offset: None });
        law_plain_rows(select, stored, columns, steps, outer);
        let fetched = base_items(stored, alias_of(select.from.relation), names_view(columns));
        assert(fetched.len() == stored.len());
        lemma_where_rows(
            stored,
            alias_of(select.from.relation),
            names_view(columns),
            option_ref(&select.selection),
            outer,
            stored.len() as int,
        );
    }
}

/// A stream that no predicate filters stays as it is.
pub proof fn lemma_filter_nothing(items: Seq<Result<Seq<Binding>, Error>>, base: Scope, n: int)
    requires
        0 <= n <= items.len(),
    ensures
        filter_stream(items, None, base, n) == items.take(n),
    decreases n,
{
    if n <= 0 {
        assert(filter_stream(items, None, base, n) =~= items.take(n));
    } else {
        lemma_filter_nothing(items, base, n - 1);
        let added = filter_item(items[n - 1], None, base);
        assert(added =~= seq![items[n - 1]]);
        assert(items.take(n - 1) + added =~= items.take(n));
    }
}

/// The rows of a query with one join, for the first `n` rows of the base
/// relation: for each of them in turn the rows that it gives with the rows
/// of the joined relation.
pub open spec fn join_query_rows(
    lefts: Seq<Result<Seq<Binding>, Error>>,
    rel: RelationModel,
    op: &JoinOperator,
    base: Scope,
    n: int,
) -> Seq<Result<Seq<SqlValue>, Error>>
    decreases n,
{
    if n <= 0 {
        Seq::empty()
    } else {
        join_query_rows(lefts, rel, op, base, n - 1) + wildcard_rows(
            joined_item(lefts[n - 1], rel, op, base),
        )
    }
}

/// What `*` gives for a joined stream is, left row by left row, what it
/// gives for the contexts of that row.
pub proof fn lemma_join_query_rows(
    lefts: Seq<Result<Seq<Binding>, Error>>,
    rel: RelationModel,
    op: &JoinOperator,
    base: Scope,
    n: int,
)
    requires
        0 <= n,
    ensures
        wildcard_rows(joined_rows(lefts, rel, op, base, n)) == join_query_rows(
            lefts,
            rel,
            op,
            base,
            n,
        ),
    decreases n,
{
    if n <= 0 {
        assert(wildcard_rows(joined_rows(lefts, rel, op, base, n)) =~= join_query_rows(
            lefts,
            rel,
            op,
            base,
            n,
        ));
    } else {
        lemma_join_query_rows(lefts, rel, op, base, n - 1);
        let before = joined_rows(lefts, rel, op, base, n - 1);
        let added = joined_item(lefts[n - 1], rel, op, base);
        assert(wildcard_rows(before + added) =~= wildcard_rows(before) + wildcard_rows(added));
    }
}

/// The relation that the one join of a query joins, as the snapshot holds
/// it.
pub open spec fn joined_relation(storage: Store, select: Select) -> RelationModel {
    let joins = select.from.joins@;
    let join_columns = join_columns_of(joins, storage, 1)->Ok_0;
    RelationModel {
        alias: join_columns[0].0@,
        columns: names_view(join_columns[0].1),
        rows: stored_view(relation_rows(storage, joins[0].relation)->Ok_0@),
    }
}

/// The contexts of the rows of the base relation of a query.
pub open spec fn base_contexts_of(storage: Store, select: Select) -> Seq<
    Result<Seq<Binding>, Error>,
> {
    base_items(
        stored_view(relation_rows(storage, select.from.relation)->Ok_0@),
        alias_of(select.from.relation),
        names_view(relation_columns(storage, select.from.relation)->Ok_0),
    )
}

/// One join and nothing else: the rows of `SELECT * FROM l JOIN r ON p` are,
/// for each row of `l` in the order of the storage, the rows that `*` gives
/// for the contexts that the join makes of it.
pub proof fn law_join_query(storage: Store, query: Query, outer: Seq<Binding>, with_labels: bool)
    requires
        query.body is Select,
        is_plain(*query.body->Select_0),
        query.body->Select_0.from.joins@.len() == 1,
        query.body->Select_0.selection is None,
        query.limit is None,
        query.offset is None,
    ensures
        selected(storage, query, outer, with_labels) matches Ok(out) ==> {
            let select = *query.body->Select_0;
            let lefts = base_contexts_of(storage, select);
            out.1 == join_query_rows(
                lefts,
                joined_relation(storage, select),
                &select.from.joins@[0].join_operator,
                outer_scope(outer),
                lefts.len() as int,
            )
        },
{
    if selected(storage, query, outer, with_labels) is Ok {
        let select = *query.body->Select_0;
        let base = outer_scope(outer);
        let stored = stored_view(relation_rows(storage, select.from.relation)->Ok_0@);
        let columns = relation_columns(storage, select.from.relation)->Ok_0;
        let joins = select.from.joins@;
        let join_columns = join_columns_of(joins, storage, 1)->Ok_0;
        assert(join_steps(joins, storage, join_columns, 0) == Ok::<Seq<StepModel>, Error>(
            Seq::empty(),
        ));
        let steps = join_steps(joins, storage, join_columns, 1)->Ok_0;
        assert(steps.len() == 1);
        let rel = joined_relation(storage, select);
        assert(steps[0].relation == rel);
        assert(steps[0].operator == joins[0].join_operator);
        let limit = limit_of(option_ref(&query.limit), option_ref(&query.offset))->Ok_0;
        assert(limit == Limit { limit: None, offset: None });
        law_plain_rows(select, stored, columns, steps, outer);
        let lefts = base_contexts_of(storage, select);
        assert(joined(lefts, steps, base, 0) == lefts);
        let all = joined_rows(lefts, rel, &steps[0].operator, base, lefts.len() as int);
        assert(joined(lefts, steps, base, 1) == all);
        lemma_filter_nothing(all, base, all.len() as int);
        assert(all.take(all.len() as int) =~= all);
        lemma_join_query_rows(lefts, rel, &joins[0].join_operator, base, lefts.len() as int);
    }
}

/// The row that `*` gives for a joined context: the values of the left row
/// followed by those of the joined row, one for each column of the joined
/// relation, or by as many `Null` where the context is null-extended.
pub proof fn law_joined_values(
    left: Seq<Binding>,
    rel: RelationModel,
    row: Option<(u64, Seq<SqlValue>)>,
)
    ensures
        wildcard_row(Ok(extended(left, rel, row))) == match chain_values(left) {
            Err(e) => Err::<Seq<SqlValue>, Error>(e),
            Ok(values) => match row {
                None => Ok(values + Seq::new(rel.columns.len(), |i: int| SqlValue::Null)),
                Some(r) => if r.1.len() < rel.columns.len() {
                    Err(Error::Row(RowError::ConflictOnStorageColumnIndex))
                } else {
                    Ok(values + r.1.take(rel.columns.len() as int))
                },
            },
        },
{
    let chain = extended(left, rel, row);
    assert(chain.drop_first() =~= left);
    assert(chain.len() > 0);
}

/// The rows that come from one row of the left relation: one for each
/// context that the join makes of it, in their order. Under an inner join
/// the context of the left row with a row of the joined relation is among
/// them if and only if ON holds of the two. Under a left outer join without
/// a match there is exactly one context, the null-extended one; with `k`
/// matches there are exactly `k`, none of them null-extended.
pub proof fn law_join_rows_of_left(
    left: Seq<Binding>,
    rel: RelationModel,
    op: &JoinOperator,
    base: Scope,
    row: (u64, Seq<SqlValue>),
)
    ensures
        ({
            let contexts = joined_row(left, rel, op, base);
            let rows = wildcard_rows(joined_item(Ok(left), rel, op, base));
            let k = match_count(left, rel, constraint(op), base, rel.rows.len() as int);
            &&& rows.len() == contexts.len()
            &&& forall|i: int| 0 <= i < rows.len() ==> #[trigger] rows[i] == wildcard_row(contexts[i])
            &&& op is Inner && rel.rows.contains(Ok(row)) ==> (is_match(
                left,
                rel,
                constraint(op),
                base,
                Ok(row),
            ) <==> contexts.contains(Ok(extended(left, rel, Some(row)))))
            &&& op is LeftOuter && k == 0 ==> ok_count(contexts) == 1 && contexts.last() == Ok::<
                Seq<Binding>,
                Error,
            >(extended(left, rel, None))
            &&& op is LeftOuter && k > 0 ==> ok_count(contexts) == k && forall|i: int|
                0 <= i < contexts.len() ==> (#[trigger] contexts[i] matches Ok(c)
                    ==> c[0].row is Some)
        }),
{
    if op is Inner && rel.rows.contains(Ok(row)) {
        law_inner_join_row(left, rel, op, base, row);
    }
    if op is LeftOuter {
        law_left_outer_join_row(left, rel, op, base);
    }
}

/// The join clauses of a query with the relations that the snapshot holds
/// for them.
pub open spec fn steps_of(storage: Store, select: Select) -> Seq<StepModel> {
    let joins = select.from.joins@;
    let join_columns = join_columns_of(joins, storage, joins.len() as int)->Ok_0;
    join_steps(joins, storage, join_columns, joins.len() as int)->Ok_0
}

/// The contexts of a query before they are grouped: the rows of the base
/// relation as the snapshot holds them, joined, and filtered by WHERE.
pub open spec fn contexts_of(storage: Store, select: Select, outer: Seq<Binding>) -> Seq<
    Result<Seq<Binding>, Error>,
> {
    filtered_contexts(
        select,
        stored_view(relation_rows(storage, select.from.relation)->Ok_0@),
        relation_columns(storage, select.from.relation)->Ok_0,
        steps_of(storage, select),
        outer,
    )
}

/// The aggregate functions of a SELECT.
pub open spec fn aggregates_of(select: Select) -> Seq<Aggregate> {
    query_aggregates(select.projection@, option_ref(&select.having), select.order_by@)
}

/// The items of a query before they are sorted: its rows, or its groups as
/// far as HAVING holds of them.
pub open spec fn items_of(storage: Store, select: Select, outer: Seq<Binding>) -> Seq<
    Result<GroupModel, Error>,
> {
    aggregated(
        contexts_of(storage, select, outer),
        select.group_by@,
        aggregates_of(select),
        option_ref(&select.having),
        outer_scope(outer),
    )->Ok_0
}

/// ORDER BY in a whole query without OFFSET and LIMIT: every item that the
/// earlier stages leave gives exactly one output row; the row of no item
/// stands behind the row of an item that it sorts before; and the rows of
/// items that sort alike stand in the order in which the items came.
pub proof fn law_order_by_query(storage: Store, query: Query, outer: Seq<Binding>, with_labels: bool)
    requires
        query.body is Select,
        query.body->Select_0.order_by@.len() > 0,
        query.limit is None,
        query.offset is None,
    ensures
        selected(storage, query, outer, with_labels) matches Ok(out) ==> {
            let select = *query.body->Select_0;
            let base = outer_scope(outer);
            let aggregates = aggregates_of(select);
            let items = items_of(storage, select, outer);
            let n = items.len() as int;
            let keys = sort_keys(items, select.order_by@, aggregates, base, n)->Ok_0;
            let d = directions(select.order_by@);
            let order = sorted_order(keys, d, n);
            &&& out.1.len() == n
            &&& order.len() == n
            &&& forall|i: int| 0 <= i < n ==> 0 <= #[trigger] order[i] < n
            &&& forall|i: int|
                0 <= i < n ==> #[trigger] out.1[i] == blended_item(
                    items[order[i]],
                    select.projection@,
                    aggregates,
                    base,
                )
            &&& forall|i: int, j: int| 0 <= i < j < n ==> order[i] != order[j]
            &&& forall|i: int, j: int|
                0 <= i < j < n ==> !keys_before(keys[order[j]], keys[order[i]], d, 0)
            &&& forall|i: int, j: int|
                0 <= i < j < n && !keys_before(keys[order[i]], keys[order[j]], d, 0) ==> order[i]
                    < order[j]
        },
{
    if selected(storage, query, outer, with_labels) is Ok {
        let select = *query.body->Select_0;
        let base = outer_scope(outer);
        let aggregates = aggregates_of(select);
        let items = items_of(storage, select, outer);
        let limit = limit_of(option_ref(&query.limit), option_ref(&query.offset))->Ok_0;
        assert(limit == Limit { limit: None, offset: None });
        law_sorted(items, select.order_by@, aggregates, base);
        let ordered = sorted(items, select.order_by@, aggregates, base)->Ok_0;
        let rows = blended_rows(ordered, select.projection@, aggregates, base);
        assert(limit.slice(rows) =~= rows);
        let out = selected(storage, query, outer, with_labels)->Ok_0;
        assert(out.1 == rows);
        let n = items.len() as int;
        let keys = sort_keys(items, select.order_by@, aggregates, base, n)->Ok_0;
        let order = sorted_order(keys, directions(select.order_by@), n);
        assert forall|i: int| 0 <= i < n implies #[trigger] out.1[i] == blended_item(
            items[order[i]],
            select.projection@,
            aggregates,
            base,
        ) by {
            assert(ordered[i] == items[order[i]]);
        }
    }
}

/// GROUP BY and HAVING in a whole query without ORDER BY, OFFSET and LIMIT.
/// The output rows are the projections of the groups of which HAVING holds,
/// in the order of the groups. The groups stand in the order in which their
/// keys first appear among the contexts that WHERE leaves, each with the
/// context of the first row of its key; and a group is among those that are
/// projected if and only if HAVING holds of it.
pub proof fn law_group_by_query(
    storage: Store,
    query: Query,
    outer: Seq<Binding>,
    with_labels: bool,
    g: GroupState,
)
    requires
        query.body is Select,
        query.body->Select_0.group_by@.len() > 0,
        query.body->Select_0.order_by@.len() == 0,
        query.limit is None,
        query.offset is None,
    ensures
        selected(storage, query, outer, with_labels) matches Ok(out) ==> {
            let select = *query.body->Select_0;
            let base = outer_scope(outer);
            let aggregates = aggregates_of(select);
            let having = option_ref(&select.having);
            let contexts = contexts_of(storage, select, outer);
            let n = contexts.len() as int;
            let groups = grouped(contexts, select.group_by@, aggregates, base, n)->Ok_0;
            let kept = having_groups(groups, aggregates, having, base, groups.len() as int);
            &&& out.1 == blended_rows(kept, select.projection@, aggregates, base)
            &&& forall|a: int|
                0 <= a < groups.len() ==> {
                    let f = first_row(
                        contexts,
                        select.group_by@,
                        base,
                        (#[trigger] groups[a]).key,
                        0,
                        n,
                    );
                    f < n && contexts[f] == Ok::<Seq<Binding>, Error>(groups[a].chain)
                }
            &&& forall|a: int, b: int|
                0 <= a < b < groups.len() ==> first_row(
                    contexts,
                    select.group_by@,
                    base,
                    (#[trigger] groups[a]).key,
                    0,
                    n,
                ) < first_row(contexts, select.group_by@, base, (#[trigger] groups[b]).key, 0, n)
            &&& forall|i: int|
                0 <= i < n ==> group_keys(groups).contains(
                    row_key(#[trigger] contexts[i], select.group_by@, base)->0,
                )
            &&& groups.contains(g) ==> (kept.contains(
                Ok(GroupModel { values: Some(g.values), chain: g.chain }),
            ) <==> predicate(group_scope(g.chain, aggregates, g.values, base), having) == Ok::<
                bool,
                Error,
            >(true))
        },
{
    if selected(storage, query, outer, with_labels) is Ok {
        let select = *query.body->Select_0;
        let base = outer_scope(outer);
        let aggregates = aggregates_of(select);
        let having = option_ref(&select.having);
        let contexts = contexts_of(storage, select, outer);
        let n = contexts.len() as int;
        let limit = limit_of(option_ref(&query.limit), option_ref(&query.offset))->Ok_0;
        assert(limit == Limit { limit: None, offset: None });
        assert(is_aggregating(select.group_by@, aggregates));
        let groups = grouped(contexts, select.group_by@, aggregates, base, n)->Ok_0;
        assert(with_implicit(groups, select.group_by@, aggregates) == groups);
        let kept = having_groups(groups, aggregates, having, base, groups.len() as int);
        assert(items_of(storage, select, outer) == kept);
        assert(sorted(kept, select.order_by@, aggregates, base) == Ok::<
            Seq<Result<GroupModel, Error>>,
            Error,
        >(kept));
        let rows = blended_rows(kept, select.projection@, aggregates, base);
        assert(limit.slice(rows) =~= rows);
        law_group_order(contexts, select.group_by@, aggregates, base, n);
        if groups.contains(g) {
            law_having(groups, aggregates, having, base, g);
        }
    }
}

/// The value at position `i` of the row that `*` gives for a chain: the
/// value of the column at that position, the columns counted relation by
/// relation with the base relation first, and `Null` where the relation's
/// row is absent.
pub open spec fn cell(chain: Seq<Binding>, i: int) -> SqlValue
    decreases chain.len(),
{
    if chain.len() == 0 {
        SqlValue::Null
    } else {
        let before = chain_columns(chain.drop_first()).len();
        if i < before {
            cell(chain.drop_first(), i)
        } else {
            match chain[0].row {
                None => SqlValue::Null,
                Some(row) => row[i - before],
            }
        }
    }
}

/// The row that `*` gives has one value for each column name of the chain,
/// and the value at a position is the value of the column whose name stands
/// at that position.
pub proof fn law_wildcard_cells(chain: Seq<Binding>)
    ensures
        chain_values(chain) matches Ok(values) ==> values.len() == chain_columns(chain).len()
            && forall|i: int| 0 <= i < values.len() ==> #[trigger] values[i] == cell(chain, i),
        chain.len() > 0 ==> chain_columns(chain) == chain_columns(chain.drop_first())
            + chain[0].columns,
    decreases chain.len(),
{
    if chain.len() > 0 {
        law_wildcard_cells(chain.drop_first());
        if chain_values(chain) is Ok {
            let outer = chain_values(chain.drop_first())->Ok_0;
            let own = binding_values(chain[0])->Ok_0;
            let values = chain_values(chain)->Ok_0;
            assert(values == outer + own);
            assert forall|i: int| 0 <= i < values.len() implies #[trigger] values[i] == cell(
                chain,
                i,
            ) by {
                if i < outer.len() {
                    assert(values[i] == outer[i]);
                } else {
                    assert(values[i] == own[i - outer.len()]);
                }
            }
        }
    }
}

/// `SELECT *` in a whole query without OFFSET and LIMIT: every output row
/// is the row of one context that the joins and WHERE leave, in their
/// order; the labels are the column names of that context, the base
/// relation's first; the row has one value for each label, and the value at
/// a position is the value of the column that the label at that position
/// names.
pub proof fn law_wildcard_query(storage: Store, query: Query, outer: Seq<Binding>)
    requires
        query.body is Select,
        is_plain(*query.body->Select_0),
        query.limit is None,
        query.offset is None,
    ensures
        selected(storage, query, outer, true) matches Ok(out) ==> {
            let contexts = contexts_of(storage, *query.body->Select_0, outer);
            &&& out.1.len() == contexts.len()
            &&& forall|k: int|
                0 <= k < out.1.len() && (#[trigger] out.1[k]) is Ok ==> {
                    &&& contexts[k] is Ok
                    &&& out.0 == chain_columns(contexts[k]->Ok_0)
                    &&& row_cells(out.1[k]->Ok_0, contexts[k]->Ok_0)
                }
        },
{
    if selected(storage, query, outer, true) is Ok {
        let select = *query.body->Select_0;
        let base = outer_scope(outer);
        let stored = stored_view(relation_rows(storage, select.from.relation)->Ok_0@);
        let columns = relation_columns(storage, select.from.relation)->Ok_0;
        let joins = select.from.joins@;
        let n = joins.len() as int;
        let join_columns = join_columns_of(joins, storage, n)->Ok_0;
        let steps = steps_of(storage, select);
        let limit = limit_of(option_ref(&query.limit), option_ref(&query.offset))->Ok_0;
        assert(limit == Limit { limit: None, offset: None });
        law_plain_rows(select, stored, columns, steps, outer);
        let contexts = contexts_of(storage, select, outer);
        let out = selected(storage, query, outer, true)->Ok_0;
        assert(out.1 == wildcard_rows(contexts));
        let alias = alias_of(select.from.relation)->Ok_0;
        let names = select_labels(select, columns, join_columns, true)->Ok_0;
        assert(out.0 == names_view(names));
        lemma_join_columns_len(joins, storage, n);
        let fields = select.projection@;
        assert(labels(fields, alias@, columns, Some(join_columns), 0) == Ok::<Seq<String>, Error>(
            Seq::empty(),
        ));
        assert(Seq::<String>::empty() + wildcard_labels(columns, Some(join_columns)) =~= columns
            + join_labels(join_columns, n));
        assert(names == columns + join_labels(join_columns, n));
        let sh0 = base_shape(alias_of(select.from.relation), names_view(columns));
        let fetched = base_items(stored, alias_of(select.from.relation), names_view(columns));
        lemma_base_items_shape(stored, alias_of(select.from.relation), names_view(columns));
        lemma_joined_shape(fetched, steps, base, sh0, steps.len() as int);
        let joined_items = joined(fetched, steps, base, steps.len() as int);
        let sh = steps_shape(steps, steps.len() as int) + sh0;
        lemma_filter_shape(
            joined_items,
            option_ref(&select.selection),
            base,
            sh,
            joined_items.len() as int,
        );
        lemma_join_steps_shape(joins, storage, alias@, columns, join_columns, n);
        assert(sh == expected_shape(alias@, columns, join_columns, n));
        assert forall|k: int| 0 <= k < out.1.len() && (#[trigger] out.1[k]) is Ok implies {
            &&& contexts[k] is Ok
            &&& out.0 == chain_columns(contexts[k]->Ok_0)
            &&& row_cells(out.1[k]->Ok_0, contexts[k]->Ok_0)
        } by {
            assert(out.1[k] == wildcard_row(contexts[k]));
            let chain = contexts[k]->Ok_0;
            assert(shape(chain) == sh);
            lemma_chain_columns_expected(alias@, columns, join_columns, n, chain);
            law_wildcard_cells(chain);
        }
    }
}

/// Whether a row holds, position by position, the values of the columns of
/// a chain.
pub open spec fn row_cells(values: Seq<SqlValue>, chain: Seq<Binding>) -> bool {
    &&& values.len() == chain_columns(chain).len()
    &&& forall|i: int| 0 <= i < values.len() ==> #[trigger] values[i] == cell(chain, i)
}

/// What `*` shows of one row of the joined relation beside a left row: the
/// row of the two where ON holds of them; nothing where it is false or
/// `Null`; the error where the row could not be read or ON cannot be
/// evaluated.
pub open spec fn pair_row(
    left: Seq<Binding>,
    rel: RelationModel,
    on: Option<&Expr>,
    base: Scope,
    item: Result<(u64, Seq<SqlValue>), Error>,
) -> Seq<Result<Seq<SqlValue>, Error>> {
    match item {
        Err(e) => seq![Err(e)],
        Ok(row) => match predicate(row_scope(extended(left, rel, Some(row)), base), on) {
            Err(e) => seq![Err(e)],
            Ok(true) => seq![wildcard_row(Ok(extended(left, rel, Some(row))))],
            Ok(false) => seq![],
        },
    }
}

/// What `*` shows of the first `n` rows of the joined relation beside a left
/// row, in their order.
pub open spec fn pair_rows(
    left: Seq<Binding>,
    rel: RelationModel,
    on: Option<&Expr>,
    base: Scope,
    n: int,
) -> Seq<Result<Seq<SqlValue>, Error>>
    decreases n,
{
    if n <= 0 {
        Seq::empty()
    } else {
        pair_rows(left, rel, on, base, n - 1) + pair_row(left, rel, on, base, rel.rows[n - 1])
    }
}

/// What `*` gives for the candidates of a left row is what it shows of the
/// pairs.
pub proof fn lemma_pair_rows(
    left: Seq<Binding>,
    rel: RelationModel,
    on: Option<&Expr>,
    base: Scope,
    n: int,
)
    requires
        0 <= n,
    ensures
        wildcard_rows(candidates(left, rel, on, base, n)) == pair_rows(left, rel, on, base, n),
    decreases n,
{
    if n <= 0 {
        assert(wildcard_rows(candidates(left, rel, on, base, n)) =~= pair_rows(
            left,
            rel,
            on,
            base,
            n,
        ));
    } else {
        lemma_pair_rows(left, rel, on, base, n - 1);
        let before = candidates(left, rel, on, base, n - 1);
        let added = candidate(left, rel, on, base, rel.rows[n - 1]);
        assert(wildcard_rows(added) =~= pair_row(left, rel, on, base, rel.rows[n - 1]));
        assert(wildcard_rows(before + added) =~= wildcard_rows(before) + wildcard_rows(added));
    }
}

/// The rows that come from one left row, pair by pair: one row for each row
/// of the joined relation of which ON holds with it, in the order of the
/// joined relation, and none for a pair of which ON is false or `Null`;
/// behind them, under a left outer join without a match, the one row of the
/// null-extended context.
pub proof fn law_rows_of_pairs(left: Seq<Binding>, rel: RelationModel, op: &JoinOperator, base: Scope)
    ensures
        ({
            let n = rel.rows.len() as int;
            let pairs = pair_rows(left, rel, constraint(op), base, n);
            wildcard_rows(joined_item(Ok(left), rel, op, base)) == if op is LeftOuter
                && match_count(left, rel, constraint(op), base, n) == 0 {
                pairs.push(wildcard_row(Ok(extended(left, rel, None))))
            } else {
                pairs
            }
        }),
{
    let n = rel.rows.len() as int;
    let on = constraint(op);
    lemma_pair_rows(left, rel, on, base, n);
    let found = candidates(left, rel, on, base, n);
    if op is LeftOuter && match_count(left, rel, on, base, n) == 0 {
        let extra = Ok::<Seq<Binding>, Error>(extended(left, rel, None));
        assert(wildcard_rows(found.push(extra)) =~= wildcard_rows(found).push(wildcard_row(extra)));
    }
}

} // verus!
