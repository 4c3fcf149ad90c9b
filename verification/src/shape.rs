//! The shape of the contexts of one query: every row that a stage emits has
//! the relations and columns of every other, so every output row has the
//! length of every other and of the labels.

use vstd::prelude::*;
use crate::aggregate::{
    add_row, aggregated, group_keys, grouped, having_groups, having_item, is_aggregating, keys_of,
    plain, plain_item, with_implicit, GroupModel, GroupState,
};
use crate::ast::{
    Aggregate, Expr, Join, JoinOperator, OrderByExpr, Query, Select, SelectItem, SetExpr, Values,
};
use crate::blend::{blended, blended_item, blended_rows, chain_values, name_of, qualified_values};
use crate::collect::query_aggregates;
use crate::context::{names_view, Binding};
use crate::error::Error;
use crate::evaluate::Scope;
use crate::fetch::{
    alias_of, join_columns_of, lemma_join_columns_len, relation_columns, relation_rows,
};
use crate::filter::{filter_item, filter_stream, outer_scope, row_scope};
use crate::join::{
    candidate, candidates, constraint, extended, joined, joined_item, joined_rows, RelationModel,
    StepModel,
};
use crate::limit::{limit_of, Limit};
use crate::select::{
    base_item, base_items, first_len, join_labels, join_steps, joined_columns, labels,
    lemma_typed_row_types, option_ref, select_labels, select_rows, selected, typed_rows,
    wildcard_labels,
};
use crate::sort::{directions, lemma_sorted_order_range, sort_keys, sorted, sorted_order};
use crate::store::{stored_view, Store};
use crate::value::SqlValue;

verus! {

/// The shape of a chain: the alias and the columns of each of its
/// relations, the most recently joined one first.
pub open spec fn shape(chain: Seq<Binding>) -> Seq<(Seq<char>, Seq<Seq<char>>)> {
    chain.map_values(|b: Binding| (b.alias, b.columns))
}

/// Whether every context of a stream has the given shape.
pub open spec fn uniform(
    items: Seq<Result<Seq<Binding>, Error>>,
    sh: Seq<(Seq<char>, Seq<Seq<char>>)>,
) -> bool {
    forall|i: int| 0 <= i < items.len() ==> ((#[trigger] items[i]) matches Ok(c) ==> shape(c) == sh)
}

/// Whether the row of every group of a stream has the given shape; a group
/// without a row has no shape to keep.
pub open spec fn group_uniform(
    items: Seq<Result<GroupModel, Error>>,
    sh: Seq<(Seq<char>, Seq<Seq<char>>)>,
) -> bool {
    forall|i: int|
        0 <= i < items.len() ==> ((#[trigger] items[i]) matches Ok(g) ==> shape(g.chain) == sh
            || g.chain.len() == 0)
}

/// A context extended by a relation has the shape of the context behind the
/// relation.
pub proof fn lemma_extended_shape(
    left: Seq<Binding>,
    rel: RelationModel,
    row: Option<(u64, Seq<SqlValue>)>,
)
    ensures
        shape(extended(left, rel, row)) == seq![(rel.alias, rel.columns)] + shape(left),
{
    assert(shape(extended(left, rel, row)) =~= seq![(rel.alias, rel.columns)] + shape(left));
}

/// What the rows of a joined relation give for a left row has the shape of
/// the left row behind the relation.
pub proof fn lemma_candidates_shape(
    left: Seq<Binding>,
    rel: RelationModel,
    on: Option<&Expr>,
    base: Scope,
    n: int,
)
    requires
        0 <= n,
    ensures
        uniform(candidates(left, rel, on, base, n), seq![(rel.alias, rel.columns)] + shape(left)),
    decreases n,
{
    if n > 0 {
        lemma_candidates_shape(left, rel, on, base, n - 1);
        let before = candidates(left, rel, on, base, n - 1);
        let added = candidate(left, rel, on, base, rel.rows[n - 1]);
        let all = candidates(left, rel, on, base, n);
        if rel.rows[n - 1] is Ok {
            lemma_extended_shape(left, rel, Some(rel.rows[n - 1]->Ok_0));
        }
        assert forall|i: int| 0 <= i < all.len() && (#[trigger] all[i]) is Ok implies shape(
            all[i]->Ok_0,
        ) == seq![(rel.alias, rel.columns)] + shape(left) by {
            if i < before.len() {
                assert(all[i] == before[i]);
            } else {
                assert(all[i] == added[i - before.len()]);
            }
        }
    }
}

/// A join puts one relation in front of the shape of its left stream.
pub proof fn lemma_joined_rows_shape(
    lefts: Seq<Result<Seq<Binding>, Error>>,
    rel: RelationModel,
    op: &JoinOperator,
    base: Scope,
    sh: Seq<(Seq<char>, Seq<Seq<char>>)>,
    n: int,
)
    requires
        0 <= n <= lefts.len(),
        uniform(lefts, sh),
    ensures
        uniform(joined_rows(lefts, rel, op, base, n), seq![(rel.alias, rel.columns)] + sh),
    decreases n,
{
    if n > 0 {
        lemma_joined_rows_shape(lefts, rel, op, base, sh, n - 1);
        let before = joined_rows(lefts, rel, op, base, n - 1);
        let added = joined_item(lefts[n - 1], rel, op, base);
        let all = joined_rows(lefts, rel, op, base, n);
        if lefts[n - 1] is Ok {
            let left = lefts[n - 1]->Ok_0;
            lemma_candidates_shape(left, rel, constraint(op), base, rel.rows.len() as int);
            lemma_extended_shape(left, rel, None);
        }
        assert forall|i: int| 0 <= i < all.len() && (#[trigger] all[i]) is Ok implies shape(
            all[i]->Ok_0,
        ) == seq![(rel.alias, rel.columns)] + sh by {
            if i < before.len() {
                assert(all[i] == before[i]);
            } else {
                let k = i - before.len();
                assert(all[i] == added[k]);
                let left = lefts[n - 1]->Ok_0;
                let found = candidates(left, rel, constraint(op), base, rel.rows.len() as int);
                if k < found.len() {
                    assert(added[k] == found[k]);
                }
            }
        }
    }
}

/// The relations that the first `k` joins add to a shape, the last of them
/// first.
pub open spec fn steps_shape(steps: Seq<StepModel>, k: int) -> Seq<(Seq<char>, Seq<Seq<char>>)>
    decreases k,
{
    if k <= 0 {
        Seq::empty()
    } else {
        seq![(steps[k - 1].relation.alias, steps[k - 1].relation.columns)] + steps_shape(
            steps,
            k - 1,
        )
    }
}

/// The joins put their relations in front of the shape of the base stream.
pub proof fn lemma_joined_shape(
    lefts: Seq<Result<Seq<Binding>, Error>>,
    steps: Seq<StepModel>,
    base: Scope,
    sh: Seq<(Seq<char>, Seq<Seq<char>>)>,
    k: int,
)
    requires
        0 <= k,
        uniform(lefts, sh),
    ensures
        uniform(joined(lefts, steps, base, k), steps_shape(steps, k) + sh),
    decreases k,
{
    if k <= 0 {
        assert(steps_shape(steps, k) + sh =~= sh);
    } else {
        lemma_joined_shape(lefts, steps, base, sh, k - 1);
        let before = joined(lefts, steps, base, k - 1);
        lemma_joined_rows_shape(
            before,
            steps[k - 1].relation,
            &steps[k - 1].operator,
            base,
            steps_shape(steps, k - 1) + sh,
            before.len() as int,
        );
        assert(seq![(steps[k - 1].relation.alias, steps[k - 1].relation.columns)] + (steps_shape(
            steps,
            k - 1,
        ) + sh) =~= steps_shape(steps, k) + sh);
    }
}

/// A filter keeps the shape of its stream.
pub proof fn lemma_filter_shape(
    items: Seq<Result<Seq<Binding>, Error>>,
    expr: Option<&Expr>,
    base: Scope,
    sh: Seq<(Seq<char>, Seq<Seq<char>>)>,
    n: int,
)
    requires
        0 <= n <= items.len(),
        uniform(items, sh),
    ensures
        uniform(filter_stream(items, expr, base, n), sh),
    decreases n,
{
    if n > 0 {
        lemma_filter_shape(items, expr, base, sh, n - 1);
        let before = filter_stream(items, expr, base, n - 1);
        let added = filter_item(items[n - 1], expr, base);
        let all = filter_stream(items, expr, base, n);
        assert forall|i: int| 0 <= i < all.len() && (#[trigger] all[i]) is Ok implies shape(
            all[i]->Ok_0,
        ) == sh by {
            if i < before.len() {
                assert(all[i] == before[i]);
            } else {
                assert(all[i] == added[i - before.len()]);
            }
        }
    }
}

/// Every group stands for a row of the stream.
pub proof fn lemma_grouped_shape(
    items: Seq<Result<Seq<Binding>, Error>>,
    group_by: Seq<Expr>,
    aggregates: Seq<Aggregate>,
    base: Scope,
    sh: Seq<(Seq<char>, Seq<Seq<char>>)>,
    n: int,
)
    requires
        0 <= n <= items.len(),
        uniform(items, sh),
    ensures
        grouped(items, group_by, aggregates, base, n) matches Ok(groups) ==> forall|a: int|
            0 <= a < groups.len() ==> shape((#[trigger] groups[a]).chain) == sh,
    decreases n,
{
    if n > 0 && grouped(items, group_by, aggregates, base, n) is Ok {
        lemma_grouped_shape(items, group_by, aggregates, base, sh, n - 1);
        let before = grouped(items, group_by, aggregates, base, n - 1)->Ok_0;
        let chain = items[n - 1]->Ok_0;
        let groups = grouped(items, group_by, aggregates, base, n)->Ok_0;
        assert(Ok::<Seq<GroupState>, Error>(groups) == add_row(
            before,
            chain,
            group_by,
            aggregates,
            base,
        ));
        assert(items[n - 1] is Ok);
        let key = keys_of(
            group_by,
            row_scope(chain, base),
            group_by.len() as int,
        )->Ok_0;
        group_keys(before).index_of_first_ensures(key);
        match group_keys(before).index_of_first(key) {
            Some(i) => {
                assert forall|a: int| 0 <= a < groups.len() implies shape(
                    (#[trigger] groups[a]).chain,
                ) == sh by {
                    assert(groups[a].chain == before[a].chain);
                }
            },
            None => {
                assert forall|a: int| 0 <= a < groups.len() implies shape(
                    (#[trigger] groups[a]).chain,
                ) == sh by {
                    if a < before.len() {
                        assert(groups[a] == before[a]);
                    } else {
                        assert(groups[a].chain == chain);
                    }
                }
            },
        }
    }
}

/// HAVING keeps the shape of the groups.
pub proof fn lemma_having_shape(
    groups: Seq<GroupState>,
    aggregates: Seq<Aggregate>,
    having: Option<&Expr>,
    base: Scope,
    sh: Seq<(Seq<char>, Seq<Seq<char>>)>,
    n: int,
)
    requires
        0 <= n <= groups.len(),
        forall|a: int|
            0 <= a < groups.len() ==> shape((#[trigger] groups[a]).chain) == sh
                || groups[a].chain.len() == 0,
    ensures
        group_uniform(having_groups(groups, aggregates, having, base, n), sh),
    decreases n,
{
    if n > 0 {
        lemma_having_shape(groups, aggregates, having, base, sh, n - 1);
        let before = having_groups(groups, aggregates, having, base, n - 1);
        let added = having_item(groups[n - 1], aggregates, having, base);
        let all = having_groups(groups, aggregates, having, base, n);
        assert forall|i: int| 0 <= i < all.len() && (#[trigger] all[i]) is Ok implies shape(
            (all[i]->Ok_0).chain,
        ) == sh || (all[i]->Ok_0).chain.len() == 0 by {
            if i < before.len() {
                assert(all[i] == before[i]);
            } else {
                assert(all[i] == added[i - before.len()]);
            }
        }
    }
}

/// A stream that is handed on row by row keeps its shape.
pub proof fn lemma_plain_shape(
    items: Seq<Result<Seq<Binding>, Error>>,
    having: Option<&Expr>,
    base: Scope,
    sh: Seq<(Seq<char>, Seq<Seq<char>>)>,
    n: int,
)
    requires
        0 <= n <= items.len(),
        uniform(items, sh),
    ensures
        group_uniform(plain(items, having, base, n), sh),
    decreases n,
{
    if n > 0 {
        lemma_plain_shape(items, having, base, sh, n - 1);
        let before = plain(items, having, base, n - 1);
        let added = plain_item(items[n - 1], having, base);
        let all = plain(items, having, base, n);
        assert forall|i: int| 0 <= i < all.len() && (#[trigger] all[i]) is Ok implies shape(
            (all[i]->Ok_0).chain,
        ) == sh || (all[i]->Ok_0).chain.len() == 0 by {
            if i < before.len() {
                assert(all[i] == before[i]);
            } else {
                assert(all[i] == added[i - before.len()]);
                assert(items[n - 1] is Ok);
            }
        }
    }
}

/// The groups of a stream of one shape have that shape.
pub proof fn lemma_aggregated_shape(
    items: Seq<Result<Seq<Binding>, Error>>,
    group_by: Seq<Expr>,
    aggregates: Seq<Aggregate>,
    having: Option<&Expr>,
    base: Scope,
    sh: Seq<(Seq<char>, Seq<Seq<char>>)>,
)
    requires
        uniform(items, sh),
    ensures
        aggregated(items, group_by, aggregates, having, base) matches Ok(out) ==> group_uniform(
            out,
            sh,
        ),
{
    if aggregated(items, group_by, aggregates, having, base) is Ok {
        let out = aggregated(items, group_by, aggregates, having, base)->Ok_0;
        if !is_aggregating(group_by, aggregates) {
            lemma_plain_shape(items, having, base, sh, items.len() as int);
        } else {
            let n = items.len() as int;
            lemma_grouped_shape(items, group_by, aggregates, base, sh, n);
            let groups = grouped(items, group_by, aggregates, base, n)->Ok_0;
            let all = with_implicit(groups, group_by, aggregates);
            lemma_having_shape(all, aggregates, having, base, sh, all.len() as int);
        }
    }
}

/// Sorting keeps the shape of the groups.
pub proof fn lemma_sorted_shape(
    items: Seq<Result<GroupModel, Error>>,
    order_by: Seq<OrderByExpr>,
    aggregates: Seq<Aggregate>,
    base: Scope,
    sh: Seq<(Seq<char>, Seq<Seq<char>>)>,
)
    requires
        group_uniform(items, sh),
    ensures
        sorted(items, order_by, aggregates, base) matches Ok(out) ==> group_uniform(out, sh),
{
    if sorted(items, order_by, aggregates, base) is Ok && order_by.len() > 0 {
        let n = items.len() as int;
        let keys = sort_keys(items, order_by, aggregates, base, n)->Ok_0;
        let order = sorted_order(keys, directions(order_by), n);
        lemma_sorted_order_range(keys, directions(order_by), n);
        let out = sorted(items, order_by, aggregates, base)->Ok_0;
        assert forall|i: int| 0 <= i < out.len() && (#[trigger] out[i]) is Ok implies shape(
            (out[i]->Ok_0).chain,
        ) == sh || (out[i]->Ok_0).chain.len() == 0 by {
            assert(out[i] == items[order[i]]);
        }
    }
}

/// The number of columns of all relations of a shape.
pub open spec fn total_columns(sh: Seq<(Seq<char>, Seq<Seq<char>>)>) -> nat
    decreases sh.len(),
{
    if sh.len() == 0 {
        0
    } else {
        total_columns(sh.drop_first()) + sh[0].1.len()
    }
}

/// The columns of the relation of a shape that has the given alias: of the
/// first such relation, the base relation taken first.
pub open spec fn qualified_columns(sh: Seq<(Seq<char>, Seq<Seq<char>>)>, alias: Seq<char>) -> Option<
    Seq<Seq<char>>,
>
    decreases sh.len(),
{
    if sh.len() == 0 {
        None
    } else {
        match qualified_columns(sh.drop_first(), alias) {
            Some(c) => Some(c),
            None => if sh[0].0 == alias {
                Some(sh[0].1)
            } else {
                None
            },
        }
    }
}

/// The number of output columns that one item of a projection gives for
/// rows of a shape.
pub open spec fn item_width(field: SelectItem, sh: Seq<(Seq<char>, Seq<Seq<char>>)>) -> nat {
    match field {
        SelectItem::Wildcard => total_columns(sh),
        SelectItem::QualifiedWildcard(target) => match name_of(target) {
            Ok(alias) => match qualified_columns(sh, alias@) {
                Some(c) => c.len(),
                None => 0,
            },
            Err(_) => 0,
        },
        SelectItem::Expr { expr, label } => 1,
    }
}

/// The number of output columns of the first `n` items of a projection.
pub open spec fn width(fields: Seq<SelectItem>, sh: Seq<(Seq<char>, Seq<Seq<char>>)>, n: int) -> nat
    decreases n,
{
    if n <= 0 {
        0
    } else {
        width(fields, sh, n - 1) + item_width(fields[n - 1], sh)
    }
}

/// Whether the first `n` items of a projection are all expressions.
pub open spec fn all_exprs(fields: Seq<SelectItem>, n: int) -> bool {
    forall|i: int| 0 <= i < n ==> (#[trigger] fields[i]) is Expr
}

/// A projection of expressions alone gives one value for each of them.
pub proof fn lemma_width_of_exprs(
    fields: Seq<SelectItem>,
    sh: Seq<(Seq<char>, Seq<Seq<char>>)>,
    n: int,
)
    requires
        0 <= n,
        all_exprs(fields, n),
    ensures
        width(fields, sh, n) == n,
    decreases n,
{
    if n > 0 {
        lemma_width_of_exprs(fields, sh, n - 1);
        assert(fields[n - 1] is Expr);
    }
}

/// `*` gives one value for each column of the shape.
pub proof fn lemma_chain_values_len(chain: Seq<Binding>)
    ensures
        chain_values(chain) matches Ok(v) ==> v.len() == total_columns(shape(chain)),
    decreases chain.len(),
{
    if chain.len() > 0 {
        lemma_chain_values_len(chain.drop_first());
        assert(shape(chain).drop_first() =~= shape(chain.drop_first()));
        assert(shape(chain)[0] == (chain[0].alias, chain[0].columns));
    }
}

/// `alias.*` gives one value for each column of its relation, and nothing
/// exactly where the shape has no such relation.
pub proof fn lemma_qualified_values_len(chain: Seq<Binding>, alias: Seq<char>)
    ensures
        qualified_values(chain, alias) is None <==> qualified_columns(shape(chain), alias) is None,
        qualified_values(chain, alias) matches Some(Ok(v)) ==> v.len() == qualified_columns(
            shape(chain),
            alias,
        )->0.len(),
    decreases chain.len(),
{
    if chain.len() > 0 {
        lemma_qualified_values_len(chain.drop_first(), alias);
        assert(shape(chain).drop_first() =~= shape(chain.drop_first()));
        assert(shape(chain)[0] == (chain[0].alias, chain[0].columns));
    }
}

/// The number of values that a projection gives for a row depends on the
/// shape of the row alone.
pub proof fn lemma_blended_len(
    fields: Seq<SelectItem>,
    g: GroupModel,
    aggregates: Seq<Aggregate>,
    base: Scope,
    n: int,
)
    requires
        0 <= n,
    ensures
        blended(fields, g, aggregates, base, n) matches Ok(v) ==> v.len() == width(
            fields,
            shape(g.chain),
            n,
        ),
        blended(fields, g, aggregates, base, n) is Ok && g.chain.len() == 0 ==> all_exprs(
            fields,
            n,
        ),
    decreases n,
{
    if n > 0 {
        lemma_blended_len(fields, g, aggregates, base, n - 1);
        if blended(fields, g, aggregates, base, n) is Ok {
            lemma_chain_values_len(g.chain);
            match fields[n - 1] {
                SelectItem::QualifiedWildcard(target) => {
                    let alias = name_of(target)->Ok_0;
                    lemma_qualified_values_len(g.chain, alias@);
                    if g.chain.len() == 0 {
                        assert(qualified_values(g.chain, alias@) is None);
                    }
                },
                _ => {},
            }
            if g.chain.len() == 0 {
                assert forall|i: int| 0 <= i < n implies (#[trigger] fields[i]) is Expr by {
                    if i < n - 1 {
                        assert(all_exprs(fields, n - 1));
                    }
                }
            }
        }
    }
}

/// The length of a row; zero for an error.
pub open spec fn row_len(item: Result<Seq<SqlValue>, Error>) -> nat {
    match item {
        Ok(row) => row.len(),
        Err(_) => 0,
    }
}

/// Whether every row of a stream has the length of every other.
pub open spec fn rows_same_len(rows: Seq<Result<Seq<SqlValue>, Error>>) -> bool {
    forall|i: int, j: int|
        0 <= i < rows.len() && 0 <= j < rows.len() && (#[trigger] rows[i]) is Ok && (
        #[trigger] rows[j]) is Ok ==> same_len(rows[i]->Ok_0, rows[j]->Ok_0)
}

/// Whether two rows have the same number of values.
pub open spec fn same_len(a: Seq<SqlValue>, b: Seq<SqlValue>) -> bool {
    a.len() == b.len()
}

/// The rows that a projection gives for groups of one shape have one
/// length.
pub proof fn lemma_blended_rows_len(
    items: Seq<Result<GroupModel, Error>>,
    fields: Seq<SelectItem>,
    aggregates: Seq<Aggregate>,
    base: Scope,
    sh: Seq<(Seq<char>, Seq<Seq<char>>)>,
)
    requires
        group_uniform(items, sh),
    ensures
        rows_same_len(blended_rows(items, fields, aggregates, base)),
        forall|i: int|
            0 <= i < items.len() && (#[trigger] blended_rows(
                items,
                fields,
                aggregates,
                base,
            )[i]) is Ok ==> row_len(blended_rows(items, fields, aggregates, base)[i]) == width(
                fields,
                sh,
                fields.len() as int,
            ),
{
    let rows = blended_rows(items, fields, aggregates, base);
    let n = fields.len() as int;
    assert forall|i: int| 0 <= i < items.len() && (#[trigger] rows[i]) is Ok implies row_len(
        rows[i],
    ) == width(fields, sh, n) by {
        assert(rows[i] == blended_item(items[i], fields, aggregates, base));
        let g = items[i]->Ok_0;
        lemma_blended_len(fields, g, aggregates, base, n);
        if g.chain.len() == 0 {
            lemma_width_of_exprs(fields, sh, n);
            lemma_width_of_exprs(fields, shape(g.chain), n);
        }
    }
}

/// The shape of the rows of the base relation.
pub open spec fn base_shape(alias: Result<String, Error>, columns: Seq<Seq<char>>) -> Seq<
    (Seq<char>, Seq<Seq<char>>),
> {
    match alias {
        Ok(a) => seq![(a@, columns)],
        Err(_) => seq![(Seq::empty(), columns)],
    }
}

/// Every context of the base stream has the shape of the base relation.
pub proof fn lemma_base_items_shape(
    rows: Seq<Result<(u64, Seq<SqlValue>), Error>>,
    alias: Result<String, Error>,
    columns: Seq<Seq<char>>,
)
    ensures
        uniform(base_items(rows, alias, columns), base_shape(alias, columns)),
{
    let items = base_items(rows, alias, columns);
    assert forall|i: int| 0 <= i < items.len() && (#[trigger] items[i]) is Ok implies shape(
        items[i]->Ok_0,
    ) == base_shape(alias, columns) by {
        assert(items[i] == base_item(rows[i], alias, columns));
        assert(shape(items[i]->Ok_0) =~= base_shape(alias, columns));
    }
}

/// A slice of rows of one length has rows of that length.
pub proof fn lemma_slice_len(limit: Limit, rows: Seq<Result<Seq<SqlValue>, Error>>, w: nat)
    requires
        forall|i: int| 0 <= i < rows.len() && (#[trigger] rows[i]) is Ok ==> row_len(rows[i]) == w,
    ensures
        forall|i: int|
            0 <= i < limit.slice(rows).len() && (#[trigger] limit.slice(rows)[i]) is Ok
                ==> row_len(limit.slice(rows)[i]) == w,
        rows_same_len(limit.slice(rows)),
{
    let out = limit.slice(rows);
    let start = limit.start(rows.len());
    assert forall|i: int| 0 <= i < out.len() && (#[trigger] out[i]) is Ok implies row_len(out[i])
        == w by {
        assert(out[i] == rows[start + i]);
    }
}

/// Every row of a `VALUES` list has as many values as the first tuple has
/// expressions.
pub proof fn lemma_typed_rows_len(list: Seq<Vec<Expr>>, n: int)
    requires
        0 <= n <= list.len(),
    ensures
        typed_rows(list, n).0.len() == n,
        typed_rows(list, n).1.len() == first_len(list),
        forall|i: int|
            0 <= i < n && (#[trigger] typed_rows(list, n).0[i]) is Ok ==> row_len(
                typed_rows(list, n).0[i],
            ) == first_len(list),
    decreases n,
{
    if n > 0 {
        lemma_typed_rows_len(list, n - 1);
        let (rows, types) = typed_rows(list, n - 1);
        let all = typed_rows(list, n).0;
        if list[n - 1]@.len() == first_len(list) {
            lemma_typed_row_types(list[n - 1]@, types, first_len(list) as int);
        }
        assert forall|i: int| 0 <= i < n && (#[trigger] all[i]) is Ok implies row_len(all[i])
            == first_len(list) by {
            if i < n - 1 {
                assert(all[i] == rows[i]);
            }
        }
    }
}

/// The shape that the schema gives to the rows of a query: the first `k`
/// joined relations, the last of them first, and behind them the base
/// relation.
pub open spec fn expected_shape(
    alias: Seq<char>,
    columns: Seq<String>,
    join_columns: Seq<(String, Seq<String>)>,
    k: int,
) -> Seq<(Seq<char>, Seq<Seq<char>>)>
    decreases k,
{
    if k <= 0 {
        seq![(alias, names_view(columns))]
    } else {
        seq![(join_columns[k - 1].0@, names_view(join_columns[k - 1].1))] + expected_shape(
            alias,
            columns,
            join_columns,
            k - 1,
        )
    }
}

/// The columns of a shape with one more relation in front of it.
pub proof fn lemma_total_columns_cons(
    x: (Seq<char>, Seq<Seq<char>>),
    rest: Seq<(Seq<char>, Seq<Seq<char>>)>,
)
    ensures
        total_columns(seq![x] + rest) == total_columns(rest) + x.1.len(),
        forall|a: Seq<char>|
            #[trigger] qualified_columns(seq![x] + rest, a) == match qualified_columns(rest, a) {
                Some(c) => Some(c),
                None => if x.0 == a {
                    Some(x.1)
                } else {
                    None
                },
            },
{
    assert((seq![x] + rest).drop_first() =~= rest);
    assert((seq![x] + rest)[0] == x);
}

/// The shape that the schema gives has the columns of the base relation and
/// of the joined relations.
pub proof fn lemma_expected_total(
    alias: Seq<char>,
    columns: Seq<String>,
    join_columns: Seq<(String, Seq<String>)>,
    k: int,
)
    requires
        0 <= k,
    ensures
        total_columns(expected_shape(alias, columns, join_columns, k)) == columns.len()
            + join_labels(join_columns, k).len(),
    decreases k,
{
    if k <= 0 {
        let sh = expected_shape(alias, columns, join_columns, k);
        assert(sh.drop_first() =~= Seq::<(Seq<char>, Seq<Seq<char>>)>::empty());
        assert(total_columns(sh.drop_first()) == 0);
    } else {
        lemma_expected_total(alias, columns, join_columns, k - 1);
        lemma_total_columns_cons(
            (join_columns[k - 1].0@, names_view(join_columns[k - 1].1)),
            expected_shape(alias, columns, join_columns, k - 1),
        );
    }
}

/// In the shape that the schema gives, an alias means the base relation, or
/// else the first joined relation that has it.
pub proof fn lemma_expected_qualified(
    alias: Seq<char>,
    columns: Seq<String>,
    join_columns: Seq<(String, Seq<String>)>,
    a: Seq<char>,
    k: int,
)
    requires
        0 <= k,
    ensures
        qualified_columns(expected_shape(alias, columns, join_columns, k), a) == if alias == a {
            Some(names_view(columns))
        } else {
            match joined_columns(join_columns, a, k) {
                Some(c) => Some(names_view(c)),
                None => None,
            }
        },
    decreases k,
{
    if k <= 0 {
        let sh = expected_shape(alias, columns, join_columns, k);
        assert(sh.drop_first() =~= Seq::<(Seq<char>, Seq<Seq<char>>)>::empty());
        assert(qualified_columns(sh.drop_first(), a) is None);
    } else {
        lemma_expected_qualified(alias, columns, join_columns, a, k - 1);
        lemma_total_columns_cons(
            (join_columns[k - 1].0@, names_view(join_columns[k - 1].1)),
            expected_shape(alias, columns, join_columns, k - 1),
        );
    }
}

/// A projection has as many labels as it gives values for a row of the
/// shape that the schema gives.
pub proof fn lemma_labels_len(
    projection: Seq<SelectItem>,
    alias: Seq<char>,
    columns: Seq<String>,
    join_columns: Seq<(String, Seq<String>)>,
    n: int,
)
    requires
        0 <= n,
    ensures
        labels(projection, alias, columns, Some(join_columns), n) matches Ok(ls) ==> ls.len()
            == width(
            projection,
            expected_shape(alias, columns, join_columns, join_columns.len() as int),
            n,
        ),
    decreases n,
{
    if n > 0 {
        lemma_labels_len(projection, alias, columns, join_columns, n - 1);
        if labels(projection, alias, columns, Some(join_columns), n) is Ok {
            let k = join_columns.len() as int;
            lemma_expected_total(alias, columns, join_columns, k);
            match projection[n - 1] {
                SelectItem::QualifiedWildcard(target) => {
                    let a = name_of(target)->Ok_0;
                    lemma_expected_qualified(alias, columns, join_columns, a@, k);
                },
                _ => {},
            }
        }
    }
}

/// The join clauses with their relations have the aliases and columns that
/// were fetched for them.
pub proof fn lemma_join_steps_shape(
    joins: Seq<Join>,
    storage: Store,
    alias: Seq<char>,
    columns: Seq<String>,
    join_columns: Seq<(String, Seq<String>)>,
    n: int,
)
    requires
        0 <= n,
    ensures
        join_steps(joins, storage, join_columns, n) matches Ok(steps) ==> steps.len() == n
            && steps_shape(steps, n) + seq![(alias, names_view(columns))] == expected_shape(
            alias,
            columns,
            join_columns,
            n,
        ),
    decreases n,
{
    if join_steps(joins, storage, join_columns, n) is Ok {
        let steps = join_steps(joins, storage, join_columns, n)->Ok_0;
        if n <= 0 {
            assert(steps_shape(steps, n) + seq![(alias, names_view(columns))] =~= expected_shape(
                alias,
                columns,
                join_columns,
                n,
            ));
        } else {
            lemma_join_steps_shape(joins, storage, alias, columns, join_columns, n - 1);
            let before = join_steps(joins, storage, join_columns, n - 1)->Ok_0;
            lemma_steps_shape_prefix(before, steps, n - 1);
            assert(steps_shape(steps, n) + seq![(alias, names_view(columns))] =~= expected_shape(
                alias,
                columns,
                join_columns,
                n,
            ));
        }
    }
}

/// The shape of the first joins does not depend on the joins behind them.
pub proof fn lemma_steps_shape_prefix(a: Seq<StepModel>, b: Seq<StepModel>, k: int)
    requires
        0 <= k <= a.len(),
        a.len() <= b.len(),
        forall|i: int| 0 <= i < a.len() ==> a[i] == b[i],
    ensures
        steps_shape(a, k) == steps_shape(b, k),
    decreases k,
{
    if k > 0 {
        lemma_steps_shape_prefix(a, b, k - 1);
    }
}

/// What holds of the rows of a SELECT: they all have the number of values
/// that the projection gives for the shape of the query's relations.
pub proof fn lemma_select_rows_len(
    select: Select,
    rows: Seq<Result<(u64, Seq<SqlValue>), Error>>,
    columns: Seq<String>,
    steps: Seq<StepModel>,
    limit: Limit,
    outer: Seq<Binding>,
)
    ensures
        select_rows(select, rows, columns, steps, limit, outer) matches Ok(out) ==> {
            let sh = steps_shape(steps, steps.len() as int) + base_shape(
                alias_of(select.from.relation),
                names_view(columns),
            );
            &&& rows_same_len(out)
            &&& forall|i: int|
                0 <= i < out.len() && (#[trigger] out[i]) is Ok ==> row_len(out[i]) == width(
                    select.projection@,
                    sh,
                    select.projection@.len() as int,
                )
        },
{
    if select_rows(select, rows, columns, steps, limit, outer) is Ok {
        let base = outer_scope(outer);
        let alias = alias_of(select.from.relation);
        let sh0 = base_shape(alias, names_view(columns));
        let sh = steps_shape(steps, steps.len() as int) + sh0;
        let fetched = base_items(rows, alias, names_view(columns));
        lemma_base_items_shape(rows, alias, names_view(columns));
        let joined_items = joined(fetched, steps, base, steps.len() as int);
        lemma_joined_shape(fetched, steps, base, sh0, steps.len() as int);
        let filtered = filter_stream(
            joined_items,
            option_ref(&select.selection),
            base,
            joined_items.len() as int,
        );
        lemma_filter_shape(
            joined_items,
            option_ref(&select.selection),
            base,
            sh,
            joined_items.len() as int,
        );
        let aggregates = query_aggregates(
            select.projection@,
            option_ref(&select.having),
            select.order_by@,
        );
        lemma_aggregated_shape(
            filtered,
            select.group_by@,
            aggregates,
            option_ref(&select.having),
            base,
            sh,
        );
        let groups = aggregated(
            filtered,
            select.group_by@,
            aggregates,
            option_ref(&select.having),
            base,
        )->Ok_0;
        lemma_sorted_shape(groups, select.order_by@, aggregates, base, sh);
        let ordered = sorted(groups, select.order_by@, aggregates, base)->Ok_0;
        lemma_blended_rows_len(ordered, select.projection@, aggregates, base, sh);
        let blended_all = blended_rows(ordered, select.projection@, aggregates, base);
        lemma_slice_len(
            limit,
            blended_all,
            width(select.projection@, sh, select.projection@.len() as int),
        );
    }
}

/// Row arity: within one query, every output row has the length of every
/// other.
pub proof fn law_row_arity(storage: Store, query: Query, outer: Seq<Binding>, with_labels: bool)
    ensures
        selected(storage, query, outer, with_labels) matches Ok(out) ==> rows_same_len(out.1),
{
    if selected(storage, query, outer, with_labels) is Ok {
        match query.body {
            SetExpr::Values(Values(list)) => {
                let limit = limit_of(option_ref(&query.limit), option_ref(&query.offset))->Ok_0;
                lemma_typed_rows_len(list@, list@.len() as int);
                lemma_slice_len(limit, typed_rows(list@, list@.len() as int).0, first_len(list@));
            },
            SetExpr::Select(select) => {
                let columns = relation_columns(storage, select.from.relation)->Ok_0;
                let rows = relation_rows(storage, select.from.relation)->Ok_0;
                let n = select.from.joins@.len() as int;
                let join_columns = join_columns_of(select.from.joins@, storage, n)->Ok_0;
                let steps = join_steps(select.from.joins@, storage, join_columns, n)->Ok_0;
                let limit = limit_of(option_ref(&query.limit), option_ref(&query.offset))->Ok_0;
                lemma_select_rows_len(*select, stored_view(rows@), columns, steps, limit, outer);
            },
        }
    }
}

/// Label parity: where the labels are asked for, every output row has as
/// many values as there are labels.
pub proof fn law_label_parity(storage: Store, query: Query, outer: Seq<Binding>)
    ensures
        selected(storage, query, outer, true) matches Ok(out) ==> forall|i: int|
            0 <= i < out.1.len() && (#[trigger] out.1[i]) is Ok ==> row_len(out.1[i])
                == out.0.len(),
{
    if selected(storage, query, outer, true) is Ok {
        match query.body {
            SetExpr::Values(Values(list)) => {
                let limit = limit_of(option_ref(&query.limit), option_ref(&query.offset))->Ok_0;
                lemma_typed_rows_len(list@, list@.len() as int);
                lemma_slice_len(limit, typed_rows(list@, list@.len() as int).0, first_len(list@));
            },
            SetExpr::Select(select) => {
                let columns = relation_columns(storage, select.from.relation)->Ok_0;
                let rows = relation_rows(storage, select.from.relation)->Ok_0;
                let n = select.from.joins@.len() as int;
                let join_columns = join_columns_of(select.from.joins@, storage, n)->Ok_0;
                let steps = join_steps(select.from.joins@, storage, join_columns, n)->Ok_0;
                let limit = limit_of(option_ref(&query.limit), option_ref(&query.offset))->Ok_0;
                let alias = alias_of(select.from.relation)->Ok_0;
                let names = select_labels(*select, columns, join_columns, true)->Ok_0;
                lemma_join_columns_len(select.from.joins@, storage, n);
                lemma_select_rows_len(*select, stored_view(rows@), columns, steps, limit, outer);
                lemma_labels_len(
                    select.projection@,
                    alias@,
                    columns,
                    join_columns,
                    select.projection@.len() as int,
                );
                lemma_join_steps_shape(
                    select.from.joins@,
                    storage,
                    alias@,
                    columns,
                    join_columns,
                    n,
                );
                assert(names_view(names).len() == names.len());
            },
        }
    }
}

/// Wildcard label parity: the labels of `*` are the columns of the base
/// relation followed by the columns of each joined relation in the order of
/// the joins, which is the order in which the projection gives the values
/// of `*`.
pub proof fn law_wildcard_labels(
    alias: Seq<char>,
    columns: Seq<String>,
    join_columns: Seq<(String, Seq<String>)>,
    chain: Seq<Binding>,
)
    ensures
        labels(seq![SelectItem::Wildcard], alias, columns, Some(join_columns), 1) == Ok::<
            Seq<String>,
            Error,
        >(columns + join_labels(join_columns, join_columns.len() as int)),
        shape(chain) == expected_shape(alias, columns, join_columns, join_columns.len() as int)
            ==> chain_columns(chain) == names_view(
            columns + join_labels(join_columns, join_columns.len() as int),
        ),
        chain_values(chain) matches Ok(values) ==> values.len() == chain_columns(chain).len(),
{
    let fields = seq![SelectItem::Wildcard];
    assert(labels(fields, alias, columns, Some(join_columns), 0) == Ok::<Seq<String>, Error>(
        Seq::empty(),
    ));
    assert(Seq::<String>::empty() + wildcard_labels(columns, Some(join_columns)) =~= columns
        + join_labels(join_columns, join_columns.len() as int));
    lemma_chain_columns_len(chain);
    lemma_chain_values_len(chain);
    if shape(chain) == expected_shape(alias, columns, join_columns, join_columns.len() as int) {
        lemma_chain_columns_expected(
            alias,
            columns,
            join_columns,
            join_columns.len() as int,
            chain,
        );
    }
}

/// The column names of every relation of a chain, the base relation first:
/// the columns in the order in which `*` gives their values.
pub open spec fn chain_columns(chain: Seq<Binding>) -> Seq<Seq<char>>
    decreases chain.len(),
{
    if chain.len() == 0 {
        Seq::empty()
    } else {
        chain_columns(chain.drop_first()) + chain[0].columns
    }
}

/// A chain has as many column names as its shape has columns.
pub proof fn lemma_chain_columns_len(chain: Seq<Binding>)
    ensures
        chain_columns(chain).len() == total_columns(shape(chain)),
    decreases chain.len(),
{
    if chain.len() > 0 {
        lemma_chain_columns_len(chain.drop_first());
        assert(shape(chain).drop_first() =~= shape(chain.drop_first()));
        assert(shape(chain)[0] == (chain[0].alias, chain[0].columns));
    }
}

/// A chain of the shape that the schema gives has the column names of the
/// labels of `*`.
pub proof fn lemma_chain_columns_expected(
    alias: Seq<char>,
    columns: Seq<String>,
    join_columns: Seq<(String, Seq<String>)>,
    k: int,
    chain: Seq<Binding>,
)
    requires
        0 <= k,
        shape(chain) == expected_shape(alias, columns, join_columns, k),
    ensures
        chain_columns(chain) == names_view(columns + join_labels(join_columns, k)),
    decreases k,
{
    let sh = expected_shape(alias, columns, join_columns, k);
    assert(shape(chain).len() == chain.len());
    assert(shape(chain)[0] == (chain[0].alias, chain[0].columns));
    assert(shape(chain).drop_first() =~= shape(chain.drop_first()));
    if k <= 0 {
        assert(chain.len() == 1);
        assert(chain.drop_first().len() == 0);
        assert(chain_columns(chain.drop_first()) =~= Seq::<Seq<char>>::empty());
        assert(chain_columns(chain) =~= names_view(columns + join_labels(join_columns, k)));
    } else {
        let rest = expected_shape(alias, columns, join_columns, k - 1);
        assert(sh.drop_first() =~= rest);
        lemma_chain_columns_expected(alias, columns, join_columns, k - 1, chain.drop_first());
        assert(chain_columns(chain) =~= names_view(columns + join_labels(join_columns, k)));
    }
}

} // verus!
