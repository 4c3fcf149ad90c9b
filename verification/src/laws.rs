//! What holds of the stages, whatever the query and the data.

use vstd::prelude::*;
use crate::aggregate::{
    add_row, group_keys, group_scope, grouped, having_groups, having_item, keys_of, GroupModel,
    GroupState,
};
use crate::ast::{Aggregate, Expr, JoinOperator, OrderByExpr};
use crate::context::Binding;
use crate::error::Error;
use crate::evaluate::{eval, Scope};
use crate::filter::{filter_item, predicate, row_scope};
use crate::join::{
    candidate, candidates, constraint, extended, is_match, joined_item, joined_row, joined_rows,
    match_count, RelationModel,
};
use crate::limit::Limit;
use crate::numeral::{int_numeral, lemma_int_numeral_value, numeral_i64};
use crate::sort::{
    directions, insert_position, item_scope, key_before, keys_before, order_exprs, sort_keys,
    sorted, sorted_order,
};
use crate::value::{
    lemma_value_less_irreflexive, lemma_value_less_total, lemma_value_less_transitive, value_less,
    SqlValue,
};

verus! {

/// OFFSET and LIMIT cut a positional slice: of `n` items, those from
/// `offset` on, at most `limit` of them.
pub proof fn law_limit_slice<T>(limit: Limit, rows: Seq<T>)
    ensures
        ({
            let n = rows.len() as int;
            let o = match limit.offset {
                Some(o) => o as int,
                None => 0,
            };
            let rest = if n - o > 0 {
                n - o
            } else {
                0
            };
            let taken = match limit.limit {
                Some(l) => if l < rest {
                    l as int
                } else {
                    rest
                },
                None => rest,
            };
            &&& limit.slice(rows).len() == taken
            &&& forall|k: int| 0 <= k < taken ==> limit.slice(rows)[k] == rows[o + k]
        }),
{
}

/// A predicate whose value is `Null` excludes the row, and one that cannot
/// be evaluated puts its error in the row's place.
pub proof fn law_filter_null_is_false(chain: Seq<Binding>, expr: &Expr, base: Scope)
    ensures
        eval(row_scope(chain, base), *expr) == Ok::<SqlValue, Error>(SqlValue::Null) ==> {
            &&& predicate(row_scope(chain, base), Some(expr)) == Ok::<bool, Error>(false)
            &&& filter_item(Ok(chain), Some(expr), base).len() == 0
        },
        eval(row_scope(chain, base), *expr) matches Err(e) ==> {
            &&& predicate(row_scope(chain, base), Some(expr)) == Err::<bool, Error>(e)
            &&& filter_item(Ok(chain), Some(expr), base) == seq![
                Err::<Seq<Binding>, Error>(e),
            ]
        },
{
}

/// The number of contexts in a stream, its errors not counted.
pub open spec fn ok_count<T>(items: Seq<Result<T, Error>>) -> nat
    decreases items.len(),
{
    if items.len() == 0 {
        0
    } else {
        ok_count(items.drop_last()) + if items.last() is Ok {
            1nat
        } else {
            0nat
        }
    }
}

/// The contexts of two streams, one after the other, are counted together.
pub proof fn lemma_ok_count_concat<T>(a: Seq<Result<T, Error>>, b: Seq<Result<T, Error>>)
    ensures
        ok_count(a + b) == ok_count(a) + ok_count(b),
    decreases b.len(),
{
    if b.len() == 0 {
        assert(a + b =~= a);
    } else {
        assert((a + b).drop_last() =~= a + b.drop_last());
        assert((a + b).last() == b.last());
        lemma_ok_count_concat(a, b.drop_last());
    }
}

/// A stream of one item holds one context, or none where the item is an
/// error.
pub proof fn lemma_ok_count_one<T>(item: Result<T, Error>)
    ensures
        ok_count(seq![item]) == if item is Ok {
            1nat
        } else {
            0nat
        },
{
    assert(seq![item].drop_last() =~= Seq::<Result<T, Error>>::empty());
    assert(ok_count(seq![item].drop_last()) == 0);
}

/// What the rows of the joined relation give for a left row: as many
/// contexts as rows match, each the left row extended by a matching row,
/// and for each matching row its context.
pub proof fn lemma_matches(
    left: Seq<Binding>,
    rel: RelationModel,
    on: Option<&Expr>,
    base: Scope,
    n: int,
)
    requires
        0 <= n <= rel.rows.len(),
    ensures
        ok_count(candidates(left, rel, on, base, n)) == match_count(left, rel, on, base, n),
        forall|k: int|
            0 <= k < candidates(left, rel, on, base, n).len() ==> (#[trigger] candidates(
                left,
                rel,
                on,
                base,
                n,
            )[k] matches Ok(c) ==> exists|j: int|
                0 <= j < n && #[trigger] rel.rows[j] is Ok && is_match(
                    left,
                    rel,
                    on,
                    base,
                    rel.rows[j],
                ) && c == extended(left, rel, Some(rel.rows[j]->Ok_0))),
        forall|j: int|
            0 <= j < n && is_match(left, rel, on, base, #[trigger] rel.rows[j]) ==> candidates(
                left,
                rel,
                on,
                base,
                n,
            ).contains(Ok(extended(left, rel, Some(rel.rows[j]->Ok_0)))),
    decreases n,
{
    if n > 0 {
        lemma_matches(left, rel, on, base, n - 1);
        let before = candidates(left, rel, on, base, n - 1);
        let added = candidate(left, rel, on, base, rel.rows[n - 1]);
        let all = candidates(left, rel, on, base, n);
        assert(all == before + added);
        lemma_ok_count_concat(before, added);
        if added.len() == 0 {
            assert(ok_count(added) == 0);
        } else {
            assert(added =~= seq![added[0]]);
            lemma_ok_count_one(added[0]);
        }
        assert forall|k: int| 0 <= k < all.len() && (#[trigger] all[k]) is Ok implies exists|
            j: int,
        |
            0 <= j < n && #[trigger] rel.rows[j] is Ok && is_match(
                left,
                rel,
                on,
                base,
                rel.rows[j],
            ) && all[k]->Ok_0 == extended(left, rel, Some(rel.rows[j]->Ok_0)) by {
            if k < before.len() {
                assert(all[k] == before[k]);
                let j = choose|j: int|
                    0 <= j < n - 1 && #[trigger] rel.rows[j] is Ok && is_match(
                        left,
                        rel,
                        on,
                        base,
                        rel.rows[j],
                    ) && before[k]->Ok_0 == extended(left, rel, Some(rel.rows[j]->Ok_0));
                assert(rel.rows[j] is Ok);
            } else {
                assert(all[k] == added[k - before.len()]);
                assert(rel.rows[n - 1] is Ok);
            }
        }
        assert forall|j: int|
            0 <= j < n && is_match(left, rel, on, base, #[trigger] rel.rows[j]) implies all.contains(
            Ok(extended(left, rel, Some(rel.rows[j]->Ok_0))),
        ) by {
            let wanted = Ok::<Seq<Binding>, Error>(
                extended(left, rel, Some(rel.rows[j]->Ok_0)),
            );
            if j < n - 1 {
                assert(before.contains(wanted));
                let k = choose|k: int| 0 <= k < before.len() && before[k] == wanted;
                assert(all[k] == wanted);
            } else {
                assert(added[0] == wanted);
                assert(all[before.len() as int] == wanted);
            }
        }
    }
}

/// Two left rows extended by rows of the joined relation are the same
/// context only where the left rows and the joined rows are the same.
pub proof fn lemma_extended_injective(
    left1: Seq<Binding>,
    left2: Seq<Binding>,
    rel: RelationModel,
    row1: Option<(u64, Seq<SqlValue>)>,
    row2: Option<(u64, Seq<SqlValue>)>,
)
    requires
        extended(left1, rel, row1) == extended(left2, rel, row2),
    ensures
        left1 == left2,
        row1 == row2,
{
    let a = extended(left1, rel, row1);
    let b = extended(left2, rel, row2);
    assert(a[0].row is Some == row1 is Some);
    assert(b[0].row is Some == row2 is Some);
    match (row1, row2) {
        (Some(r1), Some(r2)) => {
            assert(a[0].key == Some(r1.0) && a[0].row == Some(r1.1));
            assert(b[0].key == Some(r2.0) && b[0].row == Some(r2.1));
        },
        _ => {},
    }
    assert(a.drop_first() =~= left1);
    assert(b.drop_first() =~= left2);
}

/// Inner join, one left row: the context of the left row with a row of the
/// joined relation is in the output if and only if ON holds of the two.
pub proof fn law_inner_join_row(
    left: Seq<Binding>,
    rel: RelationModel,
    op: &JoinOperator,
    base: Scope,
    row: (u64, Seq<SqlValue>),
)
    requires
        op is Inner,
        rel.rows.contains(Ok(row)),
    ensures
        is_match(left, rel, constraint(op), base, Ok(row)) <==> joined_row(
            left,
            rel,
            op,
            base,
        ).contains(Ok(extended(left, rel, Some(row)))),
{
    let on = constraint(op);
    let n = rel.rows.len() as int;
    lemma_matches(left, rel, on, base, n);
    let out = joined_row(left, rel, op, base);
    assert(out == candidates(left, rel, on, base, n));
    let wanted = Ok::<Seq<Binding>, Error>(extended(left, rel, Some(row)));
    if is_match(left, rel, on, base, Ok(row)) {
        let j = choose|j: int| 0 <= j < n && rel.rows[j] == Ok::<(u64, Seq<SqlValue>), Error>(row);
        assert(is_match(left, rel, on, base, rel.rows[j]));
        assert(out.contains(wanted));
    }
    if out.contains(wanted) {
        let k = choose|k: int| 0 <= k < out.len() && out[k] == wanted;
        assert(out[k] is Ok);
        let j = choose|j: int|
            0 <= j < n && #[trigger] rel.rows[j] is Ok && is_match(
                left,
                rel,
                on,
                base,
                rel.rows[j],
            ) && out[k]->Ok_0 == extended(left, rel, Some(rel.rows[j]->Ok_0));
        lemma_extended_injective(left, left, rel, Some(row), Some(rel.rows[j]->Ok_0));
        assert(rel.rows[j] == Ok::<(u64, Seq<SqlValue>), Error>(row));
    }
}

/// Left outer join, one left row: where no row of the joined relation
/// matches, the output holds exactly one context, the null-extended one;
/// where `k` rows match, it holds exactly `k` contexts and none of them is
/// null-extended.
pub proof fn law_left_outer_join_row(
    left: Seq<Binding>,
    rel: RelationModel,
    op: &JoinOperator,
    base: Scope,
)
    requires
        op is LeftOuter,
    ensures
        ({
            let k = match_count(left, rel, constraint(op), base, rel.rows.len() as int);
            let out = joined_row(left, rel, op, base);
            &&& k == 0 ==> ok_count(out) == 1 && out.last() == Ok::<Seq<Binding>, Error>(
                extended(left, rel, None),
            )
            &&& k > 0 ==> ok_count(out) == k
            &&& k > 0 ==> forall|i: int|
                0 <= i < out.len() ==> (#[trigger] out[i] matches Ok(c) ==> c[0].row is Some)
        }),
{
    let on = constraint(op);
    let n = rel.rows.len() as int;
    lemma_matches(left, rel, on, base, n);
    let found = candidates(left, rel, on, base, n);
    let k = match_count(left, rel, on, base, n);
    let out = joined_row(left, rel, op, base);
    if k == 0 {
        let extra = Ok::<Seq<Binding>, Error>(extended(left, rel, None));
        assert(out == found.push(extra));
        assert(found.push(extra) =~= found + seq![extra]);
        lemma_ok_count_concat(found, seq![extra]);
        lemma_ok_count_one(extra);
    } else {
        assert(out == found);
        assert forall|i: int| 0 <= i < out.len() && (#[trigger] out[i]) is Ok implies (
        out[i]->Ok_0)[0].row is Some by {
            let j = choose|j: int|
                0 <= j < n && #[trigger] rel.rows[j] is Ok && is_match(
                    left,
                    rel,
                    on,
                    base,
                    rel.rows[j],
                ) && out[i]->Ok_0 == extended(left, rel, Some(rel.rows[j]->Ok_0));
        }
    }
}

/// A group is in the output of HAVING if and only if HAVING holds of it.
pub proof fn law_having(
    groups: Seq<GroupState>,
    aggregates: Seq<Aggregate>,
    having: Option<&Expr>,
    base: Scope,
    g: GroupState,
)
    requires
        groups.contains(g),
    ensures
        having_groups(groups, aggregates, having, base, groups.len() as int).contains(
            Ok(GroupModel { values: Some(g.values), chain: g.chain }),
        ) <==> predicate(group_scope(g.chain, aggregates, g.values, base), having) == Ok::<
            bool,
            Error,
        >(true),
{
    let n = groups.len() as int;
    lemma_having_groups(groups, aggregates, having, base, n);
    let out = having_groups(groups, aggregates, having, base, n);
    let wanted = Ok::<GroupModel, Error>(GroupModel { values: Some(g.values), chain: g.chain });
    let a = choose|a: int| 0 <= a < n && groups[a] == g;
    if out.contains(wanted) {
        let k = choose|k: int| 0 <= k < out.len() && out[k] == wanted;
        assert(out[k] is Ok);
    }
}

/// Every group in the output of HAVING is a group of which HAVING holds, and
/// every such group is in the output.
pub proof fn lemma_having_groups(
    groups: Seq<GroupState>,
    aggregates: Seq<Aggregate>,
    having: Option<&Expr>,
    base: Scope,
    n: int,
)
    requires
        0 <= n <= groups.len(),
    ensures
        forall|k: int|
            0 <= k < having_groups(groups, aggregates, having, base, n).len() ==> (
            #[trigger] having_groups(groups, aggregates, having, base, n)[k] matches Ok(m)
                ==> exists|a: int|
                0 <= a < n && predicate(
                    group_scope((#[trigger] groups[a]).chain, aggregates, groups[a].values, base),
                    having,
                ) == Ok::<bool, Error>(true) && m == (GroupModel {
                    values: Some(groups[a].values),
                    chain: groups[a].chain,
                })),
        forall|a: int|
            0 <= a < n && predicate(
                group_scope((#[trigger] groups[a]).chain, aggregates, groups[a].values, base),
                having,
            ) == Ok::<bool, Error>(true) ==> having_groups(
                groups,
                aggregates,
                having,
                base,
                n,
            ).contains(Ok(GroupModel { values: Some(groups[a].values), chain: groups[a].chain })),
    decreases n,
{
    if n > 0 {
        lemma_having_groups(groups, aggregates, having, base, n - 1);
        let before = having_groups(groups, aggregates, having, base, n - 1);
        let added = having_item(groups[n - 1], aggregates, having, base);
        let all = having_groups(groups, aggregates, having, base, n);
        assert(all == before + added);
        assert forall|k: int| 0 <= k < all.len() && (#[trigger] all[k]) is Ok implies exists|
            a: int,
        |
            0 <= a < n && predicate(
                group_scope((#[trigger] groups[a]).chain, aggregates, groups[a].values, base),
                having,
            ) == Ok::<bool, Error>(true) && all[k]->Ok_0 == (GroupModel {
                values: Some(groups[a].values),
                chain: groups[a].chain,
            }) by {
            if k < before.len() {
                assert(all[k] == before[k]);
                let a = choose|a: int|
                    0 <= a < n - 1 && predicate(
                        group_scope(
                            (#[trigger] groups[a]).chain,
                            aggregates,
                            groups[a].values,
                            base,
                        ),
                        having,
                    ) == Ok::<bool, Error>(true) && before[k]->Ok_0 == (GroupModel {
                        values: Some(groups[a].values),
                        chain: groups[a].chain,
                    });
                assert(0 <= a < n);
            } else {
                assert(all[k] == added[k - before.len()]);
                let g = groups[n - 1];
                assert(predicate(group_scope(g.chain, aggregates, g.values, base), having)
                    == Ok::<bool, Error>(true));
            }
        }
        assert forall|a: int|
            0 <= a < n && predicate(
                group_scope((#[trigger] groups[a]).chain, aggregates, groups[a].values, base),
                having,
            ) == Ok::<bool, Error>(true) implies all.contains(
            Ok(GroupModel { values: Some(groups[a].values), chain: groups[a].chain }),
        ) by {
            let wanted = Ok::<GroupModel, Error>(
                GroupModel { values: Some(groups[a].values), chain: groups[a].chain },
            );
            if a < n - 1 {
                assert(before.contains(wanted));
                let k = choose|k: int| 0 <= k < before.len() && before[k] == wanted;
                assert(all[k] == wanted);
            } else {
                assert(added[0] == wanted);
                assert(all[before.len() as int] == wanted);
            }
        }
    }
}

/// An item of a joined stream comes from one item of the left stream.
pub proof fn lemma_joined_rows_from(
    lefts: Seq<Result<Seq<Binding>, Error>>,
    rel: RelationModel,
    op: &JoinOperator,
    base: Scope,
    n: int,
    x: Result<Seq<Binding>, Error>,
) -> (i: int)
    requires
        joined_rows(lefts, rel, op, base, n).contains(x),
    ensures
        0 <= i < n,
        joined_item(lefts[i], rel, op, base).contains(x),
    decreases n,
{
    if n <= 0 {
        0
    } else {
        let before = joined_rows(lefts, rel, op, base, n - 1);
        let added = joined_item(lefts[n - 1], rel, op, base);
        let k = choose|k: int| 0 <= k < (before + added).len() && (before + added)[k] == x;
        if k < before.len() {
            assert(before[k] == x);
            lemma_joined_rows_from(lefts, rel, op, base, n - 1, x)
        } else {
            assert(added[k - before.len()] == x);
            n - 1
        }
    }
}

/// What one item of the left stream gives is in the joined stream.
pub proof fn lemma_joined_rows_has(
    lefts: Seq<Result<Seq<Binding>, Error>>,
    rel: RelationModel,
    op: &JoinOperator,
    base: Scope,
    n: int,
    i: int,
    x: Result<Seq<Binding>, Error>,
)
    requires
        0 <= i < n,
        joined_item(lefts[i], rel, op, base).contains(x),
    ensures
        joined_rows(lefts, rel, op, base, n).contains(x),
    decreases n,
{
    let before = joined_rows(lefts, rel, op, base, n - 1);
    let added = joined_item(lefts[n - 1], rel, op, base);
    if i < n - 1 {
        lemma_joined_rows_has(lefts, rel, op, base, n - 1, i, x);
        let k = choose|k: int| 0 <= k < before.len() && before[k] == x;
        assert((before + added)[k] == x);
    } else {
        let k = choose|k: int| 0 <= k < added.len() && added[k] == x;
        assert((before + added)[before.len() + k] == x);
    }
}

/// Inner join: for a row of the left stream and a row of the joined
/// relation, the context of the two is in the output if and only if ON holds
/// of them.
pub proof fn law_inner_join(
    lefts: Seq<Result<Seq<Binding>, Error>>,
    rel: RelationModel,
    op: &JoinOperator,
    base: Scope,
    left: Seq<Binding>,
    row: (u64, Seq<SqlValue>),
)
    requires
        op is Inner,
        lefts.contains(Ok(left)),
        rel.rows.contains(Ok(row)),
    ensures
        is_match(left, rel, constraint(op), base, Ok(row)) <==> joined_rows(
            lefts,
            rel,
            op,
            base,
            lefts.len() as int,
        ).contains(Ok(extended(left, rel, Some(row)))),
{
    let on = constraint(op);
    let n = lefts.len() as int;
    let out = joined_rows(lefts, rel, op, base, n);
    let wanted = Ok::<Seq<Binding>, Error>(extended(left, rel, Some(row)));
    if is_match(left, rel, on, base, Ok(row)) {
        law_inner_join_row(left, rel, op, base, row);
        let i = choose|i: int| 0 <= i < n && lefts[i] == Ok::<Seq<Binding>, Error>(left);
        lemma_joined_rows_has(lefts, rel, op, base, n, i, wanted);
    }
    if out.contains(wanted) {
        let i = lemma_joined_rows_from(lefts, rel, op, base, n, wanted);
        let from = joined_item(lefts[i], rel, op, base);
        let k = choose|k: int| 0 <= k < from.len() && from[k] == wanted;
        assert(lefts[i] is Ok);
        let other = lefts[i]->Ok_0;
        let m = rel.rows.len() as int;
        lemma_matches(other, rel, on, base, m);
        assert(from == candidates(other, rel, on, base, m));
        assert(from[k] is Ok);
        let j = choose|j: int|
            0 <= j < m && #[trigger] rel.rows[j] is Ok && is_match(
                other,
                rel,
                on,
                base,
                rel.rows[j],
            ) && from[k]->Ok_0 == extended(other, rel, Some(rel.rows[j]->Ok_0));
        lemma_extended_injective(left, other, rel, Some(row), Some(rel.rows[j]->Ok_0));
        assert(rel.rows[j] == Ok::<(u64, Seq<SqlValue>), Error>(row));
    }
}

/// Under one key, of two values at most one sorts before the other, and of
/// two different values one does.
pub proof fn lemma_key_before_asymmetric(a: SqlValue, b: SqlValue, descending: bool)
    ensures
        !(key_before(a, b, descending) && key_before(b, a, descending)),
        !key_before(a, a, descending),
        a == b || key_before(a, b, descending) || key_before(b, a, descending),
{
    lemma_value_less_irreflexive(a);
    lemma_value_less_total(a, b);
    if value_less(a, b) && value_less(b, a) {
        lemma_value_less_transitive(a, b, a);
    }
}

/// If `a` sorts before `b` under a key, then any third value sorts after
/// `a` or before `b`.
pub proof fn lemma_key_before_between(a: SqlValue, b: SqlValue, c: SqlValue, descending: bool)
    requires
        key_before(a, b, descending),
    ensures
        key_before(a, c, descending) || key_before(c, b, descending),
{
    lemma_key_before_asymmetric(a, c, descending);
    lemma_key_before_asymmetric(c, b, descending);
    if !(a is Null) && !(b is Null) && !(c is Null) {
        if descending {
            if value_less(c, a) && value_less(b, c) {
            } else if value_less(a, c) {
                lemma_value_less_transitive(b, a, c);
            } else if value_less(c, b) {
                lemma_value_less_transitive(c, b, a);
            }
        } else {
            if value_less(c, a) {
                lemma_value_less_transitive(c, a, b);
            } else if value_less(b, c) {
                lemma_value_less_transitive(a, b, c);
            }
        }
    }
}

/// Of two lists of key values at most one sorts before the other.
pub proof fn lemma_keys_before_asymmetric(
    a: Seq<SqlValue>,
    b: Seq<SqlValue>,
    descending: Seq<bool>,
    from: int,
)
    ensures
        !(keys_before(a, b, descending, from) && keys_before(b, a, descending, from)),
        !keys_before(a, a, descending, from),
    decreases descending.len() - from,
{
    if 0 <= from < descending.len() && from < a.len() {
        lemma_key_before_asymmetric(a[from], a[from], descending[from]);
        lemma_keys_before_asymmetric(a, a, descending, from + 1);
        if from < b.len() {
            lemma_key_before_asymmetric(a[from], b[from], descending[from]);
            lemma_keys_before_asymmetric(a, b, descending, from + 1);
        }
    }
}

/// If one list of key values sorts before another, then any third list of
/// the same length sorts after the first or before the second.
pub proof fn lemma_keys_before_between(
    a: Seq<SqlValue>,
    b: Seq<SqlValue>,
    c: Seq<SqlValue>,
    descending: Seq<bool>,
    from: int,
)
    requires
        a.len() == descending.len(),
        b.len() == descending.len(),
        c.len() == descending.len(),
        keys_before(a, b, descending, from),
    ensures
        keys_before(a, c, descending, from) || keys_before(c, b, descending, from),
    decreases descending.len() - from,
{
    let d = descending[from];
    lemma_key_before_asymmetric(a[from], b[from], d);
    lemma_key_before_asymmetric(a[from], c[from], d);
    lemma_key_before_asymmetric(c[from], b[from], d);
    if key_before(a[from], b[from], d) {
        lemma_key_before_between(a[from], b[from], c[from], d);
    } else {
        assert(a[from] == b[from]);
        if !key_before(a[from], c[from], d) && !key_before(c[from], a[from], d) {
            lemma_keys_before_between(a, b, c, descending, from + 1);
        }
    }
}

/// The place of a new key: it sorts before the item at that place and
/// before none of the items in front of it.
pub proof fn lemma_insert_position(
    order: Seq<int>,
    keys: Seq<Seq<SqlValue>>,
    descending: Seq<bool>,
    key: Seq<SqlValue>,
    from: int,
)
    requires
        0 <= from <= order.len(),
    ensures
        ({
            let p = insert_position(order, keys, descending, key, from);
            &&& from <= p <= order.len()
            &&& forall|q: int|
                from <= q < p ==> !keys_before(key, keys[#[trigger] order[q]], descending, 0)
            &&& p < order.len() ==> keys_before(key, keys[order[p]], descending, 0)
        }),
    decreases order.len() - from,
{
    if from < order.len() && !keys_before(key, keys[order[from]], descending, 0) {
        lemma_insert_position(order, keys, descending, key, from + 1);
    }
}

/// Sorting gives every item exactly one place, puts no item behind one that
/// it sorts before, and keeps items that sort alike in the order in which
/// they came.
pub proof fn law_sort(keys: Seq<Seq<SqlValue>>, descending: Seq<bool>, n: int)
    requires
        0 <= n <= keys.len(),
        forall|k: int| 0 <= k < n ==> (#[trigger] keys[k]).len() == descending.len(),
    ensures
        ({
            let order = sorted_order(keys, descending, n);
            &&& order.len() == n
            &&& forall|i: int| 0 <= i < n ==> 0 <= #[trigger] order[i] < n
            &&& forall|i: int, j: int| 0 <= i < j < n ==> order[i] != order[j]
            &&& forall|i: int, j: int|
                0 <= i < j < n ==> !keys_before(keys[order[j]], keys[order[i]], descending, 0)
            &&& forall|i: int, j: int|
                0 <= i < j < n && !keys_before(keys[order[i]], keys[order[j]], descending, 0)
                    ==> order[i] < order[j]
        }),
    decreases n,
{
    if n > 0 {
        law_sort(keys, descending, n - 1);
        let before = sorted_order(keys, descending, n - 1);
        let key = keys[n - 1];
        let p = insert_position(before, keys, descending, key, 0);
        lemma_insert_position(before, keys, descending, key, 0);
        let order = sorted_order(keys, descending, n);
        assert(order == before.insert(p, n - 1));
        assert forall|i: int| 0 <= i < n implies 0 <= #[trigger] order[i] < n by {
            if i < p {
                assert(order[i] == before[i]);
            } else if i > p {
                assert(order[i] == before[i - 1]);
            }
        }
        assert forall|i: int, j: int| 0 <= i < j < n implies order[i] != order[j] && !keys_before(
            keys[order[j]],
            keys[order[i]],
            descending,
            0,
        ) && (!keys_before(keys[order[i]], keys[order[j]], descending, 0) ==> order[i]
            < order[j]) by {
            let x = if i < p {
                before[i]
            } else if i == p {
                n - 1
            } else {
                before[i - 1]
            };
            let y = if j < p {
                before[j]
            } else if j == p {
                n - 1
            } else {
                before[j - 1]
            };
            assert(order[i] == x);
            assert(order[j] == y);
            if j == p {
                assert(0 <= before[i] < n - 1);
            } else if i == p {
                let at = before[p];
                let other = before[j - 1];
                assert(0 <= other < n - 1);
                assert(0 <= at < n - 1);
                lemma_keys_before_between(key, keys[at], keys[other], descending, 0);
                lemma_keys_before_asymmetric(keys[other], keys[at], descending, 0);
                lemma_keys_before_asymmetric(key, keys[other], descending, 0);
                if j - 1 == p {
                } else {
                    assert(!keys_before(keys[before[j - 1]], keys[before[p]], descending, 0));
                }
            } else {
                let ii = if i < p {
                    i
                } else {
                    i - 1
                };
                let jj = if j < p {
                    j
                } else {
                    j - 1
                };
                assert(0 <= ii < jj < n - 1);
                assert(before[ii] != before[jj]);
            }
        }
    }
}

/// The key values of the items of a stream: one list for each item, each
/// with one value for each key of ORDER BY.
pub proof fn lemma_sort_keys_shape(
    items: Seq<Result<GroupModel, Error>>,
    order_by: Seq<OrderByExpr>,
    aggregates: Seq<Aggregate>,
    base: Scope,
    n: int,
)
    requires
        0 <= n,
    ensures
        sort_keys(items, order_by, aggregates, base, n) matches Ok(keys) ==> keys.len() == n
            && forall|k: int|
            0 <= k < n ==> (#[trigger] keys[k]).len() == directions(order_by).len(),
    decreases n,
{
    if n > 0 {
        lemma_sort_keys_shape(items, order_by, aggregates, base, n - 1);
        if sort_keys(items, order_by, aggregates, base, n) is Ok {
            let g = items[n - 1]->Ok_0;
            lemma_keys_of_len(
                order_exprs(order_by),
                item_scope(g, aggregates, base),
                order_by.len() as int,
            );
        }
    }
}

/// A list of expressions gives one value for each of them.
pub proof fn lemma_keys_of_len(exprs: Seq<Expr>, scope: Scope, n: int)
    requires
        0 <= n,
    ensures
        keys_of(exprs, scope, n) matches Ok(v) ==> v.len() == n,
    decreases n,
{
    if n > 0 {
        lemma_keys_of_len(exprs, scope, n - 1);
    }
}

/// The key of a row of the stream under GROUP BY, where it has one.
pub open spec fn row_key(item: Result<Seq<Binding>, Error>, group_by: Seq<Expr>, base: Scope) -> Option<
    Seq<SqlValue>,
> {
    match item {
        Ok(chain) => match keys_of(group_by, row_scope(chain, base), group_by.len() as int) {
            Ok(k) => Some(k),
            Err(_) => None,
        },
        Err(_) => None,
    }
}

/// The index of the first row, from `from` on and before `n`, that has the
/// given key; `n` where there is none.
pub open spec fn first_row(
    items: Seq<Result<Seq<Binding>, Error>>,
    group_by: Seq<Expr>,
    base: Scope,
    key: Seq<SqlValue>,
    from: int,
    n: int,
) -> int
    decreases n - from,
{
    if from >= n {
        n
    } else if row_key(items[from], group_by, base) == Some(key) {
        from
    } else {
        first_row(items, group_by, base, key, from + 1, n)
    }
}

/// The first row with a key has that key, and no row before it has.
pub proof fn lemma_first_row(
    items: Seq<Result<Seq<Binding>, Error>>,
    group_by: Seq<Expr>,
    base: Scope,
    key: Seq<SqlValue>,
    from: int,
    n: int,
)
    requires
        from <= n,
    ensures
        ({
            let f = first_row(items, group_by, base, key, from, n);
            &&& from <= f <= n
            &&& f < n ==> row_key(items[f], group_by, base) == Some(key)
            &&& forall|q: int|
                from <= q < f ==> row_key(#[trigger] items[q], group_by, base) != Some(key)
        }),
    decreases n - from,
{
    if from < n && row_key(items[from], group_by, base) != Some(key) {
        lemma_first_row(items, group_by, base, key, from + 1, n);
    }
}

/// The first row with a key among the first `n` rows is the first among one
/// row more, unless there is none among the `n`.
pub proof fn lemma_first_row_grows(
    items: Seq<Result<Seq<Binding>, Error>>,
    group_by: Seq<Expr>,
    base: Scope,
    key: Seq<SqlValue>,
    n: int,
)
    requires
        0 <= n,
    ensures
        ({
            let f = first_row(items, group_by, base, key, 0, n);
            let g = first_row(items, group_by, base, key, 0, n + 1);
            &&& f < n ==> g == f
            &&& f == n && row_key(items[n], group_by, base) == Some(key) ==> g == n
            &&& f == n && row_key(items[n], group_by, base) != Some(key) ==> g == n + 1
        }),
{
    lemma_first_row(items, group_by, base, key, 0, n);
    lemma_first_row(items, group_by, base, key, 0, n + 1);
    let f = first_row(items, group_by, base, key, 0, n);
    let g = first_row(items, group_by, base, key, 0, n + 1);
    if f < n {
        if g < f {
            assert(row_key(items[g], group_by, base) != Some(key));
        } else if g > f {
            assert(row_key(items[f], group_by, base) != Some(key));
        }
    } else if g < n {
        assert(row_key(items[g], group_by, base) != Some(key));
    }
}

/// Groups come in the order in which their keys first appear: each group
/// has the key and the chain of the first row with that key, and of two
/// groups the earlier one's first row is the earlier row.
pub proof fn law_group_order(
    items: Seq<Result<Seq<Binding>, Error>>,
    group_by: Seq<Expr>,
    aggregates: Seq<Aggregate>,
    base: Scope,
    n: int,
)
    requires
        0 <= n <= items.len(),
    ensures
        grouped(items, group_by, aggregates, base, n) matches Ok(groups) ==> {
            &&& forall|a: int|
                0 <= a < groups.len() ==> {
                    let f = first_row(items, group_by, base, (#[trigger] groups[a]).key, 0, n);
                    f < n && items[f] == Ok::<Seq<Binding>, Error>(groups[a].chain)
                }
            &&& forall|a: int, b: int|
                0 <= a < b < groups.len() ==> first_row(
                    items,
                    group_by,
                    base,
                    (#[trigger] groups[a]).key,
                    0,
                    n,
                ) < first_row(items, group_by, base, (#[trigger] groups[b]).key, 0, n)
            &&& forall|i: int|
                0 <= i < n ==> row_key(#[trigger] items[i], group_by, base) is Some
                    && group_keys(groups).contains(row_key(items[i], group_by, base)->0)
        },
    decreases n,
{
    if n > 0 && grouped(items, group_by, aggregates, base, n) is Ok {
        law_group_order(items, group_by, aggregates, base, n - 1);
        let before = grouped(items, group_by, aggregates, base, n - 1)->Ok_0;
        let chain = items[n - 1]->Ok_0;
        let groups = grouped(items, group_by, aggregates, base, n)->Ok_0;
        assert(Ok::<Seq<GroupState>, Error>(groups) == add_row(
            before,
            chain,
            group_by,
            aggregates,
            base,
        ));
        let key = keys_of(group_by, row_scope(chain, base), group_by.len() as int)->Ok_0;
        assert(row_key(items[n - 1], group_by, base) == Some(key));
        group_keys(before).index_of_first_ensures(key);
        assert forall|a: int| 0 <= a < before.len() implies ({
            let f0 = first_row(items, group_by, base, (#[trigger] before[a]).key, 0, n - 1);
            let f1 = first_row(items, group_by, base, before[a].key, 0, n);
            f0 < n - 1 && f1 == f0
        }) by {
            lemma_first_row_grows(items, group_by, base, before[a].key, n - 1);
        }
        match group_keys(before).index_of_first(key) {
            Some(i) => {
                assert(group_keys(before)[i] == before[i].key);
                assert(group_keys(groups) =~= group_keys(before));
                assert forall|a: int| 0 <= a < groups.len() implies (#[trigger] groups[a]).key
                    == before[a].key && groups[a].chain == before[a].chain by {}
                assert forall|j: int| 0 <= j < n implies row_key(
                    #[trigger] items[j],
                    group_by,
                    base,
                ) is Some && group_keys(groups).contains(row_key(items[j], group_by, base)->0) by {
                    if j == n - 1 {
                        assert(group_keys(before)[i] == key);
                    }
                }
            },
            None => {
                let last = before.len() as int;
                assert(groups.len() == last + 1);
                assert(groups[last].key == key);
                assert(groups[last].chain == chain);
                assert forall|a: int| 0 <= a < last implies (#[trigger] groups[a]) == before[a] by {}
                lemma_first_row(items, group_by, base, key, 0, n - 1);
                let f = first_row(items, group_by, base, key, 0, n - 1);
                if f < n - 1 {
                    assert(group_keys(before).contains(row_key(items[f], group_by, base)->0));
                }
                lemma_first_row_grows(items, group_by, base, key, n - 1);
                assert(first_row(items, group_by, base, key, 0, n) == n - 1);
                assert(group_keys(groups) =~= group_keys(before).push(key));
                assert forall|j: int| 0 <= j < n implies row_key(
                    #[trigger] items[j],
                    group_by,
                    base,
                ) is Some && group_keys(groups).contains(row_key(items[j], group_by, base)->0) by {
                    if j == n - 1 {
                        assert(group_keys(groups)[last] == key);
                    } else {
                        let k = row_key(items[j], group_by, base)->0;
                        let at = choose|at: int|
                            0 <= at < group_keys(before).len() && group_keys(before)[at] == k;
                        assert(group_keys(groups)[at] == k);
                    }
                }
                assert forall|a: int| 0 <= a < groups.len() implies ({
                    let f = first_row(items, group_by, base, (#[trigger] groups[a]).key, 0, n);
                    f < n && items[f] == Ok::<Seq<Binding>, Error>(groups[a].chain)
                }) by {
                    if a < last {
                        assert(groups[a] == before[a]);
                    }
                }
            },
        }
    }
}

/// Without HAVING every group is emitted, in the order of the groups.
pub proof fn law_groups_emitted(
    groups: Seq<GroupState>,
    aggregates: Seq<Aggregate>,
    base: Scope,
    n: int,
)
    requires
        0 <= n <= groups.len(),
    ensures
        having_groups(groups, aggregates, None, base, n).len() == n,
        forall|a: int|
            0 <= a < n ==> #[trigger] having_groups(groups, aggregates, None, base, n)[a] == Ok::<
                GroupModel,
                Error,
            >(GroupModel { values: Some(groups[a].values), chain: groups[a].chain }),
    decreases n,
{
    if n > 0 {
        law_groups_emitted(groups, aggregates, base, n - 1);
        let before = having_groups(groups, aggregates, None, base, n - 1);
        let added = having_item(groups[n - 1], aggregates, None, base);
        let all = having_groups(groups, aggregates, None, base, n);
        assert(added.len() == 1);
        assert forall|a: int| 0 <= a < n implies #[trigger] all[a] == Ok::<GroupModel, Error>(
            GroupModel { values: Some(groups[a].values), chain: groups[a].chain },
        ) by {
            if a < n - 1 {
                assert(all[a] == before[a]);
            } else {
                assert(all[a] == added[0]);
            }
        }
    }
}

/// The sort stage: with ORDER BY, the output holds every item of the
/// stream exactly once, no item behind one that it sorts before, and items
/// that sort alike in the order in which they came.
pub proof fn law_sorted(
    items: Seq<Result<GroupModel, Error>>,
    order_by: Seq<OrderByExpr>,
    aggregates: Seq<Aggregate>,
    base: Scope,
)
    requires
        order_by.len() > 0,
    ensures
        sorted(items, order_by, aggregates, base) matches Ok(out) ==> {
            let n = items.len() as int;
            let keys = sort_keys(items, order_by, aggregates, base, n)->Ok_0;
            let d = directions(order_by);
            let order = sorted_order(keys, d, n);
            &&& out.len() == n
            &&& order.len() == n
            &&& forall|i: int| 0 <= i < n ==> 0 <= #[trigger] order[i] < n
            &&& forall|i: int| 0 <= i < n ==> #[trigger] out[i] == items[order[i]]
            &&& forall|i: int, j: int| 0 <= i < j < n ==> order[i] != order[j]
            &&& forall|i: int, j: int|
                0 <= i < j < n ==> !keys_before(keys[order[j]], keys[order[i]], d, 0)
            &&& forall|i: int, j: int|
                0 <= i < j < n && !keys_before(keys[order[i]], keys[order[j]], d, 0) ==> order[i]
                    < order[j]
        },
{
    if sorted(items, order_by, aggregates, base) is Ok {
        let n = items.len() as int;
        lemma_sort_keys_shape(items, order_by, aggregates, base, n);
        let keys = sort_keys(items, order_by, aggregates, base, n)->Ok_0;
        law_sort(keys, directions(order_by), n);
    }
}

/// The literal that the decimal numeral of a 64-bit integer makes has that
/// integer as its value.
pub proof fn law_numeral_round_trip(n: i64)
    ensures
        numeral_i64(int_numeral(n as int)) == Some(n),
{
    lemma_int_numeral_value(n as int);
}

} // verus!
