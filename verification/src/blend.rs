//! The projection stage: turns each item of the stream into an output row.

use vstd::prelude::*;
use std::rc::Rc;
use crate::aggregate::{group_item_view, groups_view, AggregateContext, GroupModel};
use crate::ast::{Aggregate, ObjectName, SelectItem};
use crate::context::{
    blend_chain, context_chain, share_option,
    Binding, BlendContext, FilterContext,
};
use crate::error::{Error, RowError, SelectError, TableError};
use crate::evaluate::{aggregates_view, eval, evaluate, scope_of, Aggregated, Scope};
use crate::filter::outer_scope;
use crate::sort::item_scope;
use crate::store::{row_item_view, rows_view};
use crate::text::str_equal;
use crate::value::{lemma_values_view_push, values_view, Row, SqlValue, Value};

verus! {

/// The last part of a name: the table or alias that it names.
pub open spec fn name_of(name: ObjectName) -> Result<String, Error> {
    if name.0@.len() == 0 {
        Err(Error::Table(TableError::Unreachable))
    } else {
        Ok(name.0@.last())
    }
}

/// The last part of a name; an error where the name has no part.
pub fn get_name(name: &ObjectName) -> (r: Result<&String, Error>)
    ensures
        match r {
            Ok(s) => name_of(*name) == Ok::<String, Error>(*s),
            Err(e) => name_of(*name) == Err::<String, Error>(e),
        },
{
    let n: usize = name.0.len();
    if n == 0 {
        Err(Error::Table(TableError::Unreachable))
    } else {
        Ok(&name.0[n - 1])
    }
}

/// The values that one relation of a chain gives to `*`: one per column,
/// `Null` for each where the row is absent; an error where the row has
/// fewer values than the relation has columns.
pub open spec fn binding_values(b: Binding) -> Result<Seq<SqlValue>, Error> {
    match b.row {
        None => Ok(Seq::new(b.columns.len(), |i: int| SqlValue::Null)),
        Some(row) => if row.len() < b.columns.len() {
            Err(Error::Row(RowError::ConflictOnStorageColumnIndex))
        } else {
            Ok(row.take(b.columns.len() as int))
        },
    }
}

/// The values of every relation of a chain, the base relation first and the
/// most recently joined one last.
pub open spec fn chain_values(chain: Seq<Binding>) -> Result<Seq<SqlValue>, Error>
    decreases chain.len(),
{
    if chain.len() == 0 {
        Ok(Seq::empty())
    } else {
        match chain_values(chain.drop_first()) {
            Err(e) => Err(e),
            Ok(outer) => match binding_values(chain[0]) {
                Err(e) => Err(e),
                Ok(own) => Ok(outer + own),
            },
        }
    }
}

/// The values of the relation with the given alias: of the first such
/// relation, the base relation taken first. Nothing where no relation of the
/// chain has the alias.
pub open spec fn qualified_values(chain: Seq<Binding>, alias: Seq<char>) -> Option<
    Result<Seq<SqlValue>, Error>,
>
    decreases chain.len(),
{
    if chain.len() == 0 {
        None
    } else {
        match qualified_values(chain.drop_first(), alias) {
            Some(r) => Some(r),
            None => if chain[0].alias == alias {
                Some(binding_values(chain[0]))
            } else {
                None
            },
        }
    }
}

/// The values that one item of the projection gives for one item of the
/// stream.
pub open spec fn item_values(
    field: SelectItem,
    g: GroupModel,
    aggregates: Seq<Aggregate>,
    base: Scope,
) -> Result<Seq<SqlValue>, Error> {
    match field {
        SelectItem::Wildcard => if g.chain.len() == 0 {
            Err(Error::Select(SelectError::WildcardOnEmptyGroup))
        } else {
            chain_values(g.chain)
        },
        SelectItem::QualifiedWildcard(target) => match name_of(target) {
            Err(e) => Err(e),
            Ok(alias) => match qualified_values(g.chain, alias@) {
                Some(r) => r,
                None => Err(Error::Select(SelectError::TableAliasNotFound(alias))),
            },
        },
        SelectItem::Expr { expr, label } => match eval(item_scope(g, aggregates, base), expr) {
            Err(e) => Err(e),
            Ok(v) => Ok(seq![v]),
        },
    }
}

/// The values that the first `n` items of the projection give, one after
/// the other; the first error wins.
pub open spec fn blended(
    fields: Seq<SelectItem>,
    g: GroupModel,
    aggregates: Seq<Aggregate>,
    base: Scope,
    n: int,
) -> Result<Seq<SqlValue>, Error>
    decreases n,
{
    if n <= 0 {
        Ok(Seq::empty())
    } else {
        match blended(fields, g, aggregates, base, n - 1) {
            Err(e) => Err(e),
            Ok(done) => match item_values(fields[n - 1], g, aggregates, base) {
                Err(e) => Err(e),
                Ok(more) => Ok(done + more),
            },
        }
    }
}

/// The output of the stage for one item of the stream; an error stays.
pub open spec fn blended_item(
    item: Result<GroupModel, Error>,
    fields: Seq<SelectItem>,
    aggregates: Seq<Aggregate>,
    base: Scope,
) -> Result<Seq<SqlValue>, Error> {
    match item {
        Err(e) => Err(e),
        Ok(g) => blended(fields, g, aggregates, base, fields.len() as int),
    }
}

/// The output of the stage: one item for each item of the stream.
pub open spec fn blended_rows(
    items: Seq<Result<GroupModel, Error>>,
    fields: Seq<SelectItem>,
    aggregates: Seq<Aggregate>,
    base: Scope,
) -> Seq<Result<Seq<SqlValue>, Error>> {
    items.map_values(|item: Result<GroupModel, Error>| blended_item(item, fields, aggregates, base))
}

/// Once the projection of a row has met an error, that error is its result.
pub proof fn lemma_blended_error_stays(
    fields: Seq<SelectItem>,
    g: GroupModel,
    aggregates: Seq<Aggregate>,
    base: Scope,
    i: int,
    n: int,
)
    requires
        0 <= i <= n,
        blended(fields, g, aggregates, base, i) is Err,
    ensures
        blended(fields, g, aggregates, base, n) == blended(fields, g, aggregates, base, i),
    decreases n - i,
{
    if i < n {
        lemma_blended_error_stays(fields, g, aggregates, base, i, n - 1);
    }
}

/// Appends to `out` what one relation gives to `*`.
fn push_own_values(context: &BlendContext, out: &mut Vec<Value>) -> (r: Result<(), Error>)
    ensures
        match r {
            Ok(_) => binding_values(context.binding()) matches Ok(own) && values_view(
                final(out)@,
            ) == values_view(old(out)@) + own,
            Err(e) => binding_values(context.binding()) == Err::<Seq<SqlValue>, Error>(e),
        },
{
    let ghost start = values_view(out@);
    let n: usize = context.columns.len();
    assert(context.binding().columns.len() == n);
    match &context.row {
        None => {
            let mut i: usize = 0;
            assert(start + Seq::new(0, |k: int| SqlValue::Null) =~= start);
            while i < n
                invariant
                    i <= n,
                    values_view(out@) == start + Seq::new(i as nat, |k: int| SqlValue::Null),
                decreases n - i,
            {
                proof {
                    lemma_values_view_push(out@, Value::Null);
                    assert((start + Seq::new(i as nat, |k: int| SqlValue::Null)).push(
                        SqlValue::Null,
                    ) =~= start + Seq::new((i + 1) as nat, |k: int| SqlValue::Null));
                }
                out.push(Value::Null);
                i += 1;
            }
            Ok(())
        },
        Some(row) => {
            if row.len() < n {
                return Err(Error::Row(RowError::ConflictOnStorageColumnIndex));
            }
            let mut i: usize = 0;
            assert(start + row@.take(0) =~= start);
            while i < n
                invariant
                    i <= n,
                    n <= row@.len(),
                    row@.len() == row.0@.len(),
                    values_view(out@) == start + row@.take(i as int),
                decreases n - i,
            {
                proof {
                    lemma_values_view_push(out@, row.0@[i as int]);
                    assert((start + row@.take(i as int)).push(row@[i as int]) =~= start
                        + row@.take(i + 1));
                }
                out.push(row.0[i].clone());
                i += 1;
            }
            Ok(())
        },
    }
}

/// Appends to `out` what `*` gives for a chain, the base relation first.
fn push_chain_values(context: &BlendContext, out: &mut Vec<Value>) -> (r: Result<(), Error>)
    ensures
        match r {
            Ok(_) => chain_values(context.chain()) matches Ok(all) && values_view(final(out)@)
                == values_view(old(out)@) + all,
            Err(e) => chain_values(context.chain()) == Err::<Seq<SqlValue>, Error>(e),
        },
    decreases context,
{
    let ghost start = values_view(out@);
    proof {
        assert(context.chain()[0] == context.binding());
        if context.next is Some {
            assert(context.chain().drop_first() =~= context.next->0.chain());
        } else {
            assert(context.chain().drop_first() =~= Seq::<Binding>::empty());
            assert(chain_values(Seq::<Binding>::empty()) == Ok::<Seq<SqlValue>, Error>(
                Seq::empty(),
            ));
            assert(start + Seq::<SqlValue>::empty() =~= start);
        }
    }
    match &context.next {
        Some(next) => {
            push_chain_values(next, out)?;
        },
        None => {},
    }
    let ghost middle = values_view(out@);
    push_own_values(context, out)?;
    proof {
        let outer = chain_values(context.chain().drop_first())->Ok_0;
        let own = binding_values(context.binding())->Ok_0;
        assert(start + outer + own =~= start + (outer + own));
    }
    Ok(())
}

/// Appends to `out` what `alias.*` gives for a chain; says whether a
/// relation with the alias was found.
fn push_qualified_values(context: &BlendContext, alias: &String, out: &mut Vec<Value>) -> (r:
    Result<bool, Error>)
    ensures
        match r {
            Ok(true) => qualified_values(context.chain(), alias@) matches Some(Ok(all))
                && values_view(final(out)@) == values_view(old(out)@) + all,
            Ok(false) => qualified_values(context.chain(), alias@) is None && final(out)@ == old(
                out,
            )@,
            Err(e) => qualified_values(context.chain(), alias@) == Some(
                Err::<Seq<SqlValue>, Error>(e),
            ),
        },
    decreases context,
{
    proof {
        assert(context.chain()[0] == context.binding());
        if context.next is Some {
            assert(context.chain().drop_first() =~= context.next->0.chain());
        } else {
            assert(context.chain().drop_first() =~= Seq::<Binding>::empty());
            assert(qualified_values(Seq::<Binding>::empty(), alias@) is None);
        }
    }
    let found: bool = match &context.next {
        Some(next) => push_qualified_values(next, alias, out)?,
        None => false,
    };
    if found {
        return Ok(true);
    }
    if str_equal(context.table_alias.as_str(), alias.as_str()) {
        push_own_values(context, out)?;
        Ok(true)
    } else {
        Ok(false)
    }
}

/// The model of the outcome of a projection.
pub open spec fn row_result_view(r: Result<Row, Error>) -> Result<Seq<SqlValue>, Error> {
    row_item_view(r)
}

/// The projection with the aggregate functions of the query and the context
/// of the enclosing query.
pub struct Blend<'a> {
    pub fields: &'a Vec<SelectItem>,
    pub aggregates: &'a Vec<&'a Aggregate>,
    pub filter_context: Option<Rc<FilterContext>>,
}

impl<'a> Blend<'a> {
    /// What every row sees behind its own chain.
    pub open spec fn base(&self) -> Scope {
        outer_scope(context_chain(self.filter_context))
    }

    /// A projection over the given items.
    pub fn new(
        filter_context: Option<Rc<FilterContext>>,
        fields: &'a Vec<SelectItem>,
        aggregates: &'a Vec<&'a Aggregate>,
    ) -> (r: Blend<'a>)
        ensures
            r.fields == fields,
            r.aggregates == aggregates,
            r.filter_context == filter_context,
    {
        Blend { fields, aggregates, filter_context }
    }

    /// The output row of one item of the stream.
    pub fn apply(&self, item: &AggregateContext) -> (r: Result<Row, Error>)
        ensures
            row_result_view(r) == blended(
                self.fields@,
                item@,
                aggregates_view(self.aggregates@),
                self.base(),
                self.fields@.len() as int,
            ),
    {
        let ghost g = item@;
        let ghost aggs = aggregates_view(self.aggregates@);
        let ghost base = self.base();
        let context = FilterContext::new(share_option(&item.next), share_option(&self.filter_context));
        assert(context.chain() =~= blend_chain(item.next) + base.chain);
        let aggregated: Option<Aggregated> = match &item.aggregated {
            Some(values) => Some(Aggregated { aggregates: self.aggregates, values: values }),
            None => None,
        };
        let bound: Option<&Aggregated> = aggregated.as_ref();
        assert(scope_of(Some(&context), bound) == item_scope(g, aggs, base));
        let mut out: Vec<Value> = Vec::new();
        let n: usize = self.fields.len();
        let mut i: usize = 0;
        assert(values_view(out@) =~= Seq::<SqlValue>::empty());
        while i < n
            invariant
                n == self.fields@.len(),
                i <= n,
                g == item@,
                aggs == aggregates_view(self.aggregates@),
                base == self.base(),
                scope_of(Some(&context), bound) == item_scope(g, aggs, base),
                blended(self.fields@, g, aggs, base, i as int) == Ok::<Seq<SqlValue>, Error>(
                    values_view(out@),
                ),
            decreases n - i,
        {
            let ghost before = values_view(out@);
            let step: Result<(), Error> = match &self.fields[i] {
                SelectItem::Wildcard => match &item.next {
                    None => Err(Error::Select(SelectError::WildcardOnEmptyGroup)),
                    Some(c) => {
                        assert(c.chain().len() > 0);
                        push_chain_values(c, &mut out)
                    },
                },
                SelectItem::QualifiedWildcard(target) => match get_name(target) {
                    Err(e) => Err(e),
                    Ok(alias) => match &item.next {
                        None => {
                            assert(qualified_values(Seq::<Binding>::empty(), alias@) is None);
                            Err(Error::Select(SelectError::TableAliasNotFound(alias.clone())))
                        },
                        Some(c) => match push_qualified_values(c, alias, &mut out) {
                            Err(e) => Err(e),
                            Ok(true) => Ok(()),
                            Ok(false) => Err(
                                Error::Select(SelectError::TableAliasNotFound(alias.clone())),
                            ),
                        },
                    },
                },
                SelectItem::Expr { expr, label } => match evaluate(Some(&context), bound, expr) {
                    Err(e) => Err(e),
                    Ok(v) => {
                        proof {
                            lemma_values_view_push(out@, v);
                            assert(before.push(v@) =~= before + seq![v@]);
                        }
                        out.push(v);
                        Ok(())
                    },
                },
            };
            match step {
                Ok(_) => {},
                Err(e) => {
                    proof {
                        lemma_blended_error_stays(self.fields@, g, aggs, base, i + 1, n as int);
                    }
                    return Err(e);
                },
            }
            i += 1;
        }
        Ok(Row(out))
    }

    /// The output rows of a stream, item by item and in order.
    pub fn apply_all(&self, rows: &Vec<Result<AggregateContext, Error>>) -> (out: Vec<
        Result<Row, Error>,
    >)
        ensures
            rows_view(out@) == blended_rows(
                groups_view(rows@),
                self.fields@,
                aggregates_view(self.aggregates@),
                self.base(),
            ),
    {
        let ghost items = groups_view(rows@);
        let ghost aggs = aggregates_view(self.aggregates@);
        let ghost base = self.base();
        let mut out: Vec<Result<Row, Error>> = Vec::new();
        let n: usize = rows.len();
        let mut i: usize = 0;
        while i < n
            invariant
                n == rows@.len(),
                i <= n,
                items == groups_view(rows@),
                aggs == aggregates_view(self.aggregates@),
                base == self.base(),
                out@.len() == i,
                forall|j: int|
                    0 <= j < i ==> row_item_view(out@[j]) == blended_item(
                        items[j],
                        self.fields@,
                        aggs,
                        base,
                    ),
            decreases n - i,
        {
            assert(items[i as int] == group_item_view(rows@[i as int]));
            match &rows[i] {
                Err(e) => out.push(Err(e.clone())),
                Ok(item) => out.push(self.apply(item)),
            }
            i += 1;
        }
        assert(rows_view(out@) =~= blended_rows(items, self.fields@, aggs, base));
        out
    }
}

} // verus!
