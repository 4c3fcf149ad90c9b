//! The join stage: folds the join clauses of a query into the stream of the
//! base relation's rows.

use vstd::prelude::*;
use std::rc::Rc;
use crate::ast::{Expr, JoinConstraint, JoinOperator};
use crate::context::{
    context_chain, names_view, share,
    share_option, Binding, BlendContext, FilterContext,
};
use crate::error::Error;
use crate::evaluate::Scope;
use crate::filter::{
    contexts_view, filter_item, item_view, lemma_contexts_view_push, outer_scope, predicate,
    row_scope, Filter,
};
use crate::store::{stored_item_view, stored_view};
use crate::value::{Row, SqlValue};

verus! {

/// The model of a joined relation: its alias, its column names and its rows
/// as they were read, each with its key.
pub struct RelationModel {
    pub alias: Seq<char>,
    pub columns: Seq<Seq<char>>,
    pub rows: Seq<Result<(u64, Seq<SqlValue>), Error>>,
}

/// A relation of the query with the rows that were read for it.
pub struct Relation<'a> {
    pub alias: String,
    pub columns: Rc<Vec<String>>,
    pub rows: &'a Vec<Result<(u64, Row), Error>>,
}

impl<'a> View for Relation<'a> {
    type V = RelationModel;

    open spec fn view(&self) -> RelationModel {
        RelationModel {
            alias: self.alias@,
            columns: names_view(self.columns@),
            rows: stored_view(self.rows@),
        }
    }
}

/// One join clause with the relation it joins.
pub struct JoinStep<'a> {
    pub relation: Relation<'a>,
    pub join_operator: &'a JoinOperator,
}

/// The model of a join clause with its relation.
pub struct StepModel {
    pub relation: RelationModel,
    pub operator: JoinOperator,
}

impl<'a> View for JoinStep<'a> {
    type V = StepModel;

    open spec fn view(&self) -> StepModel {
        StepModel { relation: self.relation@, operator: *self.join_operator }
    }
}

/// The models of a list of join clauses.
pub open spec fn steps_view(steps: Seq<JoinStep>) -> Seq<StepModel> {
    steps.map_values(|s: JoinStep| s@)
}

/// The ON predicate of a join, if it has one.
pub open spec fn constraint(op: &JoinOperator) -> Option<&Expr> {
    match op {
        JoinOperator::Inner(JoinConstraint::On(e)) => Some(e),
        JoinOperator::LeftOuter(JoinConstraint::On(e)) => Some(e),
        _ => None,
    }
}

/// The chain of `left` with one more relation in front of it: with a row of
/// the relation, or null-extended where `row` is absent.
pub open spec fn extended(
    left: Seq<Binding>,
    rel: RelationModel,
    row: Option<(u64, Seq<SqlValue>)>,
) -> Seq<Binding> {
    seq![
        Binding {
            alias: rel.alias,
            columns: rel.columns,
            key: match row {
                Some(r) => Some(r.0),
                None => None,
            },
            row: match row {
                Some(r) => Some(r.1),
                None => None,
            },
        },
    ] + left
}

/// What one row of the joined relation gives for one left row: the joined
/// context where ON holds, nothing where it does not, the error where the
/// row could not be read or ON could not be evaluated.
pub open spec fn candidate(
    left: Seq<Binding>,
    rel: RelationModel,
    on: Option<&Expr>,
    base: Scope,
    item: Result<(u64, Seq<SqlValue>), Error>,
) -> Seq<Result<Seq<Binding>, Error>> {
    match item {
        Err(e) => seq![Err(e)],
        Ok(row) => filter_item(Ok(extended(left, rel, Some(row))), on, base),
    }
}

/// Whether a row of the joined relation matches a left row: it was read,
/// and ON holds of the two.
pub open spec fn is_match(
    left: Seq<Binding>,
    rel: RelationModel,
    on: Option<&Expr>,
    base: Scope,
    item: Result<(u64, Seq<SqlValue>), Error>,
) -> bool {
    match item {
        Err(_) => false,
        Ok(row) => predicate(row_scope(extended(left, rel, Some(row)), base), on) == Ok::<
            bool,
            Error,
        >(true),
    }
}

/// What the first `n` rows of the joined relation give for one left row.
pub open spec fn candidates(
    left: Seq<Binding>,
    rel: RelationModel,
    on: Option<&Expr>,
    base: Scope,
    n: int,
) -> Seq<Result<Seq<Binding>, Error>>
    decreases n,
{
    if n <= 0 {
        Seq::empty()
    } else {
        candidates(left, rel, on, base, n - 1) + candidate(left, rel, on, base, rel.rows[n - 1])
    }
}

/// How many of the first `n` rows of the joined relation match a left row.
pub open spec fn match_count(
    left: Seq<Binding>,
    rel: RelationModel,
    on: Option<&Expr>,
    base: Scope,
    n: int,
) -> nat
    decreases n,
{
    if n <= 0 {
        0
    } else {
        match_count(left, rel, on, base, n - 1) + if is_match(left, rel, on, base, rel.rows[n - 1]) {
            1nat
        } else {
            0nat
        }
    }
}

/// What a join gives for one left row: what the rows of the joined relation
/// give, in their order; behind that, for a left outer join without a
/// match, the null-extended context.
pub open spec fn joined_row(left: Seq<Binding>, rel: RelationModel, op: &JoinOperator, base: Scope) -> Seq<
    Result<Seq<Binding>, Error>,
> {
    let found = candidates(left, rel, constraint(op), base, rel.rows.len() as int);
    if op is LeftOuter && match_count(left, rel, constraint(op), base, rel.rows.len() as int)
        == 0 {
        found.push(Ok(extended(left, rel, None)))
    } else {
        found
    }
}

/// What a join gives for one item of the left stream; an error stays.
pub open spec fn joined_item(
    item: Result<Seq<Binding>, Error>,
    rel: RelationModel,
    op: &JoinOperator,
    base: Scope,
) -> Seq<Result<Seq<Binding>, Error>> {
    match item {
        Err(e) => seq![Err(e)],
        Ok(left) => joined_row(left, rel, op, base),
    }
}

/// What a join gives for the first `n` items of the left stream.
pub open spec fn joined_rows(
    lefts: Seq<Result<Seq<Binding>, Error>>,
    rel: RelationModel,
    op: &JoinOperator,
    base: Scope,
    n: int,
) -> Seq<Result<Seq<Binding>, Error>>
    decreases n,
{
    if n <= 0 {
        Seq::empty()
    } else {
        joined_rows(lefts, rel, op, base, n - 1) + joined_item(lefts[n - 1], rel, op, base)
    }
}

/// The stream after the first `k` joins, each applied to the result of the
/// one before it.
pub open spec fn joined(
    lefts: Seq<Result<Seq<Binding>, Error>>,
    steps: Seq<StepModel>,
    base: Scope,
    k: int,
) -> Seq<Result<Seq<Binding>, Error>>
    decreases k,
{
    if k <= 0 {
        lefts
    } else {
        let before = joined(lefts, steps, base, k - 1);
        joined_rows(before, steps[k - 1].relation, &steps[k - 1].operator, base, before.len() as int)
    }
}

/// The model of two streams, one after the other, is their models one after
/// the other.
pub proof fn lemma_contexts_view_concat(
    a: Seq<Result<Rc<BlendContext>, Error>>,
    b: Seq<Result<Rc<BlendContext>, Error>>,
)
    ensures
        contexts_view(a + b) == contexts_view(a) + contexts_view(b),
{
    assert(contexts_view(a + b) =~= contexts_view(a) + contexts_view(b));
}

fn constraint_of<'a>(op: &'a JoinOperator) -> (r: Option<&'a Expr>)
    ensures
        r == constraint(op),
{
    match op {
        JoinOperator::Inner(JoinConstraint::On(e)) => Some(e),
        JoinOperator::LeftOuter(JoinConstraint::On(e)) => Some(e),
        _ => None,
    }
}

fn is_left_outer(op: &JoinOperator) -> (r: bool)
    ensures
        r == (op is LeftOuter),
{
    match op {
        JoinOperator::LeftOuter(_) => true,
        _ => false,
    }
}

fn join_row(left: &Rc<BlendContext>, step: &JoinStep, context: &Option<Rc<FilterContext>>) -> (out:
    Vec<Result<Rc<BlendContext>, Error>>)
    ensures
        contexts_view(out@) == joined_row(
            left.chain(),
            step.relation@,
            step.join_operator,
            outer_scope(context_chain(*context)),
        ),
{
    let ghost rel = step.relation@;
    let ghost base = outer_scope(context_chain(*context));
    let ghost l = left.chain();
    let on = constraint_of(step.join_operator);
    let filter = Filter::new(on, share_option(context), None);
    assert(filter.base() == base);
    let mut out: Vec<Result<Rc<BlendContext>, Error>> = Vec::new();
    let mut matched: bool = false;
    let n: usize = step.relation.rows.len();
    let mut j: usize = 0;
    assert(contexts_view(out@) =~= candidates(l, rel, on, base, 0));
    while j < n
        invariant
            n == step.relation.rows@.len(),
            j <= n,
            rel == step.relation@,
            base == outer_scope(context_chain(*context)),
            l == left.chain(),
            filter.where_clause == on,
            filter.base() == base,
            contexts_view(out@) == candidates(l, rel, on, base, j as int),
            matched == (match_count(l, rel, on, base, j as int) > 0),
        decreases n - j,
    {
        let ghost before = out@;
        assert(rel.rows[j as int] == stored_item_view(step.relation.rows@[j as int]));
        match &step.relation.rows[j] {
            Err(e) => {
                out.push(Err(e.clone()));
            },
            Ok((key, row)) => {
                let joined = Rc::new(
                    BlendContext::new(
                        step.relation.alias.clone(),
                        share(&step.relation.columns),
                        Some(*key),
                        Some(row.clone()),
                        Some(share(left)),
                    ),
                );
                assert(joined.chain() == extended(l, rel, Some((*key, row@))));
                match filter.check(Some(share(&joined))) {
                    Err(e) => {
                        out.push(Err(e));
                    },
                    Ok(pass) => {
                        if pass {
                            matched = true;
                            out.push(Ok(joined));
                        }
                    },
                }
            },
        }
        proof {
            let added = candidate(l, rel, on, base, rel.rows[j as int]);
            if added.len() == 0 {
                assert(contexts_view(out@) + added =~= contexts_view(out@));
            } else {
                lemma_contexts_view_push(before, out@.last());
                assert(out@ == before.push(out@.last()));
                assert(contexts_view(before) + added =~= contexts_view(before).push(added[0]));
            }
        }
        j += 1;
    }
    if is_left_outer(step.join_operator) && !matched {
        let ghost before = out@;
        let extension = Rc::new(
            BlendContext::new(
                step.relation.alias.clone(),
                share(&step.relation.columns),
                None,
                None,
                Some(share(left)),
            ),
        );
        assert(extension.chain() == extended(l, rel, None));
        out.push(Ok(extension));
        proof {
            lemma_contexts_view_push(before, out@.last());
        }
    }
    out
}

fn join_rows(
    rows: &Vec<Result<Rc<BlendContext>, Error>>,
    step: &JoinStep,
    context: &Option<Rc<FilterContext>>,
) -> (out: Vec<Result<Rc<BlendContext>, Error>>)
    ensures
        contexts_view(out@) == joined_rows(
            contexts_view(rows@),
            step.relation@,
            step.join_operator,
            outer_scope(context_chain(*context)),
            rows@.len() as int,
        ),
{
    let ghost lefts = contexts_view(rows@);
    let ghost rel = step.relation@;
    let ghost base = outer_scope(context_chain(*context));
    let mut out: Vec<Result<Rc<BlendContext>, Error>> = Vec::new();
    let n: usize = rows.len();
    let mut i: usize = 0;
    assert(contexts_view(out@) =~= joined_rows(lefts, rel, step.join_operator, base, 0));
    while i < n
        invariant
            n == rows@.len(),
            i <= n,
            lefts == contexts_view(rows@),
            rel == step.relation@,
            base == outer_scope(context_chain(*context)),
            contexts_view(out@) == joined_rows(lefts, rel, step.join_operator, base, i as int),
        decreases n - i,
    {
        let ghost before = out@;
        assert(lefts[i as int] == item_view(rows@[i as int]));
        match &rows[i] {
            Err(e) => {
                out.push(Err(e.clone()));
                proof {
                    lemma_contexts_view_push(before, out@.last());
                    let added = joined_item(lefts[i as int], rel, step.join_operator, base);
                    assert(contexts_view(before) + added =~= contexts_view(before).push(added[0]));
                }
            },
            Ok(left) => {
                let mut found = join_row(left, step, context);
                proof {
                    lemma_contexts_view_concat(before, found@);
                }
                out.append(&mut found);
            },
        }
        i += 1;
    }
    out
}

/// The join clauses of a query, each with its relation, and the context of
/// the enclosing query.
pub struct Join<'a> {
    pub steps: Vec<JoinStep<'a>>,
    pub filter_context: Option<Rc<FilterContext>>,
}

impl<'a> Join<'a> {
    /// The joins of a query, in the order of its clauses.
    pub fn new(steps: Vec<JoinStep<'a>>, filter_context: Option<Rc<FilterContext>>) -> (r: Join<'a>)
        ensures
            r.steps == steps,
            r.filter_context == filter_context,
    {
        Join { steps, filter_context }
    }

    /// Joins the relations to the stream, clause after clause.
    pub fn apply(&self, rows: Vec<Result<Rc<BlendContext>, Error>>) -> (out: Vec<
        Result<Rc<BlendContext>, Error>,
    >)
        ensures
            contexts_view(out@) == joined(
                contexts_view(rows@),
                steps_view(self.steps@),
                outer_scope(context_chain(self.filter_context)),
                self.steps@.len() as int,
            ),
    {
        let ghost lefts = contexts_view(rows@);
        let ghost base = outer_scope(context_chain(self.filter_context));
        let mut current = rows;
        let n: usize = self.steps.len();
        let mut k: usize = 0;
        while k < n
            invariant
                n == self.steps@.len(),
                k <= n,
                base == outer_scope(context_chain(self.filter_context)),
                contexts_view(current@) == joined(lefts, steps_view(self.steps@), base, k as int),
            decreases n - k,
        {
            assert(contexts_view(current@).len() == current@.len());
            assert(steps_view(self.steps@)[k as int] == self.steps@[k as int]@);
            current = join_rows(&current, &self.steps[k], &self.filter_context);
            k += 1;
        }
        current
    }
}

} // verus!
