//! The filter stage: a predicate decides which contexts pass.

use vstd::prelude::*;
use std::rc::Rc;
use crate::ast::Expr;
use crate::context::{blend_chain, context_chain, share, Binding, BlendContext, FilterContext};
use crate::error::{Error, EvaluateError};
use crate::evaluate::{aggregates_view, eval, evaluate, truth, Aggregated, Scope};
use crate::value::{values_view, Value};

verus! {

/// `Some(item)` where `pass` holds, nothing otherwise.
///
/// Calls `Boolinator::as_some` on the `bool`, which returns `Some` of its
/// argument for `true` and `None` for `false`.
#[verifier::external_body]
pub(crate) fn as_some<T>(pass: bool, item: T) -> (r: Option<T>)
    ensures
        r == if pass {
            Some(item)
        } else {
            None
        },
{
    boolinator::Boolinator::as_some(pass, item)
}

/// The model of a stream of contexts: for each item its chain, or its error.
pub open spec fn item_view(item: Result<Rc<BlendContext>, Error>) -> Result<Seq<Binding>, Error> {
    match item {
        Ok(c) => Ok(c.chain()),
        Err(e) => Err(e),
    }
}

/// The model of a stream of contexts.
pub open spec fn contexts_view(items: Seq<Result<Rc<BlendContext>, Error>>) -> Seq<
    Result<Seq<Binding>, Error>,
> {
    items.map_values(|item: Result<Rc<BlendContext>, Error>| item_view(item))
}

/// The model of a stream with one more item is the model with one more item.
pub proof fn lemma_contexts_view_push(
    items: Seq<Result<Rc<BlendContext>, Error>>,
    item: Result<Rc<BlendContext>, Error>,
)
    ensures
        contexts_view(items.push(item)) == contexts_view(items).push(item_view(item)),
{
    assert(contexts_view(items.push(item)) =~= contexts_view(items).push(item_view(item)));
}

/// Whether a predicate holds in a scope. No predicate always holds. A
/// predicate whose value is `Null` does not hold; one whose value is neither
/// `Null` nor a boolean is an error, as is one that cannot be evaluated.
pub open spec fn predicate(scope: Scope, expr: Option<&Expr>) -> Result<bool, Error> {
    match expr {
        None => Ok(true),
        Some(e) => match eval(scope, *e) {
            Err(err) => Err(err),
            Ok(v) => match truth(v) {
                Err(err) => Err(err),
                Ok(Some(b)) => Ok(b),
                Ok(None) => Ok(false),
            },
        },
    }
}

/// What a predicate turns one item of a stream into: an error stays, a
/// context stays where the predicate holds, leaves where it does not, and
/// becomes the error where the predicate gives one.
pub open spec fn filter_item(
    item: Result<Seq<Binding>, Error>,
    expr: Option<&Expr>,
    base: Scope,
) -> Seq<Result<Seq<Binding>, Error>> {
    match item {
        Err(e) => seq![Err(e)],
        Ok(chain) => match predicate(row_scope(chain, base), expr) {
            Err(e) => seq![Err(e)],
            Ok(true) => seq![Ok(chain)],
            Ok(false) => seq![],
        },
    }
}

/// The scope of a row: its own chain before what `base` holds.
pub open spec fn row_scope(chain: Seq<Binding>, base: Scope) -> Scope {
    Scope { chain: chain + base.chain, aggregates: base.aggregates, values: base.values }
}

/// The scope of an enclosing context alone, without aggregate values.
pub open spec fn outer_scope(outer: Seq<Binding>) -> Scope {
    Scope { chain: outer, aggregates: Seq::empty(), values: Seq::empty() }
}

/// The first `n` items of a stream, filtered.
pub open spec fn filter_stream(
    items: Seq<Result<Seq<Binding>, Error>>,
    expr: Option<&Expr>,
    base: Scope,
    n: int,
) -> Seq<Result<Seq<Binding>, Error>>
    decreases n,
{
    if n <= 0 {
        Seq::empty()
    } else {
        filter_stream(items, expr, base, n - 1) + filter_item(items[n - 1], expr, base)
    }
}

/// A predicate with the context of the enclosing query and, for HAVING, the
/// aggregate values of the group at hand.
pub struct Filter<'a> {
    pub where_clause: Option<&'a Expr>,
    pub context: Option<Rc<FilterContext>>,
    pub aggregated: Option<Aggregated<'a>>,
}

impl<'a> Filter<'a> {
    /// A filter with the given predicate.
    pub fn new(
        where_clause: Option<&'a Expr>,
        context: Option<Rc<FilterContext>>,
        aggregated: Option<Aggregated<'a>>,
    ) -> (r: Filter<'a>)
        ensures
            r.where_clause == where_clause,
            r.context == context,
            r.aggregated == aggregated,
    {
        Filter { where_clause, context, aggregated }
    }

    /// The scope in which the predicate sees a row: the row's chain, then the
    /// enclosing context, and the aggregate values.
    pub open spec fn scope(&self, blend_context: Option<Rc<BlendContext>>) -> Scope {
        row_scope(blend_chain(blend_context), self.base())
    }

    /// What the predicate sees behind every row: the enclosing context and
    /// the aggregate values.
    pub open spec fn base(&self) -> Scope {
        Scope {
            chain: context_chain(self.context),
            aggregates: match self.aggregated {
                Some(a) => aggregates_view(a.aggregates@),
                None => Seq::empty(),
            },
            values: match self.aggregated {
                Some(a) => values_view(a.values@),
                None => Seq::empty(),
            },
        }
    }

    /// Whether the row of `blend_context` passes.
    pub fn check(&self, blend_context: Option<Rc<BlendContext>>) -> (r: Result<bool, Error>)
        ensures
            r == predicate(self.scope(blend_context), self.where_clause),
    {
        match self.where_clause {
            None => Ok(true),
            Some(expr) => {
                let next: Option<Rc<FilterContext>> = match &self.context {
                    Some(c) => Some(share(c)),
                    None => None,
                };
                let context = FilterContext::new(blend_context, next);
                assert(context.chain() =~= blend_chain(blend_context) + context_chain(
                    self.context,
                ));
                let value = evaluate(Some(&context), self.aggregated.as_ref(), expr)?;
                match value {
                    Value::Null => Ok(false),
                    Value::Bool(b) => Ok(b),
                    _ => Err(Error::Evaluate(EvaluateError::BooleanTypeRequired)),
                }
            },
        }
    }

    /// Filters a stream of contexts, item by item and in order.
    pub fn apply(&self, rows: &Vec<Result<Rc<BlendContext>, Error>>) -> (out: Vec<
        Result<Rc<BlendContext>, Error>,
    >)
        ensures
            contexts_view(out@) == filter_stream(
                contexts_view(rows@),
                self.where_clause,
                self.base(),
                rows@.len() as int,
            ),
    {
        let ghost items = contexts_view(rows@);
        let ghost outer = self.base();
        let mut out: Vec<Result<Rc<BlendContext>, Error>> = Vec::new();
        let n: usize = rows.len();
        let mut i: usize = 0;
        assert(contexts_view(out@) =~= filter_stream(items, self.where_clause, outer, 0));
        while i < n
            invariant
                n == rows@.len(),
                i <= n,
                items == contexts_view(rows@),
                outer == self.base(),
                contexts_view(out@) == filter_stream(items, self.where_clause, outer, i as int),
            decreases n - i,
        {
            let ghost before = out@;
            assert(items[i as int] == item_view(rows@[i as int]));
            match &rows[i] {
                Err(e) => {
                    out.push(Err(e.clone()));
                },
                Ok(context) => {
                    match self.check(Some(share(context))) {
                        Err(e) => {
                            out.push(Err(e));
                        },
                        Ok(pass) => {
                            match as_some(pass, share(context)) {
                                Some(c) => {
                                    out.push(Ok(c));
                                },
                                None => {},
                            }
                        },
                    }
                },
            }
            proof {
                let added = filter_item(items[i as int], self.where_clause, outer);
                if added.len() == 0 {
                    assert(contexts_view(out@) + added =~= contexts_view(out@));
                } else {
                    lemma_contexts_view_push(before, out@.last());
                    assert(out@ == before.push(out@.last()));
                    assert(contexts_view(before) + added =~= contexts_view(before).push(added[0]));
                }
            }
            i += 1;
        }
        out
    }
}

} // verus!
