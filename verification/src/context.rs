//! Row contexts: the chain of per-relation bindings that joins build, and the
//! lookup of a column through it.

use vstd::prelude::*;
use std::rc::Rc;
use crate::error::{Error, RowError};
use crate::text::str_equal;
use crate::value::{Row, SqlValue, Value};

verus! {

/// One more pointer to the value that `rc` points to.
///
/// Calls `Rc::clone`, which shares the allocation: the new pointer leads to
/// the same value.
#[verifier::external_body]
pub(crate) fn share<T>(rc: &Rc<T>) -> (r: Rc<T>)
    ensures
        r == *rc,
{
    Rc::clone(rc)
}

/// One more pointer to the value behind an optional pointer.
pub(crate) fn share_option<T>(shared: &Option<Rc<T>>) -> (r: Option<Rc<T>>)
    ensures
        r == *shared,
{
    match shared {
        Some(rc) => Some(share(rc)),
        None => None,
    }
}

/// The model of one relation's part of a context: the relation's alias, its
/// column names, the key that the storage gave to the row, and the values
/// of the row, absent where an outer join found no match.
pub struct Binding {
    pub alias: Seq<char>,
    pub columns: Seq<Seq<char>>,
    pub key: Option<u64>,
    pub row: Option<Seq<SqlValue>>,
}

/// The characters of each of a list of names.
pub open spec fn names_view(names: Seq<String>) -> Seq<Seq<char>> {
    names.map_values(|s: String| s@)
}

/// The characters of an optional alias.
pub open spec fn alias_view(alias: Option<&str>) -> Option<Seq<char>> {
    match alias {
        Some(a) => Some(a@),
        None => None,
    }
}

/// The model of the outcome of a lookup.
pub open spec fn found_view(r: Option<Result<Value, Error>>) -> Option<Result<SqlValue, Error>> {
    match r {
        Some(Ok(v)) => Some(Ok(v@)),
        Some(Err(e)) => Some(Err(e)),
        None => None,
    }
}

impl Binding {
    /// The value that this relation gives to the column `name`, asked for
    /// under `alias` or under no alias: nothing where the alias is another
    /// or the relation has no such column; `Null` where the row is absent; an
    /// error where the row is too short for the column.
    pub open spec fn get(self, alias: Option<Seq<char>>, name: Seq<char>) -> Option<
        Result<SqlValue, Error>,
    > {
        if alias is Some && alias->0 != self.alias {
            None
        } else {
            match self.columns.index_of_first(name) {
                Some(i) => match self.row {
                    None => Some(Ok(SqlValue::Null)),
                    Some(row) => if i < row.len() {
                        Some(Ok(row[i]))
                    } else {
                        Some(Err(Error::Row(RowError::ConflictOnStorageColumnIndex)))
                    },
                },
                None => None,
            }
        }
    }
}

/// The value of a column in a chain: that of the first relation, from the
/// front, which gives it one.
pub open spec fn find(chain: Seq<Binding>, alias: Option<Seq<char>>, name: Seq<char>) -> Option<
    Result<SqlValue, Error>,
>
    decreases chain.len(),
{
    if chain.len() == 0 {
        None
    } else if chain[0].get(alias, name) is Some {
        chain[0].get(alias, name)
    } else {
        find(chain.drop_first(), alias, name)
    }
}

/// A lookup in two chains, one after the other, asks the second only where
/// the first gives nothing.
pub proof fn lemma_find_concat(
    a: Seq<Binding>,
    b: Seq<Binding>,
    alias: Option<Seq<char>>,
    name: Seq<char>,
)
    ensures
        find(a + b, alias, name) == if find(a, alias, name) is Some {
            find(a, alias, name)
        } else {
            find(b, alias, name)
        },
    decreases a.len(),
{
    if a.len() == 0 {
        assert(a + b =~= b);
    } else {
        assert((a + b)[0] == a[0]);
        assert((a + b).drop_first() =~= a.drop_first() + b);
        lemma_find_concat(a.drop_first(), b, alias, name);
    }
}

/// The index of the first of `columns` that is `name`.
pub fn position(columns: &Vec<String>, name: &str) -> (r: Option<usize>)
    ensures
        match r {
            Some(i) => names_view(columns@).index_of_first(name@) == Some(i as int),
            None => names_view(columns@).index_of_first(name@) is None,
        },
{
    let ghost names = names_view(columns@);
    let n: usize = columns.len();
    let mut i: usize = 0;
    while i < n
        invariant
            n == columns.len(),
            names == names_view(columns@),
            i <= n,
            forall|j: int| 0 <= j < i ==> names[j] != name@,
        decreases n - i,
    {
        if str_equal(columns[i].as_str(), name) {
            proof {
                assert(names[i as int] == name@);
                names.index_of_first_ensures(name@);
            }
            return Some(i);
        }
        i += 1;
    }
    proof {
        names.index_of_first_ensures(name@);
    }
    None
}

/// One (possibly join-composed) source record before projection: the row of
/// one relation, linked to the context of the relations joined before it.
/// A context is never changed once it is built.
#[derive(Debug)]
pub struct BlendContext {
    pub table_alias: String,
    pub columns: Rc<Vec<String>>,
    pub key: Option<u64>,
    pub row: Option<Row>,
    pub next: Option<Rc<BlendContext>>,
}

impl BlendContext {
    /// The model of this context's own relation.
    pub open spec fn binding(&self) -> Binding {
        Binding {
            alias: self.table_alias@,
            columns: names_view(self.columns@),
            key: self.key,
            row: match self.row {
                Some(row) => Some(row@),
                None => None,
            },
        }
    }

    /// The bindings of this context, the most recently joined relation first.
    pub open spec fn chain(&self) -> Seq<Binding>
        decreases self,
    {
        match self.next {
            Some(next) => seq![self.binding()] + next.chain(),
            None => seq![self.binding()],
        }
    }

    /// A context of one relation's row, linked to the context behind it.
    pub fn new(
        table_alias: String,
        columns: Rc<Vec<String>>,
        key: Option<u64>,
        row: Option<Row>,
        next: Option<Rc<BlendContext>>,
    ) -> (r: BlendContext)
        ensures
            r.table_alias == table_alias,
            r.columns == columns,
            r.key == key,
            r.row == row,
            r.next == next,
    {
        BlendContext { table_alias, columns, key, row, next }
    }

    /// What this context's own relation gives to a column.
    fn own_value(&self, alias: Option<&str>, name: &str) -> (r: Option<Result<Value, Error>>)
        ensures
            found_view(r) == self.binding().get(alias_view(alias), name@),
    {
        let alias_matches: bool = match alias {
            Some(a) => str_equal(self.table_alias.as_str(), a),
            None => true,
        };
        if !alias_matches {
            return None;
        }
        match position(&self.columns, name) {
            None => None,
            Some(i) => match &self.row {
                None => Some(Ok(Value::Null)),
                Some(row) => match row.get_value(i) {
                    Some(v) => Some(Ok(v.clone())),
                    None => Some(Err(Error::Row(RowError::ConflictOnStorageColumnIndex))),
                },
            },
        }
    }

    /// The value of a column, looked for from this context outward.
    pub fn get_value(&self, alias: Option<&str>, name: &str) -> (r: Option<Result<Value, Error>>)
        ensures
            found_view(r) == find(self.chain(), alias_view(alias), name@),
        decreases self,
    {
        let own = self.own_value(alias, name);
        proof {
            assert(self.chain()[0] == self.binding());
            if self.next is Some {
                assert(self.chain().drop_first() =~= self.next->0.chain());
            } else {
                assert(self.chain().drop_first() =~= Seq::<Binding>::empty());
                assert(find(Seq::<Binding>::empty(), alias_view(alias), name@) is None);
            }
        }
        if own.is_some() {
            return own;
        }
        match &self.next {
            Some(next) => next.get_value(alias, name),
            None => None,
        }
    }
}

/// The bindings of an optional context: none where there is no context.
pub open spec fn blend_chain(context: Option<Rc<BlendContext>>) -> Seq<Binding> {
    match context {
        Some(c) => c.chain(),
        None => Seq::empty(),
    }
}

/// The context in which an expression is evaluated: the chain of the row at
/// hand, and behind it the context of an enclosing query.
#[derive(Debug)]
pub struct FilterContext {
    pub content: Option<Rc<BlendContext>>,
    pub next: Option<Rc<FilterContext>>,
}

impl FilterContext {
    /// The bindings an expression can see: those of the row, then those of
    /// the enclosing contexts.
    pub open spec fn chain(&self) -> Seq<Binding>
        decreases self,
    {
        match self.next {
            Some(next) => blend_chain(self.content) + next.chain(),
            None => blend_chain(self.content),
        }
    }

    /// An evaluation context: the chain of a row, and the context of an
    /// enclosing query.
    pub fn new(content: Option<Rc<BlendContext>>, next: Option<Rc<FilterContext>>) -> (r:
        FilterContext)
        ensures
            r.content == content,
            r.next == next,
    {
        FilterContext { content, next }
    }

    /// The value of a column, looked for in the row's chain and then in the
    /// enclosing contexts.
    pub fn get_value(&self, alias: Option<&str>, name: &str) -> (r: Option<Result<Value, Error>>)
        ensures
            found_view(r) == find(self.chain(), alias_view(alias), name@),
        decreases self,
    {
        let own: Option<Result<Value, Error>> = match &self.content {
            Some(c) => c.get_value(alias, name),
            None => None,
        };
        proof {
            if self.next is Some {
                lemma_find_concat(
                    blend_chain(self.content),
                    self.next->0.chain(),
                    alias_view(alias),
                    name@,
                );
            }
        }
        if own.is_some() {
            return own;
        }
        match &self.next {
            Some(next) => next.get_value(alias, name),
            None => None,
        }
    }
}

/// The bindings of an optional evaluation context.
pub open spec fn context_chain(context: Option<Rc<FilterContext>>) -> Seq<Binding> {
    match context {
        Some(c) => c.chain(),
        None => Seq::empty(),
    }
}

} // verus!
