//! Scalar values, their types, and the mathematical model of a value.

use vstd::prelude::*;

verus! {

/// The type of a non-null value.
#[derive(Clone, Copy, Debug, PartialEq, Eq, Structural)]
pub enum DataType {
    Boolean,
    Int,
    Text,
}

/// The mathematical model of a scalar value.
pub enum SqlValue {
    Null,
    Bool(bool),
    Int(int),
    Text(Seq<char>),
}

/// A scalar value as it is stored in a row.
#[derive(Debug, PartialEq, Eq)]
pub enum Value {
    Null,
    Bool(bool),
    I64(i64),
    Str(String),
}

impl View for Value {
    type V = SqlValue;

    open spec fn view(&self) -> SqlValue {
        match *self {
            Value::Null => SqlValue::Null,
            Value::Bool(b) => SqlValue::Bool(b),
            Value::I64(n) => SqlValue::Int(n as int),
            Value::Str(s) => SqlValue::Text(s@),
        }
    }
}

impl Clone for Value {
    fn clone(&self) -> (r: Self)
        ensures
            r == *self,
    {
        match self {
            Value::Null => Value::Null,
            Value::Bool(b) => Value::Bool(*b),
            Value::I64(n) => Value::I64(*n),
            Value::Str(s) => Value::Str(s.clone()),
        }
    }
}

impl SqlValue {
    /// The type of the value; `Null` has none.
    pub open spec fn data_type(self) -> Option<DataType> {
        match self {
            SqlValue::Null => None,
            SqlValue::Bool(_) => Some(DataType::Boolean),
            SqlValue::Int(_) => Some(DataType::Int),
            SqlValue::Text(_) => Some(DataType::Text),
        }
    }
}

/// The model of an optional value.
pub open spec fn option_view(v: Option<Value>) -> Option<SqlValue> {
    match v {
        Some(v) => Some(v@),
        None => None,
    }
}

/// The model of an optional reference to a value.
pub open spec fn option_ref_view(v: Option<&Value>) -> Option<SqlValue> {
    match v {
        Some(v) => Some(v@),
        None => None,
    }
}

/// The models of a sequence of values, one by one.
pub open spec fn values_view(values: Seq<Value>) -> Seq<SqlValue> {
    values.map_values(|v: Value| v@)
}

impl Value {
    /// The type of the value; `Null` has none.
    pub fn get_type(&self) -> (r: Option<DataType>)
        ensures
            r == self@.data_type(),
    {
        match self {
            Value::Null => None,
            Value::Bool(_) => Some(DataType::Boolean),
            Value::I64(_) => Some(DataType::Int),
            Value::Str(_) => Some(DataType::Text),
        }
    }

    /// Whether the value is `Null`.
    pub fn is_null(&self) -> (r: bool)
        ensures
            r == (self@ is Null),
    {
        match self {
            Value::Null => true,
            _ => false,
        }
    }
}

/// Whether `a` comes before `b` when texts are ordered by their characters'
/// code points, a proper prefix before what it begins.
pub open spec fn text_less(a: Seq<char>, b: Seq<char>) -> bool
    decreases a.len(),
{
    if b.len() == 0 {
        false
    } else if a.len() == 0 {
        true
    } else if a[0] == b[0] {
        text_less(a.drop_first(), b.drop_first())
    } else {
        (a[0] as int) < (b[0] as int)
    }
}

/// The place of a value's kind in the order of all values: `Null` first.
pub open spec fn kind_rank(v: SqlValue) -> int {
    match v {
        SqlValue::Null => 0,
        SqlValue::Bool(_) => 1,
        SqlValue::Int(_) => 2,
        SqlValue::Text(_) => 3,
    }
}

/// The strict total order of values: by kind, then `false` before `true`,
/// integers by size, texts by `text_less`.
pub open spec fn value_less(a: SqlValue, b: SqlValue) -> bool {
    match (a, b) {
        (SqlValue::Bool(x), SqlValue::Bool(y)) => !x && y,
        (SqlValue::Int(x), SqlValue::Int(y)) => x < y,
        (SqlValue::Text(x), SqlValue::Text(y)) => text_less(x, y),
        _ => kind_rank(a) < kind_rank(b),
    }
}

/// No text comes before itself.
pub proof fn lemma_text_less_irreflexive(a: Seq<char>)
    ensures
        !text_less(a, a),
    decreases a.len(),
{
    if a.len() > 0 {
        lemma_text_less_irreflexive(a.drop_first());
    }
}

/// Of two different texts one comes before the other.
pub proof fn lemma_text_less_total(a: Seq<char>, b: Seq<char>)
    ensures
        a == b || text_less(a, b) || text_less(b, a),
    decreases a.len(),
{
    if a.len() == 0 || b.len() == 0 {
        if a.len() == 0 && b.len() == 0 {
            assert(a =~= b);
        }
    } else if a[0] == b[0] {
        lemma_text_less_total(a.drop_first(), b.drop_first());
        if a.drop_first() == b.drop_first() {
            assert forall|i: int| 0 <= i < a.len() implies a[i] == b[i] by {
                if i > 0 {
                    assert(a[i] == a.drop_first()[i - 1]);
                    assert(b[i] == b.drop_first()[i - 1]);
                }
            }
            assert(a.len() == a.drop_first().len() + 1);
            assert(b.len() == b.drop_first().len() + 1);
            assert(a =~= b);
        }
    } else {
        assert(a[0] as int != b[0] as int);
    }
}

/// A text that comes before a second comes before every text that the second
/// comes before.
pub proof fn lemma_text_less_transitive(a: Seq<char>, b: Seq<char>, c: Seq<char>)
    requires
        text_less(a, b),
        text_less(b, c),
    ensures
        text_less(a, c),
    decreases a.len(),
{
    if a.len() > 0 && a[0] == b[0] && b[0] == c[0] {
        lemma_text_less_transitive(a.drop_first(), b.drop_first(), c.drop_first());
    }
}

/// No value comes before itself.
pub proof fn lemma_value_less_irreflexive(a: SqlValue)
    ensures
        !value_less(a, a),
{
    if let SqlValue::Text(x) = a {
        lemma_text_less_irreflexive(x);
    }
}

/// Of two different values one comes before the other.
pub proof fn lemma_value_less_total(a: SqlValue, b: SqlValue)
    ensures
        a == b || value_less(a, b) || value_less(b, a),
{
    match (a, b) {
        (SqlValue::Text(x), SqlValue::Text(y)) => {
            lemma_text_less_total(x, y);
        },
        _ => {},
    }
}

/// A value that comes before a second comes before every value that the
/// second comes before.
pub proof fn lemma_value_less_transitive(a: SqlValue, b: SqlValue, c: SqlValue)
    requires
        value_less(a, b),
        value_less(b, c),
    ensures
        value_less(a, c),
{
    match (a, b, c) {
        (SqlValue::Text(x), SqlValue::Text(y), SqlValue::Text(z)) => {
            lemma_text_less_transitive(x, y, z);
        },
        _ => {},
    }
}

/// Whether `a` comes before `b` in the order of texts.
///
/// Calls `str::lt`; std orders strings lexicographically by their bytes,
/// which in UTF-8 is the order of the code points.
#[verifier::external_body]
fn str_less(a: &str, b: &str) -> (r: bool)
    ensures
        r == text_less(a@, b@),
{
    a < b
}

impl Value {
    /// Whether two values hold the same content.
    pub fn equals(&self, other: &Value) -> (r: bool)
        ensures
            r == (self@ == other@),
    {
        match (self, other) {
            (Value::Null, Value::Null) => true,
            (Value::Bool(x), Value::Bool(y)) => *x == *y,
            (Value::I64(x), Value::I64(y)) => *x == *y,
            (Value::Str(x), Value::Str(y)) => *x == *y,
            _ => false,
        }
    }

    /// Whether `self` comes before `other` in the total order of values.
    pub fn less_than(&self, other: &Value) -> (r: bool)
        ensures
            r == value_less(self@, other@),
    {
        match (self, other) {
            (Value::Bool(x), Value::Bool(y)) => !*x && *y,
            (Value::I64(x), Value::I64(y)) => *x < *y,
            (Value::Str(x), Value::Str(y)) => str_less(x.as_str(), y.as_str()),
            _ => self.kind() < other.kind(),
        }
    }

    fn kind(&self) -> (r: u8)
        ensures
            r == kind_rank(self@),
    {
        match self {
            Value::Null => 0,
            Value::Bool(_) => 1,
            Value::I64(_) => 2,
            Value::Str(_) => 3,
        }
    }
}

/// A copy of a list of values.
pub fn clone_values(values: &Vec<Value>) -> (out: Vec<Value>)
    ensures
        out@ == values@,
{
    let mut out: Vec<Value> = Vec::new();
    let n: usize = values.len();
    let mut i: usize = 0;
    while i < n
        invariant
            n == values@.len(),
            i <= n,
            out@ == values@.take(i as int),
        decreases n - i,
    {
        out.push(values[i].clone());
        assert(values@.take(i + 1) == values@.take(i as int).push(values@[i as int]));
        i += 1;
    }
    assert(values@.take(n as int) == values@);
    out
}

/// The models of a list with one more value are the models with one more
/// model.
pub proof fn lemma_values_view_push(values: Seq<Value>, v: Value)
    ensures
        values_view(values.push(v)) == values_view(values).push(v@),
{
    assert(values_view(values.push(v)) =~= values_view(values).push(v@));
}

/// An ordered, fixed-length sequence of values, one per column.
#[derive(Debug, PartialEq, Eq)]
pub struct Row(pub Vec<Value>);

impl View for Row {
    type V = Seq<SqlValue>;

    open spec fn view(&self) -> Seq<SqlValue> {
        values_view(self.0@)
    }
}

impl Clone for Row {
    fn clone(&self) -> (r: Self)
        ensures
            r@ == self@,
    {
        let mut values: Vec<Value> = Vec::new();
        let n: usize = self.0.len();
        let mut i: usize = 0;
        while i < n
            invariant
                n == self.0.len(),
                i <= n,
                values@ == self.0@.take(i as int),
            decreases n - i,
        {
            values.push(self.0[i].clone());
            assert(self.0@.take(i + 1) == self.0@.take(i as int).push(self.0@[i as int]));
            i += 1;
        }
        assert(self.0@.take(n as int) == self.0@);
        Row(values)
    }
}

impl Row {
    /// The number of values in the row.
    pub fn len(&self) -> (n: usize)
        ensures
            n == self@.len(),
    {
        self.0.len()
    }

    /// The value at `index`, where the row has one.
    pub fn get_value(&self, index: usize) -> (r: Option<&Value>)
        ensures
            index < self@.len() ==> (r matches Some(v) && v@ == self@[index as int]),
            index >= self@.len() ==> r is None,
    {
        if index < self.0.len() {
            Some(&self.0[index])
        } else {
            None
        }
    }
}

} // verus!
