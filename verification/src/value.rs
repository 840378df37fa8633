//! The structured-value model that crosses the storage boundary: rows are
//! ordered field maps, field values are scalars, arrays or embedded rows.
//! Fetched relationships arrive as embedded rows, unfetched ones as bare
//! key strings; both are `Value`s. Contracts speak about the mathematical
//! views `ValueView` and `RowView`.

use vstd::prelude::*;

use crate::strutil::lex_le;
use crate::strutil::lemma_lex_le_total;
use crate::strutil::lemma_lex_le_trans;
use crate::strutil::str_le;

verus! {

/// A structured field value.
#[derive(Debug, PartialEq)]
pub enum Value {
    Null,
    Bool(bool),
    Int(i64),
    Text(String),
    Arr(Vec<Value>),
    Obj(Row),
}

/// A row: an ordered list of named field values, as the storage service
/// stores and returns it. Lookup takes the first binding of a name.
#[derive(Debug, PartialEq)]
pub struct Row {
    pub fields: Vec<(String, Value)>,
}

/// The mathematical shape of a `Value`.
#[verifier::ext_equal]
pub enum ValueView {
    Null,
    Bool(bool),
    Int(int),
    Text(Seq<char>),
    Arr(Seq<ValueView>),
    Obj(Seq<(Seq<char>, ValueView)>),
}

/// The mathematical shape of a `Row`: name/value pairs in order.
pub type RowView = Seq<(Seq<char>, ValueView)>;

/// The view of a value.
pub open spec fn view_of(v: Value) -> ValueView
    decreases v,
{
    match v {
        Value::Null => ValueView::Null,
        Value::Bool(b) => ValueView::Bool(b),
        Value::Int(i) => ValueView::Int(i as int),
        Value::Text(s) => ValueView::Text(s@),
        Value::Arr(items) => ValueView::Arr(views_of(items@)),
        Value::Obj(row) => ValueView::Obj(fields_view_of(row.fields@)),
    }
}

/// The views of a sequence of values, in order.
pub open spec fn views_of(s: Seq<Value>) -> Seq<ValueView>
    decreases s,
{
    if s.len() == 0 {
        Seq::empty()
    } else {
        seq![view_of(s[0])] + views_of(s.drop_first())
    }
}

/// The view of a field list, in order.
pub open spec fn fields_view_of(s: Seq<(String, Value)>) -> RowView
    decreases s,
{
    if s.len() == 0 {
        Seq::empty()
    } else {
        seq![(s[0].0@, view_of(s[0].1))] + fields_view_of(s.drop_first())
    }
}

/// `views_of` maps indexes one for one.
pub broadcast proof fn lemma_views_of(s: Seq<Value>)
    ensures
        (#[trigger] views_of(s)).len() == s.len(),
        forall|i: int| 0 <= i < s.len() ==> views_of(s)[i] == view_of(s[i]),
    decreases s,
{
    if s.len() != 0 {
        lemma_views_of(s.drop_first());
    }
}

/// `fields_view_of` maps indexes one for one.
pub broadcast proof fn lemma_fields_view_of(s: Seq<(String, Value)>)
    ensures
        (#[trigger] fields_view_of(s)).len() == s.len(),
        forall|i: int|
            0 <= i < s.len() ==> fields_view_of(s)[i] == (s[i].0@, view_of(s[i].1)),
    decreases s,
{
    if s.len() != 0 {
        lemma_fields_view_of(s.drop_first());
    }
}

impl View for Value {
    type V = ValueView;

    open spec fn view(&self) -> ValueView {
        view_of(*self)
    }
}

impl View for Row {
    type V = RowView;

    open spec fn view(&self) -> RowView {
        fields_view_of(self.fields@)
    }
}

/// First binding of `name` in a row view.
pub open spec fn vget(r: RowView, name: Seq<char>) -> Option<ValueView>
    decreases r.len(),
{
    if r.len() == 0 {
        None
    } else if r[0].0 == name {
        Some(r[0].1)
    } else {
        vget(r.drop_first(), name)
    }
}

/// The row view after binding `name` to `v`: the first binding of the name
/// is replaced, or the pair is appended when the name is absent.
pub open spec fn vset(r: RowView, name: Seq<char>, v: ValueView) -> RowView
    decreases r.len(),
{
    if r.len() == 0 {
        seq![(name, v)]
    } else if r[0].0 == name {
        seq![(r[0].0, v)] + r.drop_first()
    } else {
        seq![r[0]] + vset(r.drop_first(), name, v)
    }
}

/// After `vset`, looking the name up yields the new value.
pub proof fn lemma_vset_get(r: RowView, name: Seq<char>, v: ValueView)
    ensures
        vget(vset(r, name, v), name) == Some(v),
    decreases r.len(),
{
    if r.len() == 0 {
        assert(vset(r, name, v).drop_first() =~= Seq::<(Seq<char>, ValueView)>::empty());
    } else if r[0].0 == name {
    } else {
        lemma_vset_get(r.drop_first(), name, v);
        assert(vset(r, name, v).drop_first() =~= vset(r.drop_first(), name, v));
    }
}

impl Row {
    /// An empty row.
    pub fn new() -> (r: Row)
        ensures
            r@ =~= Seq::<(Seq<char>, ValueView)>::empty(),
    {
        Row { fields: Vec::new() }
    }

    /// Returns a reference to the value bound to `name`, if any.
    pub fn get(&self, name: &str) -> (r: Option<&Value>)
        ensures
            match r {
                Some(v) => vget(self@, name@) == Some(v@),
                None => vget(self@, name@) is None,
            },
    {
        let key = String::from_str(name);
        let n = self.fields.len();
        let mut i: usize = 0;
        proof {
            lemma_fields_view_of(self.fields@);
            assert(self@.skip(0) =~= self@);
        }
        loop
            invariant
                i <= n,
                n == self.fields@.len(),
                self@.len() == n,
                forall|j: int|
                    0 <= j < n ==> self@[j] == ((#[trigger] self.fields@[j]).0@, view_of(
                        self.fields@[j].1,
                    )),
                key@ == name@,
                vget(self@, name@) == vget(self@.skip(i as int), name@),
            decreases n - i,
        {
            if i == n {
                return None;
            }
            if self.fields[i].0 == key {
                return Some(&self.fields[i].1);
            }
            proof {
                assert(self@.skip(i as int).drop_first() =~= self@.skip(i as int + 1));
            }
            i = i + 1;
        }
    }

    /// Binds `name` to `v`: replaces the first binding of the name, or
    /// appends the pair when the name is absent.
    pub fn set(&mut self, name: String, v: Value)
        ensures
            final(self)@ == vset(old(self)@, name@, v@),
    {
        let n = self.fields.len();
        let mut i: usize = 0;
        proof {
            lemma_fields_view_of(self.fields@);
            assert(self@.skip(0) =~= self@);
            assert(self@.take(0) =~= Seq::<(Seq<char>, ValueView)>::empty());
        }
        loop
            invariant
                i <= n,
                n == self.fields@.len(),
                *self == *old(self),
                self@.len() == n,
                forall|j: int|
                    0 <= j < n ==> self@[j] == ((#[trigger] self.fields@[j]).0@, view_of(
                        self.fields@[j].1,
                    )),
                vset(old(self)@, name@, v@) =~= self@.take(i as int) + vset(
                    self@.skip(i as int),
                    name@,
                    v@,
                ),
            decreases n - i,
        {
            if i == n {
                proof {
                    assert(self@.skip(i as int) =~= Seq::<(Seq<char>, ValueView)>::empty());
                    assert(self@.take(i as int) =~= self@);
                }
                self.fields.push((name, v));
                proof {
                    lemma_fields_view_of(self.fields@);
                    assert(self@ =~= vset(old(self)@, name@, v@));
                }
                return ;
            }
            if self.fields[i].0 == name {
                proof {
                    assert(vset(self@.skip(i as int), name@, v@) =~= seq![
                        (self@[i as int].0, v@),
                    ] + self@.skip(i as int + 1));
                }
                self.fields[i].1 = v;
                proof {
                    lemma_fields_view_of(self.fields@);
                    assert(self@ =~= vset(old(self)@, name@, v@));
                }
                return ;
            }
            proof {
                assert(self@.skip(i as int).drop_first() =~= self@.skip(i as int + 1));
                assert(self@.take(i as int).push(self@[i as int]) =~= self@.take(i as int + 1));
                assert(self@.take(i as int) + (seq![self@[i as int]] + vset(
                    self@.skip(i as int + 1),
                    name@,
                    v@,
                )) =~= self@.take(i as int + 1) + vset(self@.skip(i as int + 1), name@, v@));
            }
            i = i + 1;
        }
    }

    /// Appends a binding without looking for an existing one; the callers
    /// building fresh rows use it with names they never repeat.
    pub fn push_field(&mut self, name: String, v: Value)
        ensures
            final(self)@ == old(self)@.push((name@, v@)),
    {
        proof {
            lemma_fields_view_of(self.fields@);
        }
        self.fields.push((name, v));
        proof {
            lemma_fields_view_of(self.fields@);
            assert(self@ =~= old(self)@.push((name@, v@)));
        }
    }
}

/// Rank of a value's shape; shapes are ordered by rank before content.
pub open spec fn rank(v: ValueView) -> int {
    match v {
        ValueView::Null => 0,
        ValueView::Bool(_) => 1,
        ValueView::Int(_) => 2,
        ValueView::Text(_) => 3,
        ValueView::Arr(_) => 4,
        ValueView::Obj(_) => 5,
    }
}

/// Whether a value is a scalar (not an array, not an embedded row).
pub open spec fn is_scalar(v: ValueView) -> bool {
    rank(v) <= 3
}

/// Equality as the comparators use it: defined on scalars only.
pub open spec fn scalar_eq(a: ValueView, b: ValueView) -> bool {
    is_scalar(a) && is_scalar(b) && a == b
}

/// Strict "less than" as the comparators use it: defined on scalars of the
/// same shape only.
pub open spec fn scalar_lt(a: ValueView, b: ValueView) -> bool {
    match (a, b) {
        (ValueView::Bool(x), ValueView::Bool(y)) => !x && y,
        (ValueView::Int(x), ValueView::Int(y)) => x < y,
        (ValueView::Text(x), ValueView::Text(y)) => lex_le(x, y) && x != y,
        _ => false,
    }
}

/// The total preorder order-by sorts rows with: by shape rank first, then
/// by content for scalars; arrays and embedded rows of equal rank tie.
pub open spec fn value_le(a: ValueView, b: ValueView) -> bool {
    if rank(a) != rank(b) {
        rank(a) < rank(b)
    } else {
        match (a, b) {
            (ValueView::Bool(x), ValueView::Bool(y)) => !x || y,
            (ValueView::Int(x), ValueView::Int(y)) => x <= y,
            (ValueView::Text(x), ValueView::Text(y)) => lex_le(x, y),
            _ => true,
        }
    }
}

/// `value_le` extended to a possibly missing field: absence sorts first.
pub open spec fn opt_value_le(a: Option<ValueView>, b: Option<ValueView>) -> bool {
    match (a, b) {
        (Option::None, _) => true,
        (Option::Some(_), Option::None) => false,
        (Option::Some(x), Option::Some(y)) => value_le(x, y),
    }
}

/// The order-by preorder is total.
pub proof fn lemma_opt_value_le_total(a: Option<ValueView>, b: Option<ValueView>)
    ensures
        opt_value_le(a, b) || opt_value_le(b, a),
{
    if a is Some && b is Some {
        match (a->0, b->0) {
            (ValueView::Text(x), ValueView::Text(y)) => lemma_lex_le_total(x, y),
            _ => {},
        }
    }
}

/// The order-by preorder is transitive.
pub proof fn lemma_opt_value_le_trans(
    a: Option<ValueView>,
    b: Option<ValueView>,
    c: Option<ValueView>,
)
    requires
        opt_value_le(a, b),
        opt_value_le(b, c),
    ensures
        opt_value_le(a, c),
{
    if a is Some && b is Some && c is Some {
        match (a->0, b->0, c->0) {
            (ValueView::Text(x), ValueView::Text(y), ValueView::Text(z)) => lemma_lex_le_trans(
                x,
                y,
                z,
            ),
            _ => {},
        }
    }
}

/// Decides scalar equality.
pub fn scalar_eq_exec(a: &Value, b: &Value) -> (r: bool)
    ensures
        r == scalar_eq(a@, b@),
{
    match (a, b) {
        (Value::Null, Value::Null) => true,
        (Value::Bool(x), Value::Bool(y)) => *x == *y,
        (Value::Int(x), Value::Int(y)) => *x == *y,
        (Value::Text(x), Value::Text(y)) => *x == *y,
        _ => false,
    }
}

/// Decides scalar strict comparison.
pub fn scalar_lt_exec(a: &Value, b: &Value) -> (r: bool)
    ensures
        r == scalar_lt(a@, b@),
{
    match (a, b) {
        (Value::Bool(x), Value::Bool(y)) => !*x && *y,
        (Value::Int(x), Value::Int(y)) => *x < *y,
        (Value::Text(x), Value::Text(y)) => str_le(x.as_str(), y.as_str()) && !(*x == *y),
        _ => false,
    }
}

/// Decides the order-by preorder on possibly missing fields.
pub fn opt_value_le_exec(a: Option<&Value>, b: Option<&Value>) -> (r: bool)
    ensures
        r == opt_value_le(
            match a {
                Some(x) => Some(x@),
                None => None,
            },
            match b {
                Some(y) => Some(y@),
                None => None,
            },
        ),
{
    match (a, b) {
        (Option::None, _) => true,
        (Option::Some(_), Option::None) => false,
        (Option::Some(x), Option::Some(y)) => value_le_exec(x, y),
    }
}

/// Rank of a value's shape.
pub fn rank_exec(v: &Value) -> (r: u8)
    ensures
        r as int == rank(v@),
{
    match v {
        Value::Null => 0,
        Value::Bool(_) => 1,
        Value::Int(_) => 2,
        Value::Text(_) => 3,
        Value::Arr(_) => 4,
        Value::Obj(_) => 5,
    }
}

/// Decides the order-by preorder.
pub fn value_le_exec(a: &Value, b: &Value) -> (r: bool)
    ensures
        r == value_le(a@, b@),
{
    let ra = rank_exec(a);
    let rb = rank_exec(b);
    if ra != rb {
        ra < rb
    } else {
        match (a, b) {
            (Value::Bool(x), Value::Bool(y)) => !*x || *y,
            (Value::Int(x), Value::Int(y)) => *x <= *y,
            (Value::Text(x), Value::Text(y)) => str_le(x.as_str(), y.as_str()),
            _ => true,
        }
    }
}

impl Value {
    /// A copy with the same view.
    pub fn deep_clone(&self) -> (r: Value)
        ensures
            r@ == self@,
        decreases *self,
    {
        match self {
            Value::Null => Value::Null,
            Value::Bool(b) => Value::Bool(*b),
            Value::Int(i) => Value::Int(*i),
            Value::Text(s) => Value::Text(s.clone()),
            Value::Arr(items) => {
                let n = items.len();
                let mut out: Vec<Value> = Vec::new();
                let mut i: usize = 0;
                while i < n
                    invariant
                        i <= n,
                        n == items@.len(),
                        *self == Value::Arr(*items),
                        out@.len() == i,
                        forall|j: int| 0 <= j < i ==> (#[trigger] out@[j])@ == items@[j]@,
                    decreases n - i,
                {
                    proof {
                        assert(*items == self->Arr_0);
                        assert(decreases_to!(*self => self->Arr_0));
                        assert(decreases_to!(*items => items[i as int]));
                    }
                    let e = items[i].deep_clone();
                    out.push(e);
                    i = i + 1;
                }
                proof {
                    lemma_views_of(out@);
                    lemma_views_of(items@);
                    assert(views_of(out@) =~= views_of(items@));
                }
                Value::Arr(out)
            },
            Value::Obj(row) => {
                proof {
                    assert(*row == self->Obj_0);
                    assert(decreases_to!(*self => self->Obj_0));
                }
                Value::Obj(row.deep_clone())
            },
        }
    }
}

impl Clone for Value {
    fn clone(&self) -> (r: Self)
        ensures
            r@ == self@,
    {
        self.deep_clone()
    }
}

impl Clone for Row {
    fn clone(&self) -> (r: Self)
        ensures
            r@ == self@,
    {
        self.deep_clone()
    }
}

impl Row {
    /// A copy with the same view.
    pub fn deep_clone(&self) -> (r: Row)
        ensures
            r@ == self@,
        decreases *self,
    {
        let n = self.fields.len();
        let mut out: Vec<(String, Value)> = Vec::new();
        let mut i: usize = 0;
        while i < n
            invariant
                i <= n,
                n == self.fields@.len(),
                out@.len() == i,
                forall|j: int|
                    0 <= j < i ==> (#[trigger] out@[j]).0@ == self.fields@[j].0@ && out@[j].1@
                        == self.fields@[j].1@,
            decreases n - i,
        {
            let name = self.fields[i].0.clone();
            proof {
                assert(decreases_to!(*self => self.fields));
                assert(decreases_to!(self.fields => self.fields[i as int]));
            }
            let v = self.fields[i].1.deep_clone();
            out.push((name, v));
            i = i + 1;
        }
        proof {
            lemma_fields_view_of(out@);
            lemma_fields_view_of(self.fields@);
            assert(fields_view_of(out@) =~= fields_view_of(self.fields@));
        }
        Row { fields: out }
    }
}

} // verus!
