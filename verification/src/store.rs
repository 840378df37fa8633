//! The reference storage model: an in-memory table of rows implementing
//! the storage-service contract the record operations are built on —
//! create/read/update/merge/delete by key, and a query execution that
//! filters by the condition leaves (traversal included), orders by the
//! first order-by clause, and resolves the fetched relationship fields to
//! embedded rows. The stated properties of the library are proved and
//! exercised against this model.

use vstd::prelude::*;
use vstd::multiset::Multiset;

use crate::errors::Error;
use crate::id::Id;
use crate::id::is_valid_key;
use crate::id::lemma_concat_key_valid;
use crate::query::LeafView;
use crate::query::Op;
use crate::query::OrderBy;
use crate::query::OrderView;
use crate::query::QueryPlan;
use crate::schema::FieldPath;
use crate::strutil::dec_spec;
use crate::strutil::lemma_dec_spec_len;
use crate::strutil::str_eq;
use crate::strutil::u64_to_dec;
use crate::value::Row;
use crate::value::RowView;
use crate::value::Value;
use crate::value::ValueView;
use crate::value::opt_value_le;
use crate::value::scalar_eq;
use crate::value::scalar_eq_exec;
use crate::value::scalar_lt;
use crate::value::scalar_lt_exec;
use crate::value::vget;
use crate::value::vset;

verus! {

/// The shared, process-wide store: its rows, and the counter fresh record
/// keys are drawn from.
#[derive(Debug)]
pub struct Store {
    pub rows: Vec<Row>,
    pub next: u64,
}

/// The views of a sequence of rows, in order.
pub open spec fn rows_view(s: Seq<Row>) -> Seq<RowView> {
    Seq::new(s.len(), |i: int| s[i]@)
}

impl View for Store {
    type V = Seq<RowView>;

    open spec fn view(&self) -> Seq<RowView> {
        rows_view(self.rows@)
    }
}

/// The key of a stored row: the text under its `id` field.
pub open spec fn row_key(r: RowView) -> Option<Seq<char>> {
    match vget(r, "id"@) {
        Some(ValueView::Text(t)) => Some(t),
        _ => None,
    }
}

/// The first row with the given key, looking from position `i`.
pub open spec fn lookup_from(rows: Seq<RowView>, key: Seq<char>, i: int) -> Option<RowView>
    decreases rows.len() - i,
{
    if !(0 <= i < rows.len()) {
        None
    } else if row_key(rows[i]) == Some(key) {
        Some(rows[i])
    } else {
        lookup_from(rows, key, i + 1)
    }
}

/// The first row with the given key.
pub open spec fn lookup(rows: Seq<RowView>, key: Seq<char>) -> Option<RowView> {
    lookup_from(rows, key, 0)
}

/// The value a field path evaluates to in row `r`, from segment `k` on:
/// the last segment reads the field, an earlier segment must hold a bare
/// key whose row carries the rest of the path.
pub open spec fn eval_path(rows: Seq<RowView>, r: RowView, path: Seq<Seq<char>>, k: int) -> Option<
    ValueView,
>
    decreases path.len() - k,
{
    if !(0 <= k < path.len()) {
        None
    } else {
        let v = vget(r, path[k]);
        if k == path.len() - 1 {
            v
        } else {
            match v {
                Some(ValueView::Text(t)) => match lookup(rows, t) {
                    Some(r2) => eval_path(rows, r2, path, k + 1),
                    None => None,
                },
                _ => None,
            }
        }
    }
}

/// Whether an array field holds a scalar element equal to `w`.
pub open spec fn arr_contains(items: Seq<ValueView>, w: ValueView) -> bool {
    exists|j: int| 0 <= j < items.len() && scalar_eq(#[trigger] items[j], w)
}

/// What one comparison operator means on a field value `v` and a bound
/// value `w`. Comparators are defined on scalars; `Contains` asks for a
/// scalar element of an array field.
pub open spec fn op_eval(op: Op, v: ValueView, w: ValueView) -> bool {
    match op {
        Op::Eq => scalar_eq(v, w),
        Op::Contains => match v {
            ValueView::Arr(items) => arr_contains(items, w),
            _ => false,
        },
        Op::Gt => scalar_lt(w, v),
        Op::Lt => scalar_lt(v, w),
    }
}

/// Whether one condition leaf holds of row `r`: its path evaluates to a
/// value the operator accepts. A path that does not evaluate holds of no
/// row.
pub open spec fn eval_leaf(rows: Seq<RowView>, r: RowView, l: LeafView) -> bool {
    match eval_path(rows, r, l.path, 0) {
        Some(v) => op_eval(l.op, v, l.value),
        None => false,
    }
}

/// Whether the conjunction of the leaves holds of row `r`. An empty
/// condition holds of every row.
pub open spec fn eval_cond(rows: Seq<RowView>, r: RowView, leaves: Seq<LeafView>) -> bool {
    forall|i: int| 0 <= i < leaves.len() ==> eval_leaf(rows, r, leaves[i])
}

/// Whether key `k` is table-qualified under `table`: the table name, a
/// colon, and a nonempty record part.
pub open spec fn key_in_table(k: Seq<char>, table: Seq<char>) -> bool {
    &&& k.len() > table.len() + 1
    &&& k.take(table.len() as int) == table
    &&& k[table.len() as int] == ':'
}

/// Whether a stored row belongs to a table: its key is qualified under
/// the table's name.
pub open spec fn row_in_table(r: RowView, table: Seq<char>) -> bool {
    match row_key(r) {
        Some(k) => key_in_table(k, table),
        None => false,
    }
}

/// The rows of one table a condition selects, in stored order.
pub open spec fn filter_rows(rows: Seq<RowView>, table: Seq<char>, leaves: Seq<LeafView>) -> Seq<
    RowView,
> {
    rows.filter(select_pred(rows, table, leaves))
}

/// The order-by preorder on rows: by the path's value in each row, absent
/// values first, reversed for a descending clause.
pub open spec fn row_le(rows: Seq<RowView>, ob: OrderView, a: RowView, b: RowView) -> bool {
    if ob.ascending {
        opt_value_le(eval_path(rows, a, ob.path, 0), eval_path(rows, b, ob.path, 0))
    } else {
        opt_value_le(eval_path(rows, b, ob.path, 0), eval_path(rows, a, ob.path, 0))
    }
}

/// Decides whether a key is table-qualified under `table`.
pub fn str_key_in_table(key: &str, table: &str) -> (r: bool)
    ensures
        r == key_in_table(key@, table@),
{
    let klen = key.unicode_len();
    let tlen = table.unicode_len();
    if tlen >= klen || klen - tlen <= 1 {
        return false;
    }
    let mut i: usize = 0;
    while i < tlen
        invariant
            i <= tlen,
            tlen == table@.len(),
            klen == key@.len(),
            klen > tlen + 1,
            forall|j: int| 0 <= j < i ==> key@[j] == table@[j],
        decreases tlen - i,
    {
        if key.get_char(i) != table.get_char(i) {
            proof {
                assert(key@[i as int] != table@[i as int]);
                assert(key@.take(tlen as int) != table@) by {
                    assert(key@.take(tlen as int)[i as int] == key@[i as int]);
                }
            }
            return false;
        }
        i = i + 1;
    }
    let colon = key.get_char(tlen);
    proof {
        assert(key@.take(tlen as int) =~= table@);
    }
    colon == ':'
}

impl Store {
    /// An empty store.
    pub fn new() -> (r: Store)
        ensures
            r@ =~= Seq::<RowView>::empty(),
            r.next == 0,
    {
        Store { rows: Vec::new(), next: 0 }
    }

    /// The first stored row with the given key, if any.
    pub fn lookup_row(&self, key: &str) -> (r: Option<&Row>)
        ensures
            match r {
                Some(row) => lookup(self@, key@) == Some(row@),
                None => lookup(self@, key@) is None,
            },
    {
        let n = self.rows.len();
        let mut i: usize = 0;
        while i < n
            invariant
                i <= n,
                n == self.rows@.len(),
                self@.len() == n,
                lookup(self@, key@) == lookup_from(self@, key@, i as int),
            decreases n - i,
        {
            let row = &self.rows[i];
            proof {
                assert(self@[i as int] == self.rows@[i as int]@);
            }
            match row.get("id") {
                Some(Value::Text(t)) => {
                    if str_eq(t.as_str(), key) {
                        proof {
                            assert(row_key(self@[i as int]) == Some(key@));
                        }
                        return Some(row);
                    }
                },
                _ => {},
            }
            proof {
                assert(row_key(self@[i as int]) != Some(key@));
            }
            i = i + 1;
        }
        None
    }

    /// Evaluates a field path in `row`, traversing bare keys through the
    /// store; the result is a copy of the value found.
    pub fn eval_path_row(&self, row: &Row, path: &FieldPath) -> (r: Option<Value>)
        ensures
            match r {
                Some(v) => eval_path(self@, row@, path@, 0) == Some(v@),
                None => eval_path(self@, row@, path@, 0) is None,
            },
    {
        let n = path.segments.len();
        if n == 0 {
            return None;
        }
        let mut k: usize = 0;
        let mut cur: &Row = row;
        loop
            invariant
                0 <= k < n,
                n == path.segments@.len(),
                n == path@.len(),
                eval_path(self@, row@, path@, 0) == eval_path(self@, cur@, path@, k as int),
            decreases n - k,
        {
            proof {
                assert(path@[k as int] == path.segments@[k as int]@);
            }
            let v = cur.get(path.segments[k].as_str());
            if k == n - 1 {
                return match v {
                    Some(value) => Some(value.deep_clone()),
                    None => None,
                };
            }
            match v {
                Some(Value::Text(t)) => {
                    match self.lookup_row(t.as_str()) {
                        Some(r2) => {
                            cur = r2;
                            k = k + 1;
                        },
                        None => {
                            return None;
                        },
                    }
                },
                _ => {
                    return None;
                },
            }
        }
    }

    /// Decides one condition leaf on `row`.
    pub fn eval_leaf_row(&self, row: &Row, path: &FieldPath, op: &Op, value: &Value) -> (r: bool)
        ensures
            r == eval_leaf(
                self@,
                row@,
                LeafView { path: path@, op: *op, value: value@ },
            ),
    {
        let v = match self.eval_path_row(row, path) {
            Some(v) => v,
            None => {
                return false;
            },
        };
        match op {
            Op::Eq => scalar_eq_exec(&v, value),
            Op::Contains => {
                match &v {
                    Value::Arr(items) => {
                        let m = items.len();
                        let mut j: usize = 0;
                        while j < m
                            invariant
                                j <= m,
                                m == items@.len(),
                                eval_path(self@, row@, path@, 0) == Some(v@),
                                v@ == ValueView::Arr(crate::value::views_of(items@)),
                                *op == Op::Contains,
                                forall|q: int|
                                    0 <= q < j ==> !scalar_eq(
                                        crate::value::views_of(items@)[q],
                                        value@,
                                    ),
                            decreases m - j,
                        {
                            proof {
                                crate::value::lemma_views_of(items@);
                            }
                            if scalar_eq_exec(&items[j], value) {
                                proof {
                                    crate::value::lemma_views_of(items@);
                                    assert(scalar_eq(
                                        crate::value::views_of(items@)[j as int],
                                        value@,
                                    ));
                                    assert(arr_contains(crate::value::views_of(items@), value@));
                                    assert(op_eval(Op::Contains, v@, value@));
                                    assert(eval_leaf(
                                        self@,
                                        row@,
                                        LeafView { path: path@, op: Op::Contains, value: value@ },
                                    ));
                                }
                                return true;
                            }
                            j = j + 1;
                        }
                        proof {
                            crate::value::lemma_views_of(items@);
                            assert(!arr_contains(crate::value::views_of(items@), value@));
                        }
                        false
                    },
                    _ => false,
                }
            },
            Op::Gt => scalar_lt_exec(value, &v),
            Op::Lt => scalar_lt_exec(&v, value),
        }
    }

    /// Decides the conjunction of a plan's condition leaves on `row`.
    pub fn eval_cond_row(&self, row: &Row, plan: &QueryPlan) -> (r: bool)
        ensures
            r == eval_cond(self@, row@, plan@.leaves),
    {
        let n = plan.leaves.len();
        let mut i: usize = 0;
        while i < n
            invariant
                i <= n,
                n == plan.leaves@.len(),
                n == plan@.leaves.len(),
                forall|j: int| 0 <= j < i ==> eval_leaf(self@, row@, plan@.leaves[j]),
            decreases n - i,
        {
            let leaf = &plan.leaves[i];
            proof {
                assert(plan@.leaves[i as int] == plan.leaves@[i as int]@);
            }
            if !self.eval_leaf_row(row, &leaf.path, &leaf.op, &leaf.value) {
                proof {
                    assert(!eval_leaf(self@, row@, plan@.leaves[i as int]));
                }
                return false;
            }
            i = i + 1;
        }
        true
    }
}

/// One array element under a fetched field: a bare key becomes the
/// embedded row it names; anything else stays.
pub open spec fn fetch_elem(rows: Seq<RowView>, v: ValueView) -> ValueView {
    match v {
        ValueView::Text(t) => match lookup(rows, t) {
            Some(r2) => ValueView::Obj(r2),
            None => v,
        },
        _ => v,
    }
}

/// The elements of an array field after fetching, in order.
pub open spec fn fetch_elems(rows: Seq<RowView>, items: Seq<ValueView>) -> Seq<ValueView> {
    Seq::new(items.len(), |i: int| fetch_elem(rows, items[i]))
}

/// Row `r` after resolving one fetch path from segment `k` on: at the
/// last segment a bare key (or an array of them) is replaced by the
/// embedded row(s) it names; an earlier segment descends into an already
/// embedded row. A field that is absent or has another shape stays.
pub open spec fn fetch_row(rows: Seq<RowView>, r: RowView, path: Seq<Seq<char>>, k: int) -> RowView
    decreases path.len() - k,
{
    if !(0 <= k < path.len()) {
        r
    } else {
        let name = path[k];
        match vget(r, name) {
            None => r,
            Some(v) => if k == path.len() - 1 {
                match v {
                    ValueView::Text(t) => match lookup(rows, t) {
                        Some(r2) => vset(r, name, ValueView::Obj(r2)),
                        None => r,
                    },
                    ValueView::Arr(items) => vset(
                        r,
                        name,
                        ValueView::Arr(fetch_elems(rows, items)),
                    ),
                    _ => r,
                }
            } else {
                match v {
                    ValueView::Obj(r2) => vset(
                        r,
                        name,
                        ValueView::Obj(fetch_row(rows, r2, path, k + 1)),
                    ),
                    _ => r,
                }
            },
        }
    }
}

/// Row `r` after resolving a whole fetch set, left to right.
pub open spec fn fetch_all(rows: Seq<RowView>, r: RowView, fs: Seq<Seq<Seq<char>>>) -> RowView
    decreases fs.len(),
{
    if fs.len() == 0 {
        r
    } else {
        fetch_all(rows, fetch_row(rows, r, fs[0], 0), fs.drop_first())
    }
}

/// Resolving paths one by one agrees with resolving them all at once.
pub proof fn lemma_fetch_all_snoc(
    rows: Seq<RowView>,
    r: RowView,
    ps: Seq<Seq<Seq<char>>>,
    p: Seq<Seq<char>>,
)
    ensures
        fetch_all(rows, r, ps.push(p)) == fetch_row(rows, fetch_all(rows, r, ps), p, 0),
    decreases ps.len(),
{
    if ps.len() == 0 {
        assert(ps.push(p)[0] == p);
        assert(ps.push(p).drop_first() =~= Seq::<Seq<Seq<char>>>::empty());
        assert(fetch_all(rows, fetch_row(rows, r, p, 0), ps.push(p).drop_first()) == fetch_row(
            rows,
            r,
            p,
            0,
        ));
        assert(fetch_all(rows, r, ps) == r);
    } else {
        assert(ps.push(p)[0] == ps[0]);
        assert(ps.push(p).drop_first() =~= ps.drop_first().push(p));
        assert(fetch_all(rows, r, ps.push(p)) == fetch_all(
            rows,
            fetch_row(rows, r, ps[0], 0),
            ps.drop_first().push(p),
        ));
        lemma_fetch_all_snoc(rows, fetch_row(rows, r, ps[0], 0), ps.drop_first(), p);
        assert(fetch_all(rows, r, ps) == fetch_all(
            rows,
            fetch_row(rows, r, ps[0], 0),
            ps.drop_first(),
        ));
    }
}

/// The selection predicate a find uses, as one named function: the row
/// belongs to the queried table and satisfies every condition leaf.
pub open spec fn select_pred(rows: Seq<RowView>, table: Seq<char>, leaves: Seq<LeafView>) -> spec_fn(
    RowView,
) -> bool {
    |r: RowView| row_in_table(r, table) && eval_cond(rows, r, leaves)
}

/// The order-by preorder as one named function.
pub open spec fn row_leq(rows: Seq<RowView>, ob: OrderView) -> spec_fn(RowView, RowView) -> bool {
    |a: RowView, b: RowView| row_le(rows, ob, a, b)
}

/// The rows a find returns before ordering: the selected rows, each with
/// its fetch set resolved.
pub open spec fn fetched_rows(
    rows: Seq<RowView>,
    table: Seq<char>,
    leaves: Seq<LeafView>,
    fetches: Seq<Seq<Seq<char>>>,
) -> Seq<RowView> {
    let sel = rows.filter(select_pred(rows, table, leaves));
    Seq::new(sel.len(), |i: int| fetch_all(rows, sel[i], fetches))
}

impl Store {
    /// Resolves one fetch path in an owned row, from segment `k` on.
    fn fetch_row_exec(&self, row: Row, path: &FieldPath, k: usize) -> (r: Row)
        ensures
            r@ == fetch_row(self@, row@, path@, k as int),
        decreases path.segments@.len() - k,
    {
        let n = path.segments.len();
        if k >= n {
            return row;
        }
        proof {
            assert(path@[k as int] == path.segments@[k as int]@);
        }
        let name = &path.segments[k];
        let repl: Option<Value> = match row.get(name.as_str()) {
            None => None,
            Some(v) => {
                if k == n - 1 {
                    match v {
                        Value::Text(t) => match self.lookup_row(t.as_str()) {
                            Some(r2) => Some(Value::Obj(r2.deep_clone())),
                            None => None,
                        },
                        Value::Arr(items) => {
                            let m = items.len();
                            let mut out: Vec<Value> = Vec::new();
                            let mut i: usize = 0;
                            proof {
                                crate::value::lemma_views_of(items@);
                            }
                            while i < m
                                invariant
                                    i <= m,
                                    m == items@.len(),
                                    out@.len() == i,
                                    forall|q: int|
                                        0 <= q < i ==> (#[trigger] out@[q])@ == fetch_elem(
                                            self@,
                                            crate::value::views_of(items@)[q],
                                        ),
                                    forall|q: int|
                                        0 <= q < m ==> crate::value::views_of(items@)[q]
                                            == (#[trigger] items@[q])@,
                                decreases m - i,
                            {
                                let item = &items[i];
                                let nv: Value = match item {
                                    Value::Text(t) => match self.lookup_row(t.as_str()) {
                                        Some(r2) => Value::Obj(r2.deep_clone()),
                                        None => item.deep_clone(),
                                    },
                                    _ => item.deep_clone(),
                                };
                                proof {
                                    assert(nv@ == fetch_elem(
                                        self@,
                                        crate::value::views_of(items@)[i as int],
                                    ));
                                }
                                out.push(nv);
                                i = i + 1;
                            }
                            proof {
                                assert(crate::value::views_of(out@) =~= fetch_elems(
                                    self@,
                                    crate::value::views_of(items@),
                                )) by {
                                    crate::value::lemma_views_of(out@);
                                }
                            }
                            Some(Value::Arr(out))
                        },
                        _ => None,
                    }
                } else {
                    match v {
                        Value::Obj(r2) => Some(
                            Value::Obj(
                                Row {
                                    fields: self.fetch_row_exec(
                                        r2.deep_clone(),
                                        path,
                                        k + 1,
                                    ).fields,
                                },
                            ),
                        ),
                        _ => None,
                    }
                }
            },
        };
        match repl {
            Some(nv) => {
                let mut row2 = row;
                row2.set(name.clone(), nv);
                row2
            },
            None => row,
        }
    }

    /// Resolves a whole fetch set in an owned row, left to right.
    fn fetch_all_exec(&self, row: Row, plan: &QueryPlan) -> (r: Row)
        ensures
            r@ == fetch_all(self@, row@, plan@.fetches),
    {
        let nf = plan.fetches.len();
        let mut cur = row;
        let ghost r0 = cur@;
        let mut p: usize = 0;
        proof {
            assert(plan@.fetches.take(0) =~= Seq::<Seq<Seq<char>>>::empty());
        }
        while p < nf
            invariant
                p <= nf,
                nf == plan.fetches@.len(),
                nf == plan@.fetches.len(),
                cur@ == fetch_all(self@, r0, plan@.fetches.take(p as int)),
            decreases nf - p,
        {
            proof {
                assert(plan@.fetches[p as int] == plan.fetches@[p as int]@);
            }
            cur = self.fetch_row_exec(cur, &plan.fetches[p], 0);
            proof {
                assert(plan@.fetches.take(p as int + 1).drop_last() =~= plan@.fetches.take(
                    p as int,
                ));
                assert(plan@.fetches.take(p as int + 1) =~= plan@.fetches.take(p as int).push(
                    plan@.fetches[p as int],
                ));
                lemma_fetch_all_snoc(self@, r0, plan@.fetches.take(p as int), plan@.fetches[
                    p as int]);
            }
            p = p + 1;
        }
        proof {
            assert(plan@.fetches.take(nf as int) =~= plan@.fetches);
        }
        cur
    }

    /// Decides the order-by preorder between two rows.
    fn le_rows(&self, ob: &OrderBy, a: &Row, b: &Row) -> (r: bool)
        ensures
            r == row_le(self@, ob@, a@, b@),
    {
        let ka = self.eval_path_row(a, &ob.path);
        let kb = self.eval_path_row(b, &ob.path);
        if ob.ascending {
            crate::value::opt_value_le_exec(ka.as_ref(), kb.as_ref())
        } else {
            crate::value::opt_value_le_exec(kb.as_ref(), ka.as_ref())
        }
    }

    /// The position a row is inserted at: after every stored row that is
    /// not greater.
    fn insert_pos(&self, out: &Vec<Row>, ob: &OrderBy, x: &Row) -> (j: usize)
        ensures
            j <= out@.len(),
            forall|q: int| 0 <= q < j ==> row_le(self@, ob@, (#[trigger] out@[q])@, x@),
            j < out@.len() ==> !row_le(self@, ob@, out@[j as int]@, x@),
    {
        let n = out.len();
        let mut j: usize = 0;
        while j < n
            invariant
                j <= n,
                n == out@.len(),
                forall|q: int| 0 <= q < j ==> row_le(self@, ob@, (#[trigger] out@[q])@, x@),
            decreases n - j,
        {
            if !self.le_rows(ob, &out[j], x) {
                return j;
            }
            j = j + 1;
        }
        j
    }

    /// Sorts owned rows by the order-by preorder; the result holds the
    /// same rows. The insertion is stable: a row never passes an equal
    /// one.
    fn sort_rows(&self, input: Vec<Row>, ob: &OrderBy) -> (r: Vec<Row>)
        ensures
            rows_view(r@).to_multiset() == rows_view(input@).to_multiset(),
            vstd::relations::sorted_by(rows_view(r@), row_leq(self@, ob@)),
    {
        let ghost orig = rows_view(input@);
        let mut rest = input;
        let mut out: Vec<Row> = Vec::new();
        proof {
            broadcast use vstd::seq_lib::group_to_multiset_ensures;

            lemma_empty_multiset(rows_view(out@));
            assert(rows_view(rest@) =~= orig);
            assert(rows_view(out@).to_multiset().add(rows_view(rest@).to_multiset())
                =~= orig.to_multiset());
        }
        while rest.len() > 0
            invariant
                vstd::relations::sorted_by(rows_view(out@), row_leq(self@, ob@)),
                rows_view(out@).to_multiset().add(rows_view(rest@).to_multiset())
                    == orig.to_multiset(),
            decreases rest@.len(),
        {
            broadcast use vstd::seq_lib::group_to_multiset_ensures;

            let ghost restv_old = rows_view(rest@);
            let x = rest.remove(0);
            let j = self.insert_pos(&out, ob, &x);
            let ghost outv_old = rows_view(out@);
            out.insert(j, x);
            proof {
                let leq = row_leq(self@, ob@);
                let outv = rows_view(out@);
                assert(outv =~= outv_old.insert(j as int, x@));
                assert forall|a: int, b: int| 0 <= a < b < outv.len() implies leq(
                    outv[a],
                    outv[b],
                ) by {
                    if b < j {
                        assert(outv[a] == outv_old[a]);
                        assert(outv[b] == outv_old[b]);
                    } else if b == j {
                        assert(outv[a] == outv_old[a]);
                        assert(outv[b] == x@);
                        assert(leq(outv_old[a], x@));
                    } else {
                        assert(outv[b] == outv_old[b - 1]);
                        if a < j {
                            assert(outv[a] == outv_old[a]);
                            assert(leq(outv_old[a], outv_old[b - 1]));
                        } else if a == j {
                            assert(outv[a] == x@);
                            assert(!leq(outv_old[j as int], x@));
                            lemma_row_le_total(self@, ob@, x@, outv_old[j as int]);
                            assert(row_le(self@, ob@, x@, outv_old[j as int]));
                            if b - 1 > j {
                                assert(leq(outv_old[j as int], outv_old[b - 1]));
                                assert(row_le(self@, ob@, outv_old[j as int], outv_old[b - 1]));
                                lemma_row_le_trans(
                                    self@,
                                    ob@,
                                    x@,
                                    outv_old[j as int],
                                    outv_old[b - 1],
                                );
                            }
                        } else {
                            assert(outv[a] == outv_old[a - 1]);
                            assert(leq(outv_old[a - 1], outv_old[b - 1]));
                        }
                    }
                }
                lemma_insert_multiset(outv_old, j as int, x@);
                assert(restv_old[0] == x@);
                assert(restv_old.remove(0) =~= rows_view(rest@));
                assert(rows_view(rest@).to_multiset() =~= restv_old.to_multiset().remove(x@));
                assert(restv_old.to_multiset().contains(x@)) by {
                    assert(restv_old.contains(x@)) by {
                        assert(restv_old[0] == x@);
                    }
                }
                assert(restv_old.to_multiset() =~= rows_view(rest@).to_multiset().insert(x@));
                assert(rows_view(out@).to_multiset().add(rows_view(rest@).to_multiset())
                    =~= orig.to_multiset());
            }
        }
        proof {
            broadcast use vstd::seq_lib::group_to_multiset_ensures;

            lemma_empty_multiset(rows_view(rest@));
            assert(rows_view(out@).to_multiset() =~= orig.to_multiset());
        }
        out
    }

    /// Executes an assembled find against the store: the rows its
    /// condition selects, in stored order, with the fetch set resolved in
    /// each; an order-by clause reorders them without adding or dropping
    /// a row, so that the result is non-decreasing under its preorder.
    pub fn execute(&self, plan: &QueryPlan) -> (r: Vec<Row>)
        ensures
            plan@.orders.len() == 0 ==> rows_view(r@) == fetched_rows(
                self@,
                plan@.table,
                plan@.leaves,
                plan@.fetches,
            ),
            plan@.orders.len() > 0 ==> rows_view(r@).to_multiset() == fetched_rows(
                self@,
                plan@.table,
                plan@.leaves,
                plan@.fetches,
            ).to_multiset() && vstd::relations::sorted_by(
                rows_view(r@),
                row_leq(self@, plan@.orders[0]),
            ),
    {
        let n = self.rows.len();
        let mut sel: Vec<Row> = Vec::new();
        let mut i: usize = 0;
        proof {
            assert(self@.take(0) =~= Seq::<RowView>::empty());
            assert(rows_view(sel@) =~= self@.take(0).filter(
                select_pred(self@, plan@.table, plan@.leaves),
            ));
        }
        while i < n
            invariant
                i <= n,
                n == self.rows@.len(),
                n == self@.len(),
                rows_view(sel@) == self@.take(i as int).filter(
                    select_pred(self@, plan@.table, plan@.leaves),
                ),
            decreases n - i,
        {
            let row = &self.rows[i];
            proof {
                assert(self@[i as int] == self.rows@[i as int]@);
                assert(self@.take(i as int + 1).drop_last() =~= self@.take(i as int));
                assert(self@.take(i as int + 1).last() == self@[i as int]);
                reveal(Seq::filter);
            }
            let ghost selv_old = rows_view(sel@);
            let in_table: bool = match row.get("id") {
                Some(Value::Text(t)) => str_key_in_table(t.as_str(), plan.table.as_str()),
                _ => false,
            };
            proof {
                assert(in_table == row_in_table(self@[i as int], plan@.table));
            }
            if in_table && self.eval_cond_row(row, plan) {
                sel.push(row.deep_clone());
                proof {
                    assert(rows_view(sel@) =~= selv_old.push(self@[i as int]));
                }
            }
            proof {
                assert(rows_view(sel@) =~= self@.take(i as int + 1).filter(
                    select_pred(self@, plan@.table, plan@.leaves),
                ));
            }
            i = i + 1;
        }
        proof {
            assert(self@.take(n as int) =~= self@);
        }
        let ghost selv = rows_view(sel@);
        let m = sel.len();
        let mut fetched: Vec<Row> = Vec::new();
        let mut rest = sel;
        proof {
            assert(rows_view(fetched@) =~= Seq::<RowView>::empty());
        }
        while rest.len() > 0
            invariant
                rest@.len() <= selv.len(),
                rows_view(rest@) == selv.skip(selv.len() - rest@.len()),
                rows_view(fetched@).len() == selv.len() - rest@.len(),
                forall|q: int|
                    0 <= q < rows_view(fetched@).len() ==> rows_view(fetched@)[q] == fetch_all(
                        self@,
                        selv[q],
                        plan@.fetches,
                    ),
            decreases rest@.len(),
        {
            let ghost restv_old = rows_view(rest@);
            let ghost donecount = selv.len() - rest@.len();
            let row = rest.remove(0);
            proof {
                assert(restv_old[0] == row@);
                assert(restv_old[0] == selv[donecount]);
                assert(rows_view(rest@) =~= restv_old.drop_first());
                assert(rows_view(rest@) =~= selv.skip(selv.len() - rest@.len()));
            }
            let fr = self.fetch_all_exec(row, plan);
            let ghost fv_old = rows_view(fetched@);
            fetched.push(fr);
            proof {
                assert(rows_view(fetched@) =~= fv_old.push(fr@));
            }
        }
        proof {
            assert(rows_view(fetched@) =~= fetched_rows(
                self@,
                plan@.table,
                plan@.leaves,
                plan@.fetches,
            ));
        }
        if plan.orders.len() > 0 {
            proof {
                assert(plan@.orders[0] == plan.orders@[0]@);
            }
            let r = self.sort_rows(fetched, &plan.orders[0]);
            r
        } else {
            fetched
        }
    }
}

/// Totality of the order-by preorder on rows.
pub proof fn lemma_row_le_total(rows: Seq<RowView>, ob: OrderView, a: RowView, b: RowView)
    ensures
        row_le(rows, ob, a, b) || row_le(rows, ob, b, a),
{
    crate::value::lemma_opt_value_le_total(
        eval_path(rows, a, ob.path, 0),
        eval_path(rows, b, ob.path, 0),
    );
}

/// Transitivity of the order-by preorder on rows.
pub proof fn lemma_row_le_trans(rows: Seq<RowView>, ob: OrderView, a: RowView, b: RowView, c: RowView)
    requires
        row_le(rows, ob, a, b),
        row_le(rows, ob, b, c),
    ensures
        row_le(rows, ob, a, c),
{
    if ob.ascending {
        crate::value::lemma_opt_value_le_trans(
            eval_path(rows, a, ob.path, 0),
            eval_path(rows, b, ob.path, 0),
            eval_path(rows, c, ob.path, 0),
        );
    } else {
        crate::value::lemma_opt_value_le_trans(
            eval_path(rows, c, ob.path, 0),
            eval_path(rows, b, ob.path, 0),
            eval_path(rows, a, ob.path, 0),
        );
    }
}

/// A sequence of no rows has the empty multiset.
proof fn lemma_empty_multiset(s: Seq<RowView>)
    requires
        s.len() == 0,
    ensures
        s.to_multiset() == Multiset::<RowView>::empty(),
{
    broadcast use vstd::seq_lib::group_to_multiset_ensures;

    assert forall|x: RowView| s.to_multiset().count(x) == 0 by {
        if s.to_multiset().count(x) > 0 {
            assert(s.contains(x));
        }
    }
    assert(s.to_multiset() =~= Multiset::<RowView>::empty());
}

/// Inserting into a sequence inserts into its multiset.
proof fn lemma_insert_multiset(s: Seq<RowView>, j: int, x: RowView)
    requires
        0 <= j <= s.len(),
    ensures
        s.insert(j, x).to_multiset() == s.to_multiset().insert(x),
{
    broadcast use vstd::seq_lib::group_to_multiset_ensures;

    let t = s.insert(j, x);
    assert(t.remove(j) =~= s);
    assert(t[j] == x);
    assert(t.remove(j).to_multiset() =~= t.to_multiset().remove(x));
    assert(t.to_multiset().contains(x)) by {
        assert(t.contains(x)) by {
            assert(t[j] == x);
        }
    }
    assert(t.to_multiset() =~= s.to_multiset().insert(x));
}

/// Whether a table name can head a record key: nonempty and colon-free.
pub open spec fn table_ok_spec(t: Seq<char>) -> bool {
    t.len() >= 1 && forall|j: int| 0 <= j < t.len() ==> t[j] != ':'
}

/// Decides whether a table name can head a record key.
pub fn table_ok(t: &str) -> (r: bool)
    ensures
        r == table_ok_spec(t@),
{
    let n = t.unicode_len();
    if n == 0 {
        return false;
    }
    let mut i: usize = 0;
    while i < n
        invariant
            i <= n,
            n == t@.len(),
            forall|j: int| 0 <= j < i ==> t@[j] != ':',
        decreases n - i,
    {
        if t.get_char(i) == ':' {
            return false;
        }
        i = i + 1;
    }
    true
}

/// The key the store assigns to the `n`-th record of a table.
pub open spec fn fresh_key(table: Seq<char>, n: nat) -> Seq<char> {
    table + ":"@ + dec_spec(n)
}

/// The rows after storing `stored` under `key`: the first row with that
/// key is replaced, or the row is appended when the key is absent.
pub open spec fn replace_row(rows: Seq<RowView>, key: Seq<char>, stored: RowView) -> Seq<RowView>
    decreases rows.len(),
{
    if rows.len() == 0 {
        seq![stored]
    } else if row_key(rows[0]) == Some(key) {
        seq![stored] + rows.drop_first()
    } else {
        seq![rows[0]] + replace_row(rows.drop_first(), key, stored)
    }
}

/// The rows after deleting `key`: every row with that key is gone, the
/// rest keep their order.
pub open spec fn keep_pred(key: Seq<char>) -> spec_fn(RowView) -> bool {
    |r: RowView| row_key(r) != Some(key)
}

/// The rows after deleting `key`.
pub open spec fn delete_rows(rows: Seq<RowView>, key: Seq<char>) -> Seq<RowView> {
    rows.filter(keep_pred(key))
}

/// A base row patched by a partial row: each partial field bound in
/// order.
pub open spec fn merge_fields(base: RowView, partial: RowView) -> RowView
    decreases partial.len(),
{
    if partial.len() == 0 {
        base
    } else {
        merge_fields(vset(base, partial[0].0, partial[0].1), partial.drop_first())
    }
}

/// Patching fields one by one agrees with patching them all at once.
pub proof fn lemma_merge_fields_snoc(base: RowView, ps: RowView, p: (Seq<char>, ValueView))
    ensures
        merge_fields(base, ps.push(p)) == vset(merge_fields(base, ps), p.0, p.1),
    decreases ps.len(),
{
    if ps.len() == 0 {
        assert(ps.push(p)[0] == p);
        assert(ps.push(p).drop_first() =~= Seq::<(Seq<char>, ValueView)>::empty());
        assert(merge_fields(vset(base, p.0, p.1), ps.push(p).drop_first()) == vset(
            base,
            p.0,
            p.1,
        ));
        assert(merge_fields(base, ps) == base);
    } else {
        assert(ps.push(p)[0] == ps[0]);
        assert(ps.push(p).drop_first() =~= ps.drop_first().push(p));
        assert(merge_fields(base, ps.push(p)) == merge_fields(
            vset(base, ps[0].0, ps[0].1),
            ps.drop_first().push(p),
        ));
        lemma_merge_fields_snoc(vset(base, ps[0].0, ps[0].1), ps.drop_first(), p);
        assert(merge_fields(base, ps) == merge_fields(
            vset(base, ps[0].0, ps[0].1),
            ps.drop_first(),
        ));
    }
}

impl Store {
    /// Inserts `content` as a new record of `table`: the stored form gets
    /// a fresh, well-formed key under its `id` field and is appended.
    /// Fails only on an unusable table name or an exhausted key counter.
    pub fn create(&mut self, table: &str, content: Row) -> (r: Result<Row, Error>)
        ensures
            match r {
                Ok(stored) => {
                    &&& table_ok_spec(table@)
                    &&& old(self).next < u64::MAX
                    &&& stored@ == vset(
                        content@,
                        "id"@,
                        ValueView::Text(fresh_key(table@, old(self).next as nat)),
                    )
                    &&& is_valid_key(fresh_key(table@, old(self).next as nat))
                    &&& final(self)@ == old(self)@.push(stored@)
                    &&& final(self).next == old(self).next + 1
                },
                Err(e) => {
                    &&& e == Error::Storage
                    &&& *final(self) == *old(self)
                    &&& !table_ok_spec(table@) || old(self).next == u64::MAX
                },
            },
    {
        if !table_ok(table) {
            return Err(Error::Storage);
        }
        if self.next == u64::MAX {
            return Err(Error::Storage);
        }
        let mut key = String::from_str(table);
        key.append(":");
        let digits = u64_to_dec(self.next);
        key.append(digits.as_str());
        proof {
            reveal_strlit(":");
            assert(":"@ =~= seq![':']);
            lemma_dec_spec_len(self.next as nat);
            assert(key@ == fresh_key(table@, self.next as nat));
            assert(table@ + seq![':'] + dec_spec(self.next as nat) =~= key@);
            lemma_concat_key_valid(table@, dec_spec(self.next as nat));
        }
        let mut stored = content;
        stored.set(String::from_str("id"), Value::Text(key));
        let copy = stored.deep_clone();
        let ghost oldrows = rows_view(self.rows@);
        self.rows.push(stored);
        self.next = self.next + 1;
        proof {
            assert(rows_view(self.rows@) =~= oldrows.push(copy@));
        }
        Ok(copy)
    }

    /// A copy of the stored row under `key`, if any.
    pub fn read(&self, key: &Id) -> (r: Option<Row>)
        ensures
            match r {
                Some(row) => lookup(self@, key@) == Some(row@),
                None => lookup(self@, key@) is None,
            },
    {
        match self.lookup_row(key.as_str()) {
            Some(row) => Some(row.deep_clone()),
            None => None,
        }
    }

    /// Replaces the record under `key` whole: the stored form is
    /// `content` with its `id` field bound to the key; a key no record
    /// holds yet is inserted. An ill-formed key is refused.
    pub fn update(&mut self, key: &Id, content: Row) -> (r: Result<Row, Error>)
        ensures
            match r {
                Ok(stored) => {
                    &&& is_valid_key(key@)
                    &&& stored@ == vset(content@, "id"@, ValueView::Text(key@))
                    &&& final(self)@ == replace_row(old(self)@, key@, stored@)
                    &&& final(self).next == old(self).next
                },
                Err(e) => {
                    &&& e == Error::KeyDerivation
                    &&& !is_valid_key(key@)
                    &&& *final(self) == *old(self)
                },
            },
    {
        if !key.is_valid() {
            return Err(Error::KeyDerivation);
        }
        let mut stored = content;
        stored.set(String::from_str("id"), Value::Text(String::from_str(key.as_str())));
        let copy = stored.deep_clone();
        self.store_row(stored, key.as_str());
        Ok(copy)
    }

    /// Patches the record under `key`: its stored fields, overlaid by the
    /// partial row's fields in order, with the `id` field kept at the
    /// key; a key no record holds yet is inserted with the partial
    /// fields alone. An ill-formed key is refused.
    pub fn merge(&mut self, key: &Id, partial: &Row) -> (r: Result<Row, Error>)
        ensures
            match r {
                Ok(stored) => {
                    &&& is_valid_key(key@)
                    &&& stored@ == vset(
                        merge_fields(
                            match lookup(old(self)@, key@) {
                                Some(base) => base,
                                None => Seq::<(Seq<char>, ValueView)>::empty(),
                            },
                            partial@,
                        ),
                        "id"@,
                        ValueView::Text(key@),
                    )
                    &&& final(self)@ == replace_row(old(self)@, key@, stored@)
                    &&& final(self).next == old(self).next
                },
                Err(e) => {
                    &&& e == Error::KeyDerivation
                    &&& !is_valid_key(key@)
                    &&& *final(self) == *old(self)
                },
            },
    {
        if !key.is_valid() {
            return Err(Error::KeyDerivation);
        }
        let mut base = match self.lookup_row(key.as_str()) {
            Some(row) => row.deep_clone(),
            None => Row::new(),
        };
        let np = partial.fields.len();
        let ghost base0 = base@;
        let mut i: usize = 0;
        proof {
            crate::value::lemma_fields_view_of(partial.fields@);
            assert(partial@.take(0) =~= Seq::<(Seq<char>, ValueView)>::empty());
        }
        while i < np
            invariant
                i <= np,
                np == partial.fields@.len(),
                np == partial@.len(),
                forall|j: int|
                    0 <= j < np ==> partial@[j] == ((#[trigger] partial.fields@[j]).0@,
                    partial.fields@[j].1@),
                base@ == merge_fields(base0, partial@.take(i as int)),
            decreases np - i,
        {
            let name = partial.fields[i].0.clone();
            let v = partial.fields[i].1.deep_clone();
            let ghost b_old = base@;
            base.set(name, v);
            proof {
                assert(partial@.take(i as int + 1).drop_last() =~= partial@.take(i as int));
                assert(partial@.take(i as int + 1) =~= partial@.take(i as int).push(
                    partial@[i as int],
                ));
                lemma_merge_fields_snoc(base0, partial@.take(i as int), partial@[i as int]);
            }
            i = i + 1;
        }
        proof {
            assert(partial@.take(np as int) =~= partial@);
        }
        base.set(String::from_str("id"), Value::Text(String::from_str(key.as_str())));
        let copy = base.deep_clone();
        self.store_row(base, key.as_str());
        Ok(copy)
    }

    /// Stores an owned row under `key`: replaces the first row with that
    /// key, or appends.
    fn store_row(&mut self, stored: Row, key: &str)
        ensures
            final(self)@ == replace_row(old(self)@, key@, stored@),
            final(self).next == old(self).next,
    {
        let n = self.rows.len();
        let mut i: usize = 0;
        proof {
            assert(self@.skip(0) =~= self@);
            assert(self@.take(0) =~= Seq::<RowView>::empty());
        }
        loop
            invariant
                i <= n,
                n == self.rows@.len(),
                self@.len() == n,
                *self == *old(self),
                forall|j: int| 0 <= j < i ==> row_key(self@[j]) != Some(key@),
                replace_row(old(self)@, key@, stored@) =~= self@.take(i as int) + replace_row(
                    self@.skip(i as int),
                    key@,
                    stored@,
                ),
            decreases n - i,
        {
            if i == n {
                proof {
                    assert(self@.skip(i as int) =~= Seq::<RowView>::empty());
                    assert(self@.take(i as int) =~= self@);
                }
                let ghost oldrows = self@;
                self.rows.push(stored);
                proof {
                    assert(rows_view(self.rows@) =~= oldrows.push(stored@));
                    assert(rows_view(self.rows@) =~= replace_row(old(self)@, key@, stored@));
                }
                return ;
            }
            let row = &self.rows[i];
            proof {
                assert(self@[i as int] == self.rows@[i as int]@);
            }
            let matches_key: bool = match row.get("id") {
                Some(Value::Text(t)) => str_eq(t.as_str(), key),
                _ => false,
            };
            if matches_key {
                proof {
                    assert(row_key(self@[i as int]) == Some(key@));
                    assert(replace_row(self@.skip(i as int), key@, stored@) =~= seq![stored@]
                        + self@.skip(i as int + 1));
                }
                let ghost oldrows = self@;
                self.rows[i] = stored;
                proof {
                    assert(rows_view(self.rows@) =~= oldrows.update(i as int, stored@));
                    assert(rows_view(self.rows@) =~= replace_row(old(self)@, key@, stored@));
                }
                return ;
            }
            proof {
                assert(row_key(self@[i as int]) != Some(key@));
                assert(self@.skip(i as int).drop_first() =~= self@.skip(i as int + 1));
                assert(self@.take(i as int).push(self@[i as int]) =~= self@.take(i as int + 1));
                assert(self@.take(i as int) + (seq![self@[i as int]] + replace_row(
                    self@.skip(i as int + 1),
                    key@,
                    stored@,
                )) =~= self@.take(i as int + 1) + replace_row(
                    self@.skip(i as int + 1),
                    key@,
                    stored@,
                ));
            }
            i = i + 1;
        }
    }

    /// Removes every record under `key`; the others keep their order. An
    /// ill-formed key is refused.
    pub fn delete(&mut self, key: &Id) -> (r: Result<(), Error>)
        ensures
            match r {
                Ok(()) => {
                    &&& is_valid_key(key@)
                    &&& final(self)@ == delete_rows(old(self)@, key@)
                    &&& final(self).next == old(self).next
                },
                Err(e) => {
                    &&& e == Error::KeyDerivation
                    &&& !is_valid_key(key@)
                    &&& *final(self) == *old(self)
                },
            },
    {
        if !key.is_valid() {
            return Err(Error::KeyDerivation);
        }
        let n = self.rows.len();
        let ghost oldrows = self@;
        let mut kept: Vec<Row> = Vec::new();
        let mut i: usize = 0;
        proof {
            reveal(Seq::filter);
            assert(oldrows.take(0) =~= Seq::<RowView>::empty());
            assert(rows_view(kept@) =~= oldrows.take(0).filter(keep_pred(key@)));
        }
        while i < n
            invariant
                i <= n,
                n == self.rows@.len(),
                *self == *old(self),
                oldrows == self@,
                oldrows.len() == n,
                rows_view(kept@) == oldrows.take(i as int).filter(keep_pred(key@)),
            decreases n - i,
        {
            let row = &self.rows[i];
            proof {
                reveal(Seq::filter);
                assert(oldrows[i as int] == self.rows@[i as int]@);
                assert(oldrows.take(i as int + 1).drop_last() =~= oldrows.take(i as int));
                assert(oldrows.take(i as int + 1).last() == oldrows[i as int]);
            }
            let matches_key: bool = match row.get("id") {
                Some(Value::Text(t)) => str_eq(t.as_str(), key.as_str()),
                _ => false,
            };
            let ghost kv_old = rows_view(kept@);
            if !matches_key {
                kept.push(row.deep_clone());
                proof {
                    assert(row_key(oldrows[i as int]) != Some(key@));
                    assert(rows_view(kept@) =~= kv_old.push(oldrows[i as int]));
                }
            } else {
                proof {
                    assert(row_key(oldrows[i as int]) == Some(key@));
                }
            }
            proof {
                assert(rows_view(kept@) =~= oldrows.take(i as int + 1).filter(keep_pred(key@)));
            }
            i = i + 1;
        }
        proof {
            assert(oldrows.take(n as int) =~= oldrows);
        }
        self.rows = kept;
        Ok(())
    }
}

/// The value of a field after an add patch: a new element at the end of
/// an array field, a suffix on a text field, a fresh one-element array
/// on an absent field. Any other shape refuses the patch.
pub open spec fn patch_added(old: Option<ValueView>, v: ValueView) -> Result<ValueView, Error> {
    match old {
        None => Ok(ValueView::Arr(seq![v])),
        Some(ValueView::Arr(items)) => Ok(ValueView::Arr(items.push(v))),
        Some(ValueView::Text(t)) => match v {
            ValueView::Text(s) => Ok(ValueView::Text(t + s)),
            _ => Err(Error::Storage),
        },
        Some(_) => Err(Error::Storage),
    }
}

impl Store {
    /// Adds a value to a field of the record under `key`: an element to
    /// an array field, or a suffix to a text field. A key no record
    /// holds yet is inserted with that one field. An ill-formed key, or
    /// a field of another shape, is refused.
    pub fn patch_add(&mut self, key: &Id, field: &str, value: Value) -> (r: Result<(), Error>)
        ensures
            match r {
                Ok(()) => {
                    &&& is_valid_key(key@)
                    &&& patch_added(
                        vget(
                            match lookup(old(self)@, key@) {
                                Some(base) => base,
                                None => Seq::<(Seq<char>, ValueView)>::empty(),
                            },
                            field@,
                        ),
                        value@,
                    ) matches Ok(nv)
                    &&& final(self)@ == replace_row(
                        old(self)@,
                        key@,
                        vset(
                            vset(
                                match lookup(old(self)@, key@) {
                                    Some(base) => base,
                                    None => Seq::<(Seq<char>, ValueView)>::empty(),
                                },
                                field@,
                                patch_added(
                                    vget(
                                        match lookup(old(self)@, key@) {
                                            Some(base) => base,
                                            None => Seq::<(Seq<char>, ValueView)>::empty(),
                                        },
                                        field@,
                                    ),
                                    value@,
                                )->Ok_0,
                            ),
                            "id"@,
                            ValueView::Text(key@),
                        ),
                    )
                    &&& final(self).next == old(self).next
                },
                Err(e) => {
                    &&& *final(self) == *old(self)
                    &&& !is_valid_key(key@) ==> e == Error::KeyDerivation
                    &&& is_valid_key(key@) ==> e == Error::Storage && patch_added(
                        vget(
                            match lookup(old(self)@, key@) {
                                Some(base) => base,
                                None => Seq::<(Seq<char>, ValueView)>::empty(),
                            },
                            field@,
                        ),
                        value@,
                    ) is Err
                },
            },
    {
        if !key.is_valid() {
            return Err(Error::KeyDerivation);
        }
        let mut base = match self.lookup_row(key.as_str()) {
            Some(row) => row.deep_clone(),
            None => Row::new(),
        };
        let nv: Value = match base.get(field) {
            None => {
                let mut items: Vec<Value> = Vec::new();
                let ghost vv = value@;
                items.push(value);
                proof {
                    crate::value::lemma_views_of(items@);
                    assert(crate::value::views_of(items@) =~= seq![vv]);
                }
                Value::Arr(items)
            },
            Some(Value::Arr(items)) => {
                let mut out: Vec<Value> = Vec::new();
                let m = items.len();
                let mut i: usize = 0;
                proof {
                    crate::value::lemma_views_of(items@);
                }
                while i < m
                    invariant
                        i <= m,
                        m == items@.len(),
                        out@.len() == i,
                        forall|j: int|
                            0 <= j < m ==> crate::value::views_of(items@)[j]
                                == (#[trigger] items@[j])@,
                        forall|j: int|
                            0 <= j < i ==> (#[trigger] out@[j])@ == crate::value::views_of(
                                items@,
                            )[j],
                    decreases m - i,
                {
                    let e = items[i].deep_clone();
                    out.push(e);
                    i = i + 1;
                }
                let ghost itemsv = crate::value::views_of(items@);
                let ghost vv = value@;
                out.push(value);
                proof {
                    crate::value::lemma_views_of(out@);
                    assert(crate::value::views_of(out@) =~= itemsv.push(vv));
                }
                Value::Arr(out)
            },
            Some(Value::Text(t)) => match &value {
                Value::Text(s) => {
                    let mut joined = t.clone();
                    joined.append(s.as_str());
                    Value::Text(joined)
                },
                _ => {
                    return Err(Error::Storage);
                },
            },
            Some(_) => {
                return Err(Error::Storage);
            },
        };
        base.set(String::from_str(field), nv);
        base.set(String::from_str("id"), Value::Text(String::from_str(key.as_str())));
        self.store_row(base, key.as_str());
        Ok(())
    }
}

/// The condition leaf a find-by-key uses: equality on the `id` field.
pub open spec fn key_leaf(key: Seq<char>) -> LeafView {
    LeafView { path: seq!["id"@], op: Op::Eq, value: ValueView::Text(key) }
}

/// A filter no row satisfies selects nothing.
proof fn lemma_filter_none(s: Seq<RowView>, pred: spec_fn(RowView) -> bool)
    requires
        forall|i: int| 0 <= i < s.len() ==> !pred(s[i]),
    ensures
        s.filter(pred).len() == 0,
    decreases s.len(),
{
    reveal(Seq::filter);
    if s.len() != 0 {
        lemma_filter_none(s.drop_last(), pred);
    }
}

/// Deleting a key then finding by it returns nothing: after the delete,
/// a find whose condition is equality on the `id` field with that key
/// selects no row, so the find returns no record whatever its fetch set.
pub proof fn lemma_delete_then_find_empty(
    rows: Seq<RowView>,
    table: Seq<char>,
    key: Seq<char>,
    fetches: Seq<Seq<Seq<char>>>,
)
    ensures
        filter_rows(delete_rows(rows, key), table, seq![key_leaf(key)]).len() == 0,
        fetched_rows(delete_rows(rows, key), table, seq![key_leaf(key)], fetches).len() == 0,
{
    let rows2 = delete_rows(rows, key);
    let leaves = seq![key_leaf(key)];
    assert forall|i: int|
        0 <= i < rows2.len() implies !select_pred(rows2, table, leaves)(rows2[i]) by {
        broadcast use vstd::seq_lib::group_filter_ensures;

        assert(row_key(rows2[i]) != Some(key));
        let r = rows2[i];
        assert(leaves[0] == key_leaf(key));
        if eval_cond(rows2, r, leaves) {
            assert(eval_leaf(rows2, r, key_leaf(key)));
            assert(eval_path(rows2, r, seq!["id"@], 0) == vget(r, "id"@));
            match vget(r, "id"@) {
                Some(v) => {
                    assert(op_eval(Op::Eq, v, ValueView::Text(key)));
                    assert(v == ValueView::Text(key));
                    assert(row_key(r) == Some(key));
                },
                None => {},
            }
            assert(false);
        }
    }
    lemma_filter_none(rows2, select_pred(rows2, table, leaves));
}

/// A traversal condition selects a row exactly when the related record
/// its relationship field names exists and its own field satisfies the
/// comparator: filtering rows of one type by a field of the records they
/// reference keeps exactly the matching ones.
pub proof fn lemma_traversal_leaf(
    rows: Seq<RowView>,
    r: RowView,
    rel: Seq<char>,
    sub: Seq<char>,
    k: Seq<char>,
    op: Op,
    w: ValueView,
)
    requires
        vget(r, rel) == Some(ValueView::Text(k)),
    ensures
        eval_leaf(rows, r, LeafView { path: seq![rel, sub], op, value: w }) == (match lookup(
            rows,
            k,
        ) {
            Some(b) => match vget(b, sub) {
                Some(v) => op_eval(op, v, w),
                None => false,
            },
            None => false,
        }),
{
    let path = seq![rel, sub];
    assert(path[0] == rel);
    assert(path[1] == sub);
    assert(eval_path(rows, r, path, 0) == (match lookup(rows, k) {
        Some(b) => eval_path(rows, b, path, 1),
        None => None,
    }));
}

/// Resolving a fetch path of one relationship-list field replaces its
/// array of bare keys by the rows those keys name, element for element,
/// and nothing else.
pub proof fn lemma_fetch_list(
    rows: Seq<RowView>,
    r: RowView,
    rel: Seq<char>,
    items: Seq<ValueView>,
)
    requires
        vget(r, rel) == Some(ValueView::Arr(items)),
    ensures
        fetch_row(rows, r, seq![rel], 0) == vset(r, rel, ValueView::Arr(fetch_elems(rows, items))),
{
    assert(seq![rel][0] == rel);
}

/// Resolving a fetch path of one relationship field replaces its bare
/// key by the embedded row that key names, and nothing else.
pub proof fn lemma_fetch_single(
    rows: Seq<RowView>,
    r: RowView,
    rel: Seq<char>,
    k: Seq<char>,
    b: RowView,
)
    requires
        vget(r, rel) == Some(ValueView::Text(k)),
        lookup(rows, k) == Some(b),
    ensures
        fetch_row(rows, r, seq![rel], 0) == vset(r, rel, ValueView::Obj(b)),
{
    assert(seq![rel][0] == rel);
}

/// Everything a filter keeps was among the rows filtered.
proof fn lemma_filter_subset(s: Seq<RowView>, pred: spec_fn(RowView) -> bool, x: RowView)
    requires
        s.filter(pred).contains(x),
    ensures
        s.contains(x),
    decreases s.len(),
{
    reveal(Seq::filter);
    if s.len() != 0 {
        if s.drop_last().filter(pred).contains(x) {
            lemma_filter_subset(s.drop_last(), pred, x);
            assert(s.contains(x)) by {
                let i = choose|i: int| 0 <= i < s.drop_last().len() && s.drop_last()[i] == x;
                assert(s[i] == x);
            }
        } else {
            assert(x == s.last());
        }
    }
}

/// Traversal condition correctness: a find on one table filtered by a
/// field of the records a relationship field names keeps exactly the
/// rows of that table whose related record exists and matches. Rows
/// whose relationship slot names a different record — one on which the
/// comparator fails — are left out.
pub proof fn lemma_traversal_find_exact(
    rows: Seq<RowView>,
    table: Seq<char>,
    r: RowView,
    rel: Seq<char>,
    sub: Seq<char>,
    k: Seq<char>,
    op: Op,
    w: ValueView,
)
    requires
        vget(r, rel) == Some(ValueView::Text(k)),
    ensures
        filter_rows(rows, table, seq![LeafView { path: seq![rel, sub], op, value: w }]).contains(
            r,
        ) <==> {
            &&& rows.contains(r)
            &&& row_in_table(r, table)
            &&& match lookup(rows, k) {
                Some(b) => match vget(b, sub) {
                    Some(v) => op_eval(op, v, w),
                    None => false,
                },
                None => false,
            }
        },
{
    broadcast use vstd::seq_lib::group_filter_ensures;

    let leaves = seq![LeafView { path: seq![rel, sub], op, value: w }];
    lemma_traversal_leaf(rows, r, rel, sub, k, op, w);
    assert(leaves[0] == LeafView { path: seq![rel, sub], op, value: w });
    let pred = select_pred(rows, table, leaves);
    assert(pred(r) == (row_in_table(r, table) && eval_leaf(rows, r, leaves[0]))) by {
        if eval_leaf(rows, r, leaves[0]) {
            assert(eval_cond(rows, r, leaves));
        }
        if eval_cond(rows, r, leaves) {
            assert(eval_leaf(rows, r, leaves[0]));
        }
    }
    if rows.filter(pred).contains(r) {
        lemma_filter_subset(rows, pred, r);
    }
    if rows.contains(r) && pred(r) {
        let i = choose|i: int| 0 <= i < rows.len() && rows[i] == r;
        assert(rows.filter(pred).contains(rows[i]));
    }
}

/// Order-by is monotonic: in the rows an ascending-ordered find returns,
/// the ordered field's value never decreases from one row to a later
/// one.
pub proof fn lemma_order_by_monotonic(
    rows: Seq<RowView>,
    ob: OrderView,
    out: Seq<RowView>,
    i: int,
    j: int,
)
    requires
        vstd::relations::sorted_by(out, row_leq(rows, ob)),
        ob.ascending,
        0 <= i < j < out.len(),
    ensures
        opt_value_le(eval_path(rows, out[i], ob.path, 0), eval_path(rows, out[j], ob.path, 0)),
{
    assert(row_leq(rows, ob)(out[i], out[j]));
}

} // verus!
