//! The structured query side: condition nodes built from validated field
//! paths, comparison operators, fetch directives, order-by clauses, and
//! the assembler that turns an ordered list of injecters into one query
//! template plus one parameter-binding table.

use vstd::prelude::*;

use crate::errors::Error;
use crate::schema::FieldPath;
use crate::schema::SchemaRegistry;
use crate::schema::path_resolves;
use crate::strutil::dec_spec;
use crate::strutil::lemma_dec_spec_injective;
use crate::strutil::u64_to_dec;
use crate::value::Value;
use crate::value::ValueView;
use crate::value::RowView;
use crate::value::Row;

verus! {

/// A comparison operator of a condition leaf.
#[derive(Debug, Clone, Copy, PartialEq, Eq, Structural)]
pub enum Op {
    Eq,
    Contains,
    Gt,
    Lt,
}

/// One condition leaf: a field path, an operator, and a bound value.
#[derive(Debug)]
pub struct CondLeaf {
    pub path: FieldPath,
    pub op: Op,
    pub value: Value,
}

/// The mathematical shape of a condition leaf.
#[verifier::ext_equal]
pub struct LeafView {
    pub path: Seq<Seq<char>>,
    pub op: Op,
    pub value: ValueView,
}

impl View for CondLeaf {
    type V = LeafView;

    open spec fn view(&self) -> LeafView {
        LeafView { path: self.path@, op: self.op, value: self.value@ }
    }
}

impl Clone for CondLeaf {
    fn clone(&self) -> (r: Self)
        ensures
            r@ == self@,
    {
        CondLeaf { path: self.path.clone(), op: self.op, value: self.value.clone() }
    }
}

/// The views of a sequence of leaves, in order.
pub open spec fn leaves_view(s: Seq<CondLeaf>) -> Seq<LeafView> {
    Seq::new(s.len(), |i: int| s[i]@)
}

/// A condition: the conjunction of its leaves, in order. An empty
/// condition holds of every row.
#[derive(Debug)]
pub struct Condition {
    pub leaves: Vec<CondLeaf>,
}

impl View for Condition {
    type V = Seq<LeafView>;

    open spec fn view(&self) -> Seq<LeafView> {
        leaves_view(self.leaves@)
    }
}

impl Clone for Condition {
    fn clone(&self) -> (r: Self)
        ensures
            r@ == self@,
    {
        let n = self.leaves.len();
        let mut leaves: Vec<CondLeaf> = Vec::new();
        let mut i: usize = 0;
        while i < n
            invariant
                i <= n,
                n == self.leaves@.len(),
                leaves@.len() == i,
                forall|j: int| 0 <= j < i ==> (#[trigger] leaves@[j])@ == self.leaves@[j]@,
            decreases n - i,
        {
            leaves.push(self.leaves[i].clone());
            i = i + 1;
        }
        let r = Condition { leaves };
        proof {
            assert(r@ =~= self@);
        }
        r
    }
}

/// An order-by clause: a field path and a direction.
#[derive(Debug)]
pub struct OrderBy {
    pub path: FieldPath,
    pub ascending: bool,
}

/// The mathematical shape of an order-by clause.
#[verifier::ext_equal]
pub struct OrderView {
    pub path: Seq<Seq<char>>,
    pub ascending: bool,
}

impl View for OrderBy {
    type V = OrderView;

    open spec fn view(&self) -> OrderView {
        OrderView { path: self.path@, ascending: self.ascending }
    }
}

impl Clone for OrderBy {
    fn clone(&self) -> (r: Self)
        ensures
            r@ == self@,
    {
        OrderBy { path: self.path.clone(), ascending: self.ascending }
    }
}

/// The views of a sequence of order-by clauses, in order.
pub open spec fn orders_view(s: Seq<OrderBy>) -> Seq<OrderView> {
    Seq::new(s.len(), |i: int| s[i]@)
}

/// A fetch directive: the ordered, deduplicated set of relationship field
/// paths a find must resolve to embedded values.
#[derive(Debug)]
pub struct Fetch {
    pub paths: Vec<FieldPath>,
}

impl Clone for Fetch {
    fn clone(&self) -> (r: Self)
        ensures
            r@ == self@,
    {
        let n = self.paths.len();
        let mut paths: Vec<FieldPath> = Vec::new();
        let mut i: usize = 0;
        while i < n
            invariant
                i <= n,
                n == self.paths@.len(),
                paths@.len() == i,
                forall|j: int| 0 <= j < i ==> (#[trigger] paths@[j])@ == self.paths@[j]@,
            decreases n - i,
        {
            paths.push(self.paths[i].clone());
            i = i + 1;
        }
        let r = Fetch { paths };
        proof {
            assert(r@ =~= self@);
        }
        r
    }
}

/// The views of a sequence of field paths, in order.
pub open spec fn paths_view(s: Seq<FieldPath>) -> Seq<Seq<Seq<char>>> {
    Seq::new(s.len(), |i: int| s[i]@)
}

impl View for Fetch {
    type V = Seq<Seq<Seq<char>>>;

    open spec fn view(&self) -> Seq<Seq<Seq<char>>> {
        paths_view(self.paths@)
    }
}

impl Condition {
    /// The empty condition: selects every row of the table.
    pub fn empty() -> (r: Condition)
        ensures
            r@ =~= Seq::<LeafView>::empty(),
    {
        Condition { leaves: Vec::new() }
    }

    /// One comparator leaf, with its path validated against descriptor `t`
    /// of the registry at build time.
    pub fn cmp(
        reg: &SchemaRegistry,
        t: usize,
        path: FieldPath,
        op: Op,
        value: Value,
    ) -> (r: Result<Condition, Error>)
        ensures
            match r {
                Ok(c) => path_resolves(reg.schemas@, t as int, path@) && c@ =~= seq![
                    LeafView { path: path@, op, value: value@ },
                ],
                Err(e) => e == Error::FieldPath && !path_resolves(reg.schemas@, t as int, path@),
            },
    {
        if reg.resolves(t, &path) {
            let mut leaves: Vec<CondLeaf> = Vec::new();
            leaves.push(CondLeaf { path, op, value });
            Ok(Condition { leaves })
        } else {
            Err(Error::FieldPath)
        }
    }

    /// An equality leaf: the implicit comparator of a plain field/value
    /// pair.
    pub fn eq(reg: &SchemaRegistry, t: usize, path: FieldPath, value: Value) -> (r: Result<
        Condition,
        Error,
    >)
        ensures
            match r {
                Ok(c) => path_resolves(reg.schemas@, t as int, path@) && c@ =~= seq![
                    LeafView { path: path@, op: Op::Eq, value: value@ },
                ],
                Err(e) => e == Error::FieldPath && !path_resolves(reg.schemas@, t as int, path@),
            },
    {
        Condition::cmp(reg, t, path, Op::Eq, value)
    }

    /// The conjunction of two conditions, left before right.
    pub fn and(self, other: Condition) -> (r: Condition)
        ensures
            r@ =~= self@ + other@,
    {
        let mut leaves = self.leaves;
        let mut rest = other.leaves;
        let ghost start = leaves@;
        let ghost added = rest@;
        while rest.len() > 0
            invariant
                rest@.len() <= added.len(),
                leaves@ =~= start + added.take(added.len() - rest@.len()),
                rest@ =~= added.skip(added.len() - rest@.len()),
            decreases rest@.len(),
        {
            let l = rest.remove(0);
            leaves.push(l);
            proof {
                assert(leaves@ =~= start + added.take(added.len() - rest@.len()));
                assert(rest@ =~= added.skip(added.len() - rest@.len()));
            }
        }
        proof {
            assert(leaves@ =~= start + added);
            assert(leaves_view(start + added) =~= leaves_view(start) + leaves_view(added));
        }
        Condition { leaves }
    }
}

impl OrderBy {
    /// An ascending order-by on a validated field path.
    pub fn asc(reg: &SchemaRegistry, t: usize, path: FieldPath) -> (r: Result<OrderBy, Error>)
        ensures
            match r {
                Ok(o) => path_resolves(reg.schemas@, t as int, path@) && o@ == (OrderView {
                    path: path@,
                    ascending: true,
                }),
                Err(e) => e == Error::FieldPath && !path_resolves(reg.schemas@, t as int, path@),
            },
    {
        if reg.resolves(t, &path) {
            Ok(OrderBy { path, ascending: true })
        } else {
            Err(Error::FieldPath)
        }
    }

    /// A descending order-by on a validated field path.
    pub fn desc(reg: &SchemaRegistry, t: usize, path: FieldPath) -> (r: Result<OrderBy, Error>)
        ensures
            match r {
                Ok(o) => path_resolves(reg.schemas@, t as int, path@) && o@ == (OrderView {
                    path: path@,
                    ascending: false,
                }),
                Err(e) => e == Error::FieldPath && !path_resolves(reg.schemas@, t as int, path@),
            },
    {
        if reg.resolves(t, &path) {
            Ok(OrderBy { path, ascending: false })
        } else {
            Err(Error::FieldPath)
        }
    }
}

/// Whether a fetch set already holds a path.
pub open spec fn fetch_contains(fs: Seq<Seq<Seq<char>>>, p: Seq<Seq<char>>) -> bool {
    exists|i: int| 0 <= i < fs.len() && fs[i] == p
}

/// A fetch set extended by one path, keeping order and dropping
/// duplicates.
pub open spec fn add_fetch(fs: Seq<Seq<Seq<char>>>, p: Seq<Seq<char>>) -> Seq<Seq<Seq<char>>> {
    if fetch_contains(fs, p) {
        fs
    } else {
        fs.push(p)
    }
}

/// A fetch set extended by many paths, left to right.
pub open spec fn add_fetches(fs: Seq<Seq<Seq<char>>>, ps: Seq<Seq<Seq<char>>>) -> Seq<
    Seq<Seq<char>>,
>
    decreases ps.len(),
{
    if ps.len() == 0 {
        fs
    } else {
        add_fetches(add_fetch(fs, ps[0]), ps.drop_first())
    }
}

impl Fetch {
    /// An empty fetch directive.
    pub fn new() -> (r: Fetch)
        ensures
            r@ =~= Seq::<Seq<Seq<char>>>::empty(),
    {
        Fetch { paths: Vec::new() }
    }

    /// Adds a validated relationship path; a duplicate is dropped.
    pub fn add(self, reg: &SchemaRegistry, t: usize, path: FieldPath) -> (r: Result<Fetch, Error>)
        ensures
            match r {
                Ok(f) => path_resolves(reg.schemas@, t as int, path@) && f@ == add_fetch(
                    self@,
                    path@,
                ),
                Err(e) => e == Error::FieldPath && !path_resolves(reg.schemas@, t as int, path@),
            },
    {
        if !reg.resolves(t, &path) {
            return Err(Error::FieldPath);
        }
        let n = self.paths.len();
        let mut i: usize = 0;
        while i < n
            invariant
                i <= n,
                n == self.paths@.len(),
                path_resolves(reg.schemas@, t as int, path@),
                forall|j: int| 0 <= j < i ==> self@[j] != path@,
            decreases n - i,
        {
            if self.paths[i].same_as(&path) {
                proof {
                    assert(self@[i as int] == path@);
                    assert(fetch_contains(self@, path@));
                    assert(self@ == add_fetch(self@, path@));
                }
                return Ok(self);
            }
            i = i + 1;
        }
        let mut paths = self.paths;
        paths.push(path);
        let r = Fetch { paths };
        proof {
            assert(!fetch_contains(self@, path@));
            assert(r@ =~= self@.push(path@));
        }
        Ok(r)
    }
}

/// Pushing a leaf extends the leaf views by its view.
proof fn lemma_leaves_view_push(s: Seq<CondLeaf>, l: CondLeaf)
    ensures
        leaves_view(s.push(l)) == leaves_view(s).push(l@),
{
    assert(leaves_view(s.push(l)) =~= leaves_view(s).push(l@));
}

/// Pushing an order-by clause extends the order views by its view.
proof fn lemma_orders_view_push(s: Seq<OrderBy>, o: OrderBy)
    ensures
        orders_view(s.push(o)) == orders_view(s).push(o@),
{
    assert(orders_view(s.push(o)) =~= orders_view(s).push(o@));
}

/// One condition leaf of a raw structured-value map matches one of its
/// fields: an equality on that field's name, bound to its value.
pub open spec fn leaf_matches(l: LeafView, p: (String, Value)) -> bool {
    &&& l.path.len() == 1
    &&& l.path[0] == p.0@
    &&& l.op == Op::Eq
    &&& l.value == p.1@
}

/// One element of the ordered injecter list handed to the assembler.
#[derive(Debug)]
pub enum Injecter {
    /// A condition: contributes its leaves, in order.
    Cond(Condition),
    /// A raw structured-value map: an equality condition per field.
    Raw(Row),
    /// An order-by clause, layered after the condition clause.
    Order(OrderBy),
    /// A fetch directive, layered after the condition clause.
    Fetch(Fetch),
}

impl Clone for Injecter {
    fn clone(&self) -> (r: Self)
        ensures
            r@ == self@,
    {
        match self {
            Injecter::Cond(c) => Injecter::Cond(c.clone()),
            Injecter::Raw(row) => Injecter::Raw(row.clone()),
            Injecter::Order(o) => Injecter::Order(o.clone()),
            Injecter::Fetch(f) => Injecter::Fetch(f.clone()),
        }
    }
}

/// The mathematical shape of an injecter.
#[verifier::ext_equal]
pub enum InjView {
    Cond(Seq<LeafView>),
    Raw(RowView),
    Order(OrderView),
    Fetch(Seq<Seq<Seq<char>>>),
}

impl View for Injecter {
    type V = InjView;

    open spec fn view(&self) -> InjView {
        match *self {
            Injecter::Cond(c) => InjView::Cond(c@),
            Injecter::Raw(r) => InjView::Raw(r@),
            Injecter::Order(o) => InjView::Order(o@),
            Injecter::Fetch(f) => InjView::Fetch(f@),
        }
    }
}

/// The views of a sequence of injecters, in order.
pub open spec fn injs_view(s: Seq<Injecter>) -> Seq<InjView> {
    Seq::new(s.len(), |i: int| s[i]@)
}

/// The equality leaves a raw structured-value map contributes: one per
/// field, in field order.
pub open spec fn row_eq_leaves(row: RowView) -> Seq<LeafView> {
    Seq::new(row.len(), |i: int| LeafView { path: seq![row[i].0], op: Op::Eq, value: row[i].1 })
}

/// What one injecter adds to the collected (leaves, orders, fetches).
pub open spec fn collect_step(
    acc: (Seq<LeafView>, Seq<OrderView>, Seq<Seq<Seq<char>>>),
    inj: InjView,
) -> (Seq<LeafView>, Seq<OrderView>, Seq<Seq<Seq<char>>>) {
    match inj {
        InjView::Cond(ls) => (acc.0 + ls, acc.1, acc.2),
        InjView::Raw(row) => (acc.0 + row_eq_leaves(row), acc.1, acc.2),
        InjView::Order(ob) => (acc.0, acc.1.push(ob), acc.2),
        InjView::Fetch(ps) => (acc.0, acc.1, add_fetches(acc.2, ps)),
    }
}

/// The (leaves, orders, fetches) an ordered injecter list collects to:
/// each injecter contributes independently, left to right, so conditions
/// are never reordered relative to each other.
pub open spec fn collect(injs: Seq<InjView>) -> (
    Seq<LeafView>,
    Seq<OrderView>,
    Seq<Seq<Seq<char>>>,
)
    decreases injs.len(),
{
    if injs.len() == 0 {
        (Seq::<LeafView>::empty(), Seq::<OrderView>::empty(), Seq::<Seq<Seq<char>>>::empty())
    } else {
        collect_step(collect(injs.drop_last()), injs.last())
    }
}

/// An assembled query: the target table, the condition leaves in order,
/// the order-by clauses in order, and the deduplicated fetch set.
#[derive(Debug)]
pub struct QueryPlan {
    pub table: String,
    pub leaves: Vec<CondLeaf>,
    pub orders: Vec<OrderBy>,
    pub fetches: Vec<FieldPath>,
}

/// The mathematical shape of an assembled query.
#[verifier::ext_equal]
pub struct PlanView {
    pub table: Seq<char>,
    pub leaves: Seq<LeafView>,
    pub orders: Seq<OrderView>,
    pub fetches: Seq<Seq<Seq<char>>>,
}

impl View for QueryPlan {
    type V = PlanView;

    open spec fn view(&self) -> PlanView {
        PlanView {
            table: self.table@,
            leaves: leaves_view(self.leaves@),
            orders: orders_view(self.orders@),
            fetches: paths_view(self.fetches@),
        }
    }
}

impl QueryPlan {
    /// Collects an ordered injecter list into a plan for `table`.
    pub fn build(table: String, injecters: Vec<Injecter>) -> (r: QueryPlan)
        ensures
            r@.table == table@,
            (r@.leaves, r@.orders, r@.fetches) == collect(injs_view(injecters@)),
    {
        let ghost all = injs_view(injecters@);
        let mut rest = injecters;
        let mut plan = QueryPlan {
            table,
            leaves: Vec::new(),
            orders: Vec::new(),
            fetches: Vec::new(),
        };
        proof {
            assert(injs_view(rest@.take(0)) =~= Seq::<InjView>::empty());
            assert((plan@.leaves, plan@.orders, plan@.fetches) =~~= collect(
                injs_view(rest@.take(0)),
            ));
        }
        let ghost mut done: int = 0;
        while rest.len() > 0
            invariant
                0 <= done <= all.len(),
                rest@.len() == all.len() - done,
                forall|j: int| 0 <= j < rest@.len() ==> (#[trigger] rest@[j])@ == all[done + j],
                plan@.table == table@,
                (plan@.leaves, plan@.orders, plan@.fetches) == collect(all.take(done)),
            decreases rest@.len(),
        {
            let inj = rest.remove(0);
            proof {
                assert(all.take(done + 1).drop_last() =~= all.take(done));
                assert(all.take(done + 1).last() == inj@);
            }
            let ghost acc = collect(all.take(done));
            match inj {
                Injecter::Cond(c) => {
                    let mut ls = c.leaves;
                    let ghost added = leaves_view(ls@);
                    let ghost mut k: int = 0;
                    while ls.len() > 0
                        invariant
                            0 <= k <= added.len(),
                            ls@.len() == added.len() - k,
                            forall|j: int|
                                0 <= j < ls@.len() ==> (#[trigger] ls@[j])@ == added[k + j],
                            plan@.table == table@,
                            plan@.orders == acc.1,
                            plan@.fetches == acc.2,
                            plan@.leaves =~= acc.0 + added.take(k),
                        decreases ls@.len(),
                    {
                        let ghost lsold = ls@;
                        proof {
                            assert((lsold[0])@ == added[k + 0]);
                        }
                        let l = ls.remove(0);
                        proof {
                            assert(l@ == added[k]);
                            assert forall|j: int| 0 <= j < ls@.len() implies (#[trigger] ls@[j])@
                                == added[k + 1 + j] by {
                                assert(ls@[j] == lsold[j + 1]);
                                assert((lsold[j + 1])@ == added[k + j + 1]);
                            }
                        }
                        let ghost lv_old = plan.leaves@;
                        plan.leaves.push(l);
                        proof {
                            k = k + 1;
                            lemma_leaves_view_push(lv_old, l);
                            assert(added.take(k) =~= added.take(k - 1).push(added[k - 1]));
                            assert(acc.0 + added.take(k - 1).push(added[k - 1]) =~= (acc.0
                                + added.take(k - 1)).push(added[k - 1]));
                            assert(leaves_view(plan.leaves@) == acc.0 + added.take(k));
                        }
                    }
                    proof {
                        assert(added.take(added.len() as int) =~= added);
                        assert((plan@.leaves, plan@.orders, plan@.fetches) =~~= collect_step(
                            acc,
                            InjView::Cond(added),
                        ));
                    }
                },
                Injecter::Raw(row) => {
                    let mut fs = row.fields;
                    let ghost rowv = crate::value::fields_view_of(fs@);
                    let ghost added = row_eq_leaves(rowv);
                    proof {
                        crate::value::lemma_fields_view_of(fs@);
                        assert forall|j: int| 0 <= j < fs@.len() implies leaf_matches(
                            added[0 + j],
                            #[trigger] fs@[j],
                        ) by {
                            assert(rowv[j] == (fs@[j].0@, crate::value::view_of(fs@[j].1)));
                        }
                    }
                    let ghost mut k: int = 0;
                    while fs.len() > 0
                        invariant
                            0 <= k <= added.len(),
                            fs@.len() == added.len() - k,
                            forall|j: int|
                                0 <= j < fs@.len() ==> leaf_matches(added[k + j], #[trigger] fs@[j]),
                            plan@.table == table@,
                            plan@.orders == acc.1,
                            plan@.fetches == acc.2,
                            plan@.leaves =~= acc.0 + added.take(k),
                        decreases fs@.len(),
                    {
                        let ghost fsold = fs@;
                        proof {
                            assert(leaf_matches(added[k], fsold[0]));
                        }
                        let (name, v) = fs.remove(0);
                        proof {
                            assert(name@ == fsold[0].0@);
                            assert(v@ == fsold[0].1@);
                            assert forall|j: int| 0 <= j < fs@.len() implies leaf_matches(
                                added[k + 1 + j],
                                #[trigger] fs@[j],
                            ) by {
                                assert(fs@[j] == fsold[j + 1]);
                                assert(leaf_matches(added[k + j + 1], fsold[j + 1]));
                            }
                        }
                        let l = CondLeaf { path: FieldPath::field(name), op: Op::Eq, value: v };
                        proof {
                            assert(l@.path =~= added[k].path);
                            assert(l@ == added[k]);
                        }
                        let ghost lv_old = plan.leaves@;
                        plan.leaves.push(l);
                        proof {
                            k = k + 1;
                            lemma_leaves_view_push(lv_old, l);
                            assert(added.take(k) =~= added.take(k - 1).push(added[k - 1]));
                            assert(acc.0 + added.take(k - 1).push(added[k - 1]) =~= (acc.0
                                + added.take(k - 1)).push(added[k - 1]));
                            assert(leaves_view(plan.leaves@) == acc.0 + added.take(k));
                        }
                    }
                    proof {
                        assert(added.take(added.len() as int) =~= added);
                        assert((plan@.leaves, plan@.orders, plan@.fetches) =~~= collect_step(
                            acc,
                            InjView::Raw(rowv),
                        ));
                    }
                },
                Injecter::Order(o) => {
                    let ghost ov = o@;
                    let ghost ov_old = plan.orders@;
                    plan.orders.push(o);
                    proof {
                        lemma_orders_view_push(ov_old, o);
                        assert(orders_view(plan.orders@) == acc.1.push(ov));
                        assert((plan@.leaves, plan@.orders, plan@.fetches) =~~= collect_step(
                            acc,
                            InjView::Order(ov),
                        ));
                    }
                },
                Injecter::Fetch(f) => {
                    let mut ps = f.paths;
                    let ghost added = paths_view(ps@);
                    let ghost mut k: int = 0;
                    while ps.len() > 0
                        invariant
                            0 <= k <= added.len(),
                            ps@.len() == added.len() - k,
                            forall|j: int|
                                0 <= j < ps@.len() ==> (#[trigger] ps@[j])@ == added[k + j],
                            plan@.table == table@,
                            plan@.orders == acc.1,
                            plan@.leaves == acc.0,
                            plan@.fetches =~= add_fetches(acc.2, added.take(k)),
                        decreases ps@.len(),
                    {
                        let ghost psold = ps@;
                        proof {
                            assert((psold[0])@ == added[k + 0]);
                        }
                        let p = ps.remove(0);
                        proof {
                            assert(p@ == added[k]);
                            assert forall|j: int| 0 <= j < ps@.len() implies (#[trigger] ps@[j])@
                                == added[k + 1 + j] by {
                                assert(ps@[j] == psold[j + 1]);
                            }
                        }
                        let ghost curv = paths_view(plan.fetches@);
                        // take the set out of the plan to run it through
                        // the deduplicating add, then put it back
                        let cur = Fetch { paths: plan.fetches };
                        plan.fetches = Vec::new();
                        let cur2 = cur.add_unchecked(p);
                        plan.fetches = cur2.paths;
                        proof {
                            k = k + 1;
                            assert(cur2@ == add_fetch(curv, added[k - 1]));
                            assert(add_fetches(acc.2, added.take(k - 1)) == curv);
                            lemma_add_fetches_snoc(acc.2, added.take(k - 1), added[k - 1]);
                            assert(added.take(k) =~= added.take(k - 1).push(added[k - 1]));
                            assert(paths_view(plan.fetches@) == cur2@);
                        }
                    }
                    proof {
                        assert(added.take(added.len() as int) =~= added);
                        assert((plan@.leaves, plan@.orders, plan@.fetches) =~~= collect_step(
                            acc,
                            InjView::Fetch(added),
                        ));
                    }
                },
            }
            proof {
                done = done + 1;
            }
        }
        proof {
            assert(all.take(done) =~= all);
        }
        plan
    }
}

/// Adding paths one by one agrees with adding them all at once.
proof fn lemma_add_fetches_snoc(fs: Seq<Seq<Seq<char>>>, ps: Seq<Seq<Seq<char>>>, p: Seq<Seq<char>>)
    ensures
        add_fetches(fs, ps.push(p)) == add_fetch(add_fetches(fs, ps), p),
    decreases ps.len(),
{
    if ps.len() == 0 {
        assert(ps.push(p)[0] == p);
        assert(ps.push(p).drop_first() =~= Seq::<Seq<Seq<char>>>::empty());
        assert(add_fetches(fs, ps) == fs);
        assert(add_fetches(add_fetch(fs, p), ps.push(p).drop_first()) == add_fetch(fs, p));
    } else {
        assert(ps.push(p)[0] == ps[0]);
        assert(ps.push(p).drop_first() =~= ps.drop_first().push(p));
        assert(add_fetches(fs, ps.push(p)) == add_fetches(
            add_fetch(fs, ps[0]),
            ps.drop_first().push(p),
        ));
        lemma_add_fetches_snoc(add_fetch(fs, ps[0]), ps.drop_first(), p);
        assert(add_fetches(fs, ps) == add_fetches(add_fetch(fs, ps[0]), ps.drop_first()));
    }
}

impl Fetch {
    /// Adds a path that was already validated, keeping the set
    /// deduplicated.
    fn add_unchecked(self, path: FieldPath) -> (r: Fetch)
        ensures
            r@ == add_fetch(self@, path@),
    {
        let n = self.paths.len();
        let mut i: usize = 0;
        while i < n
            invariant
                i <= n,
                n == self.paths@.len(),
                forall|j: int| 0 <= j < i ==> self@[j] != path@,
            decreases n - i,
        {
            if self.paths[i].same_as(&path) {
                proof {
                    assert(self@[i as int] == path@);
                    assert(fetch_contains(self@, path@));
                }
                return self;
            }
            i = i + 1;
        }
        let mut paths = self.paths;
        paths.push(path);
        let r = Fetch { paths };
        proof {
            assert(!fetch_contains(self@, path@));
            assert(r@ =~= self@.push(path@));
        }
        r
    }
}


/// The name of the `i`-th bound parameter.
pub open spec fn param_name(i: nat) -> Seq<char> {
    "v"@ + dec_spec(i)
}

/// Distinct parameter positions get distinct names.
pub proof fn lemma_param_name_injective(i: nat, j: nat)
    requires
        param_name(i) == param_name(j),
    ensures
        i == j,
{
    reveal_strlit("v");
    assert(("v"@ + dec_spec(i)).skip(1) =~= dec_spec(i));
    assert(("v"@ + dec_spec(j)).skip(1) =~= dec_spec(j));
    lemma_dec_spec_injective(i, j);
}

/// The token an operator renders to.
pub open spec fn op_token(op: Op) -> Seq<char> {
    match op {
        Op::Eq => "="@,
        Op::Contains => "CONTAINS"@,
        Op::Gt => ">"@,
        Op::Lt => "<"@,
    }
}

/// The first `k` segments of a path joined with dots.
pub open spec fn dotted_prefix(p: Seq<Seq<char>>, k: int) -> Seq<char>
    decreases k,
{
    if k <= 0 {
        Seq::empty()
    } else {
        dotted_prefix(p, k - 1) + (if k == 1 {
            Seq::<char>::empty()
        } else {
            "."@
        }) + p[k - 1]
    }
}

/// The dotted wire name of a field path.
pub open spec fn dotted(p: Seq<Seq<char>>) -> Seq<char> {
    dotted_prefix(p, p.len() as int)
}

/// One condition leaf rendered against the `i`-th parameter.
pub open spec fn leaf_str(l: LeafView, i: nat) -> Seq<char> {
    dotted(l.path) + " "@ + op_token(l.op) + " $"@ + param_name(i)
}

/// The first `k` leaves rendered and joined with AND, left to right.
pub open spec fn where_prefix(leaves: Seq<LeafView>, k: int) -> Seq<char>
    decreases k,
{
    if k <= 0 {
        Seq::empty()
    } else {
        where_prefix(leaves, k - 1) + (if k == 1 {
            Seq::<char>::empty()
        } else {
            " AND "@
        }) + leaf_str(leaves[k - 1], (k - 1) as nat)
    }
}

/// One order-by clause rendered.
pub open spec fn order_str(o: OrderView) -> Seq<char> {
    dotted(o.path) + (if o.ascending {
        " ASC"@
    } else {
        " DESC"@
    })
}

/// The first `k` order-by clauses rendered and joined with commas.
pub open spec fn orders_prefix(os: Seq<OrderView>, k: int) -> Seq<char>
    decreases k,
{
    if k <= 0 {
        Seq::empty()
    } else {
        orders_prefix(os, k - 1) + (if k == 1 {
            Seq::<char>::empty()
        } else {
            ", "@
        }) + order_str(os[k - 1])
    }
}

/// The first `k` fetch paths rendered and joined with commas.
pub open spec fn fetches_prefix(fs: Seq<Seq<Seq<char>>>, k: int) -> Seq<char>
    decreases k,
{
    if k <= 0 {
        Seq::empty()
    } else {
        fetches_prefix(fs, k - 1) + (if k == 1 {
            Seq::<char>::empty()
        } else {
            ", "@
        }) + dotted(fs[k - 1])
    }
}

/// The full query template a plan renders to: the select head, then the
/// condition clause, then the order-by clause, then the fetch clause.
pub open spec fn render(p: PlanView) -> Seq<char> {
    "SELECT * FROM "@ + p.table + (if p.leaves.len() == 0 {
        Seq::<char>::empty()
    } else {
        " WHERE "@ + where_prefix(p.leaves, p.leaves.len() as int)
    }) + (if p.orders.len() == 0 {
        Seq::<char>::empty()
    } else {
        " ORDER BY "@ + orders_prefix(p.orders, p.orders.len() as int)
    }) + (if p.fetches.len() == 0 {
        Seq::<char>::empty()
    } else {
        " FETCH "@ + fetches_prefix(p.fetches, p.fetches.len() as int)
    })
}

/// The binding table of a plan: the `i`-th leaf's value under the `i`-th
/// parameter name.
pub open spec fn bindings_of(leaves: Seq<LeafView>) -> Seq<(Seq<char>, ValueView)> {
    Seq::new(leaves.len(), |i: int| (param_name(i as nat), leaves[i].value))
}

/// Renders a field path as its dotted wire name.
fn dotted_exec(p: &FieldPath) -> (r: String)
    ensures
        r@ == dotted(p@),
{
    let n = p.segments.len();
    let mut out = String::new();
    let mut i: usize = 0;
    proof {
        assert(p@.len() == n);
        assert(out@ =~= dotted_prefix(p@, 0));
    }
    while i < n
        invariant
            i <= n,
            n == p.segments@.len(),
            n == p@.len(),
            out@ == dotted_prefix(p@, i as int),
        decreases n - i,
    {
        if i > 0 {
            out.append(".");
        }
        out.append(p.segments[i].as_str());
        proof {
            assert(p@[i as int] == p.segments@[i as int]@);
            assert(out@ =~= dotted_prefix(p@, i as int + 1));
        }
        i = i + 1;
    }
    out
}

/// Renders the `i`-th parameter name.
fn param_name_exec(i: u64) -> (r: String)
    ensures
        r@ == param_name(i as nat),
{
    let mut out = String::from_str("v");
    let digits = u64_to_dec(i);
    out.append(digits.as_str());
    out
}

/// Renders the token of an operator.
fn op_token_exec(op: &Op) -> (r: &'static str)
    ensures
        r@ == op_token(*op),
{
    match op {
        Op::Eq => "=",
        Op::Contains => "CONTAINS",
        Op::Gt => ">",
        Op::Lt => "<",
    }
}

impl QueryPlan {
    /// Renders the plan to one query template plus one parameter-binding
    /// table: conditions joined left to right, order-by and fetch clauses
    /// layered after them, and each bound value under a parameter name
    /// that is unique across the whole query.
    pub fn assemble(&self) -> (r: (String, Vec<(String, Value)>))
        ensures
            r.0@ == render(self@),
            r.1@.len() == self@.leaves.len(),
            forall|i: int|
                0 <= i < r.1@.len() ==> (#[trigger] r.1@[i]).0@ == param_name(i as nat)
                    && r.1@[i].1@ == self@.leaves[i].value,
            forall|i: int, j: int|
                0 <= i < j < r.1@.len() ==> r.1@[i].0@ != r.1@[j].0@,
    {
        let mut out = String::from_str("SELECT * FROM ");
        out.append(self.table.as_str());
        let nleaves = self.leaves.len();
        let mut bindings: Vec<(String, Value)> = Vec::new();
        if nleaves > 0 {
            out.append(" WHERE ");
            let ghost base = "SELECT * FROM "@ + self@.table + " WHERE "@;
            let mut i: usize = 0;
            proof {
                assert(out@ =~= base + where_prefix(self@.leaves, 0));
            }
            while i < nleaves
                invariant
                    i <= nleaves,
                    nleaves == self.leaves@.len(),
                    nleaves == self@.leaves.len(),
                    out@ == base + where_prefix(self@.leaves, i as int),
                    bindings@.len() == i,
                    forall|j: int|
                        0 <= j < i ==> (#[trigger] bindings@[j]).0@ == param_name(j as nat)
                            && bindings@[j].1@ == self@.leaves[j].value,
                decreases nleaves - i,
            {
                if i > 0 {
                    out.append(" AND ");
                }
                let leaf = &self.leaves[i];
                let d = dotted_exec(&leaf.path);
                out.append(d.as_str());
                out.append(" ");
                out.append(op_token_exec(&leaf.op));
                out.append(" $");
                let pname = param_name_exec(i as u64);
                out.append(pname.as_str());
                proof {
                    assert(self@.leaves[i as int] == self.leaves@[i as int]@);
                    assert(leaf@.path == self@.leaves[i as int].path);
                    assert(out@ =~= base + where_prefix(self@.leaves, i as int + 1));
                }
                bindings.push((pname, leaf.value.deep_clone()));
                i = i + 1;
            }
        }
        let norders = self.orders.len();
        if norders > 0 {
            out.append(" ORDER BY ");
            let ghost base = out@;
            let mut i: usize = 0;
            proof {
                assert(out@ =~= base + orders_prefix(self@.orders, 0));
            }
            while i < norders
                invariant
                    i <= norders,
                    norders == self.orders@.len(),
                    norders == self@.orders.len(),
                    out@ == base + orders_prefix(self@.orders, i as int),
                decreases norders - i,
            {
                if i > 0 {
                    out.append(", ");
                }
                let ob = &self.orders[i];
                let d = dotted_exec(&ob.path);
                out.append(d.as_str());
                if ob.ascending {
                    out.append(" ASC");
                } else {
                    out.append(" DESC");
                }
                proof {
                    assert(self@.orders[i as int] == self.orders@[i as int]@);
                    assert(out@ =~= base + orders_prefix(self@.orders, i as int + 1));
                }
                i = i + 1;
            }
        }
        let nfetches = self.fetches.len();
        if nfetches > 0 {
            out.append(" FETCH ");
            let ghost base = out@;
            let mut i: usize = 0;
            proof {
                assert(out@ =~= base + fetches_prefix(self@.fetches, 0));
            }
            while i < nfetches
                invariant
                    i <= nfetches,
                    nfetches == self.fetches@.len(),
                    nfetches == self@.fetches.len(),
                    out@ == base + fetches_prefix(self@.fetches, i as int),
                decreases nfetches - i,
            {
                if i > 0 {
                    out.append(", ");
                }
                let d = dotted_exec(&self.fetches[i]);
                out.append(d.as_str());
                proof {
                    assert(self@.fetches[i as int] == self.fetches@[i as int]@);
                    assert(out@ =~= base + fetches_prefix(self@.fetches, i as int + 1));
                }
                i = i + 1;
            }
        }
        proof {
            assert(out@ =~= render(self@));
            assert forall|i: int, j: int| 0 <= i < j < bindings@.len() implies bindings@[i].0@
                != bindings@[j].0@ by {
                if bindings@[i].0@ == bindings@[j].0@ {
                    lemma_param_name_injective(i as nat, j as nat);
                }
            }
        }
        (out, bindings)
    }
}

} // verus!
