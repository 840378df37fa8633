//! The record capability: the interface a record type implements to gain
//! create/read/update/merge/delete/find, and those operations themselves,
//! written once as free functions over the interface and the storage
//! model. A keyed operation on a record that has no identifier yet is a
//! no-op returning the input unchanged, and touches the store not at all.

use vstd::prelude::*;

use crate::errors::Error;
use crate::id::Id;
use crate::id::is_valid_key;
use crate::query::Injecter;
use crate::query::QueryPlan;
use crate::query::collect;
use crate::query::injs_view;
use crate::store::Store;
use crate::store::fetched_rows;
use crate::store::fresh_key;
use crate::store::lookup;
use crate::store::merge_fields;
use crate::store::replace_row;
use crate::store::delete_rows;
use crate::store::row_leq;
use crate::store::rows_view;
use crate::store::table_ok_spec;
use crate::value::Row;
use crate::value::RowView;
use crate::value::Value;
use crate::value::ValueView;
use crate::value::vset;

verus! {

/// What a record type declares to gain the record operations: its table
/// name, its identifier, and its wire form as a row, each with a
/// mathematical counterpart the operations' contracts are stated over.
pub trait Model: Sized + View {
    /// The table the type's records live in.
    spec fn table_name() -> Seq<char>;

    /// The identifier a value of the type holds, as a key string.
    spec fn view_id(v: Self::V) -> Option<Seq<char>>;

    /// The wire row a value of the type serializes to, or the error.
    spec fn to_row_spec(v: Self::V) -> Result<RowView, Error>;

    /// The value a wire row deserializes to, or the error.
    spec fn from_row_spec(r: RowView) -> Result<Self::V, Error>;

    /// The table the type's records live in.
    fn table() -> (t: String)
        ensures
            t@ == Self::table_name(),
    ;

    /// The identifier the record holds, if it was persisted.
    fn id(&self) -> (r: Option<Id>)
        ensures
            match r {
                Some(id) => Self::view_id(self@) == Some(id@),
                None => Self::view_id(self@) is None,
            },
    ;

    /// Serializes the record to its wire row.
    fn to_row(&self) -> (r: Result<Row, Error>)
        ensures
            match (r, Self::to_row_spec(self@)) {
                (Ok(row), Ok(rv)) => row@ == rv,
                (Err(e), Err(e2)) => e == e2,
                _ => false,
            },
    ;

    /// Deserializes a wire row.
    fn from_row(row: &Row) -> (r: Result<Self, Error>)
        ensures
            match (r, Self::from_row_spec(row@)) {
                (Ok(m), Ok(mv)) => m@ == mv,
                (Err(e), Err(e2)) => e == e2,
                _ => false,
            },
    ;
}


/// A wire row keyed for storage: its `id` field bound to the key.
pub open spec fn keyed_row(rv: RowView, k: Seq<char>) -> RowView {
    vset(rv, "id"@, ValueView::Text(k))
}

/// The row a merge stores under `k`: the stored row (or nothing, for a
/// key no record holds yet) overlaid by the partial row, keyed.
pub open spec fn merged_row(rows: Seq<RowView>, k: Seq<char>, partial: RowView) -> RowView {
    keyed_row(
        merge_fields(
            match lookup(rows, k) {
                Some(base) => base,
                None => Seq::<(Seq<char>, ValueView)>::empty(),
            },
            partial,
        ),
        k,
    )
}

/// Inserts a record: its wire row is stored under a fresh identifier and
/// the stored form is returned, deserialized. Fails exactly when the
/// record does not serialize, the storage refuses the insert, or the
/// stored row does not deserialize; only in the last case has the store
/// changed.
pub fn create<M: Model>(store: &mut Store, m: M) -> (r: Result<M, Error>)
    ensures
        match r {
            Ok(m2) => {
                &&& M::to_row_spec(m@) is Ok
                &&& table_ok_spec(M::table_name())
                &&& old(store).next < u64::MAX
                &&& final(store)@ == old(store)@.push(
                    keyed_row(
                        M::to_row_spec(m@)->Ok_0,
                        fresh_key(M::table_name(), old(store).next as nat),
                    ),
                )
                &&& final(store).next == old(store).next + 1
                &&& M::from_row_spec(
                    keyed_row(
                        M::to_row_spec(m@)->Ok_0,
                        fresh_key(M::table_name(), old(store).next as nat),
                    ),
                ) == Ok::<M::V, Error>(m2@)
            },
            Err(e) => {
                &&& M::to_row_spec(m@) matches Err(e2) ==> e == e2 && *final(store) == *old(
                    store,
                )
                &&& (M::to_row_spec(m@) is Ok && (!table_ok_spec(M::table_name()) || old(
                    store,
                ).next == u64::MAX)) ==> e == Error::Storage && *final(store) == *old(store)
                &&& (M::to_row_spec(m@) is Ok && (table_ok_spec(M::table_name()) && old(
                    store,
                ).next < u64::MAX)) ==> {
                    &&& final(store)@ == old(store)@.push(
                        keyed_row(
                            M::to_row_spec(m@)->Ok_0,
                            fresh_key(M::table_name(), old(store).next as nat),
                        ),
                    )
                    &&& final(store).next == old(store).next + 1
                    &&& M::from_row_spec(
                        keyed_row(
                            M::to_row_spec(m@)->Ok_0,
                            fresh_key(M::table_name(), old(store).next as nat),
                        ),
                    ) == Err::<M::V, Error>(e)
                }
            },
        },
        (M::to_row_spec(m@) matches Ok(rv) && (table_ok_spec(M::table_name()) && old(store).next
            < u64::MAX && M::from_row_spec(
            keyed_row(rv, fresh_key(M::table_name(), old(store).next as nat)),
        ) is Ok)) ==> r is Ok,
{
    let row = match m.to_row() {
        Ok(row) => row,
        Err(e) => {
            return Err(e);
        },
    };
    let table = M::table();
    let stored = match store.create(table.as_str(), row) {
        Ok(stored) => stored,
        Err(e) => {
            return Err(e);
        },
    };
    M::from_row(&stored)
}

/// Reads the record under a key, if present and well-shaped.
pub fn read<M: Model>(store: &Store, key: &Id) -> (r: Result<Option<M>, Error>)
    ensures
        match r {
            Ok(Some(m2)) => lookup(store@, key@) matches Some(row) && M::from_row_spec(row) == Ok::<
                M::V,
                Error,
            >(m2@),
            Ok(None) => lookup(store@, key@) is None,
            Err(e) => lookup(store@, key@) matches Some(row) && M::from_row_spec(row) == Err::<
                M::V,
                Error,
            >(e),
        },
{
    match store.read(key) {
        Some(row) => match M::from_row(&row) {
            Ok(m2) => Ok(Some(m2)),
            Err(e) => Err(e),
        },
        None => Ok(None),
    }
}

/// Replaces a persisted record whole; a record without an identifier is
/// left alone, returned unchanged, and the store is not touched. Fails
/// exactly when the record does not serialize, its key is ill-formed,
/// or the stored row does not deserialize; only in the last case has
/// the store changed.
pub fn update<M: Model>(store: &mut Store, m: M) -> (r: Result<M, Error>)
    ensures
        M::view_id(m@) is None ==> r == Ok::<M, Error>(m) && *final(store) == *old(store),
        match r {
            Ok(m2) => M::view_id(m@) matches Some(k) ==> {
                &&& is_valid_key(k)
                &&& M::to_row_spec(m@) is Ok
                &&& final(store)@ == replace_row(
                    old(store)@,
                    k,
                    keyed_row(M::to_row_spec(m@)->Ok_0, k),
                )
                &&& final(store).next == old(store).next
                &&& M::from_row_spec(keyed_row(M::to_row_spec(m@)->Ok_0, k)) == Ok::<
                    M::V,
                    Error,
                >(m2@)
            },
            Err(e) => M::view_id(m@) matches Some(k) ==> {
                &&& M::to_row_spec(m@) matches Err(e2) ==> e == e2 && *final(store) == *old(
                    store,
                )
                &&& (M::to_row_spec(m@) is Ok && !is_valid_key(k)) ==> e == Error::KeyDerivation
                    && *final(store) == *old(store)
                &&& (M::to_row_spec(m@) is Ok && is_valid_key(k)) ==> {
                    &&& final(store)@ == replace_row(
                        old(store)@,
                        k,
                        keyed_row(M::to_row_spec(m@)->Ok_0, k),
                    )
                    &&& final(store).next == old(store).next
                    &&& M::from_row_spec(keyed_row(M::to_row_spec(m@)->Ok_0, k)) == Err::<
                        M::V,
                        Error,
                    >(e)
                }
            },
        },
        (M::view_id(m@) matches Some(k) && (is_valid_key(k) && (M::to_row_spec(m@) matches Ok(rv)
            && M::from_row_spec(keyed_row(rv, k)) is Ok))) ==> r is Ok,
{
    let id = match m.id() {
        Some(id) => id,
        None => {
            return Ok(m);
        },
    };
    let row = match m.to_row() {
        Ok(row) => row,
        Err(e) => {
            return Err(e);
        },
    };
    let stored = match store.update(&id, row) {
        Ok(stored) => stored,
        Err(e) => {
            return Err(e);
        },
    };
    M::from_row(&stored)
}

/// Patches a persisted record with a partial row; a record without an
/// identifier is left alone, returned unchanged, and the store is not
/// touched. Fails exactly when the key is ill-formed or the stored row
/// does not deserialize; only in the latter case has the store changed —
/// the same row, or the same error, as the keyed store merge followed by
/// deserialization.
pub fn merge<M: Model>(store: &mut Store, m: M, partial: &Row) -> (r: Result<M, Error>)
    ensures
        M::view_id(m@) is None ==> r == Ok::<M, Error>(m) && *final(store) == *old(store),
        match r {
            Ok(m2) => M::view_id(m@) matches Some(k) ==> {
                &&& is_valid_key(k)
                &&& final(store)@ == replace_row(
                    old(store)@,
                    k,
                    merged_row(old(store)@, k, partial@),
                )
                &&& final(store).next == old(store).next
                &&& M::from_row_spec(merged_row(old(store)@, k, partial@)) == Ok::<
                    M::V,
                    Error,
                >(m2@)
            },
            Err(e) => M::view_id(m@) matches Some(k) ==> {
                &&& !is_valid_key(k) ==> e == Error::KeyDerivation && *final(store) == *old(
                    store,
                )
                &&& is_valid_key(k) ==> {
                    &&& final(store)@ == replace_row(
                        old(store)@,
                        k,
                        merged_row(old(store)@, k, partial@),
                    )
                    &&& final(store).next == old(store).next
                    &&& M::from_row_spec(merged_row(old(store)@, k, partial@)) == Err::<
                        M::V,
                        Error,
                    >(e)
                }
            },
        },
        (M::view_id(m@) matches Some(k) && (is_valid_key(k) && M::from_row_spec(
            merged_row(old(store)@, k, partial@),
        ) is Ok)) ==> r is Ok,
{
    let id = match m.id() {
        Some(id) => id,
        None => {
            return Ok(m);
        },
    };
    let stored = match store.merge(&id, partial) {
        Ok(stored) => stored,
        Err(e) => {
            return Err(e);
        },
    };
    M::from_row(&stored)
}

/// Deletes a persisted record by its identifier; a record without an
/// identifier is left alone and the store is not touched.
pub fn delete<M: Model>(store: &mut Store, m: &M) -> (r: Result<(), Error>)
    ensures
        M::view_id(m@) is None ==> r == Ok::<(), Error>(()) && *final(store) == *old(store),
        match r {
            Ok(()) => M::view_id(m@) matches Some(k) ==> {
                &&& is_valid_key(k)
                &&& final(store)@ == delete_rows(old(store)@, k)
                &&& final(store).next == old(store).next
            },
            Err(e) => {
                &&& M::view_id(m@) matches Some(k) && !is_valid_key(k)
                &&& e == Error::KeyDerivation
                &&& *final(store) == *old(store)
            },
        },
{
    let id = match m.id() {
        Some(id) => id,
        None => {
            return Ok(());
        },
    };
    store.delete(&id)
}


/// Adds a value to one field of a persisted record: an element to an
/// array field, or a suffix to a text field. A record without an
/// identifier is left alone and the store is not touched.
pub fn add<M: Model>(store: &mut Store, m: &M, field: &str, value: Value) -> (r: Result<(), Error>)
    ensures
        M::view_id(m@) is None ==> r == Ok::<(), Error>(()) && *final(store) == *old(store),
        M::view_id(m@) matches Some(k) ==> match r {
            Ok(()) => {
                &&& is_valid_key(k)
                &&& crate::store::patch_added(
                    crate::value::vget(
                        match lookup(old(store)@, k) {
                            Some(base) => base,
                            None => Seq::<(Seq<char>, ValueView)>::empty(),
                        },
                        field@,
                    ),
                    value@,
                ) matches Ok(nv)
                &&& final(store)@ == replace_row(
                    old(store)@,
                    k,
                    vset(
                        vset(
                            match lookup(old(store)@, k) {
                                Some(base) => base,
                                None => Seq::<(Seq<char>, ValueView)>::empty(),
                            },
                            field@,
                            crate::store::patch_added(
                                crate::value::vget(
                                    match lookup(old(store)@, k) {
                                        Some(base) => base,
                                        None => Seq::<(Seq<char>, ValueView)>::empty(),
                                    },
                                    field@,
                                ),
                                value@,
                            )->Ok_0,
                        ),
                        "id"@,
                        ValueView::Text(k),
                    ),
                )
                &&& final(store).next == old(store).next
            },
            Err(e) => {
                &&& *final(store) == *old(store)
                &&& !is_valid_key(k) ==> e == Error::KeyDerivation
                &&& is_valid_key(k) ==> e == Error::Storage
            },
        },
{
    let id = match m.id() {
        Some(id) => id,
        None => {
            return Ok(());
        },
    };
    store.patch_add(&id, field, value)
}

/// What holds of the raw rows a find execution hands back, given the
/// collected condition leaves, order-by clauses and fetch set: without
/// an order-by they are exactly the selected-and-fetched rows in stored
/// order; with one they are the same rows, non-decreasing under its
/// preorder.
pub open spec fn find_rows_post(
    rows: Seq<RowView>,
    table: Seq<char>,
    leaves: Seq<crate::query::LeafView>,
    orders: Seq<crate::query::OrderView>,
    fetches: Seq<Seq<Seq<char>>>,
    out: Seq<RowView>,
) -> bool {
    if orders.len() == 0 {
        out == fetched_rows(rows, table, leaves, fetches)
    } else {
        out.to_multiset() == fetched_rows(rows, table, leaves, fetches).to_multiset()
            && vstd::relations::sorted_by(out, row_leq(rows, orders[0]))
    }
}

/// What holds of a successful find: some admissible row sequence exists
/// whose rows deserialize, in order, to the returned records.
pub open spec fn find_ok_post<M: Model>(
    rows: Seq<RowView>,
    table: Seq<char>,
    leaves: Seq<crate::query::LeafView>,
    orders: Seq<crate::query::OrderView>,
    fetches: Seq<Seq<Seq<char>>>,
    ms: Seq<M>,
) -> bool {
    exists|rs: Seq<RowView>|
        {
            &&& #[trigger] find_rows_post(rows, table, leaves, orders, fetches, rs)
            &&& ms.len() == rs.len()
            &&& forall|i: int|
                0 <= i < rs.len() ==> M::from_row_spec(rs[i]) == Ok::<M::V, Error>(
                    (#[trigger] ms[i])@,
                )
        }
}

/// What holds of a failed find: some admissible row sequence exists in
/// which a row deserializes to exactly this error.
pub open spec fn find_err_post<M: Model>(
    rows: Seq<RowView>,
    table: Seq<char>,
    leaves: Seq<crate::query::LeafView>,
    orders: Seq<crate::query::OrderView>,
    fetches: Seq<Seq<Seq<char>>>,
    e: Error,
) -> bool {
    exists|rs: Seq<RowView>|
        {
            &&& #[trigger] find_rows_post(rows, table, leaves, orders, fetches, rs)
            &&& exists|i: int|
                0 <= i < rs.len() && #[trigger] M::from_row_spec(rs[i]) == Err::<M::V, Error>(e)
        }
}

/// What holds of a find that returned a first record.
pub open spec fn find_one_some_post<M: Model>(
    rows: Seq<RowView>,
    table: Seq<char>,
    leaves: Seq<crate::query::LeafView>,
    orders: Seq<crate::query::OrderView>,
    fetches: Seq<Seq<Seq<char>>>,
    mv: M::V,
) -> bool {
    exists|rs: Seq<RowView>|
        {
            &&& #[trigger] find_rows_post(rows, table, leaves, orders, fetches, rs)
            &&& rs.len() > 0
            &&& M::from_row_spec(rs[0]) == Ok::<M::V, Error>(mv)
        }
}

/// What holds of a find that failed at its first record: the query
/// selected rows, and the first does not deserialize.
pub open spec fn find_one_err_post<M: Model>(
    rows: Seq<RowView>,
    table: Seq<char>,
    leaves: Seq<crate::query::LeafView>,
    orders: Seq<crate::query::OrderView>,
    fetches: Seq<Seq<Seq<char>>>,
    e: Error,
) -> bool {
    exists|rs: Seq<RowView>|
        {
            &&& #[trigger] find_rows_post(rows, table, leaves, orders, fetches, rs)
            &&& rs.len() > 0
            &&& M::from_row_spec(rs[0]) == Err::<M::V, Error>(e)
        }
}

/// What holds of a find that returned no record: the query selects
/// nothing.
pub open spec fn find_one_none_post(
    rows: Seq<RowView>,
    table: Seq<char>,
    leaves: Seq<crate::query::LeafView>,
    orders: Seq<crate::query::OrderView>,
    fetches: Seq<Seq<Seq<char>>>,
) -> bool {
    exists|rs: Seq<RowView>|
        {
            &&& #[trigger] find_rows_post(rows, table, leaves, orders, fetches, rs)
            &&& rs.len() == 0
        }
}

/// Finds every record the injecters select, deserialized in result
/// order. Fails exactly when some returned row does not deserialize.
pub fn find<M: Model>(store: &Store, injecters: Vec<Injecter>) -> (r: Result<Vec<M>, Error>)
    ensures
        match r {
            Ok(ms) => find_ok_post::<M>(
                store@,
                M::table_name(),
                collect(injs_view(injecters@)).0,
                collect(injs_view(injecters@)).1,
                collect(injs_view(injecters@)).2,
                ms@,
            ),
            Err(e) => find_err_post::<M>(
                store@,
                M::table_name(),
                collect(injs_view(injecters@)).0,
                collect(injs_view(injecters@)).1,
                collect(injs_view(injecters@)).2,
                e,
            ),
        },
{
    let table = M::table();
    let plan = QueryPlan::build(table, injecters);
    let rows = store.execute(&plan);
    let ghost rs = rows_view(rows@);
    proof {
        assert(find_rows_post(
            store@,
            M::table_name(),
            collect(injs_view(injecters@)).0,
            collect(injs_view(injecters@)).1,
            collect(injs_view(injecters@)).2,
            rs,
        ));
    }
    let n = rows.len();
    let mut out: Vec<M> = Vec::new();
    let mut i: usize = 0;
    while i < n
        invariant
            i <= n,
            n == rows@.len(),
            rs == rows_view(rows@),
            rs.len() == n,
            out@.len() == i,
            find_rows_post(
                store@,
                M::table_name(),
                collect(injs_view(injecters@)).0,
                collect(injs_view(injecters@)).1,
                collect(injs_view(injecters@)).2,
                rs,
            ),
            forall|j: int|
                0 <= j < i ==> M::from_row_spec(rs[j]) == Ok::<M::V, Error>(
                    (#[trigger] out@[j])@,
                ),
        decreases n - i,
    {
        proof {
            assert(rs[i as int] == rows@[i as int]@);
        }
        match M::from_row(&rows[i]) {
            Ok(m2) => {
                out.push(m2);
            },
            Err(e) => {
                proof {
                    assert(M::from_row_spec(rs[i as int]) == Err::<M::V, Error>(e));
                }
                return Err(e);
            },
        }
        i = i + 1;
    }
    Ok(out)
}

/// Finds the first record the injecters select, if any.
pub fn find_one<M: Model>(store: &Store, injecters: Vec<Injecter>) -> (r: Result<Option<M>, Error>)
    ensures
        match r {
            Ok(Some(m2)) => find_one_some_post::<M>(
                store@,
                M::table_name(),
                collect(injs_view(injecters@)).0,
                collect(injs_view(injecters@)).1,
                collect(injs_view(injecters@)).2,
                m2@,
            ),
            Ok(None) => find_one_none_post(
                store@,
                M::table_name(),
                collect(injs_view(injecters@)).0,
                collect(injs_view(injecters@)).1,
                collect(injs_view(injecters@)).2,
            ),
            Err(e) => find_one_err_post::<M>(
                store@,
                M::table_name(),
                collect(injs_view(injecters@)).0,
                collect(injs_view(injecters@)).1,
                collect(injs_view(injecters@)).2,
                e,
            ),
        },
{
    let table = M::table();
    let plan = QueryPlan::build(table, injecters);
    let mut rows = store.execute(&plan);
    let ghost rs = rows_view(rows@);
    proof {
        assert(find_rows_post(
            store@,
            M::table_name(),
            collect(injs_view(injecters@)).0,
            collect(injs_view(injecters@)).1,
            collect(injs_view(injecters@)).2,
            rs,
        ));
    }
    if rows.len() == 0 {
        return Ok(None);
    }
    let first = rows.remove(0);
    proof {
        assert(rs[0] == first@);
    }
    match M::from_row(&first) {
        Ok(m2) => Ok(Some(m2)),
        Err(e) => Err(e),
    }
}

} // verus!
