//! Foreign references: a relationship slot holding a bare key, a resolved
//! value, or both. Serialization always emits the key form; a value read
//! back from the wire is a bare key when the relationship was not
//! fetched, and an embedded row — absorbed into the resolved form — when
//! it was.

use vstd::prelude::*;

use crate::errors::Error;
use crate::id::Id;
use crate::id::is_valid_key;
use crate::model::Model;
use crate::value::Value;
use crate::value::ValueView;

verus! {

/// One relationship slot: a key, a resolved value, or both.
#[derive(Debug)]
pub enum Foreign<T> {
    KeyOnly(Id),
    ValueOnly(T),
    Both(Id, T),
}

/// The mathematical shape of a relationship slot.
#[verifier::ext_equal]
pub enum ForeignView<V> {
    KeyOnly(Seq<char>),
    ValueOnly(V),
    Both(Seq<char>, V),
}

impl<T: View> View for Foreign<T> {
    type V = ForeignView<T::V>;

    open spec fn view(&self) -> ForeignView<T::V> {
        match self {
            Foreign::KeyOnly(id) => ForeignView::KeyOnly(id@),
            Foreign::ValueOnly(v) => ForeignView::ValueOnly(v@),
            Foreign::Both(id, v) => ForeignView::Both(id@, v@),
        }
    }
}

/// The embedded value of a slot, if it was resolved.
pub open spec fn foreign_value<V>(f: ForeignView<V>) -> Option<V> {
    match f {
        ForeignView::KeyOnly(_) => None,
        ForeignView::ValueOnly(v) => Some(v),
        ForeignView::Both(_, v) => Some(v),
    }
}

/// The key of a slot, if it holds one.
pub open spec fn foreign_key<V>(f: ForeignView<V>) -> Option<Seq<char>> {
    match f {
        ForeignView::KeyOnly(k) => Some(k),
        ForeignView::ValueOnly(_) => None,
        ForeignView::Both(k, _) => Some(k),
    }
}

/// The key a slot can derive for the wire: its own key, or the resolved
/// value's identifier.
pub open spec fn wire_key<T: Model>(f: ForeignView<T::V>) -> Option<Seq<char>> {
    match f {
        ForeignView::KeyOnly(k) => Some(k),
        ForeignView::Both(k, _) => Some(k),
        ForeignView::ValueOnly(v) => T::view_id(v),
    }
}

/// The wire form of a slot: always the key form; a slot with no
/// derivable or no well-formed key does not serialize.
pub open spec fn wire_value<T: Model>(f: ForeignView<T::V>) -> Result<ValueView, Error> {
    match wire_key::<T>(f) {
        Some(k) => if is_valid_key(k) {
            Ok(ValueView::Text(k))
        } else {
            Err(Error::KeyDerivation)
        },
        None => Err(Error::KeyDerivation),
    }
}

/// The slot a wire value deserializes to: a bare key stays key-only; an
/// embedded row resolves, keeping its own identifier beside the value
/// when it carries one. Any other shape is refused.
pub open spec fn parse_value<T: Model>(v: ValueView) -> Result<ForeignView<T::V>, Error> {
    match v {
        ValueView::Text(t) => if is_valid_key(t) {
            Ok(ForeignView::KeyOnly(t))
        } else {
            Err(Error::Deserialization)
        },
        ValueView::Obj(rv) => match T::from_row_spec(rv) {
            Ok(mv) => Ok(
                match T::view_id(mv) {
                    Some(k) => ForeignView::Both(k, mv),
                    None => ForeignView::ValueOnly(mv),
                },
            ),
            Err(e) => Err(e),
        },
        _ => Err(Error::Deserialization),
    }
}

/// Serializing a slot and reading the result back — a find without a
/// fetch directive — yields a key-only slot holding the original key.
pub proof fn lemma_foreign_round_trip<T: Model>(f: ForeignView<T::V>, w: ValueView)
    requires
        wire_value::<T>(f) == Ok::<ValueView, Error>(w),
    ensures
        parse_value::<T>(w) == Ok::<ForeignView<T::V>, Error>(
            ForeignView::KeyOnly(wire_key::<T>(f)->0),
        ),
        foreign_value(parse_value::<T>(w)->Ok_0) is None,
        foreign_key(parse_value::<T>(w)->Ok_0) == wire_key::<T>(f),
{
}

/// The fetch round trip: resolving a fetch directive on a relationship
/// field replaces its bare key by the embedded row that key names, and
/// reading the result back yields a resolved slot whose embedded value
/// is the related record's persisted content.
pub proof fn lemma_fetch_round_trip<T: Model>(
    rows: Seq<crate::value::RowView>,
    r: crate::value::RowView,
    rel: Seq<char>,
    k: Seq<char>,
    b: crate::value::RowView,
    mv: T::V,
)
    requires
        crate::value::vget(r, rel) == Some(ValueView::Text(k)),
        crate::store::lookup(rows, k) == Some(b),
        T::from_row_spec(b) == Ok::<T::V, Error>(mv),
    ensures
        crate::value::vget(crate::store::fetch_row(rows, r, seq![rel], 0), rel) == Some(
            ValueView::Obj(b),
        ),
        foreign_value(parse_value::<T>(ValueView::Obj(b))->Ok_0) == Some(mv),
{
    crate::store::lemma_fetch_single(rows, r, rel, k, b);
    crate::value::lemma_vset_get(r, rel, ValueView::Obj(b));
}

impl Id {
    /// A record that knows its own identifier can stand as a foreign
    /// relationship without loading the related record: the key alone.
    pub fn into_foreign<T: Model>(self) -> (r: Foreign<T>)
        ensures
            r@ == ForeignView::<T::V>::KeyOnly(self@),
    {
        Foreign::KeyOnly(self)
    }
}

impl<T: Model> Foreign<T> {
    /// A slot holding a bare key.
    pub fn new_key(id: Id) -> (r: Foreign<T>)
        ensures
            r@ == ForeignView::<T::V>::KeyOnly(id@),
    {
        Foreign::KeyOnly(id)
    }

    /// A slot holding a resolved value; it has no key until the value is
    /// persisted.
    pub fn new_value(v: T) -> (r: Foreign<T>)
        ensures
            r@ == ForeignView::<T::V>::ValueOnly(v@),
    {
        Foreign::ValueOnly(v)
    }

    /// The resolved value, if the slot holds one; a key-only slot is the
    /// observable sign that no fetch was requested or satisfied.
    pub fn value(&self) -> (r: Option<&T>)
        ensures
            match r {
                Some(v) => foreign_value(self@) == Some(v@),
                None => foreign_value(self@) is None,
            },
    {
        match self {
            Foreign::KeyOnly(_) => None,
            Foreign::ValueOnly(v) => Some(v),
            Foreign::Both(_, v) => Some(v),
        }
    }

    /// The key, if the slot holds one.
    pub fn key(&self) -> (r: Option<&Id>)
        ensures
            match r {
                Some(id) => foreign_key(self@) == Some(id@),
                None => foreign_key(self@) is None,
            },
    {
        match self {
            Foreign::KeyOnly(id) => Some(id),
            Foreign::ValueOnly(_) => None,
            Foreign::Both(id, _) => Some(id),
        }
    }

    /// Serializes the slot to its wire form: always the key.
    pub fn to_value(&self) -> (r: Result<Value, Error>)
        ensures
            match (r, wire_value::<T>(self@)) {
                (Ok(val), Ok(wv)) => val@ == wv,
                (Err(e), Err(e2)) => e == e2,
                _ => false,
            },
    {
        match self {
            Foreign::KeyOnly(id) => id.to_value(),
            Foreign::Both(id, _) => id.to_value(),
            Foreign::ValueOnly(v) => match v.id() {
                Some(id) => id.to_value(),
                None => Err(Error::KeyDerivation),
            },
        }
    }

    /// Reads a slot back from a wire value of either shape.
    pub fn from_value(v: &Value) -> (r: Result<Foreign<T>, Error>)
        ensures
            match (r, parse_value::<T>(v@)) {
                (Ok(f), Ok(fv)) => f@ == fv,
                (Err(e), Err(e2)) => e == e2,
                _ => false,
            },
    {
        match v {
            Value::Text(_) => match Id::from_value(v) {
                Ok(id) => Ok(Foreign::KeyOnly(id)),
                Err(e) => Err(e),
            },
            Value::Obj(row) => match T::from_row(row) {
                Ok(m) => match m.id() {
                    Some(id) => Ok(Foreign::Both(id, m)),
                    None => Ok(Foreign::ValueOnly(m)),
                },
                Err(e) => Err(e),
            },
            _ => Err(Error::Deserialization),
        }
    }
}

/// A relationship list: keys, resolved values, or both, element for
/// element.
#[derive(Debug)]
pub enum ForeignVec<T> {
    KeyOnly(Vec<Id>),
    ValueOnly(Vec<T>),
    Both(Vec<Id>, Vec<T>),
}

/// The mathematical shape of a relationship list.
#[verifier::ext_equal]
pub enum ForeignVecView<V> {
    KeyOnly(Seq<Seq<char>>),
    ValueOnly(Seq<V>),
    Both(Seq<Seq<char>>, Seq<V>),
}

/// The views of a sequence of identifiers, in order.
pub open spec fn ids_view(s: Seq<Id>) -> Seq<Seq<char>> {
    Seq::new(s.len(), |i: int| s[i]@)
}

/// The views of a sequence of records, in order.
pub open spec fn vals_view<T: View>(s: Seq<T>) -> Seq<T::V> {
    Seq::new(s.len(), |i: int| s[i]@)
}

impl<T: View> View for ForeignVec<T> {
    type V = ForeignVecView<T::V>;

    open spec fn view(&self) -> ForeignVecView<T::V> {
        match self {
            ForeignVec::KeyOnly(ids) => ForeignVecView::KeyOnly(ids_view(ids@)),
            ForeignVec::ValueOnly(vs) => ForeignVecView::ValueOnly(vals_view(vs@)),
            ForeignVec::Both(ids, vs) => ForeignVecView::Both(ids_view(ids@), vals_view(vs@)),
        }
    }
}

/// The resolved values of a list, if it holds them.
pub open spec fn foreign_vec_values<V>(f: ForeignVecView<V>) -> Option<Seq<V>> {
    match f {
        ForeignVecView::KeyOnly(_) => None,
        ForeignVecView::ValueOnly(vs) => Some(vs),
        ForeignVecView::Both(_, vs) => Some(vs),
    }
}

/// The keys of a list, if it holds them.
pub open spec fn foreign_vec_keys<V>(f: ForeignVecView<V>) -> Option<Seq<Seq<char>>> {
    match f {
        ForeignVecView::KeyOnly(ks) => Some(ks),
        ForeignVecView::ValueOnly(_) => None,
        ForeignVecView::Both(ks, _) => Some(ks),
    }
}

/// The keys a list can derive for the wire: its own keys, or each
/// resolved value's identifier — all of them, or none.
pub open spec fn vec_wire_keys<T: Model>(f: ForeignVecView<T::V>) -> Option<Seq<Seq<char>>> {
    match f {
        ForeignVecView::KeyOnly(ks) => Some(ks),
        ForeignVecView::Both(ks, _) => Some(ks),
        ForeignVecView::ValueOnly(vs) => if forall|i: int|
            0 <= i < vs.len() ==> (#[trigger] T::view_id(vs[i])) is Some {
            Some(Seq::new(vs.len(), |i: int| T::view_id(vs[i])->0))
        } else {
            None
        },
    }
}

/// The wire form of a relationship list: always an array of keys; a
/// list with an unpersisted value or an ill-formed key does not
/// serialize.
pub open spec fn vec_wire_value<T: Model>(f: ForeignVecView<T::V>) -> Result<ValueView, Error> {
    match vec_wire_keys::<T>(f) {
        Some(ks) => if forall|i: int| 0 <= i < ks.len() ==> is_valid_key(#[trigger] ks[i]) {
            Ok(ValueView::Arr(Seq::new(ks.len(), |i: int| ValueView::Text(ks[i]))))
        } else {
            Err(Error::KeyDerivation)
        },
        None => Err(Error::KeyDerivation),
    }
}

/// Whether every array element is a bare, well-formed key.
pub open spec fn all_bare_keys(items: Seq<ValueView>) -> bool {
    forall|i: int|
        0 <= i < items.len() ==> (#[trigger] items[i]) is Text && is_valid_key(items[i]->Text_0)
}

/// The keys of an array of bare keys, in order.
pub open spec fn bare_keys(items: Seq<ValueView>) -> Seq<Seq<char>> {
    Seq::new(items.len(), |i: int| items[i]->Text_0)
}

/// Whether every array element is an embedded row.
pub open spec fn all_rows(items: Seq<ValueView>) -> bool {
    forall|i: int| 0 <= i < items.len() ==> (#[trigger] items[i]) is Obj
}

/// Whether every embedded row of the array deserializes.
pub open spec fn all_rows_parse<T: Model>(items: Seq<ValueView>) -> bool {
    forall|i: int|
        0 <= i < items.len() ==> (#[trigger] T::from_row_spec(items[i]->Obj_0)) is Ok
}

/// The deserialized values of an array of embedded rows, in order.
pub open spec fn parsed_vals<T: Model>(items: Seq<ValueView>) -> Seq<T::V> {
    Seq::new(items.len(), |i: int| T::from_row_spec(items[i]->Obj_0)->Ok_0)
}

/// The list a wire value deserializes to: an array of bare keys stays
/// key-only; an array of embedded rows resolves, keeping the keys beside
/// the values when every row carries its identifier. Any other shape is
/// refused.
pub open spec fn vec_parse<T: Model>(v: ValueView) -> Result<ForeignVecView<T::V>, Error> {
    match v {
        ValueView::Arr(items) => if all_bare_keys(items) {
            Ok(ForeignVecView::KeyOnly(bare_keys(items)))
        } else if all_rows(items) && all_rows_parse::<T>(items) {
            let vs = parsed_vals::<T>(items);
            if forall|i: int| 0 <= i < vs.len() ==> (#[trigger] T::view_id(vs[i])) is Some {
                Ok(ForeignVecView::Both(Seq::new(vs.len(), |i: int| T::view_id(vs[i])->0), vs))
            } else {
                Ok(ForeignVecView::ValueOnly(vs))
            }
        } else {
            Err(Error::Deserialization)
        },
        _ => Err(Error::Deserialization),
    }
}

/// Serializing a relationship list and reading the result back — a find
/// without a fetch directive — yields a key-only list holding the
/// original keys.
pub proof fn lemma_foreign_vec_round_trip<T: Model>(f: ForeignVecView<T::V>, w: ValueView)
    requires
        vec_wire_value::<T>(f) == Ok::<ValueView, Error>(w),
    ensures
        vec_parse::<T>(w) == Ok::<ForeignVecView<T::V>, Error>(
            ForeignVecView::KeyOnly(vec_wire_keys::<T>(f)->0),
        ),
        foreign_vec_values(vec_parse::<T>(w)->Ok_0) is None,
        foreign_vec_keys(vec_parse::<T>(w)->Ok_0) == vec_wire_keys::<T>(f),
{
    let ks = vec_wire_keys::<T>(f)->0;
    let items = Seq::new(ks.len(), |i: int| ValueView::Text(ks[i]));
    assert(all_bare_keys(items));
    assert(bare_keys(items) =~= ks);
}

/// The fetch round trip for a relationship list: when every stored key
/// of the list names a row that deserializes, the fetched field — the
/// keys replaced by the embedded rows — reads back as a resolved list
/// whose values match the persisted content, element for element. A
/// list of no keys is excluded: its wire form is the empty array, which
/// reads back as the key-only list of no keys.
pub proof fn lemma_foreign_vec_fetch_round_trip<T: Model>(
    rows: Seq<crate::value::RowView>,
    items: Seq<ValueView>,
)
    requires
        items.len() >= 1,
        forall|i: int|
            0 <= i < items.len() ==> (#[trigger] items[i]) is Text && crate::store::lookup(
                rows,
                items[i]->Text_0,
            ) is Some,
        forall|i: int|
            0 <= i < items.len() ==> (#[trigger] T::from_row_spec(
                crate::store::lookup(rows, items[i]->Text_0)->0,
            )) is Ok,
    ensures
        vec_parse::<T>(ValueView::Arr(crate::store::fetch_elems(rows, items))) matches Ok(f)
            && foreign_vec_values(f) matches Some(vs) && vs.len() == items.len() && forall|i: int|
            0 <= i < items.len() ==> vs[i] == T::from_row_spec(
                #[trigger] crate::store::lookup(rows, items[i]->Text_0)->0,
            )->Ok_0,
{
    let fetched = crate::store::fetch_elems(rows, items);
    assert(fetched.len() == items.len());
    assert forall|i: int| 0 <= i < fetched.len() implies (#[trigger] fetched[i])
        == ValueView::Obj(crate::store::lookup(rows, items[i]->Text_0)->0) by {
        assert(items[i] is Text);
    }
    assert(!all_bare_keys(fetched)) by {
        assert(fetched[0] is Obj);
    }
    assert(all_rows(fetched));
    assert(all_rows_parse::<T>(fetched)) by {
        assert forall|i: int|
            0 <= i < fetched.len() implies (#[trigger] T::from_row_spec(
            fetched[i]->Obj_0,
        )) is Ok by {
            assert(fetched[i]->Obj_0 == crate::store::lookup(rows, items[i]->Text_0)->0);
        }
    }
    let vs = parsed_vals::<T>(fetched);
    assert forall|i: int| 0 <= i < items.len() implies (#[trigger] vs[i]) == T::from_row_spec(
        crate::store::lookup(rows, items[i]->Text_0)->0,
    )->Ok_0 by {
        assert(fetched[i]->Obj_0 == crate::store::lookup(rows, items[i]->Text_0)->0);
    }
}

impl<T: Model> ForeignVec<T> {
    /// A list holding bare keys.
    pub fn new_keys(ids: Vec<Id>) -> (r: ForeignVec<T>)
        ensures
            r@ == ForeignVecView::<T::V>::KeyOnly(ids_view(ids@)),
    {
        ForeignVec::KeyOnly(ids)
    }

    /// A list holding resolved values.
    pub fn new_value(vs: Vec<T>) -> (r: ForeignVec<T>)
        ensures
            r@ == ForeignVecView::<T::V>::ValueOnly(vals_view(vs@)),
    {
        ForeignVec::ValueOnly(vs)
    }

    /// The resolved values, if the list holds them.
    pub fn value(&self) -> (r: Option<&Vec<T>>)
        ensures
            match r {
                Some(vs) => foreign_vec_values(self@) == Some(vals_view(vs@)),
                None => foreign_vec_values(self@) is None,
            },
    {
        match self {
            ForeignVec::KeyOnly(_) => None,
            ForeignVec::ValueOnly(vs) => Some(vs),
            ForeignVec::Both(_, vs) => Some(vs),
        }
    }

    /// The keys, if the list holds them.
    pub fn keys(&self) -> (r: Option<&Vec<Id>>)
        ensures
            match r {
                Some(ids) => foreign_vec_keys(self@) == Some(ids_view(ids@)),
                None => foreign_vec_keys(self@) is None,
            },
    {
        match self {
            ForeignVec::KeyOnly(ids) => Some(ids),
            ForeignVec::ValueOnly(_) => None,
            ForeignVec::Both(ids, _) => Some(ids),
        }
    }

    /// Serializes the key list of a slice of identifiers.
    fn ids_to_value(ids: &Vec<Id>) -> (r: Result<Value, Error>)
        ensures
            match r {
                Ok(val) => (forall|i: int|
                    0 <= i < ids@.len() ==> is_valid_key(#[trigger] ids_view(ids@)[i])) && val@
                    == ValueView::Arr(
                    Seq::new(ids@.len(), |i: int| ValueView::Text(ids_view(ids@)[i])),
                ),
                Err(e) => e == Error::KeyDerivation && !(forall|i: int|
                    0 <= i < ids@.len() ==> is_valid_key(#[trigger] ids_view(ids@)[i])),
            },
    {
        let n = ids.len();
        let mut out: Vec<Value> = Vec::new();
        let mut i: usize = 0;
        while i < n
            invariant
                i <= n,
                n == ids@.len(),
                out@.len() == i,
                forall|j: int| 0 <= j < i ==> is_valid_key(#[trigger] ids_view(ids@)[j]),
                forall|j: int|
                    0 <= j < i ==> (#[trigger] out@[j])@ == ValueView::Text(ids_view(ids@)[j]),
            decreases n - i,
        {
            match ids[i].to_value() {
                Ok(val) => {
                    proof {
                        assert(ids_view(ids@)[i as int] == ids@[i as int]@);
                    }
                    out.push(val);
                },
                Err(e) => {
                    proof {
                        assert(!is_valid_key(ids_view(ids@)[i as int]));
                    }
                    return Err(e);
                },
            }
            i = i + 1;
        }
        let r = Value::Arr(out);
        proof {
            crate::value::lemma_views_of(out@);
            assert(crate::value::views_of(out@) =~= Seq::new(
                ids@.len(),
                |i: int| ValueView::Text(ids_view(ids@)[i]),
            ));
        }
        Ok(r)
    }

    /// Serializes the list to its wire form: always the array of keys.
    pub fn to_value(&self) -> (r: Result<Value, Error>)
        ensures
            match (r, vec_wire_value::<T>(self@)) {
                (Ok(val), Ok(wv)) => val@ == wv,
                (Err(e), Err(e2)) => e == e2,
                _ => false,
            },
    {
        match self {
            ForeignVec::KeyOnly(ids) => Self::ids_to_value(ids),
            ForeignVec::Both(ids, _) => Self::ids_to_value(ids),
            ForeignVec::ValueOnly(vs) => {
                let n = vs.len();
                let mut keys: Vec<Id> = Vec::new();
                let mut i: usize = 0;
                while i < n
                    invariant
                        i <= n,
                        n == vs@.len(),
                        self@ == ForeignVecView::<T::V>::ValueOnly(vals_view(vs@)),
                        keys@.len() == i,
                        forall|j: int|
                            0 <= j < i ==> (#[trigger] T::view_id(vals_view(vs@)[j])) == Some(
                                keys@[j]@,
                            ),
                    decreases n - i,
                {
                    proof {
                        assert(vals_view(vs@)[i as int] == vs@[i as int]@);
                    }
                    match vs[i].id() {
                        Some(id) => {
                            keys.push(id);
                        },
                        None => {
                            proof {
                                assert(T::view_id(vals_view(vs@)[i as int]) is None);
                                assert(vec_wire_keys::<T>(self@) is None);
                            }
                            return Err(Error::KeyDerivation);
                        },
                    }
                    i = i + 1;
                }
                proof {
                    assert(vec_wire_keys::<T>(self@) == Some(ids_view(keys@))) by {
                        assert(forall|j: int|
                            0 <= j < vs@.len() ==> (#[trigger] T::view_id(vals_view(vs@)[j]))
                                is Some);
                        assert(ids_view(keys@) =~= Seq::new(
                            vals_view(vs@).len(),
                            |i: int| T::view_id(vals_view(vs@)[i])->0,
                        ));
                    }
                }
                Self::ids_to_value(&keys)
            },
        }
    }

    /// Reads a list back from a wire value of either shape.
    pub fn from_value(v: &Value) -> (r: Result<ForeignVec<T>, Error>)
        ensures
            match (r, vec_parse::<T>(v@)) {
                (Ok(f), Ok(fv)) => f@ == fv,
                (Err(e), Err(e2)) => e == e2,
                _ => false,
            },
    {
        let items = match v {
            Value::Arr(items) => items,
            _ => {
                return Err(Error::Deserialization);
            },
        };
        let ghost itemsv = crate::value::views_of(items@);
        proof {
            crate::value::lemma_views_of(items@);
        }
        let n = items.len();
        let mut ids: Vec<Id> = Vec::new();
        let mut bare = true;
        let mut i: usize = 0;
        while i < n && bare
            invariant
                i <= n,
                n == items@.len(),
                itemsv.len() == n,
                v@ == ValueView::Arr(itemsv),
                forall|j: int| 0 <= j < n ==> itemsv[j] == (#[trigger] items@[j])@,
                bare ==> ids@.len() == i,
                bare ==> forall|j: int|
                    0 <= j < i ==> (#[trigger] itemsv[j]) is Text && is_valid_key(
                        itemsv[j]->Text_0,
                    ) && ids_view(ids@)[j] == itemsv[j]->Text_0,
                !bare ==> exists|j: int|
                    0 <= j < n && !((#[trigger] itemsv[j]) is Text && is_valid_key(
                        itemsv[j]->Text_0,
                    )),
            decreases n - i + (if bare {
                1int
            } else {
                0int
            }),
        {
            match &items[i] {
                Value::Text(_) => {
                    match Id::from_value(&items[i]) {
                        Ok(id) => {
                            ids.push(id);
                            i = i + 1;
                        },
                        Err(_) => {
                            proof {
                                assert(!((itemsv[i as int]) is Text && is_valid_key(
                                    itemsv[i as int]->Text_0,
                                )));
                            }
                            bare = false;
                        },
                    }
                },
                _ => {
                    proof {
                        assert(!((itemsv[i as int]) is Text && is_valid_key(
                            itemsv[i as int]->Text_0,
                        )));
                    }
                    bare = false;
                },
            }
        }
        if bare {
            proof {
                assert(all_bare_keys(itemsv));
                assert(ids_view(ids@) =~= bare_keys(itemsv));
            }
            return Ok(ForeignVec::KeyOnly(ids));
        }
        let mut vs: Vec<T> = Vec::new();
        let mut i2: usize = 0;
        while i2 < n
            invariant
                i2 <= n,
                n == items@.len(),
                itemsv.len() == n,
                v@ == ValueView::Arr(itemsv),
                forall|j: int| 0 <= j < n ==> itemsv[j] == (#[trigger] items@[j])@,
                !all_bare_keys(itemsv),
                vs@.len() == i2,
                forall|j: int|
                    0 <= j < i2 ==> (#[trigger] itemsv[j]) is Obj && T::from_row_spec(
                        itemsv[j]->Obj_0,
                    ) == Ok::<T::V, Error>(vals_view(vs@)[j]),
            decreases n - i2,
        {
            match &items[i2] {
                Value::Obj(row) => {
                    match T::from_row(row) {
                        Ok(m) => {
                            vs.push(m);
                        },
                        Err(_) => {
                            proof {
                                assert(!(T::from_row_spec(itemsv[i2 as int]->Obj_0) is Ok));
                                assert(!all_rows_parse::<T>(itemsv));
                            }
                            return Err(Error::Deserialization);
                        },
                    }
                },
                _ => {
                    proof {
                        assert(!((itemsv[i2 as int]) is Obj));
                        assert(!all_rows(itemsv));
                    }
                    return Err(Error::Deserialization);
                },
            }
            i2 = i2 + 1;
        }
        proof {
            assert(all_rows(itemsv));
            assert(all_rows_parse::<T>(itemsv));
            assert(vals_view(vs@) =~= parsed_vals::<T>(itemsv));
        }
        let m = vs.len();
        let mut keys: Vec<Id> = Vec::new();
        let mut allids = true;
        let mut i3: usize = 0;
        while i3 < m && allids
            invariant
                i3 <= m,
                m == vs@.len(),
                v@ == ValueView::Arr(itemsv),
                itemsv.len() == n,
                n == m,
                !all_bare_keys(itemsv),
                all_rows(itemsv),
                all_rows_parse::<T>(itemsv),
                vals_view(vs@) == parsed_vals::<T>(itemsv),
                allids ==> keys@.len() == i3,
                allids ==> forall|j: int|
                    0 <= j < i3 ==> (#[trigger] T::view_id(vals_view(vs@)[j])) == Some(
                        ids_view(keys@)[j],
                    ),
                !allids ==> exists|j: int|
                    0 <= j < m && !((#[trigger] T::view_id(vals_view(vs@)[j])) is Some),
            decreases m - i3 + (if allids {
                1int
            } else {
                0int
            }),
        {
            proof {
                assert(vals_view(vs@)[i3 as int] == vs@[i3 as int]@);
            }
            match vs[i3].id() {
                Some(id) => {
                    keys.push(id);
                    i3 = i3 + 1;
                },
                None => {
                    allids = false;
                },
            }
        }
        if allids {
            let r = ForeignVec::Both(keys, vs);
            proof {
                assert(forall|j: int|
                    0 <= j < m ==> (#[trigger] T::view_id(vals_view(vs@)[j])) is Some);
                assert(ids_view(keys@) =~= Seq::new(
                    vals_view(vs@).len(),
                    |i: int| T::view_id(vals_view(vs@)[i])->0,
                ));
            }
            Ok(r)
        } else {
            Ok(ForeignVec::ValueOnly(vs))
        }
    }
}

} // verus!
