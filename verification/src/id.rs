//! The validated, table-qualified record key: a string of the form
//! `table:record`. Validation is checked when the key is serialized onto
//! the wire; construction itself never fails.

use vstd::prelude::*;

use crate::errors::Error;
use crate::value::Value;
use crate::value::ValueView;

verus! {

/// `i` marks the first colon of `s`, with a nonempty table part before it
/// and a nonempty record part after it.
pub open spec fn is_key_split(s: Seq<char>, i: int) -> bool {
    &&& 1 <= i
    &&& i + 1 < s.len()
    &&& s[i] == ':'
    &&& forall|j: int| 0 <= j < i ==> s[j] != ':'
}

/// Whether `s` is a well-formed table-qualified key.
pub open spec fn is_valid_key(s: Seq<char>) -> bool {
    exists|i: int| is_key_split(s, i)
}

/// Gluing a colon-free nonempty table name to a nonempty record part gives
/// a well-formed key.
pub proof fn lemma_concat_key_valid(table: Seq<char>, record: Seq<char>)
    requires
        table.len() >= 1,
        forall|j: int| 0 <= j < table.len() ==> table[j] != ':',
        record.len() >= 1,
    ensures
        is_valid_key(table + seq![':'] + record),
{
    let s = table + seq![':'] + record;
    assert(s[table.len() as int] == ':');
    assert(forall|j: int| 0 <= j < table.len() ==> s[j] == table[j]);
    assert(is_key_split(s, table.len() as int));
}

/// A table-qualified primary key of a persisted record. Immutable once
/// constructed; equality is by value.
#[derive(Debug, PartialEq)]
pub struct Id {
    key: String,
}

impl View for Id {
    type V = Seq<char>;

    closed spec fn view(&self) -> Seq<char> {
        self.key@
    }
}

impl Clone for Id {
    fn clone(&self) -> (r: Self)
        ensures
            r@ == self@,
    {
        Id { key: self.key.clone() }
    }
}

impl From<String> for Id {
    fn from(key: String) -> (r: Self) {
        Id { key }
    }
}

impl vstd::std_specs::convert::FromSpecImpl<String> for Id {
    closed spec fn obeys_from_spec() -> bool {
        true
    }

    closed spec fn from_spec(key: String) -> Id {
        Id { key }
    }
}

impl Id {
    /// Wraps a raw string key; validity is checked at serialization time.
    pub fn new(key: String) -> (r: Id)
        ensures
            r@ == key@,
    {
        Id { key }
    }

    /// Read-only access to the string form of the key.
    pub fn as_str(&self) -> (r: &str)
        ensures
            r@ == self@,
    {
        self.key.as_str()
    }

    /// The position of the first colon, when it makes a well-formed split.
    fn split_pos(&self) -> (r: Option<usize>)
        ensures
            match r {
                Some(i) => is_key_split(self@, i as int),
                None => !is_valid_key(self@),
            },
    {
        let s = self.key.as_str();
        let n = s.unicode_len();
        let mut i: usize = 0;
        loop
            invariant
                i <= n,
                n == self@.len(),
                s@ == self@,
                forall|j: int| 0 <= j < i ==> self@[j] != ':',
            decreases n - i,
        {
            if i == n {
                proof {
                    assert forall|k: int| !is_key_split(self@, k) by {
                        if 0 <= k < self@.len() {
                            assert(self@[k] != ':');
                        }
                    }
                }
                return None;
            }
            let c = s.get_char(i);
            if c == ':' {
                if 1 <= i && i + 1 < n {
                    return Some(i);
                } else {
                    proof {
                        assert forall|k: int| !is_key_split(self@, k) by {
                            if is_key_split(self@, k) {
                                if k < i as int {
                                    assert(self@[k] == ':');
                                } else if k > i as int {
                                    assert(self@[i as int] != ':');
                                }
                            }
                        }
                    }
                    return None;
                }
            }
            i = i + 1;
        }
    }

    /// Whether the key is well-formed.
    pub fn is_valid(&self) -> (r: bool)
        ensures
            r == is_valid_key(self@),
    {
        match self.split_pos() {
            Some(_) => true,
            None => false,
        }
    }

    /// The wire form of the key: its string, provided it is well-formed.
    /// An ill-formed key surfaces as a key-derivation error, not a panic.
    pub fn to_value(&self) -> (r: Result<Value, Error>)
        ensures
            match r {
                Ok(v) => is_valid_key(self@) && v@ == ValueView::Text(self@),
                Err(e) => !is_valid_key(self@) && e == Error::KeyDerivation,
            },
    {
        if self.is_valid() {
            Ok(Value::Text(self.key.clone()))
        } else {
            Err(Error::KeyDerivation)
        }
    }

    /// Reads a key back from its wire form: a text value holding a
    /// well-formed key. Any other shape is a deserialization error.
    pub fn from_value(v: &Value) -> (r: Result<Id, Error>)
        ensures
            match r {
                Ok(id) => v@ == ValueView::Text(id@) && is_valid_key(id@),
                Err(e) => e == Error::Deserialization && (match v@ {
                    ValueView::Text(t) => !is_valid_key(t),
                    _ => true,
                }),
            },
    {
        match v {
            Value::Text(s) => {
                let id = Id { key: s.clone() };
                if id.is_valid() {
                    Ok(id)
                } else {
                    Err(Error::Deserialization)
                }
            },
            _ => Err(Error::Deserialization),
        }
    }
}

} // verus!
