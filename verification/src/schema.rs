//! Declaration-time field-path descriptors. Each record type declares a
//! descriptor: its wire field names, and, for relationship fields, a link
//! to the related type's descriptor. Descriptors live in a registry and
//! link to one another by index, so type-level cycles (a user's posts,
//! a post's author) never expand; a field path is resolved against the
//! registry when a condition, fetch or order-by is built.

use vstd::prelude::*;

verus! {

/// One declared field: its wire name and, for a relationship field, the
/// registry index of the related type's descriptor.
#[derive(Debug)]
pub struct FieldDecl {
    pub name: String,
    pub target: Option<usize>,
}

/// The descriptor of one record type: its table name and declared fields.
#[derive(Debug)]
pub struct Schema {
    pub table: String,
    pub fields: Vec<FieldDecl>,
}

/// The process-wide set of descriptors, one per record type, linked by
/// index.
#[derive(Debug)]
pub struct SchemaRegistry {
    pub schemas: Vec<Schema>,
}

/// A dotted field path under construction: an ordered list of segments,
/// the later ones reached by traversing relationship fields.
#[derive(Debug)]
pub struct FieldPath {
    pub segments: Vec<String>,
}

impl View for FieldPath {
    type V = Seq<Seq<char>>;

    open spec fn view(&self) -> Seq<Seq<char>> {
        self.segments.deep_view()
    }
}

impl Clone for FieldPath {
    fn clone(&self) -> (r: Self)
        ensures
            r@ == self@,
    {
        let n = self.segments.len();
        let mut out: Vec<String> = Vec::new();
        let mut i: usize = 0;
        while i < n
            invariant
                i <= n,
                n == self.segments@.len(),
                out@.len() == i,
                forall|j: int| 0 <= j < i ==> (#[trigger] out@[j])@ == self.segments@[j]@,
            decreases n - i,
        {
            out.push(self.segments[i].clone());
            i = i + 1;
        }
        let r = FieldPath { segments: out };
        proof {
            assert(r@ =~= self@);
        }
        r
    }
}

impl FieldPath {
    /// A path of one segment.
    pub fn field(name: String) -> (r: FieldPath)
        ensures
            r@ =~= seq![name@],
    {
        let mut segments: Vec<String> = Vec::new();
        segments.push(name);
        FieldPath { segments }
    }

    /// The path extended by one traversal segment.
    pub fn child(self, name: String) -> (r: FieldPath)
        ensures
            r@ =~= self@.push(name@),
    {
        let mut segments = self.segments;
        segments.push(name);
        FieldPath { segments }
    }

    /// Whether two paths name the same field.
    pub fn same_as(&self, other: &FieldPath) -> (r: bool)
        ensures
            r == (self@ == other@),
    {
        let n = self.segments.len();
        if n != other.segments.len() {
            proof {
                assert(self@.len() == n);
                assert(other@.len() == other.segments@.len());
            }
            return false;
        }
        let mut i: usize = 0;
        while i < n
            invariant
                i <= n,
                n == self.segments@.len(),
                n == other.segments@.len(),
                forall|j: int| 0 <= j < i ==> self@[j] == other@[j],
            decreases n - i,
        {
            if !(self.segments[i] == other.segments[i]) {
                proof {
                    assert(self@[i as int] != other@[i as int]);
                }
                return false;
            }
            i = i + 1;
        }
        proof {
            assert(self@ =~= other@);
        }
        true
    }
}

/// First declared field with the given wire name.
pub open spec fn decl_lookup(fields: Seq<FieldDecl>, name: Seq<char>) -> Option<FieldDecl>
    decreases fields.len(),
{
    if fields.len() == 0 {
        None
    } else if fields[0].name@ == name {
        Some(fields[0])
    } else {
        decl_lookup(fields.drop_first(), name)
    }
}

/// Whether the path segments from position `k` on resolve when started in
/// descriptor `t` of the registry: every segment is a declared field, and
/// every segment but the last is a relationship field whose target carries
/// the next segment.
pub open spec fn path_ok(reg: Seq<Schema>, t: int, path: Seq<Seq<char>>, k: int) -> bool
    decreases path.len() - k,
{
    if !(0 <= k < path.len()) || !(0 <= t < reg.len()) {
        false
    } else {
        match decl_lookup(reg[t].fields@, path[k]) {
            None => false,
            Some(d) => if k == path.len() - 1 {
                true
            } else {
                match d.target {
                    Some(t2) => path_ok(reg, t2 as int, path, k + 1),
                    None => false,
                }
            },
        }
    }
}

/// Whether a whole path resolves against descriptor `t`.
pub open spec fn path_resolves(reg: Seq<Schema>, t: int, path: Seq<Seq<char>>) -> bool {
    path.len() >= 1 && path_ok(reg, t, path, 0)
}

impl Schema {
    /// The first declared field with the given wire name.
    pub fn lookup(&self, name: &String) -> (r: Option<&FieldDecl>)
        ensures
            match r {
                Some(d) => {
                    &&& decl_lookup(self.fields@, name@) is Some
                    &&& decl_lookup(self.fields@, name@)->0.name@ == d.name@
                    &&& decl_lookup(self.fields@, name@)->0.target == d.target
                },
                None => decl_lookup(self.fields@, name@) is None,
            },
    {
        let n = self.fields.len();
        let mut i: usize = 0;
        proof {
            assert(self.fields@.skip(0) =~= self.fields@);
        }
        loop
            invariant
                i <= n,
                n == self.fields@.len(),
                decl_lookup(self.fields@, name@) == decl_lookup(
                    self.fields@.skip(i as int),
                    name@,
                ),
            decreases n - i,
        {
            if i == n {
                return None;
            }
            if self.fields[i].name == *name {
                return Some(&self.fields[i]);
            }
            proof {
                assert(self.fields@.skip(i as int).drop_first() =~= self.fields@.skip(
                    i as int + 1,
                ));
            }
            i = i + 1;
        }
    }
}

impl SchemaRegistry {
    /// Whether `path` resolves against descriptor `t`: segment by segment,
    /// traversing relationship links of the registry.
    pub fn resolves(&self, t: usize, path: &FieldPath) -> (r: bool)
        ensures
            r == path_resolves(self.schemas@, t as int, path@),
    {
        let n = path.segments.len();
        proof {
            assert(path@.len() == n);
        }
        if n == 0 {
            return false;
        }
        let mut k: usize = 0;
        let mut t_cur: usize = t;
        loop
            invariant
                0 <= k < n,
                n == path@.len(),
                n == path.segments@.len(),
                path_ok(self.schemas@, t as int, path@, 0) == path_ok(
                    self.schemas@,
                    t_cur as int,
                    path@,
                    k as int,
                ),
            decreases n - k,
        {
            if t_cur >= self.schemas.len() {
                return false;
            }
            proof {
                assert(path@[k as int] == path.segments@[k as int]@);
            }
            match self.schemas[t_cur].lookup(&path.segments[k]) {
                None => {
                    return false;
                },
                Some(d) => {
                    if k == n - 1 {
                        return true;
                    }
                    match d.target {
                        Some(t2) => {
                            t_cur = t2;
                            k = k + 1;
                        },
                        None => {
                            return false;
                        },
                    }
                },
            }
        }
    }
}

} // verus!
