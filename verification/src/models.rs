//! The record types: messages, users and posts, each with its wire form,
//! its declaration-time descriptor, and the typed finders built on the
//! condition builder and the record operations. A user holds a
//! relationship list of messages; a post holds a relationship to its
//! author, whose descriptor links back through the registry.

use vstd::prelude::*;

use crate::errors::Error;
use crate::foreign::Foreign;
use crate::foreign::ForeignVec;
use crate::foreign::ForeignVecView;
use crate::foreign::ForeignView;
use crate::foreign::parse_value;
use crate::foreign::vec_parse;
use crate::foreign::vec_wire_value;
use crate::foreign::wire_value;
use crate::id::Id;
use crate::id::is_valid_key;
use crate::model::Model;
use crate::query::Condition;
use crate::query::Fetch;
use crate::query::Injecter;
use crate::query::LeafView;
use crate::query::Op;
use crate::query::OrderBy;
use crate::query::OrderView;
use crate::query::collect;
use crate::query::injs_view;
use crate::schema::FieldDecl;
use crate::schema::FieldPath;
use crate::schema::Schema;
use crate::schema::SchemaRegistry;
use crate::schema::decl_lookup;
use crate::schema::path_resolves;
use crate::store::Store;
use crate::value::Row;
use crate::value::RowView;
use crate::value::Value;
use crate::value::ValueView;
use crate::value::vget;

verus! {

/// Registry index of the message descriptor.
pub const MESSAGE_SCHEMA: usize = 0;

/// Registry index of the user descriptor.
pub const USER_SCHEMA: usize = 1;

/// Registry index of the post descriptor.
pub const POST_SCHEMA: usize = 2;

/// A message: some text under an optional identifier.
#[derive(Debug)]
pub struct IMessage {
    pub id: Option<Id>,
    pub text: String,
}

/// The mathematical shape of a message.
#[verifier::ext_equal]
pub struct MessageView {
    pub id: Option<Seq<char>>,
    pub text: Seq<char>,
}

impl View for IMessage {
    type V = MessageView;

    open spec fn view(&self) -> MessageView {
        MessageView {
            id: match self.id {
                Some(id) => Some(id@),
                None => None,
            },
            text: self.text@,
        }
    }
}

impl From<String> for IMessage {
    fn from(text: String) -> (r: Self) {
        IMessage { id: None, text }
    }
}

impl vstd::std_specs::convert::FromSpecImpl<String> for IMessage {
    open spec fn obeys_from_spec() -> bool {
        true
    }

    open spec fn from_spec(text: String) -> IMessage {
        IMessage { id: None, text }
    }
}

impl IMessage {
    /// A fresh, unpersisted message holding `text`.
    pub fn from_text(text: String) -> (r: IMessage)
        ensures
            r@ == (MessageView { id: None, text: text@ }),
    {
        IMessage { id: None, text }
    }
}

impl Model for IMessage {
    open spec fn table_name() -> Seq<char> {
        "Message"@
    }

    open spec fn view_id(v: MessageView) -> Option<Seq<char>> {
        v.id
    }

    open spec fn to_row_spec(v: MessageView) -> Result<RowView, Error> {
        match v.id {
            None => Ok(seq![("text"@, ValueView::Text(v.text))]),
            Some(k) => if is_valid_key(k) {
                Ok(seq![("id"@, ValueView::Text(k)), ("text"@, ValueView::Text(v.text))])
            } else {
                Err(Error::KeyDerivation)
            },
        }
    }

    open spec fn from_row_spec(r: RowView) -> Result<MessageView, Error> {
        match vget(r, "text"@) {
            Some(ValueView::Text(t)) => match vget(r, "id"@) {
                None => Ok(MessageView { id: None, text: t }),
                Some(ValueView::Text(k)) => if is_valid_key(k) {
                    Ok(MessageView { id: Some(k), text: t })
                } else {
                    Err(Error::Deserialization)
                },
                Some(_) => Err(Error::Deserialization),
            },
            _ => Err(Error::Deserialization),
        }
    }

    fn table() -> (t: String) {
        String::from_str("Message")
    }

    fn id(&self) -> (r: Option<Id>) {
        match &self.id {
            Some(id) => Some(id.clone()),
            None => None,
        }
    }

    fn to_row(&self) -> (r: Result<Row, Error>) {
        let mut row = Row::new();
        match &self.id {
            Some(id) => {
                match id.to_value() {
                    Ok(v) => {
                        row.push_field(String::from_str("id"), v);
                    },
                    Err(e) => {
                        return Err(e);
                    },
                }
            },
            None => {},
        }
        row.push_field(String::from_str("text"), Value::Text(self.text.clone()));
        proof {
            assert(row@ =~= Self::to_row_spec(self@)->Ok_0);
        }
        Ok(row)
    }

    fn from_row(row: &Row) -> (r: Result<Self, Error>) {
        let text = match row.get("text") {
            Some(Value::Text(t)) => t.clone(),
            _ => {
                return Err(Error::Deserialization);
            },
        };
        let id = match row.get("id") {
            None => None,
            Some(Value::Text(k)) => {
                let idv = Id::new(k.clone());
                if idv.is_valid() {
                    Some(idv)
                } else {
                    return Err(Error::Deserialization);
                }
            },
            Some(_) => {
                return Err(Error::Deserialization);
            },
        };
        Ok(IMessage { id, text })
    }
}

/// A user: a handle and the messages it references.
#[derive(Debug)]
pub struct IUser {
    pub id: Option<Id>,
    pub handle: String,
    pub messages: ForeignVec<IMessage>,
}

/// The mathematical shape of a user.
#[verifier::ext_equal]
pub struct UserView {
    pub id: Option<Seq<char>>,
    pub handle: Seq<char>,
    pub messages: ForeignVecView<MessageView>,
}

impl View for IUser {
    type V = UserView;

    open spec fn view(&self) -> UserView {
        UserView {
            id: match self.id {
                Some(id) => Some(id@),
                None => None,
            },
            handle: self.handle@,
            messages: self.messages@,
        }
    }
}

impl Model for IUser {
    open spec fn table_name() -> Seq<char> {
        "User"@
    }

    open spec fn view_id(v: UserView) -> Option<Seq<char>> {
        v.id
    }

    open spec fn to_row_spec(v: UserView) -> Result<RowView, Error> {
        let head: Result<RowView, Error> = match v.id {
            None => Ok(seq![("handle"@, ValueView::Text(v.handle))]),
            Some(k) => if is_valid_key(k) {
                Ok(seq![("id"@, ValueView::Text(k)), ("handle"@, ValueView::Text(v.handle))])
            } else {
                Err(Error::KeyDerivation)
            },
        };
        match head {
            Err(e) => Err(e),
            Ok(fields) => match vec_wire_value::<IMessage>(v.messages) {
                Ok(mv) => Ok(fields.push(("messages"@, mv))),
                Err(e) => Err(e),
            },
        }
    }

    open spec fn from_row_spec(r: RowView) -> Result<UserView, Error> {
        match vget(r, "handle"@) {
            Some(ValueView::Text(h)) => match vget(r, "messages"@) {
                Some(mv) => match vec_parse::<IMessage>(mv) {
                    Ok(ms) => match vget(r, "id"@) {
                        None => Ok(UserView { id: None, handle: h, messages: ms }),
                        Some(ValueView::Text(k)) => if is_valid_key(k) {
                            Ok(UserView { id: Some(k), handle: h, messages: ms })
                        } else {
                            Err(Error::Deserialization)
                        },
                        Some(_) => Err(Error::Deserialization),
                    },
                    Err(e) => Err(e),
                },
                None => Err(Error::Deserialization),
            },
            _ => Err(Error::Deserialization),
        }
    }

    fn table() -> (t: String) {
        String::from_str("User")
    }

    fn id(&self) -> (r: Option<Id>) {
        match &self.id {
            Some(id) => Some(id.clone()),
            None => None,
        }
    }

    fn to_row(&self) -> (r: Result<Row, Error>) {
        let mut row = Row::new();
        match &self.id {
            Some(id) => {
                match id.to_value() {
                    Ok(v) => {
                        row.push_field(String::from_str("id"), v);
                    },
                    Err(e) => {
                        return Err(e);
                    },
                }
            },
            None => {},
        }
        row.push_field(String::from_str("handle"), Value::Text(self.handle.clone()));
        let mv = match self.messages.to_value() {
            Ok(mv) => mv,
            Err(e) => {
                return Err(e);
            },
        };
        row.push_field(String::from_str("messages"), mv);
        proof {
            assert(row@ =~= Self::to_row_spec(self@)->Ok_0);
        }
        Ok(row)
    }

    fn from_row(row: &Row) -> (r: Result<Self, Error>) {
        let handle = match row.get("handle") {
            Some(Value::Text(h)) => h.clone(),
            _ => {
                return Err(Error::Deserialization);
            },
        };
        let messages = match row.get("messages") {
            Some(mv) => match ForeignVec::<IMessage>::from_value(mv) {
                Ok(ms) => ms,
                Err(e) => {
                    return Err(e);
                },
            },
            None => {
                return Err(Error::Deserialization);
            },
        };
        let id = match row.get("id") {
            None => None,
            Some(Value::Text(k)) => {
                let idv = Id::new(k.clone());
                if idv.is_valid() {
                    Some(idv)
                } else {
                    return Err(Error::Deserialization);
                }
            },
            Some(_) => {
                return Err(Error::Deserialization);
            },
        };
        Ok(IUser { id, handle, messages })
    }
}

/// A post: an author reference, a title, a body, and a tag list.
#[derive(Debug)]
pub struct IPost {
    pub id: Option<Id>,
    pub author: Foreign<IUser>,
    pub title: String,
    pub body: String,
    pub tags: Vec<String>,
}

/// The mathematical shape of a post.
#[verifier::ext_equal]
pub struct PostView {
    pub id: Option<Seq<char>>,
    pub author: ForeignView<UserView>,
    pub title: Seq<char>,
    pub body: Seq<char>,
    pub tags: Seq<Seq<char>>,
}

impl View for IPost {
    type V = PostView;

    open spec fn view(&self) -> PostView {
        PostView {
            id: match self.id {
                Some(id) => Some(id@),
                None => None,
            },
            author: self.author@,
            title: self.title@,
            body: self.body@,
            tags: self.tags.deep_view(),
        }
    }
}

/// The wire form of a tag list.
pub open spec fn tags_value(tags: Seq<Seq<char>>) -> ValueView {
    ValueView::Arr(Seq::new(tags.len(), |i: int| ValueView::Text(tags[i])))
}

/// Whether a wire value is a tag list, and the tags it holds.
pub open spec fn tags_of(v: ValueView) -> Result<Seq<Seq<char>>, Error> {
    match v {
        ValueView::Arr(items) => if forall|i: int|
            0 <= i < items.len() ==> (#[trigger] items[i]) is Text {
            Ok(Seq::new(items.len(), |i: int| items[i]->Text_0))
        } else {
            Err(Error::Deserialization)
        },
        _ => Err(Error::Deserialization),
    }
}

impl Model for IPost {
    open spec fn table_name() -> Seq<char> {
        "Post"@
    }

    open spec fn view_id(v: PostView) -> Option<Seq<char>> {
        v.id
    }

    open spec fn to_row_spec(v: PostView) -> Result<RowView, Error> {
        let head: Result<RowView, Error> = match v.id {
            None => Ok(Seq::<(Seq<char>, ValueView)>::empty()),
            Some(k) => if is_valid_key(k) {
                Ok(seq![("id"@, ValueView::Text(k))])
            } else {
                Err(Error::KeyDerivation)
            },
        };
        match head {
            Err(e) => Err(e),
            Ok(fields) => match wire_value::<IUser>(v.author) {
                Ok(av) => Ok(
                    fields.push(("author"@, av)).push(("title"@, ValueView::Text(v.title))).push(
                        ("body"@, ValueView::Text(v.body)),
                    ).push(("tags"@, tags_value(v.tags))),
                ),
                Err(e) => Err(e),
            },
        }
    }

    open spec fn from_row_spec(r: RowView) -> Result<PostView, Error> {
        match (vget(r, "author"@), vget(r, "title"@), vget(r, "body"@), vget(r, "tags"@)) {
            (Some(av), Some(ValueView::Text(t)), Some(ValueView::Text(b)), Some(tv)) => match (
                parse_value::<IUser>(av),
                tags_of(tv),
            ) {
                (Ok(author), Ok(tags)) => match vget(r, "id"@) {
                    None => Ok(PostView { id: None, author, title: t, body: b, tags }),
                    Some(ValueView::Text(k)) => if is_valid_key(k) {
                        Ok(PostView { id: Some(k), author, title: t, body: b, tags })
                    } else {
                        Err(Error::Deserialization)
                    },
                    Some(_) => Err(Error::Deserialization),
                },
                (Err(e), _) => Err(e),
                (_, Err(e)) => Err(e),
            },
            _ => Err(Error::Deserialization),
        }
    }

    fn table() -> (t: String) {
        String::from_str("Post")
    }

    fn id(&self) -> (r: Option<Id>) {
        match &self.id {
            Some(id) => Some(id.clone()),
            None => None,
        }
    }

    fn to_row(&self) -> (r: Result<Row, Error>) {
        let mut row = Row::new();
        match &self.id {
            Some(id) => {
                match id.to_value() {
                    Ok(v) => {
                        row.push_field(String::from_str("id"), v);
                    },
                    Err(e) => {
                        return Err(e);
                    },
                }
            },
            None => {},
        }
        let av = match self.author.to_value() {
            Ok(av) => av,
            Err(e) => {
                return Err(e);
            },
        };
        row.push_field(String::from_str("author"), av);
        row.push_field(String::from_str("title"), Value::Text(self.title.clone()));
        row.push_field(String::from_str("body"), Value::Text(self.body.clone()));
        let n = self.tags.len();
        let mut items: Vec<Value> = Vec::new();
        let mut i: usize = 0;
        while i < n
            invariant
                i <= n,
                n == self.tags@.len(),
                items@.len() == i,
                forall|j: int|
                    0 <= j < i ==> (#[trigger] items@[j])@ == ValueView::Text(
                        self.tags@[j]@,
                    ),
            decreases n - i,
        {
            items.push(Value::Text(self.tags[i].clone()));
            i = i + 1;
        }
        proof {
            crate::value::lemma_views_of(items@);
            assert(crate::value::views_of(items@) =~= Seq::new(
                self@.tags.len(),
                |i: int| ValueView::Text(self@.tags[i]),
            ));
        }
        row.push_field(String::from_str("tags"), Value::Arr(items));
        proof {
            assert(row@ =~= Self::to_row_spec(self@)->Ok_0);
        }
        Ok(row)
    }

    fn from_row(row: &Row) -> (r: Result<Self, Error>) {
        let author = match row.get("author") {
            Some(av) => match Foreign::<IUser>::from_value(av) {
                Ok(a) => a,
                Err(e) => {
                    return Err(e);
                },
            },
            None => {
                return Err(Error::Deserialization);
            },
        };
        let title = match row.get("title") {
            Some(Value::Text(t)) => t.clone(),
            _ => {
                return Err(Error::Deserialization);
            },
        };
        let body = match row.get("body") {
            Some(Value::Text(b)) => b.clone(),
            _ => {
                return Err(Error::Deserialization);
            },
        };
        let tags = match row.get("tags") {
            Some(Value::Arr(items)) => {
                let m = items.len();
                let mut tags: Vec<String> = Vec::new();
                let mut i: usize = 0;
                proof {
                    crate::value::lemma_views_of(items@);
                }
                while i < m
                    invariant
                        i <= m,
                        m == items@.len(),
                        crate::value::views_of(items@).len() == m,
                        tags@.len() == i,
                        tags_of(ValueView::Arr(crate::value::views_of(items@))) is Err
                            ==> Self::from_row_spec(row@) == Err::<PostView, Error>(
                            Error::Deserialization,
                        ),
                        forall|j: int|
                            0 <= j < m ==> crate::value::views_of(items@)[j]
                                == (#[trigger] items@[j])@,
                        forall|j: int|
                            0 <= j < i ==> (#[trigger] crate::value::views_of(items@)[j]) is Text
                                && crate::value::views_of(items@)[j]->Text_0 == tags@[j]@,
                    decreases m - i,
                {
                    match &items[i] {
                        Value::Text(t) => {
                            tags.push(t.clone());
                        },
                        _ => {
                            proof {
                                let itemsv = crate::value::views_of(items@);
                                assert(!(itemsv[i as int] is Text));
                                assert(!(forall|j: int|
                                    0 <= j < itemsv.len() ==> (#[trigger] itemsv[j]) is Text)) by {
                                    if (forall|j: int|
                                        0 <= j < itemsv.len() ==> (#[trigger] itemsv[j]) is Text) {
                                        assert(itemsv[i as int] is Text);
                                    }
                                }
                                assert(tags_of(ValueView::Arr(itemsv)) is Err);
                                assert(Self::from_row_spec(row@) == Err::<PostView, Error>(
                                    Error::Deserialization,
                                ));
                            }
                            return Err(Error::Deserialization);
                        },
                    }
                    i = i + 1;
                }
                proof {
                    assert(tags_of(ValueView::Arr(crate::value::views_of(items@))) is Ok);
                    assert(tags.deep_view() =~= tags_of(
                        ValueView::Arr(crate::value::views_of(items@)),
                    )->Ok_0);
                }
                tags
            },
            _ => {
                return Err(Error::Deserialization);
            },
        };
        let id = match row.get("id") {
            None => None,
            Some(Value::Text(k)) => {
                let idv = Id::new(k.clone());
                if idv.is_valid() {
                    Some(idv)
                } else {
                    return Err(Error::Deserialization);
                }
            },
            Some(_) => {
                return Err(Error::Deserialization);
            },
        };
        Ok(IPost { id, author, title, body, tags })
    }
}

/// The shape of the process-wide descriptor registry: the message, user
/// and post descriptors at their indices, the user's message list linked
/// to the message descriptor, the post's author linked to the user
/// descriptor.
pub open spec fn default_registry_shape(schemas: Seq<Schema>) -> bool {
    &&& schemas.len() == 3
    &&& schemas[MESSAGE_SCHEMA as int].fields@.len() == 2
    &&& schemas[MESSAGE_SCHEMA as int].fields@[0].name@ == "id"@
    &&& schemas[MESSAGE_SCHEMA as int].fields@[0].target is None
    &&& schemas[MESSAGE_SCHEMA as int].fields@[1].name@ == "text"@
    &&& schemas[MESSAGE_SCHEMA as int].fields@[1].target is None
    &&& schemas[USER_SCHEMA as int].fields@.len() == 3
    &&& schemas[USER_SCHEMA as int].fields@[0].name@ == "id"@
    &&& schemas[USER_SCHEMA as int].fields@[0].target is None
    &&& schemas[USER_SCHEMA as int].fields@[1].name@ == "handle"@
    &&& schemas[USER_SCHEMA as int].fields@[1].target is None
    &&& schemas[USER_SCHEMA as int].fields@[2].name@ == "messages"@
    &&& schemas[USER_SCHEMA as int].fields@[2].target == Some(MESSAGE_SCHEMA)
    &&& schemas[POST_SCHEMA as int].fields@.len() == 5
    &&& schemas[POST_SCHEMA as int].fields@[0].name@ == "id"@
    &&& schemas[POST_SCHEMA as int].fields@[0].target is None
    &&& schemas[POST_SCHEMA as int].fields@[1].name@ == "author"@
    &&& schemas[POST_SCHEMA as int].fields@[1].target == Some(USER_SCHEMA)
    &&& schemas[POST_SCHEMA as int].fields@[2].name@ == "title"@
    &&& schemas[POST_SCHEMA as int].fields@[2].target is None
    &&& schemas[POST_SCHEMA as int].fields@[3].name@ == "body"@
    &&& schemas[POST_SCHEMA as int].fields@[3].target is None
    &&& schemas[POST_SCHEMA as int].fields@[4].name@ == "tags"@
    &&& schemas[POST_SCHEMA as int].fields@[4].target is None
}

/// Builds the process-wide descriptor registry, one descriptor per
/// record type, linked by index so that type-level cycles never expand.
pub fn registry() -> (r: SchemaRegistry)
    ensures
        default_registry_shape(r.schemas@),
{
    let mut f0: Vec<FieldDecl> = Vec::new();
    f0.push(FieldDecl { name: String::from_str("id"), target: None });
    f0.push(FieldDecl { name: String::from_str("text"), target: None });
    let mut f1: Vec<FieldDecl> = Vec::new();
    f1.push(FieldDecl { name: String::from_str("id"), target: None });
    f1.push(FieldDecl { name: String::from_str("handle"), target: None });
    f1.push(FieldDecl { name: String::from_str("messages"), target: Some(MESSAGE_SCHEMA) });
    let mut f2: Vec<FieldDecl> = Vec::new();
    f2.push(FieldDecl { name: String::from_str("id"), target: None });
    f2.push(FieldDecl { name: String::from_str("author"), target: Some(USER_SCHEMA) });
    f2.push(FieldDecl { name: String::from_str("title"), target: None });
    f2.push(FieldDecl { name: String::from_str("body"), target: None });
    f2.push(FieldDecl { name: String::from_str("tags"), target: None });
    let mut schemas: Vec<Schema> = Vec::new();
    schemas.push(Schema { table: String::from_str("Message"), fields: f0 });
    schemas.push(Schema { table: String::from_str("User"), fields: f1 });
    schemas.push(Schema { table: String::from_str("Post"), fields: f2 });
    SchemaRegistry { schemas }
}

/// In the default registry, a one-segment path to a declared user field
/// resolves, and the author-handle traversal resolves from the post
/// descriptor.
proof fn lemma_decl_lookup_at(fields: Seq<FieldDecl>, name: Seq<char>, idx: int)
    requires
        0 <= idx < fields.len(),
        fields[idx].name@ == name,
        forall|j: int| 0 <= j < idx ==> (#[trigger] fields[j]).name@ != name,
    ensures
        decl_lookup(fields, name) == Some(fields[idx]),
    decreases idx,
{
    if idx == 0 {
    } else {
        assert(fields[0].name@ != name);
        assert(forall|j: int|
            0 <= j < idx - 1 ==> (#[trigger] fields.drop_first()[j]).name@ != name) by {
            assert(forall|j: int|
                0 <= j < idx - 1 ==> fields.drop_first()[j] == (#[trigger] fields[j + 1]));
        }
        assert(fields.drop_first()[idx - 1] == fields[idx]);
        lemma_decl_lookup_at(fields.drop_first(), name, idx - 1);
    }
}

/// In the default registry, a one-segment path to a declared user field
/// resolves, and the author-handle traversal resolves from the post
/// descriptor.
proof fn lemma_default_paths(schemas: Seq<Schema>)
    requires
        default_registry_shape(schemas),
    ensures
        path_resolves(schemas, USER_SCHEMA as int, seq!["handle"@]),
        path_resolves(schemas, USER_SCHEMA as int, seq!["messages"@]),
        path_resolves(schemas, POST_SCHEMA as int, seq!["title"@]),
        path_resolves(schemas, POST_SCHEMA as int, seq!["tags"@]),
        path_resolves(schemas, POST_SCHEMA as int, seq!["author"@, "handle"@]),
{
    reveal_strlit("id");
    reveal_strlit("handle");
    reveal_strlit("messages");
    reveal_strlit("author");
    reveal_strlit("title");
    reveal_strlit("body");
    reveal_strlit("tags");
    assert("id"@.len() == 2);
    assert("handle"@.len() == 6);
    assert("messages"@.len() == 8);
    assert("author"@.len() == 6);
    assert("title"@.len() == 5);
    assert("body"@.len() == 4);
    assert("tags"@.len() == 4);
    let uf = schemas[USER_SCHEMA as int].fields@;
    let pf = schemas[POST_SCHEMA as int].fields@;
    assert(uf[0].name@ != "handle"@);
    lemma_decl_lookup_at(uf, "handle"@, 1);
    assert(uf[0].name@ != "messages"@);
    assert(uf[1].name@ != "messages"@);
    lemma_decl_lookup_at(uf, "messages"@, 2);
    assert(pf[0].name@ != "title"@);
    assert(pf[1].name@ != "title"@);
    lemma_decl_lookup_at(pf, "title"@, 2);
    assert("body"@[0] != "tags"@[0]);
    assert(pf[0].name@ != "tags"@);
    assert(pf[1].name@ != "tags"@);
    assert(pf[2].name@ != "tags"@);
    assert(pf[3].name@ != "tags"@);
    lemma_decl_lookup_at(pf, "tags"@, 4);
    assert(pf[0].name@ != "author"@);
    lemma_decl_lookup_at(pf, "author"@, 1);
    let p = seq!["author"@, "handle"@];
    assert(p[0] == "author"@);
    assert(p[1] == "handle"@);
    assert(crate::schema::path_ok(schemas, USER_SCHEMA as int, p, 1));
    assert(crate::schema::path_ok(schemas, POST_SCHEMA as int, p, 0));
}

/// The per-call adaptation a user query accepts: nothing, or an eager
/// fetch of the user's message list.
#[derive(Debug, Clone, Copy, PartialEq, Eq, Structural)]
pub enum UserParam {
    Plain,
    FetchMessages,
}

/// The fetch set a user-query parameter contributes.
pub open spec fn user_param_fetches(p: UserParam) -> Seq<Seq<Seq<char>>> {
    match p {
        UserParam::Plain => Seq::empty(),
        UserParam::FetchMessages => seq![seq!["messages"@]],
    }
}

impl UserParam {
    /// The injecter this parameter contributes to a user query: nothing,
    /// or a validated fetch directive on the message list.
    pub fn inject(self, reg: &SchemaRegistry) -> (r: Result<Option<Injecter>, Error>)
        ensures
            match r {
                Ok(opt) => match self {
                    UserParam::Plain => opt is None,
                    UserParam::FetchMessages => {
                        &&& path_resolves(reg.schemas@, USER_SCHEMA as int, seq!["messages"@])
                        &&& opt matches Some(inj) && inj@ == crate::query::InjView::Fetch(
                            seq![seq!["messages"@]],
                        )
                    },
                },
                Err(e) => {
                    &&& e == Error::FieldPath
                    &&& self is FetchMessages
                    &&& !path_resolves(reg.schemas@, USER_SCHEMA as int, seq!["messages"@])
                },
            },
    {
        match self {
            UserParam::Plain => Ok(None),
            UserParam::FetchMessages => {
                match Fetch::new().add(
                    reg,
                    USER_SCHEMA,
                    FieldPath::field(String::from_str("messages")),
                ) {
                    Ok(f) => {
                        proof {
                            assert(f@ =~= seq![seq!["messages"@]]);
                        }
                        Ok(Some(Injecter::Fetch(f)))
                    },
                    Err(e) => Err(e),
                }
            },
        }
    }
}

/// The equality leaf a find-by-handle uses.
pub open spec fn handle_leaf(h: Seq<char>) -> LeafView {
    LeafView { path: seq!["handle"@], op: Op::Eq, value: ValueView::Text(h) }
}

/// The single condition leaf a find-by-handle collects.
pub open spec fn handle_leaves(h: Seq<char>) -> Seq<LeafView> {
    seq![handle_leaf(h)]
}

impl IUser {
    /// Finds the first user with the supplied handle, fetching the
    /// message list when the parameter asks for it.
    pub fn find_by_handle(store: &Store, handle: &str, params: UserParam) -> (r: Result<
        Option<IUser>,
        Error,
    >)
        ensures
            match r {
                Ok(Some(u)) => crate::model::find_one_some_post::<IUser>(
                    store@,
                    IUser::table_name(),
                    handle_leaves(handle@),
                    Seq::<OrderView>::empty(),
                    user_param_fetches(params),
                    u@,
                ),
                Ok(None) => crate::model::find_one_none_post(
                    store@,
                    IUser::table_name(),
                    handle_leaves(handle@),
                    Seq::<OrderView>::empty(),
                    user_param_fetches(params),
                ),
                Err(e) => crate::model::find_one_err_post::<IUser>(
                    store@,
                    IUser::table_name(),
                    handle_leaves(handle@),
                    Seq::<OrderView>::empty(),
                    user_param_fetches(params),
                    e,
                ),
            },
    {
        let reg = registry();
        proof {
            lemma_default_paths(reg.schemas@);
        }
        let cond = match Condition::eq(
            &reg,
            USER_SCHEMA,
            FieldPath::field(String::from_str("handle")),
            Value::Text(String::from_str(handle)),
        ) {
            Ok(c) => c,
            Err(e) => {
                proof {
                    assert(false);
                }
                return Err(e);
            },
        };
        let mut injecters: Vec<Injecter> = Vec::new();
        let ghost condv = cond@;
        injecters.push(Injecter::Cond(cond));
        match params.inject(&reg) {
            Ok(Some(inj)) => {
                injecters.push(inj);
            },
            Ok(None) => {},
            Err(e) => {
                proof {
                    assert(false);
                }
                return Err(e);
            },
        }
        proof {
            let injv = injs_view(injecters@);
            assert(collect(Seq::<crate::query::InjView>::empty())
                == (Seq::<LeafView>::empty(), Seq::<OrderView>::empty(), Seq::<
                Seq<Seq<char>>,
            >::empty()));
            if params is Plain {
                assert(injv.len() == 1);
                assert(injv[0] == crate::query::InjView::Cond(condv));
                assert(injv.drop_last() =~= Seq::<crate::query::InjView>::empty());
                assert(collect(injv).0 =~= handle_leaves(handle@));
                assert(collect(injv).1 =~= Seq::<OrderView>::empty());
                assert(collect(injv).2 =~= user_param_fetches(params));
            } else {
                assert(injv.len() == 2);
                assert(injv[0] == crate::query::InjView::Cond(condv));
                assert(injv.drop_last()[0] == injv[0]);
                assert(injv.drop_last().drop_last() =~= Seq::<crate::query::InjView>::empty());
                assert(injv.drop_last().len() == 1);
                let acc1 = collect(injv.drop_last());
                assert(acc1.0 =~= seq![handle_leaf(handle@)]);
                assert(acc1.1 =~= Seq::<OrderView>::empty());
                assert(acc1.2 =~= Seq::<Seq<Seq<char>>>::empty());
                assert(crate::query::add_fetches(acc1.2, seq![seq!["messages"@]]) =~=
                    user_param_fetches(params)) by {
                    assert(seq![seq!["messages"@]][0] == seq!["messages"@]);
                    assert(seq![seq!["messages"@]].drop_first() =~= Seq::<Seq<Seq<char>>>::empty());
                    assert(!crate::query::fetch_contains(acc1.2, seq!["messages"@]));
                    assert(crate::query::add_fetch(acc1.2, seq!["messages"@]) =~= seq![
                        seq!["messages"@],
                    ]);
                    assert(crate::query::add_fetches(
                        crate::query::add_fetch(acc1.2, seq!["messages"@]),
                        seq![seq!["messages"@]].drop_first(),
                    ) == crate::query::add_fetch(acc1.2, seq!["messages"@]));
                }
                assert(collect(injv).0 =~= handle_leaves(handle@));
                assert(collect(injv).1 =~= Seq::<OrderView>::empty());
                assert(collect(injv).2 =~= user_param_fetches(params));
            }
        }
        crate::model::find_one::<IUser>(store, injecters)
    }
}

/// The comparator leaf a tag search uses.
pub open spec fn tag_leaf(t: Seq<char>) -> LeafView {
    LeafView { path: seq!["tags"@], op: Op::Contains, value: ValueView::Text(t) }
}

/// The equality leaf a title search uses.
pub open spec fn title_leaf(t: Seq<char>) -> LeafView {
    LeafView { path: seq!["title"@], op: Op::Eq, value: ValueView::Text(t) }
}

/// The traversal leaf an author-handle search uses.
pub open spec fn author_handle_leaf(h: Seq<char>) -> LeafView {
    LeafView { path: seq!["author"@, "handle"@], op: Op::Eq, value: ValueView::Text(h) }
}

/// The ascending order-by on the title field.
pub open spec fn title_order() -> OrderView {
    OrderView { path: seq!["title"@], ascending: true }
}

/// The condition leaves a title-and-tag search collects, in order.
pub open spec fn title_tag_leaves(tag: Seq<char>, title: Seq<char>) -> Seq<LeafView> {
    seq![tag_leaf(tag), title_leaf(title)]
}

/// The single traversal leaf an author-handle search collects.
pub open spec fn author_handle_leaves(h: Seq<char>) -> Seq<LeafView> {
    seq![author_handle_leaf(h)]
}

/// The single order-by clause an author-handle search collects.
pub open spec fn title_orders() -> Seq<OrderView> {
    seq![title_order()]
}

/// The partial row a handle-and-messages patch writes: the new handle,
/// and the message list in its wire (key) form.
pub open spec fn user_patch(h: Seq<char>, w: ValueView) -> RowView {
    seq![("handle"@, ValueView::Text(h)), ("messages"@, w)]
}

/// The wire form of a list of messages handed over as resolved values.
pub open spec fn messages_wire(vs: Seq<MessageView>) -> Result<ValueView, Error> {
    vec_wire_value::<IMessage>(ForeignVecView::ValueOnly(vs))
}

/// The row a handle-and-messages patch stores under `k`.
pub open spec fn patched_user_row(
    rows: Seq<RowView>,
    k: Seq<char>,
    h: Seq<char>,
    w: ValueView,
) -> RowView {
    crate::model::merged_row(rows, k, user_patch(h, w))
}

impl IPost {
    /// Finds the first post carrying the tag whose title matches
    /// exactly: a contains-comparator on the tag list conjoined, left to
    /// right, with an equality on the title.
    pub fn find_by_title_and_tag(store: &Store, title: &str, tag: &str) -> (r: Result<
        Option<IPost>,
        Error,
    >)
        ensures
            match r {
                Ok(Some(p)) => crate::model::find_one_some_post::<IPost>(
                    store@,
                    IPost::table_name(),
                    title_tag_leaves(tag@, title@),
                    Seq::<OrderView>::empty(),
                    Seq::<Seq<Seq<char>>>::empty(),
                    p@,
                ),
                Ok(None) => crate::model::find_one_none_post(
                    store@,
                    IPost::table_name(),
                    title_tag_leaves(tag@, title@),
                    Seq::<OrderView>::empty(),
                    Seq::<Seq<Seq<char>>>::empty(),
                ),
                Err(e) => crate::model::find_one_err_post::<IPost>(
                    store@,
                    IPost::table_name(),
                    title_tag_leaves(tag@, title@),
                    Seq::<OrderView>::empty(),
                    Seq::<Seq<Seq<char>>>::empty(),
                    e,
                ),
            },
    {
        let reg = registry();
        proof {
            lemma_default_paths(reg.schemas@);
        }
        let c1 = match Condition::cmp(
            &reg,
            POST_SCHEMA,
            FieldPath::field(String::from_str("tags")),
            Op::Contains,
            Value::Text(String::from_str(tag)),
        ) {
            Ok(c) => c,
            Err(e) => {
                proof {
                    assert(false);
                }
                return Err(e);
            },
        };
        let c2 = match Condition::eq(
            &reg,
            POST_SCHEMA,
            FieldPath::field(String::from_str("title")),
            Value::Text(String::from_str(title)),
        ) {
            Ok(c) => c,
            Err(e) => {
                proof {
                    assert(false);
                }
                return Err(e);
            },
        };
        let cond = c1.and(c2);
        let ghost condv = cond@;
        proof {
            assert(condv =~= seq![tag_leaf(tag@), title_leaf(title@)]);
        }
        let mut injecters: Vec<Injecter> = Vec::new();
        injecters.push(Injecter::Cond(cond));
        proof {
            let injv = injs_view(injecters@);
            assert(collect(Seq::<crate::query::InjView>::empty())
                == (Seq::<LeafView>::empty(), Seq::<OrderView>::empty(), Seq::<
                Seq<Seq<char>>,
            >::empty()));
            assert(injv.len() == 1);
            assert(injv[0] == crate::query::InjView::Cond(condv));
            assert(injv.drop_last() =~= Seq::<crate::query::InjView>::empty());
            assert(collect(injv).0 =~= title_tag_leaves(tag@, title@));
            assert(collect(injv).1 =~= Seq::<OrderView>::empty());
            assert(collect(injv).2 =~= Seq::<Seq<Seq<char>>>::empty());
        }
        crate::model::find_one::<IPost>(store, injecters)
    }

    /// Finds every post whose author's handle matches, by a traversal
    /// condition through the author relationship, titles ascending.
    pub fn find_by_author_handle(store: &Store, handle: &str) -> (r: Result<Vec<IPost>, Error>)
        ensures
            match r {
                Ok(ms) => crate::model::find_ok_post::<IPost>(
                    store@,
                    IPost::table_name(),
                    author_handle_leaves(handle@),
                    title_orders(),
                    Seq::<Seq<Seq<char>>>::empty(),
                    ms@,
                ),
                Err(e) => crate::model::find_err_post::<IPost>(
                    store@,
                    IPost::table_name(),
                    author_handle_leaves(handle@),
                    title_orders(),
                    Seq::<Seq<Seq<char>>>::empty(),
                    e,
                ),
            },
    {
        let reg = registry();
        proof {
            lemma_default_paths(reg.schemas@);
        }
        let cond = match Condition::eq(
            &reg,
            POST_SCHEMA,
            FieldPath::field(String::from_str("author")).child(String::from_str("handle")),
            Value::Text(String::from_str(handle)),
        ) {
            Ok(c) => c,
            Err(e) => {
                proof {
                    assert(seq!["author"@].push("handle"@) =~= seq!["author"@, "handle"@]);
                    assert(false);
                }
                return Err(e);
            },
        };
        let ob = match OrderBy::asc(&reg, POST_SCHEMA, FieldPath::field(String::from_str("title"))) {
            Ok(o) => o,
            Err(e) => {
                proof {
                    assert(false);
                }
                return Err(e);
            },
        };
        let ghost condv = cond@;
        let ghost obv = ob@;
        proof {
            assert(seq!["author"@].push("handle"@) =~= seq!["author"@, "handle"@]);
            assert(condv =~= seq![author_handle_leaf(handle@)]);
            assert(obv == title_order());
        }
        let mut injecters: Vec<Injecter> = Vec::new();
        injecters.push(Injecter::Cond(cond));
        injecters.push(Injecter::Order(ob));
        proof {
            let injv = injs_view(injecters@);
            assert(collect(Seq::<crate::query::InjView>::empty())
                == (Seq::<LeafView>::empty(), Seq::<OrderView>::empty(), Seq::<
                Seq<Seq<char>>,
            >::empty()));
            assert(injv.len() == 2);
            assert(injv[0] == crate::query::InjView::Cond(condv));
            assert(injv[1] == crate::query::InjView::Order(obv));
            assert(injv.drop_last()[0] == injv[0]);
            assert(injv.drop_last().len() == 1);
            assert(injv.drop_last().drop_last() =~= Seq::<crate::query::InjView>::empty());
            let acc1 = collect(injv.drop_last());
            assert(acc1.0 =~= seq![author_handle_leaf(handle@)]);
            assert(acc1.1 =~= Seq::<OrderView>::empty());
            assert(acc1.2 =~= Seq::<Seq<Seq<char>>>::empty());
            assert(collect(injv).0 =~= seq![author_handle_leaf(handle@)]);
            assert(collect(injv).1 =~= seq![title_order()]);
            assert(collect(injv).2 =~= Seq::<Seq<Seq<char>>>::empty());
        }
        crate::model::find::<IPost>(store, injecters)
    }
}

impl IUser {
    /// Patches a persisted user's handle and message list in one merge.
    /// A user without an identifier is left alone and returned unchanged,
    /// with no storage call and no serialization. On a persisted user the
    /// message list is written in its wire (key) form, so every message
    /// must itself be persisted.
    pub fn update_handle_and_messages(
        self,
        store: &mut Store,
        handle: &str,
        messages: Vec<IMessage>,
    ) -> (r: Result<IUser, Error>)
        ensures
            IUser::view_id(self@) is None ==> r == Ok::<IUser, Error>(self) && *final(store)
                == *old(store),
            IUser::view_id(self@) is Some ==> (messages_wire(
                crate::foreign::vals_view(messages@),
            ) matches Err(e2) ==> r == Err::<IUser, Error>(e2) && *final(store) == *old(store)),
            match r {
                Ok(u2) => IUser::view_id(self@) matches Some(k) ==> {
                    &&& messages_wire(crate::foreign::vals_view(messages@)) matches Ok(w)
                    &&& is_valid_key(k)
                    &&& final(store)@ == crate::store::replace_row(
                        old(store)@,
                        k,
                        patched_user_row(old(store)@, k, handle@, w),
                    )
                    &&& final(store).next == old(store).next
                    &&& IUser::from_row_spec(patched_user_row(old(store)@, k, handle@, w))
                        == Ok::<UserView, Error>(u2@)
                },
                Err(e) => IUser::view_id(self@) matches Some(k) ==> messages_wire(
                    crate::foreign::vals_view(messages@),
                ) matches Ok(w) ==> {
                    &&& !is_valid_key(k) ==> e == Error::KeyDerivation && *final(store) == *old(
                        store,
                    )
                    &&& is_valid_key(k) ==> {
                        &&& final(store)@ == crate::store::replace_row(
                            old(store)@,
                            k,
                            patched_user_row(old(store)@, k, handle@, w),
                        )
                        &&& final(store).next == old(store).next
                        &&& IUser::from_row_spec(patched_user_row(old(store)@, k, handle@, w))
                            == Err::<UserView, Error>(e)
                    }
                },
            },
            (IUser::view_id(self@) matches Some(k) && (messages_wire(
                crate::foreign::vals_view(messages@),
            ) matches Ok(w) && (is_valid_key(k) && IUser::from_row_spec(
                patched_user_row(old(store)@, k, handle@, w),
            ) is Ok))) ==> r is Ok,
    {
        if self.id().is_none() {
            return Ok(self);
        }
        let mlist = ForeignVec::<IMessage>::new_value(messages);
        let mv = match mlist.to_value() {
            Ok(mv) => mv,
            Err(e) => {
                return Err(e);
            },
        };
        let mut partial = Row::new();
        partial.push_field(String::from_str("handle"), Value::Text(String::from_str(handle)));
        partial.push_field(String::from_str("messages"), mv);
        proof {
            assert(partial@ =~= user_patch(
                handle@,
                messages_wire(crate::foreign::vals_view(messages@))->Ok_0,
            ));
        }
        crate::model::merge::<IUser>(store, self, &partial)
    }
}

/// A find without a fetch directive leaves relationships as keys: any
/// returned user whose stored `messages` field is an array of bare keys
/// holds a key-only list with exactly those keys, in order — its
/// resolved value is absent, the observable sign that no fetch was
/// requested.
pub proof fn lemma_user_unfetched_messages(r: RowView, items: Seq<ValueView>, u: UserView)
    requires
        vget(r, "messages"@) == Some(ValueView::Arr(items)),
        crate::foreign::all_bare_keys(items),
        IUser::from_row_spec(r) == Ok::<UserView, Error>(u),
    ensures
        u.messages == ForeignVecView::<MessageView>::KeyOnly(crate::foreign::bare_keys(items)),
        crate::foreign::foreign_vec_values(u.messages) is None,
        crate::foreign::foreign_vec_keys(u.messages) == Some(crate::foreign::bare_keys(items)),
{
}

/// The fetch round trip through a find: when a stored user's `messages`
/// field holds keys that each name a stored message row that
/// deserializes, the user read back from the row with that field
/// fetched holds a resolved list whose values match the persisted
/// messages, element for element.
pub proof fn lemma_user_fetched_messages(
    rows: Seq<RowView>,
    r: RowView,
    items: Seq<ValueView>,
    u: UserView,
)
    requires
        vget(r, "messages"@) == Some(ValueView::Arr(items)),
        items.len() >= 1,
        forall|i: int|
            0 <= i < items.len() ==> (#[trigger] items[i]) is Text && crate::store::lookup(
                rows,
                items[i]->Text_0,
            ) is Some,
        forall|i: int|
            0 <= i < items.len() ==> (#[trigger] IMessage::from_row_spec(
                crate::store::lookup(rows, items[i]->Text_0)->0,
            )) is Ok,
        IUser::from_row_spec(
            crate::store::fetch_row(rows, r, seq!["messages"@], 0),
        ) == Ok::<UserView, Error>(u),
    ensures
        crate::foreign::foreign_vec_values(u.messages) matches Some(vs) && vs.len()
            == items.len() && forall|i: int|
            0 <= i < items.len() ==> vs[i] == IMessage::from_row_spec(
                #[trigger] crate::store::lookup(rows, items[i]->Text_0)->0,
            )->Ok_0,
{
    crate::store::lemma_fetch_list(rows, r, "messages"@, items);
    crate::value::lemma_vset_get(
        r,
        "messages"@,
        ValueView::Arr(crate::store::fetch_elems(rows, items)),
    );
    crate::foreign::lemma_foreign_vec_fetch_round_trip::<IMessage>(rows, items);
}

} // verus!
