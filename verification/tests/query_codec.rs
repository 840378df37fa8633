use surreal_odm::errors::Error;
use surreal_odm::foreign::Foreign;
use surreal_odm::foreign::ForeignVec;
use surreal_odm::id::Id;
use surreal_odm::model;
use surreal_odm::models::registry;
use surreal_odm::models::IMessage;
use surreal_odm::models::IUser;
use surreal_odm::models::MESSAGE_SCHEMA;
use surreal_odm::models::USER_SCHEMA;
use surreal_odm::query::Condition;
use surreal_odm::query::Fetch;
use surreal_odm::query::Injecter;
use surreal_odm::query::Op;
use surreal_odm::query::OrderBy;
use surreal_odm::query::QueryPlan;
use surreal_odm::schema::FieldPath;
use surreal_odm::store::Store;
use surreal_odm::value::Value;

#[test]
fn p3_foreign_reference_round_trip_keeps_the_key() {
    let f: Foreign<IUser> = Foreign::new_key(Id::new("User:7".to_string()));
    let wire = f.to_value().unwrap();
    let back: Foreign<IUser> = Foreign::from_value(&wire).unwrap();
    assert_eq!(back.key().unwrap().as_str(), "User:7");
    assert!(back.value().is_none());
}

#[test]
fn p3_foreign_collection_round_trip_keeps_the_keys() {
    let f: ForeignVec<IMessage> = ForeignVec::new_keys(vec![
        Id::new("Message:0".to_string()),
        Id::new("Message:1".to_string()),
    ]);
    let wire = f.to_value().unwrap();
    let back: ForeignVec<IMessage> = ForeignVec::from_value(&wire).unwrap();
    let keys = back.keys().unwrap();
    assert_eq!(keys.len(), 2);
    assert_eq!(keys[0].as_str(), "Message:0");
    assert_eq!(keys[1].as_str(), "Message:1");
    assert!(back.value().is_none());
}

#[test]
fn unpersisted_reference_does_not_serialize() {
    let user = IUser {
        id: None,
        handle: "ghost".to_string(),
        messages: ForeignVec::new_keys(Vec::new()),
    };
    let f: Foreign<IUser> = Foreign::new_value(user);
    assert_eq!(f.to_value(), Err(Error::KeyDerivation));
}

#[test]
fn malformed_key_is_a_key_derivation_error() {
    assert_eq!(Id::new("nocolon".to_string()).to_value(), Err(Error::KeyDerivation));
    assert_eq!(Id::new(":rec".to_string()).to_value(), Err(Error::KeyDerivation));
    assert_eq!(Id::new("table:".to_string()).to_value(), Err(Error::KeyDerivation));
    assert!(Id::new("table:rec".to_string()).to_value().is_ok());
}

#[test]
fn wrong_wire_shape_is_a_deserialization_error() {
    assert_eq!(Id::from_value(&Value::Int(3)), Err(Error::Deserialization));
    let f: Result<Foreign<IUser>, Error> = Foreign::from_value(&Value::Bool(true));
    assert_eq!(f.err(), Some(Error::Deserialization));
}

#[test]
fn unknown_field_is_a_field_path_error() {
    let reg = registry();
    let c = Condition::eq(
        &reg,
        USER_SCHEMA,
        FieldPath::field("nope".to_string()),
        Value::Text("x".to_string()),
    );
    assert!(matches!(c, Err(Error::FieldPath)));
    let o = OrderBy::asc(&reg, USER_SCHEMA, FieldPath::field("nope".to_string()));
    assert!(matches!(o, Err(Error::FieldPath)));
    let f = Fetch::new().add(&reg, USER_SCHEMA, FieldPath::field("handle".to_string()));
    assert!(f.is_ok());
}

#[test]
fn assembler_renders_template_and_unique_bindings() {
    let reg = registry();
    let c1 = Condition::eq(
        &reg,
        USER_SCHEMA,
        FieldPath::field("handle".to_string()),
        Value::Text("John-Doe".to_string()),
    )
    .unwrap();
    let c2 = Condition::cmp(
        &reg,
        USER_SCHEMA,
        FieldPath::field("handle".to_string()),
        Op::Gt,
        Value::Text("A".to_string()),
    )
    .unwrap();
    let cond = c1.and(c2);
    let ob = OrderBy::asc(&reg, USER_SCHEMA, FieldPath::field("handle".to_string())).unwrap();
    let fetch = Fetch::new()
        .add(&reg, USER_SCHEMA, FieldPath::field("messages".to_string()))
        .unwrap();
    let plan = QueryPlan::build(
        "User".to_string(),
        vec![Injecter::Cond(cond), Injecter::Order(ob), Injecter::Fetch(fetch)],
    );
    let (query, bindings) = plan.assemble();
    assert_eq!(
        query,
        "SELECT * FROM User WHERE handle = $v0 AND handle > $v1 ORDER BY handle ASC FETCH messages"
    );
    assert_eq!(bindings.len(), 2);
    assert_eq!(bindings[0].0, "v0");
    assert_eq!(bindings[0].1, Value::Text("John-Doe".to_string()));
    assert_eq!(bindings[1].0, "v1");
    assert_eq!(bindings[1].1, Value::Text("A".to_string()));
}

#[test]
fn assembler_renders_traversal_and_contains() {
    let reg = registry();
    let c = Condition::cmp(
        &reg,
        surreal_odm::models::POST_SCHEMA,
        FieldPath::field("tags".to_string()),
        Op::Contains,
        Value::Text("first".to_string()),
    )
    .unwrap();
    let c2 = Condition::eq(
        &reg,
        surreal_odm::models::POST_SCHEMA,
        FieldPath::field("author".to_string()).child("handle".to_string()),
        Value::Text("John-Doe".to_string()),
    )
    .unwrap();
    let ob = OrderBy::desc(
        &reg,
        surreal_odm::models::POST_SCHEMA,
        FieldPath::field("title".to_string()),
    )
    .unwrap();
    let plan = QueryPlan::build(
        "Post".to_string(),
        vec![Injecter::Cond(c.and(c2)), Injecter::Order(ob)],
    );
    let (query, bindings) = plan.assemble();
    assert_eq!(
        query,
        "SELECT * FROM Post WHERE tags CONTAINS $v0 AND author.handle = $v1 ORDER BY title DESC"
    );
    assert_eq!(bindings.len(), 2);
}

#[test]
fn empty_injecters_render_an_unconditional_query() {
    let plan = QueryPlan::build("Message".to_string(), Vec::new());
    let (query, bindings) = plan.assemble();
    assert_eq!(query, "SELECT * FROM Message");
    assert!(bindings.is_empty());

    let plan = QueryPlan::build(
        "Message".to_string(),
        vec![Injecter::Cond(Condition::empty())],
    );
    let (query, bindings) = plan.assemble();
    assert_eq!(query, "SELECT * FROM Message");
    assert!(bindings.is_empty());
}

#[test]
fn greater_than_compares_text_lexicographically() {
    let mut store = Store::new();
    model::create(&mut store, IMessage::from_text("apple".to_string())).unwrap();
    model::create(&mut store, IMessage::from_text("cherry".to_string())).unwrap();
    let reg = registry();
    let c = Condition::cmp(
        &reg,
        MESSAGE_SCHEMA,
        FieldPath::field("text".to_string()),
        Op::Gt,
        Value::Text("banana".to_string()),
    )
    .unwrap();
    let found: Vec<IMessage> = model::find(&store, vec![Injecter::Cond(c)]).unwrap();
    assert_eq!(found.len(), 1);
    assert_eq!(found[0].text, "cherry");
}

#[test]
fn a_condition_tree_is_reusable_across_executions() {
    let mut store = Store::new();
    model::create(&mut store, IMessage::from_text("apple".to_string())).unwrap();
    model::create(&mut store, IMessage::from_text("cherry".to_string())).unwrap();
    let reg = registry();
    let cond = Condition::eq(
        &reg,
        MESSAGE_SCHEMA,
        FieldPath::field("text".to_string()),
        Value::Text("apple".to_string()),
    )
    .unwrap();
    let first: Vec<IMessage> = model::find(&store, vec![Injecter::Cond(cond.clone())]).unwrap();
    let second: Vec<IMessage> = model::find(&store, vec![Injecter::Cond(cond)]).unwrap();
    assert_eq!(first.len(), 1);
    assert_eq!(second.len(), 1);
    assert_eq!(first[0].text, second[0].text);
}

#[test]
fn add_appends_to_array_fields_and_text_fields() {
    let mut store = Store::new();
    let msg = model::create(&mut store, IMessage::from_text("Hello".to_string())).unwrap();
    model::add(&mut store, &msg, "text", Value::Text(" World".to_string())).unwrap();
    let key = msg.id.as_ref().unwrap();
    let after: IMessage = model::read(&store, key).unwrap().unwrap();
    assert_eq!(after.text, "Hello World");

    model::add(&mut store, &msg, "labels", Value::Text("misc".to_string())).unwrap();
    let row = store.read(key).unwrap();
    match row.get("labels") {
        Some(Value::Arr(items)) => assert_eq!(items.len(), 1),
        other => panic!("labels should be an array, got {other:?}"),
    }

    let unsaved = IMessage::from_text("floating".to_string());
    model::add(&mut store, &unsaved, "text", Value::Text("x".to_string())).unwrap();
    assert_eq!(store.rows.len(), 1);
}
