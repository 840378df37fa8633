use surreal_odm::errors::Error;
use surreal_odm::id::Id;
use surreal_odm::model;
use surreal_odm::models::IMessage;
use surreal_odm::models::IUser;
use surreal_odm::models::UserParam;
use surreal_odm::foreign::ForeignVec;
use surreal_odm::store::Store;
use surreal_odm::value::Row;
use surreal_odm::value::Value;

fn persisted_user(store: &mut Store, handle: &str) -> IUser {
    let user = IUser {
        id: None,
        handle: handle.to_string(),
        messages: ForeignVec::new_keys(Vec::new()),
    };
    model::create(store, user).unwrap()
}

#[test]
fn create_assigns_fresh_identifier() {
    let mut store = Store::new();
    let m0 = model::create(&mut store, IMessage::from_text("Hello".to_string())).unwrap();
    let m1 = model::create(&mut store, IMessage::from_text("World!".to_string())).unwrap();
    assert_eq!(m0.id.as_ref().unwrap().as_str(), "Message:0");
    assert_eq!(m1.id.as_ref().unwrap().as_str(), "Message:1");
    assert_eq!(m0.text, "Hello");
    assert_eq!(store.rows.len(), 2);
}

#[test]
fn p1_delete_then_find_by_key_is_absent() {
    let mut store = Store::new();
    let user = persisted_user(&mut store, "John-Doe");
    let key = user.id.as_ref().unwrap().clone();
    model::delete(&mut store, &user).unwrap();
    let by_key: Option<IUser> = model::read(&store, &key).unwrap();
    assert!(by_key.is_none());
    let found = IUser::find_by_handle(&store, "John-Doe", UserParam::Plain).unwrap();
    assert!(found.is_none());
    assert_eq!(store.rows.len(), 0);
}

#[test]
fn p2_update_without_identifier_is_a_noop() {
    let mut store = Store::new();
    let user = IUser {
        id: None,
        handle: "ghost".to_string(),
        messages: ForeignVec::new_keys(Vec::new()),
    };
    let back = model::update(&mut store, user).unwrap();
    assert!(back.id.is_none());
    assert_eq!(back.handle, "ghost");
    assert_eq!(store.rows.len(), 0);
}

#[test]
fn p2_merge_without_identifier_is_a_noop() {
    let mut store = Store::new();
    let user = IUser {
        id: None,
        handle: "ghost".to_string(),
        messages: ForeignVec::new_keys(Vec::new()),
    };
    let partial = Row::new();
    let back = model::merge(&mut store, user, &partial).unwrap();
    assert!(back.id.is_none());
    assert_eq!(back.handle, "ghost");
    assert_eq!(store.rows.len(), 0);
}

#[test]
fn p2_delete_without_identifier_is_a_noop() {
    let mut store = Store::new();
    persisted_user(&mut store, "keeper");
    let user = IUser {
        id: None,
        handle: "ghost".to_string(),
        messages: ForeignVec::new_keys(Vec::new()),
    };
    model::delete(&mut store, &user).unwrap();
    assert_eq!(store.rows.len(), 1);
}

#[test]
fn merge_patches_only_named_fields() {
    let mut store = Store::new();
    let user = persisted_user(&mut store, "before");
    let mut partial = Row::new();
    partial.push_field("handle".to_string(), Value::Text("after".to_string()));
    let merged = model::merge(&mut store, user, &partial).unwrap();
    assert_eq!(merged.handle, "after");
    assert!(merged.id.is_some());
}

#[test]
fn update_replaces_record_whole() {
    let mut store = Store::new();
    let mut user = persisted_user(&mut store, "before");
    user.handle = "Foo-Bar".to_string();
    let updated = model::update(&mut store, user).unwrap();
    assert_eq!(updated.handle, "Foo-Bar");
    let found = IUser::find_by_handle(&store, "Foo-Bar", UserParam::Plain).unwrap();
    assert!(found.is_some());
    let gone = IUser::find_by_handle(&store, "before", UserParam::Plain).unwrap();
    assert!(gone.is_none());
}

#[test]
fn update_handle_and_messages_keeps_identifier() {
    let mut store = Store::new();
    let m0 = model::create(&mut store, IMessage::from_text("Hello".to_string())).unwrap();
    let m1 = model::create(&mut store, IMessage::from_text("World!".to_string())).unwrap();
    let m2 = model::create(&mut store, IMessage::from_text("Bonjour".to_string())).unwrap();
    let m3 = model::create(&mut store, IMessage::from_text("Le monde !".to_string())).unwrap();
    let user = IUser {
        id: None,
        handle: "John-Doe".to_string(),
        messages: ForeignVec::new_value(vec![m0, m1]),
    };
    let created = model::create(&mut store, user).unwrap();
    let original_id = created.id.as_ref().unwrap().clone();
    let updated = created
        .update_handle_and_messages(&mut store, "Jean-Dupont", vec![m2, m3])
        .unwrap();
    assert_eq!(updated.id.as_ref().unwrap().as_str(), original_id.as_str());
    assert_eq!(updated.handle, "Jean-Dupont");
}

#[test]
fn p2_update_handle_and_messages_without_identifier_is_a_noop() {
    let mut store = Store::new();
    let user = IUser {
        id: None,
        handle: "ghost".to_string(),
        messages: ForeignVec::new_keys(Vec::new()),
    };
    let unsaved_message = IMessage::from_text("floating".to_string());
    let back = user
        .update_handle_and_messages(&mut store, "renamed", vec![unsaved_message])
        .unwrap();
    assert!(back.id.is_none());
    assert_eq!(back.handle, "ghost");
    assert_eq!(store.rows.len(), 0);
}

#[test]
fn keyed_operation_with_malformed_key_is_refused() {
    let mut store = Store::new();
    let bad = Id::new("nocolon".to_string());
    assert_eq!(store.delete(&bad), Err(Error::KeyDerivation));
}

#[test]
fn create_with_unusable_table_name_is_refused() {
    let mut store = Store::new();
    let row = Row::new();
    assert!(matches!(store.create("has:colon", row), Err(Error::Storage)));
    let row = Row::new();
    assert!(matches!(store.create("", row), Err(Error::Storage)));
}
