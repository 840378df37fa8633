use surreal_odm::foreign::Foreign;
use surreal_odm::foreign::ForeignVec;
use surreal_odm::model;
use surreal_odm::models::IMessage;
use surreal_odm::models::IPost;
use surreal_odm::models::IUser;
use surreal_odm::models::UserParam;
use surreal_odm::store::Store;

fn example_post(store: &mut Store, author: &IUser, title: &str, extra_tag: &str) -> IPost {
    let post = IPost {
        id: None,
        author: Foreign::new_key(author.id.as_ref().unwrap().clone()),
        title: title.to_string(),
        body: "Lorem ipsum dolor sit amet consectitur".to_string(),
        tags: vec![
            "example".to_string(),
            "post".to_string(),
            extra_tag.to_string(),
        ],
    };
    model::create(store, post).unwrap()
}

#[test]
fn p7_fetch_inlines_messages_and_delete_removes_user() {
    let mut store = Store::new();
    let m0 = model::create(&mut store, IMessage::from_text("Hello".to_string())).unwrap();
    let m1 = model::create(&mut store, IMessage::from_text("World!".to_string())).unwrap();
    let created = model::create(
        &mut store,
        IUser {
            id: None,
            handle: "John-Doe".to_string(),
            messages: ForeignVec::new_value(vec![m0, m1]),
        },
    )
    .unwrap();

    let found = IUser::find_by_handle(&store, "John-Doe", UserParam::FetchMessages)
        .unwrap()
        .unwrap();
    assert_eq!(
        found.id.as_ref().unwrap().as_str(),
        created.id.as_ref().unwrap().as_str()
    );
    let messages = found.messages.value().expect("messages were fetched");
    assert_eq!(messages[0].text, "Hello");
    assert_eq!(messages[1].text, "World!");

    model::delete(&mut store, &found).unwrap();
    let gone = IUser::find_by_handle(&store, "John-Doe", UserParam::Plain).unwrap();
    assert!(gone.is_none());
}

#[test]
fn p4_without_fetch_messages_stay_keys() {
    let mut store = Store::new();
    let m0 = model::create(&mut store, IMessage::from_text("Hello".to_string())).unwrap();
    let key = m0.id.as_ref().unwrap().clone();
    model::create(
        &mut store,
        IUser {
            id: None,
            handle: "John-Doe".to_string(),
            messages: ForeignVec::new_value(vec![m0]),
        },
    )
    .unwrap();
    let plain = IUser::find_by_handle(&store, "John-Doe", UserParam::Plain)
        .unwrap()
        .unwrap();
    assert!(plain.messages.value().is_none());
    let keys = plain.messages.keys().expect("keys kept");
    assert_eq!(keys[0].as_str(), key.as_str());
}

#[test]
fn p5_traversal_selects_exactly_matching_authors() {
    let mut store = Store::new();
    let john = model::create(
        &mut store,
        IUser {
            id: None,
            handle: "John-Doe".to_string(),
            messages: ForeignVec::new_keys(Vec::new()),
        },
    )
    .unwrap();
    let jane = model::create(
        &mut store,
        IUser {
            id: None,
            handle: "Jane-Roe".to_string(),
            messages: ForeignVec::new_keys(Vec::new()),
        },
    )
    .unwrap();
    let p0 = example_post(&mut store, &john, "0: This is an example post", "first");
    let p1 = example_post(&mut store, &john, "1: This is another example post", "second");
    example_post(&mut store, &jane, "2: Unrelated", "third");

    let johns = IPost::find_by_author_handle(&store, "John-Doe").unwrap();
    assert_eq!(johns.len(), 2);
    assert_eq!(
        johns[0].id.as_ref().unwrap().as_str(),
        p0.id.as_ref().unwrap().as_str()
    );
    assert_eq!(
        johns[1].id.as_ref().unwrap().as_str(),
        p1.id.as_ref().unwrap().as_str()
    );
}

#[test]
fn p6_order_by_title_is_non_decreasing() {
    let mut store = Store::new();
    let john = model::create(
        &mut store,
        IUser {
            id: None,
            handle: "John-Doe".to_string(),
            messages: ForeignVec::new_keys(Vec::new()),
        },
    )
    .unwrap();
    example_post(&mut store, &john, "2: last", "a");
    example_post(&mut store, &john, "0: first", "b");
    example_post(&mut store, &john, "1: middle", "c");
    let posts = IPost::find_by_author_handle(&store, "John-Doe").unwrap();
    assert_eq!(posts.len(), 3);
    assert_eq!(posts[0].title, "0: first");
    assert_eq!(posts[1].title, "1: middle");
    assert_eq!(posts[2].title, "2: last");
}

#[test]
fn p8_contains_and_title_selects_the_one_matching_post() {
    let mut store = Store::new();
    let john = model::create(
        &mut store,
        IUser {
            id: None,
            handle: "John-Doe".to_string(),
            messages: ForeignVec::new_keys(Vec::new()),
        },
    )
    .unwrap();
    example_post(&mut store, &john, "0: This is an example post", "first");
    let p1 = example_post(&mut store, &john, "1: This is another example post", "second");

    let found = IPost::find_by_title_and_tag(&store, "1: This is another example post", "second")
        .unwrap()
        .unwrap();
    assert_eq!(
        found.id.as_ref().unwrap().as_str(),
        p1.id.as_ref().unwrap().as_str()
    );

    let title_without_tag =
        IPost::find_by_title_and_tag(&store, "1: This is another example post", "first").unwrap();
    assert!(title_without_tag.is_none());

    let tag_without_title = IPost::find_by_title_and_tag(&store, "no such title", "second").unwrap();
    assert!(tag_without_title.is_none());
}

#[test]
fn empty_condition_selects_every_row_of_the_table() {
    let mut store = Store::new();
    model::create(&mut store, IMessage::from_text("a".to_string())).unwrap();
    model::create(&mut store, IMessage::from_text("b".to_string())).unwrap();
    let all: Vec<IMessage> = model::find(&store, Vec::new()).unwrap();
    assert_eq!(all.len(), 2);
}
