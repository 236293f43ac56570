use bohongan::json::Json;
use bohongan::merge::{merge_resource, merge_sources};
use bohongan::proto::ProtoLoader;
use bohongan::routes::home_document;
use bohongan::store::ResourceStore;

fn jstr(v: &str) -> Json {
    Json::Str(v.to_string())
}

fn jint(v: i64) -> Json {
    Json::Int(v)
}

fn obj(fields: Vec<(&str, Json)>) -> Json {
    Json::Obj(fields.into_iter().map(|(k, v)| (k.to_string(), v)).collect())
}

fn arr(items: Vec<Json>) -> Json {
    Json::Arr(items)
}

fn field<'a>(item: &'a Json, key: &str) -> Option<&'a Json> {
    if let Json::Obj(fields) = item {
        fields.iter().find(|(k, _)| k == key).map(|(_, v)| v)
    } else {
        None
    }
}

fn items_of(value: &Json) -> &Vec<Json> {
    if let Json::Arr(items) = value {
        items
    } else {
        panic!("expected a collection");
    }
}

fn test_store() -> ResourceStore {
    let mut data: Vec<(String, Json)> = Vec::new();
    data.push((
        "posts".to_string(),
        arr(vec![
            obj(vec![
                ("id", jint(1)),
                ("title", jstr("Test Post 1")),
                ("author", jstr("Test Author 1")),
            ]),
            obj(vec![
                ("id", jint(2)),
                ("title", jstr("Test Post 2")),
                ("author", jstr("Test Author 2")),
            ]),
        ]),
    ));
    data.push((
        "comments".to_string(),
        arr(vec![
            obj(vec![
                ("id", jint(1)),
                ("postId", jint(1)),
                ("body", jstr("Test Comment 1")),
                ("author", jstr("Test Commenter 1")),
            ]),
            obj(vec![
                ("id", jint(2)),
                ("postId", jint(1)),
                ("body", jstr("Test Comment 2")),
                ("author", jstr("Test Commenter 2")),
            ]),
        ]),
    ));
    data.push((
        "profile".to_string(),
        obj(vec![
            ("id", jint(1)),
            ("name", jstr("Test Profile")),
            ("bio", jstr("Test Bio")),
        ]),
    ));
    ResourceStore::new(data)
}

#[test]
fn test_merge_resource() {
    let mut existing = arr(vec![
        obj(vec![("id", jint(1)), ("name", jstr("Item 1"))]),
        obj(vec![("id", jint(2)), ("name", jstr("Item 2"))]),
        jstr("non-map item"),
    ]);

    let new = arr(vec![
        obj(vec![("id", jint(2)), ("name", jstr("Updated Item 2"))]),
        obj(vec![("id", jint(3)), ("name", jstr("Item 3"))]),
        obj(vec![("no_id", Json::Bool(true))]),
    ]);

    merge_resource(&mut existing, new);

    let items = items_of(&existing);
    assert_eq!(items.len(), 5);

    let item2 = items
        .iter()
        .find(|item| field(item, "id") == Some(&jint(2)))
        .unwrap();
    assert_eq!(field(item2, "name"), Some(&jstr("Updated Item 2")));

    assert!(items.iter().any(|item| field(item, "id") == Some(&jint(1))));
    assert!(items.iter().any(|item| field(item, "id") == Some(&jint(3))));
    assert!(items.iter().any(|item| *item == jstr("non-map item")));
    assert!(items.iter().any(|item| field(item, "no_id").is_some()));
}

#[test]
fn test_process_json_files() {
    let doc1: Vec<(String, Json)> = vec![(
        "users".to_string(),
        arr(vec![
            obj(vec![("id", jint(1)), ("name", jstr("User 1"))]),
            obj(vec![("id", jint(2)), ("name", jstr("User 2"))]),
        ]),
    )];
    let doc2: Vec<(String, Json)> = vec![
        (
            "users".to_string(),
            arr(vec![
                obj(vec![("id", jint(2)), ("name", jstr("Updated User 2"))]),
                obj(vec![("id", jint(3)), ("name", jstr("User 3"))]),
            ]),
        ),
        (
            "posts".to_string(),
            arr(vec![obj(vec![("id", jint(1)), ("title", jstr("Post 1"))])]),
        ),
    ];

    let result = merge_sources(vec![doc1, doc2]);

    assert!(result.iter().any(|(k, _)| k == "users"));
    assert!(result.iter().any(|(k, _)| k == "posts"));

    let users = items_of(&result.iter().find(|(k, _)| k == "users").unwrap().1);
    assert_eq!(users.len(), 3);

    let user2 = users
        .iter()
        .find(|user| field(user, "id") == Some(&jint(2)))
        .unwrap();
    assert_eq!(field(user2, "name"), Some(&jstr("Updated User 2")));
}

#[test]
fn test_merge_example_positions() {
    // two sources for one resource: the overwritten item keeps its
    // position, the unmatched one appends
    let mut users = arr(vec![
        obj(vec![("id", jint(1)), ("name", jstr("A"))]),
        obj(vec![("id", jint(2)), ("name", jstr("B"))]),
    ]);
    let incoming = arr(vec![
        obj(vec![("id", jint(2)), ("name", jstr("B2"))]),
        obj(vec![("id", jint(3)), ("name", jstr("C"))]),
    ]);
    merge_resource(&mut users, incoming);
    let expected = arr(vec![
        obj(vec![("id", jint(1)), ("name", jstr("A"))]),
        obj(vec![("id", jint(2)), ("name", jstr("B2"))]),
        obj(vec![("id", jint(3)), ("name", jstr("C"))]),
    ]);
    assert_eq!(users, expected);
}

#[test]
fn test_merge_idempotent() {
    // merging data into an accumulator already equal to it changes nothing
    let source = arr(vec![
        obj(vec![("id", jint(1)), ("name", jstr("A"))]),
        obj(vec![("id", jint(2)), ("name", jstr("B"))]),
    ]);
    let mut acc = source.clone();
    merge_resource(&mut acc, source.clone());
    assert_eq!(acc, source);
    // and a second time
    merge_resource(&mut acc, source.clone());
    assert_eq!(acc, source);
}

#[test]
fn test_merge_type_mismatch_replaces() {
    let mut existing = obj(vec![("id", jint(1))]);
    merge_resource(&mut existing, arr(vec![jint(1), jint(2)]));
    assert_eq!(existing, arr(vec![jint(1), jint(2)]));

    let mut existing = arr(vec![jint(1)]);
    merge_resource(&mut existing, jstr("scalar"));
    assert_eq!(existing, jstr("scalar"));
}

#[test]
fn test_create_assigns_increasing_ids() {
    let store = &mut test_store();
    let first = store.create_item("posts", obj(vec![("title", jstr("P3"))]));
    let second = store.create_item("posts", obj(vec![("title", jstr("P4"))]));
    let third = store.create_item("posts", obj(vec![("title", jstr("P5"))]));
    assert_eq!(field(&first, "id"), Some(&jint(3)));
    assert_eq!(field(&second, "id"), Some(&jint(4)));
    assert_eq!(field(&third, "id"), Some(&jint(5)));
}

#[test]
fn test_create_on_max_id_two_yields_three() {
    // a resource whose largest id is 2 hands out 3 next
    let store = &mut test_store();
    let created = store.create_item("posts", obj(vec![("title", jstr("New"))]));
    assert_eq!(field(&created, "id"), Some(&jint(3)));
    assert_eq!(field(&created, "title"), Some(&jstr("New")));
    if let Json::Obj(fields) = &created {
        assert_eq!(fields.len(), 2);
    } else {
        panic!("created item is not an object");
    }
}

#[test]
fn test_create_item_overwrites_client_id() {
    let store = &mut test_store();
    let created = store.create_item("posts", obj(vec![("id", jint(999)), ("title", jstr("New Post"))]));
    assert_eq!(field(&created, "id"), Some(&jint(3)));
}

#[test]
fn test_create_item_behaviour() {
    let store = &mut test_store();
    let created = store.create_item(
        "posts",
        obj(vec![("title", jstr("New Post")), ("author", jstr("New Author"))]),
    );
    assert!(matches!(field(&created, "id"), Some(Json::Int(_))));
    assert_eq!(field(&created, "title"), Some(&jstr("New Post")));
    assert_eq!(field(&created, "author"), Some(&jstr("New Author")));
    let posts = store.get_collection("posts").unwrap();
    assert_eq!(items_of(&posts).len(), 3);
}

#[test]
fn test_create_on_absent_resource_starts_at_one() {
    let store = &mut ResourceStore::new(Vec::new());
    let created = store.create_item("things", obj(vec![("name", jstr("first"))]));
    assert_eq!(field(&created, "id"), Some(&jint(1)));
    let things = store.get_collection("things").unwrap();
    assert_eq!(items_of(&things).len(), 1);
}

#[test]
fn test_get_item_after_create() {
    let store = &mut test_store();
    let created = store.create_item("posts", obj(vec![("title", jstr("New Post"))]));
    let fetched = store.get_item("posts", "3").unwrap();
    assert_eq!(fetched, created);
}

#[test]
fn test_get_item_behaviour() {
    let store = test_store();
    let item = store.get_item("posts", "1").unwrap();
    assert_eq!(field(&item, "id"), Some(&jint(1)));
    assert_eq!(field(&item, "title"), Some(&jstr("Test Post 1")));
    assert!(store.get_item("posts", "999").is_none());
    assert!(store.get_item("missing", "1").is_none());
}

#[test]
fn test_get_item_matches_by_string_form() {
    let mut data: Vec<(String, Json)> = Vec::new();
    data.push((
        "things".to_string(),
        arr(vec![
            obj(vec![("id", jstr("abc")), ("kind", jstr("text"))]),
            obj(vec![("id", jint(-5)), ("kind", jstr("negative"))]),
            obj(vec![("kind", jstr("no id"))]),
        ]),
    ));
    let store = ResourceStore::new(data);
    let by_text = store.get_item("things", "abc").unwrap();
    assert_eq!(field(&by_text, "kind"), Some(&jstr("text")));
    let negative = store.get_item("things", "-5").unwrap();
    assert_eq!(field(&negative, "kind"), Some(&jstr("negative")));
    assert!(store.get_item("things", "no id").is_none());
}

#[test]
fn test_get_collection_behaviour() {
    let store = test_store();
    let posts = store.get_collection("posts").unwrap();
    assert_eq!(items_of(&posts).len(), 2);
    assert!(store.get_collection("missing").is_none());
}

#[test]
fn test_get_resources_names() {
    let store = test_store();
    let resources = store.get_resources();
    assert_eq!(resources.len(), 3);
    assert!(resources.iter().any(|r| r == "posts"));
    assert!(resources.iter().any(|r| r == "comments"));
    assert!(resources.iter().any(|r| r == "profile"));
}

#[test]
fn test_update_item_behaviour() {
    let store = &mut test_store();
    let updated = store
        .update_item("posts", "1", obj(vec![("id", jint(42)), ("title", jstr("Updated Title"))]))
        .unwrap();
    // the stored id never takes the patch's value; the patched key is set;
    // unmentioned keys are unchanged
    assert_eq!(field(&updated, "id"), Some(&jint(1)));
    assert_eq!(field(&updated, "title"), Some(&jstr("Updated Title")));
    assert_eq!(field(&updated, "author"), Some(&jstr("Test Author 1")));
    let fetched = store.get_item("posts", "1").unwrap();
    assert_eq!(fetched, updated);
    assert!(store.update_item("posts", "999", obj(vec![("title", jstr("x"))])).is_none());
}

#[test]
fn test_update_adds_new_key() {
    let store = &mut test_store();
    let updated = store
        .update_item("posts", "2", obj(vec![("flag", Json::Bool(true))]))
        .unwrap();
    assert_eq!(field(&updated, "flag"), Some(&Json::Bool(true)));
    assert_eq!(field(&updated, "title"), Some(&jstr("Test Post 2")));
}

#[test]
fn test_update_singleton() {
    let store = &mut test_store();
    let updated = store
        .update_item("profile", "1", obj(vec![("bio", jstr("New Bio"))]))
        .unwrap();
    assert_eq!(field(&updated, "bio"), Some(&jstr("New Bio")));
    assert_eq!(field(&updated, "id"), Some(&jint(1)));
    assert_eq!(field(&updated, "name"), Some(&jstr("Test Profile")));
}

#[test]
fn test_delete_item_behaviour() {
    let store = &mut test_store();
    assert!(store.delete_item("posts", "1"));
    assert!(store.get_item("posts", "1").is_none());
    assert!(!store.delete_item("posts", "1"));
    assert!(!store.delete_item("posts", "999"));
    let posts = store.get_collection("posts").unwrap();
    assert_eq!(items_of(&posts).len(), 1);
}

#[test]
fn test_delete_singleton_keeps_resource() {
    let store = &mut test_store();
    assert!(store.delete_item("profile", "1"));
    // the resource name stays, holding an empty object
    let profile = store.get_collection("profile").unwrap();
    assert_eq!(profile, obj(vec![]));
    assert!(!store.delete_item("profile", "1"));
    assert!(store.get_item("profile", "1").is_none());
}

#[test]
fn test_singleton_promotes_to_collection() {
    // a singleton receiving a create becomes a collection: the old value
    // first, the new item second, with the counter seeded past the old id
    let mut data: Vec<(String, Json)> = Vec::new();
    data.push(("profile".to_string(), obj(vec![("id", jint(1)), ("bio", jstr("x"))])));
    let store = &mut ResourceStore::new(data);
    let created = store.create_item("profile", obj(vec![("bio", jstr("y"))]));
    assert_eq!(field(&created, "id"), Some(&jint(2)));
    let profile = store.get_collection("profile").unwrap();
    let expected = arr(vec![
        obj(vec![("id", jint(1)), ("bio", jstr("x"))]),
        obj(vec![("bio", jstr("y")), ("id", jint(2))]),
    ]);
    assert_eq!(profile, expected);
}

#[test]
fn test_create_on_scalar_resource_promotes() {
    let mut data: Vec<(String, Json)> = Vec::new();
    data.push(("version".to_string(), jstr("1.0")));
    let store = &mut ResourceStore::new(data);
    assert!(store.get_item("version", "1").is_none());
    let created = store.create_item("version", obj(vec![("note", jstr("n"))]));
    assert_eq!(field(&created, "id"), Some(&jint(1)));
    let value = store.get_collection("version").unwrap();
    assert_eq!(
        value,
        arr(vec![jstr("1.0"), obj(vec![("note", jstr("n")), ("id", jint(1))])])
    );
}

#[test]
fn test_home_document_structure() {
    let store = test_store();
    let home = home_document(&store.get_resources());
    let resources = field(&home, "resources").unwrap();
    let routes = field(&home, "routes").unwrap();
    assert!(items_of(resources).iter().any(|r| *r == jstr("posts")));
    assert!(items_of(resources).iter().any(|r| *r == jstr("comments")));
    assert_eq!(items_of(resources).len(), 3);
    assert_eq!(items_of(routes).len(), 3);
    let first_route = &items_of(routes)[0];
    assert_eq!(field(first_route, "resource"), Some(&jstr("posts")));
    let endpoints = items_of(field(first_route, "endpoints").unwrap());
    assert_eq!(endpoints.len(), 6);
    assert_eq!(field(&endpoints[0], "method"), Some(&jstr("GET")));
    assert_eq!(field(&endpoints[0], "url"), Some(&jstr("/posts")));
    assert_eq!(field(&endpoints[1], "url"), Some(&jstr("/posts/:id")));
    assert_eq!(field(&endpoints[5], "method"), Some(&jstr("DELETE")));
}

#[test]
fn test_proto_schema_from_text() {
    let text = "syntax = \"proto3\";\nmessage Post {\n  int32 id = 1;\n}\nmessage Comment {}\n";
    let schema = ProtoLoader::schema_from_proto_text(text).unwrap();
    assert_eq!(schema.len(), 2);
    assert_eq!(schema[0].0, "Post");
    assert_eq!(schema[1].0, "Comment");
    let post_items = items_of(&schema[0].1);
    assert_eq!(post_items.len(), 1);
    assert_eq!(field(&post_items[0], "id"), Some(&jint(1)));
    assert_eq!(field(&post_items[0], "name"), Some(&jstr("Sample Post")));
    assert_eq!(
        field(&post_items[0], "description"),
        Some(&jstr("This is a sample item generated from proto definition"))
    );
}

#[test]
fn test_proto_schema_empty_text() {
    let schema = ProtoLoader::schema_from_proto_text("no declarations here").unwrap();
    assert!(schema.is_empty());
}

#[test]
fn test_update_with_non_object_patch() {
    // a patch that is not an object changes nothing, yet the matched item
    // is still returned
    let store = &mut test_store();
    let updated = store.update_item("posts", "1", jstr("not a patch")).unwrap();
    assert_eq!(field(&updated, "title"), Some(&jstr("Test Post 1")));
    let fetched = store.get_item("posts", "1").unwrap();
    assert_eq!(fetched, updated);
}

#[test]
fn test_keyword_id_forms() {
    // boolean and null identifiers match their JSON keyword spellings
    let mut data: Vec<(String, Json)> = Vec::new();
    data.push((
        "flags".to_string(),
        arr(vec![
            obj(vec![("id", Json::Bool(true)), ("kind", jstr("yes"))]),
            obj(vec![("id", Json::Null), ("kind", jstr("nothing"))]),
        ]),
    ));
    let store = ResourceStore::new(data);
    let yes = store.get_item("flags", "true").unwrap();
    assert_eq!(field(&yes, "kind"), Some(&jstr("yes")));
    let nothing = store.get_item("flags", "null").unwrap();
    assert_eq!(field(&nothing, "kind"), Some(&jstr("nothing")));
    assert!(store.get_item("flags", "false").is_none());
}
