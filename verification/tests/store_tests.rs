use json_store::tree::Info;
use json_store::value::value_eq;
use json_store::{JsonStore, JsonStoreError, Value};

fn users_info() -> Info {
    Info::new(
        "id".to_string(),
        vec![("email".to_string(), vec!["email".to_string()])],
        2,
    )
}

fn doc(email: &str) -> Value {
    Value::Obj(vec![("email".to_string(), Value::Str(email.to_string()))])
}

fn empty_store() -> JsonStore {
    JsonStore::load("root".to_string(), Vec::new(), Vec::new()).unwrap()
}

#[test]
fn users_scenario() {
    let mut store = empty_store();
    store.create_tree("users", users_info()).unwrap();

    let id1 = store.insert("users", doc("a@x.com")).unwrap();
    assert_eq!(id1, 1);

    let dup = store.insert("users", doc("a@x.com"));
    assert!(matches!(dup, Err(JsonStoreError::DuplicateUniqueFields(_))));

    let id2 = store.insert("users", doc("b@x.com")).unwrap();
    assert_eq!(id2, 2);

    let full = store.insert("users", doc("c@x.com"));
    assert!(matches!(full, Err(JsonStoreError::CapacityExceeded(_))));
}

#[test]
fn insert_assigns_sequence_field() {
    let mut store = empty_store();
    store.create_tree("users", users_info()).unwrap();
    let id = store.insert("users", doc("a@x.com")).unwrap();
    let stored = store.select("users", id).unwrap();
    match stored {
        Value::Obj(entries) => {
            let idval = entries.iter().find(|e| e.0 == "id").expect("id field");
            assert!(matches!(idval.1, Value::Int(1)));
        }
        _ => panic!("stored document is not an object"),
    }
}

#[test]
fn insert_overwrites_caller_sequence_field() {
    let mut store = empty_store();
    store.create_tree("users", users_info()).unwrap();
    let d = Value::Obj(vec![
        ("id".to_string(), Value::Int(42)),
        ("email".to_string(), Value::Str("a@x.com".to_string())),
    ]);
    let id = store.insert("users", d).unwrap();
    assert_eq!(id, 1);
    let stored = store.select("users", 1).unwrap();
    match stored {
        Value::Obj(entries) => {
            let idval = entries.iter().find(|e| e.0 == "id").unwrap();
            assert!(matches!(idval.1, Value::Int(1)));
        }
        _ => panic!("not an object"),
    }
}

#[test]
fn insert_non_object_rejected() {
    let mut store = empty_store();
    store.create_tree("users", users_info()).unwrap();
    let r = store.insert("users", Value::Int(3));
    assert!(matches!(r, Err(JsonStoreError::UnObjectValue)));
}

#[test]
fn insert_unknown_collection() {
    let mut store = empty_store();
    let r = store.insert("nope", doc("a@x.com"));
    assert!(matches!(r, Err(JsonStoreError::NotFoundTree(_))));
}

#[test]
fn update_replaces_whole_document() {
    let mut store = empty_store();
    store.create_tree("users", users_info()).unwrap();
    let id = store.insert("users", doc("a@x.com")).unwrap();
    let replacement = Value::Obj(vec![
        ("id".to_string(), Value::Int(id as i64)),
        ("email".to_string(), Value::Str("z@x.com".to_string())),
    ]);
    store.update("users", clone_value(&replacement)).unwrap();
    let stored = store.select("users", id).unwrap();
    assert!(value_eq(stored, &replacement));
}

#[test]
fn update_unknown_sequence_fails() {
    let mut store = empty_store();
    store.create_tree("users", users_info()).unwrap();
    store.insert("users", doc("a@x.com")).unwrap();
    let stranger = Value::Obj(vec![
        ("id".to_string(), Value::Int(9)),
        ("email".to_string(), Value::Str("z@x.com".to_string())),
    ]);
    let r = store.update("users", stranger);
    assert!(matches!(r, Err(JsonStoreError::SequenceNotExist(_))));
}

#[test]
fn update_without_sequence_field_fails() {
    let mut store = empty_store();
    store.create_tree("users", users_info()).unwrap();
    store.insert("users", doc("a@x.com")).unwrap();
    let r = store.update("users", doc("z@x.com"));
    assert!(matches!(r, Err(JsonStoreError::SequenceNotExist(_))));
}

#[test]
fn update_duplicate_unique_fields_fails() {
    let mut store = empty_store();
    store.create_tree("users", users_info()).unwrap();
    store.insert("users", doc("a@x.com")).unwrap();
    let id2 = store.insert("users", doc("b@x.com")).unwrap();
    let clash = Value::Obj(vec![
        ("id".to_string(), Value::Int(id2 as i64)),
        ("email".to_string(), Value::Str("a@x.com".to_string())),
    ]);
    let r = store.update("users", clash);
    assert!(matches!(r, Err(JsonStoreError::DuplicateUniqueFields(_))));
    let kept = store.select("users", id2).unwrap();
    assert!(value_eq(kept, &doc_with_id("b@x.com", 2)));
}

#[test]
fn delete_and_select_unknown_sequence() {
    let mut store = empty_store();
    store.create_tree("users", users_info()).unwrap();
    let id = store.insert("users", doc("a@x.com")).unwrap();
    assert!(matches!(
        store.delete("users", 99),
        Err(JsonStoreError::SequenceNotExist(_))
    ));
    assert!(matches!(
        store.select("users", 99),
        Err(JsonStoreError::SequenceNotExist(_))
    ));
    store.delete("users", id).unwrap();
    assert!(matches!(
        store.select("users", id),
        Err(JsonStoreError::SequenceNotExist(_))
    ));
}

#[test]
fn sequence_keeps_increasing_after_delete() {
    let mut store = empty_store();
    store.create_tree("users", users_info()).unwrap();
    let id1 = store.insert("users", doc("a@x.com")).unwrap();
    store.delete("users", id1).unwrap();
    let id2 = store.insert("users", doc("a@x.com")).unwrap();
    assert_eq!(id2, 2);
}

#[test]
fn create_twice_fails_and_drop_unknown_fails() {
    let mut store = empty_store();
    store.create_tree("users", users_info()).unwrap();
    let again = store.create_tree("users", users_info());
    assert!(matches!(again, Err(JsonStoreError::FoundTree(_))));
    let gone = store.drop_tree("ghosts");
    assert!(matches!(gone, Err(JsonStoreError::NotFoundTree(_))));
    store.drop_tree("users").unwrap();
    assert!(matches!(
        store.insert("users", doc("a@x.com")),
        Err(JsonStoreError::NotFoundTree(_))
    ));
}

#[test]
fn save_tree_is_dirty_flag_gated() {
    let mut store = empty_store();
    store.create_tree("users", users_info()).unwrap();
    // a fresh collection is dirty
    let first = store.save_tree("users").unwrap();
    assert!(first.is_some());
    store.confirm_saved("users").unwrap();
    // clean: nothing to write
    assert!(store.save_tree("users").unwrap().is_none());
    assert!(store.save().is_empty());
    // a mutation makes exactly one further save write files
    store.insert("users", doc("a@x.com")).unwrap();
    let (seq_text, data_text) = store.save_tree("users").unwrap().unwrap();
    assert_eq!(seq_text, "1");
    assert_eq!(data_text, "{\"1\":{\"email\":\"a@x.com\",\"id\":1}}");
    store.confirm_saved("users").unwrap();
    assert!(store.save_tree("users").unwrap().is_none());
}

#[test]
fn save_then_load_reproduces_state() {
    let mut store = empty_store();
    store.create_tree("users", users_info()).unwrap();
    store.insert("users", doc("a@x.com")).unwrap();
    store.insert("users", doc("b@x.com")).unwrap();
    store.delete("users", 1).unwrap();

    let registry = store.render_registry_file();
    let renders = store.save();
    assert_eq!(renders.len(), 1);
    let (name, seq_text, data_text) = &renders[0];
    assert_eq!(name, "users");

    let infos = JsonStore::parse_infos(Some(registry.as_str())).unwrap();
    let loaded = JsonStore::load(
        "root".to_string(),
        infos,
        vec![(Some(seq_text.clone()), Some(data_text.clone()))],
    )
    .unwrap();

    // same collections, same high-water mark, same documents
    let names = loaded.tree_names();
    assert_eq!(names, vec!["users".to_string()]);
    let kept = loaded.select("users", 2).unwrap();
    assert!(value_eq(kept, &doc_with_id("b@x.com", 2)));
    assert!(matches!(
        loaded.select("users", 1),
        Err(JsonStoreError::SequenceNotExist(_))
    ));
    // the mark survived the round trip: the next insert continues after it
    let mut loaded = loaded;
    let id = loaded.insert("users", doc("c@x.com")).unwrap();
    assert_eq!(id, 3);
    // loaded collections are clean
    assert!(loaded.save_tree("users").is_ok());
}

#[test]
fn load_missing_files_defaults() {
    let info = users_info();
    let loaded = JsonStore::load("root".to_string(), vec![("users".to_string(), info)], vec![
        (None, None),
    ])
    .unwrap();
    assert!(matches!(
        loaded.select("users", 1),
        Err(JsonStoreError::SequenceNotExist(_))
    ));
    let mut loaded = loaded;
    let id = loaded.insert("users", doc("a@x.com")).unwrap();
    assert_eq!(id, 1);
}

#[test]
fn load_garbage_sequence_marker_reads_as_zero() {
    let info = users_info();
    let loaded = JsonStore::load("root".to_string(), vec![("users".to_string(), info)], vec![
        (Some("not a number".to_string()), None),
    ])
    .unwrap();
    let mut loaded = loaded;
    let id = loaded.insert("users", doc("a@x.com")).unwrap();
    assert_eq!(id, 1);
}

#[test]
fn load_rejects_undecodable_data_file() {
    let info = users_info();
    let r = JsonStore::load("root".to_string(), vec![("users".to_string(), info)], vec![
        (None, Some("{broken".to_string())),
    ]);
    assert!(matches!(r, Err(JsonStoreError::DeserializeFromStr(_))));
}

#[test]
fn parse_infos_missing_file_is_empty_registry() {
    let infos = JsonStore::parse_infos(None).unwrap();
    assert!(infos.is_empty());
    let bad = JsonStore::parse_infos(Some("not json"));
    assert!(matches!(bad, Err(JsonStoreError::DeserializeFromStr(_))));
}

#[test]
fn composite_uniqueness_group() {
    let mut store = empty_store();
    let info = Info::new(
        "id".to_string(),
        vec![(
            "first_city".to_string(),
            vec!["first".to_string(), "city".to_string()],
        )],
        10,
    );
    store.create_tree("people", info).unwrap();

    let person = |first: &str, city: &str| {
        Value::Obj(vec![
            ("first".to_string(), Value::Str(first.to_string())),
            ("city".to_string(), Value::Str(city.to_string())),
        ])
    };
    store.insert("people", person("a", "x")).unwrap();
    // differs on the second constrained field: no collision
    store.insert("people", person("a", "y")).unwrap();
    assert!(matches!(
        store.insert("people", person("a", "x")),
        Err(JsonStoreError::DuplicateUniqueFields(_))
    ));
    // a missing constrained field projects as null, which is its own value
    let only_city = Value::Obj(vec![("city".to_string(), Value::Str("x".to_string()))]);
    store.insert("people", clone_value(&only_city)).unwrap();
    assert!(matches!(
        store.insert("people", only_city),
        Err(JsonStoreError::DuplicateUniqueFields(_))
    ));
}

#[test]
fn unicode_and_escapes_survive_save_and_load() {
    let mut store = empty_store();
    store
        .create_tree(
            "notes",
            Info::new("id".to_string(), Vec::new(), 10),
        )
        .unwrap();
    let d = Value::Obj(vec![(
        "text".to_string(),
        Value::Str("s\u{00e4}y \"hi\" \\ done".to_string()),
    )]);
    let id = store.insert("notes", clone_value(&d)).unwrap();

    let registry = store.render_registry_file();
    let renders = store.save();
    let (_, seq_text, data_text) = &renders[0];
    let infos = JsonStore::parse_infos(Some(registry.as_str())).unwrap();
    let loaded = JsonStore::load(
        "root".to_string(),
        infos,
        vec![(Some(seq_text.clone()), Some(data_text.clone()))],
    )
    .unwrap();
    let stored = loaded.select("notes", id).unwrap();
    assert!(value_eq(stored, &doc_note("s\u{00e4}y \"hi\" \\ done", id as i64)));
}

fn doc_note(text: &str, id: i64) -> Value {
    Value::Obj(vec![
        ("text".to_string(), Value::Str(text.to_string())),
        ("id".to_string(), Value::Int(id)),
    ])
}

#[test]
fn fresh_empty_store_reloads() {
    let mut store = empty_store();
    store.create_tree("users", users_info()).unwrap();
    let registry = store.render_registry_file();
    let (seq_text, data_text) = store.save_tree("users").unwrap().unwrap();
    assert_eq!(seq_text, "0");
    assert_eq!(data_text, "{}");
    let infos = JsonStore::parse_infos(Some(registry.as_str())).unwrap();
    let mut loaded = JsonStore::load(
        "root".to_string(),
        infos,
        vec![(Some(seq_text), Some(data_text))],
    )
    .unwrap();
    assert_eq!(loaded.insert("users", doc("a@x.com")).unwrap(), 1);
}

#[test]
fn parse_infos_rejects_repeated_names() {
    let entry = "\"users\":{\"sequence_field\":\"id\",\"unique_fields\":{},\"capacity\":2}";
    let text = format!("{{{},{}}}", entry, entry);
    let r = JsonStore::parse_infos(Some(text.as_str()));
    assert!(matches!(r, Err(JsonStoreError::DeserializeFromStr(_))));
}

#[test]
fn file_paths_follow_the_layout() {
    let store = JsonStore::load("root".to_string(), Vec::new(), Vec::new()).unwrap();
    assert_eq!(store.registry_path(), "root/infos.json");
    assert_eq!(store.seq_path("users"), "root/users.seq");
    assert_eq!(store.data_path("users"), "root/users.json");
}

fn doc_with_id(email: &str, id: i64) -> Value {
    Value::Obj(vec![
        ("email".to_string(), Value::Str(email.to_string())),
        ("id".to_string(), Value::Int(id)),
    ])
}

fn clone_value(v: &Value) -> Value {
    match v {
        Value::Null => Value::Null,
        Value::Bool(b) => Value::Bool(*b),
        Value::Int(n) => Value::Int(*n),
        Value::Str(s) => Value::Str(s.clone()),
        Value::Arr(items) => Value::Arr(items.iter().map(clone_value).collect()),
        Value::Obj(entries) => Value::Obj(
            entries
                .iter()
                .map(|(k, v)| (k.clone(), clone_value(v)))
                .collect(),
        ),
    }
}
