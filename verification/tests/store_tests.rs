use doclayer::compare::value_eq;
use doclayer::error::DocumentStoreError;
use doclayer::query::Query;
use doclayer::store::InMemoryStore;
use doclayer::value::Value;

fn record(field: &str, v: Value) -> Value {
    Value::Object(vec![(field.to_string(), v)])
}

#[test]
fn insert_then_get_returns_equal_value() {
    let mut store = InMemoryStore::new();
    let doc = record("name", Value::Text("alice".to_string()));
    store
        .insert_documents(vec![(7, doc.clone())], "users")
        .unwrap();
    let got = store.get_documents(vec![7], "users").unwrap();
    assert_eq!(got.len(), 1);
    assert!(value_eq(&got[0], &doc));
}

#[test]
fn insert_duplicate_id_fails_with_already_exists() {
    let mut store = InMemoryStore::new();
    store
        .insert_documents(vec![(1, record("a", Value::Number(1)))], "c")
        .unwrap();
    let err = store
        .insert_documents(vec![(1, record("a", Value::Number(2)))], "c")
        .unwrap_err();
    assert!(matches!(
        err,
        DocumentStoreError::DocumentAlreadyExists(1, ref c) if c == "c"
    ));
}

#[test]
fn update_of_absent_id_fails_with_not_found() {
    let mut store = InMemoryStore::new();
    store.create_collection("c").unwrap();
    let err = store
        .update_documents(vec![(9, record("a", Value::Number(1)))], "c")
        .unwrap_err();
    assert!(matches!(
        err,
        DocumentStoreError::DocumentNotFound(9, ref c) if c == "c"
    ));
}

#[test]
fn update_replaces_existing_record() {
    let mut store = InMemoryStore::new();
    store
        .insert_documents(vec![(1, record("a", Value::Number(1)))], "c")
        .unwrap();
    store
        .update_documents(vec![(1, record("a", Value::Number(5)))], "c")
        .unwrap();
    let got = store.get_documents(vec![1], "c").unwrap();
    assert!(value_eq(&got[0], &record("a", Value::Number(5))));
}

#[test]
fn empty_query_returns_full_record_set() {
    let mut store = InMemoryStore::new();
    let docs: Vec<(u128, Value)> = (1..=5u128)
        .map(|i| (i, record("v", Value::Number(i as i64))))
        .collect();
    store.insert_documents(docs.clone(), "c").unwrap();
    let out = store.query_documents(&Query::new(), "c").unwrap();
    assert_eq!(out.len(), 5);
    for (i, (_, doc)) in docs.iter().enumerate() {
        assert!(value_eq(&out[i], doc));
    }
}

#[test]
fn batch_insert_stops_at_first_duplicate() {
    let mut store = InMemoryStore::new();
    store
        .insert_documents(vec![(2, record("v", Value::Number(0)))], "c")
        .unwrap();
    let err = store
        .insert_documents(
            vec![
                (1, record("v", Value::Number(1))),
                (2, record("v", Value::Number(2))),
                (3, record("v", Value::Number(3))),
            ],
            "c",
        )
        .unwrap_err();
    assert!(matches!(
        err,
        DocumentStoreError::DocumentAlreadyExists(2, ref c) if c == "c"
    ));
    // the entry before the duplicate is committed, the rest are not
    assert_eq!(store.get_documents(vec![1], "c").unwrap().len(), 1);
    assert_eq!(store.get_documents(vec![3], "c").unwrap().len(), 0);
    assert!(value_eq(
        &store.get_documents(vec![2], "c").unwrap()[0],
        &record("v", Value::Number(0))
    ));
}

#[test]
fn delete_of_absent_id_fails_with_not_found() {
    let mut store = InMemoryStore::new();
    store
        .insert_documents(vec![(1, record("v", Value::Number(1)))], "c")
        .unwrap();
    let err = store.delete_documents(vec![5], "c").unwrap_err();
    assert!(matches!(err, DocumentStoreError::DocumentNotFound(5, _)));
    store.delete_documents(vec![1], "c").unwrap();
    assert_eq!(store.get_documents(vec![1], "c").unwrap().len(), 0);
}

#[test]
fn missing_collection_is_reported() {
    let mut store = InMemoryStore::new();
    let err = store
        .update_documents(vec![(1, Value::Null)], "missing")
        .unwrap_err();
    assert!(matches!(
        err,
        DocumentStoreError::CollectionNotFound(ref c) if c == "missing"
    ));
    let err = store.drop_collection("missing").unwrap_err();
    assert!(matches!(err, DocumentStoreError::CollectionNotFound(_)));
    // a get on a missing collection yields no records, not an error
    assert_eq!(store.get_documents(vec![1], "missing").unwrap().len(), 0);
}

#[test]
fn collections_are_created_listed_and_dropped() {
    let mut store = InMemoryStore::new();
    store.create_collection("a").unwrap();
    store.create_collection("b").unwrap();
    store.create_collection("a").unwrap();
    let names = store.list_collections().unwrap();
    assert_eq!(names, vec!["a".to_string(), "b".to_string()]);
    store.drop_collection("a").unwrap();
    assert_eq!(store.list_collections().unwrap(), vec!["b".to_string()]);
}

#[test]
fn add_field_overwrites_on_every_record() {
    let mut store = InMemoryStore::new();
    store
        .insert_documents(
            vec![
                (1, record("age", Value::Number(3))),
                (2, record("name", Value::Text("b".to_string()))),
            ],
            "c",
        )
        .unwrap();
    store
        .add_field("c", "age", Value::Number(0))
        .unwrap();
    let got = store.get_documents(vec![1, 2], "c").unwrap();
    // the field is set on both records, overwriting the present value
    assert!(value_eq(&got[0], &record("age", Value::Number(0))));
    assert!(value_eq(
        &got[1],
        &Value::Object(vec![
            ("name".to_string(), Value::Text("b".to_string())),
            ("age".to_string(), Value::Number(0)),
        ])
    ));
}

#[test]
fn drop_field_skips_records_without_it() {
    let mut store = InMemoryStore::new();
    store
        .insert_documents(
            vec![
                (1, record("age", Value::Number(3))),
                (2, record("name", Value::Text("b".to_string()))),
            ],
            "c",
        )
        .unwrap();
    store.drop_field("c", "age").unwrap();
    let got = store.get_documents(vec![1, 2], "c").unwrap();
    assert!(value_eq(&got[0], &Value::Object(vec![])));
    assert!(value_eq(&got[1], &record("name", Value::Text("b".to_string()))));
}

#[test]
fn rename_field_moves_the_value() {
    let mut store = InMemoryStore::new();
    store
        .insert_documents(vec![(1, record("old", Value::Number(7)))], "c")
        .unwrap();
    store.rename_field("c", "old", "new").unwrap();
    let got = store.get_documents(vec![1], "c").unwrap();
    assert!(value_eq(&got[0], &record("new", Value::Number(7))));
}

#[test]
fn revision_marker_round_trip() {
    let mut store = InMemoryStore::new();
    assert!(store.current_revision_id().is_none());
    store.set_revision_id("r1").unwrap();
    assert_eq!(store.current_revision_id(), Some("r1".to_string()));
}

#[test]
fn builder_builds_an_empty_store() {
    let store = InMemoryStore::builder().build().unwrap();
    assert_eq!(store.list_collections().unwrap().len(), 0);
}

#[test]
fn error_kinds_have_names() {
    assert_eq!(
        DocumentStoreError::CollectionNotFound("c".to_string()).kind_name(),
        "collection not found"
    );
    assert_eq!(
        DocumentStoreError::InvalidDocument("d".to_string()).kind_name(),
        "invalid document"
    );
}
