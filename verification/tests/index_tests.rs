use raise::index_admin::{find_index, has_index, index_definition_for, index_requests, list_indexes, search_key, CollectionMeta};
use raise::index_maps::{BTreeIndex, HashIndex, IndexMap};
use raise::index_ops::{index_key, search_index, update_index};
use raise::json::JsonValue;
use raise::error::ErrorCode;
use raise::paths::{IndexDefinition, IndexRecord, IndexType};
use raise::text_index::{text_search_key, tokenize, update_text_index};

fn obj(entries: Vec<(&str, JsonValue)>) -> JsonValue {
    let mut v = JsonValue::new_object();
    for (k, x) in entries {
        v.insert(k, x);
    }
    v
}

fn s(x: &str) -> JsonValue {
    JsonValue::from_str(x)
}

fn def(name: &str, path: &str, t: IndexType, unique: bool) -> IndexDefinition {
    IndexDefinition { name: name.into(), field_path: path.into(), index_type: t, unique }
}

#[test]
fn test_driver_map_logic() {
    let mut map = HashIndex::empty();
    map.insert_record("alice".into(), "1".into());
    map.insert_record("bob".into(), "2".into());
    map.insert_record("alice".into(), "3".into());

    assert_eq!(map.get_doc_ids("alice").unwrap().len(), 2);

    map.remove_record("alice", "1");
    assert_eq!(map.get_doc_ids("alice").unwrap().len(), 1);
    assert_eq!(map.get_doc_ids("alice").unwrap()[0], "3");
}

#[test]
fn test_index_type_serialization() {
    assert_eq!(IndexType::Hash.as_str(), "hash");
    assert_eq!(IndexType::BTree.as_str(), "btree");
}

#[test]
fn test_index_definition_structure() {
    let d = def("email", "/contact/email", IndexType::Hash, true);
    let json = d.to_json().stringify();
    assert!(json.contains("\"hash\""));
    let loaded = IndexDefinition::from_json(&d.to_json()).unwrap();
    assert_eq!(loaded.index_type, IndexType::Hash);
    assert_eq!(loaded.field_path, "/contact/email");
    assert!(loaded.unique);
}

#[test]
fn test_records_round_trip() {
    let mut h = HashIndex::empty();
    h.insert_record("k2".into(), "a".into());
    h.insert_record("k1".into(), "b".into());
    h.insert_record("k2".into(), "c".into());
    let recs = h.to_records();
    let keys: Vec<(String, String)> = recs.iter().map(|r| (r.key.clone(), r.document_id.clone())).collect();
    assert_eq!(
        keys,
        vec![("k2".to_string(), "a".to_string()), ("k2".to_string(), "c".to_string()), ("k1".to_string(), "b".to_string())]
    );
    let back = HashIndex::from_records(recs);
    assert_eq!(back.get_doc_ids("k2").unwrap(), &vec!["a".to_string(), "c".to_string()]);
    assert_eq!(back.get_doc_ids("k1").unwrap(), &vec!["b".to_string()]);

    let mut b = BTreeIndex::empty();
    b.insert_record("m".into(), "1".into());
    b.insert_record("c".into(), "2".into());
    b.insert_record("x".into(), "3".into());
    let order: Vec<String> = b.entries.iter().map(|e| e.0.clone()).collect();
    assert_eq!(order, vec!["c".to_string(), "m".to_string(), "x".to_string()]);
    let recs = vec![
        IndexRecord { key: "z".into(), document_id: "1".into() },
        IndexRecord { key: "a".into(), document_id: "2".into() },
    ];
    let loaded = BTreeIndex::from_records(recs);
    assert_eq!(loaded.to_records()[0].key, "a");
    b.remove_record("m", "1");
    assert!(b.get_doc_ids("m").is_none());
}

#[test]
fn test_update_index_unique() {
    let d = def("email", "/email", IndexType::Hash, true);
    let mut idx = HashIndex::empty();
    let doc1 = obj(vec![("email", s("a@x"))]);
    assert_eq!(update_index(&mut idx, &d, "id1", None, Some(&doc1)).unwrap(), true);
    assert_eq!(search_index(&idx, "\"a@x\""), vec!["id1".to_string()]);
    let err = update_index(&mut idx, &d, "id2", None, Some(&doc1)).unwrap_err();
    assert_eq!(err.code, ErrorCode::IndexUniqueViolation);
    // The same document may keep its key.
    assert_eq!(update_index(&mut idx, &d, "id1", Some(&doc1), Some(&doc1)).unwrap(), true);
    let doc2 = obj(vec![("email", s("b@x"))]);
    assert_eq!(update_index(&mut idx, &d, "id1", Some(&doc1), Some(&doc2)).unwrap(), true);
    assert!(search_index(&idx, "\"a@x\"").is_empty());
    assert_eq!(search_index(&idx, &index_key(&s("b@x"))), vec!["id1".to_string()]);
    let none = obj(vec![("other", s("x"))]);
    assert_eq!(update_index(&mut idx, &d, "id9", None, Some(&none)).unwrap(), false);
}

#[test]
fn test_text_index_words() {
    let toks = tokenize("Hello, World! hello-again");
    assert_eq!(toks, vec!["hello".to_string(), "world".to_string(), "again".to_string()]);
    let d = def("body", "/body", IndexType::Text, false);
    let mut idx = HashIndex::empty();
    let doc = obj(vec![("body", s("Rust verifies rust"))]);
    assert!(update_text_index(&mut idx, &d, "d1", None, Some(&doc)));
    assert_eq!(search_index(&idx, &text_search_key("RUST")), vec!["d1".to_string()]);
    assert!(!update_text_index(&mut idx, &d, "d1", None, Some(&doc)));
    let doc2 = obj(vec![("body", s("only verifies"))]);
    assert!(update_text_index(&mut idx, &d, "d1", Some(&doc), Some(&doc2)));
    assert!(search_index(&idx, "rust").is_empty());
    assert_eq!(search_index(&idx, "only"), vec!["d1".to_string()]);
}

#[test]
fn test_index_definitions_admin() {
    let d = index_definition_for("email", "HASH").unwrap();
    assert_eq!(d.field_path, "/email");
    assert_eq!(d.index_type, IndexType::Hash);
    assert!(!d.unique);
    assert_eq!(index_definition_for("/a/b", "text").unwrap().field_path, "/a/b");
    assert_eq!(index_definition_for("x", "rtree").unwrap_err().code, ErrorCode::DbIndexTypeUnknown);
    let mut meta = CollectionMeta { schema: None, indexes: vec![] };
    assert!(meta.add_index_definition(d));
    assert!(!meta.add_index_definition(index_definition_for("email", "btree").unwrap()));
    assert!(meta.add_index_definition(index_definition_for("age", "btree").unwrap()));
    assert!(has_index(&meta.indexes, "age"));
    assert_eq!(find_index(&meta.indexes, "age").unwrap().index_type, IndexType::BTree);
    assert_eq!(find_index(&meta.indexes, "zip").unwrap_err().code, ErrorCode::DbIndexDefinitionNotFound);
    assert_eq!(list_indexes(&meta.indexes, Some("email")).len(), 1);
    assert_eq!(list_indexes(&meta.indexes, None).len(), 2);
    assert_eq!(meta.drop_index_definition("email").unwrap().name, "email");
    assert_eq!(meta.drop_index_definition("email").unwrap_err().code, ErrorCode::DbIndexNotFound);
    assert_eq!(search_key(IndexType::Text, &s("MiXeD")), "mixed");
    assert_eq!(search_key(IndexType::Hash, &s("v")), "\"v\"");
}

#[test]
fn test_index_requests_from_config() {
    let cfg = obj(vec![(
        "collections",
        obj(vec![
            ("users", obj(vec![("x_indexes", JsonValue::Array(vec![s("email"), JsonValue::from_i64(3), s("name")]))])),
            ("logs", obj(vec![])),
        ]),
    )]);
    assert_eq!(
        index_requests(&cfg),
        vec![("users".to_string(), "email".to_string()), ("users".to_string(), "name".to_string())]
    );
    assert!(index_requests(&s("x")).is_empty());
}
