use raise::changes::{compute_diff, set_value_by_path, RulePasses, MAX_PASSES};
use raise::collections::{CollectionsManager, EntityIdentity};
use raise::documents::{
    collect_smart_links, identity_query, identity_target, json_merge, plan_upsert, resolve_document_references,
    resolved_id, upsert_report, upsert_target,
};
use raise::error::ErrorCode;
use raise::json::{JsonNumber, JsonValue};
use raise::paths::JsonDbConfig;
use raise::prepare::compute_document_checksum;
use raise::query::FilterOperator;
use raise::system_index::stamp_index_schema;
use raise::vocabulary::VocabularyRegistry;

fn obj(entries: Vec<(&str, JsonValue)>) -> JsonValue {
    let mut v = JsonValue::new_object();
    for (k, x) in entries {
        v.insert(k, x);
    }
    v
}

fn same(a: &JsonValue, b: &JsonValue) {
    assert_eq!(a.stringify(), b.stringify());
}

fn s(x: &str) -> JsonValue {
    JsonValue::from_str(x)
}

fn num(i: i64) -> JsonValue {
    JsonValue::from_i64(i)
}

fn manager() -> CollectionsManager {
    CollectionsManager::new(&JsonDbConfig::new("/data"), "space", "db")
}

fn index_doc() -> JsonValue {
    obj(vec![
        ("$schema", s("db://_system/_system/schemas/v1/db/index.schema.json")),
        (
            "collections",
            obj(vec![(
                "users",
                obj(vec![("schema", s("users/user.schema.json")), ("items", JsonValue::Array(vec![]))]),
            )]),
        ),
        ("rules", obj(vec![("pricing", obj(vec![("schema", s("rules/pricing.json"))]))])),
    ])
}

#[test]
fn test_resolve_schema_from_index() {
    let m = manager();
    let sys = index_doc();
    assert_eq!(
        m.resolve_schema_from_index(&sys, "users").unwrap(),
        "db://space/db/schemas/v1/users/user.schema.json"
    );
    assert_eq!(m.resolve_schema_from_index(&sys, "pricing").unwrap(), "db://space/db/schemas/v1/rules/pricing.json");
    assert_eq!(m.resolve_schema_from_index(&sys, "ghost").unwrap_err().code, ErrorCode::DbCollectionNotFound);
    let untrusted = obj(vec![("$schema", s("db://x/y/index.json"))]);
    assert_eq!(m.resolve_schema_from_index(&untrusted, "users").unwrap_err().code, ErrorCode::DbIntegrityCompromised);
}

#[test]
fn test_system_index_items_lifecycle() {
    let m = manager();
    let mut sys = index_doc();
    m.add_item_to_index(&mut sys, "users", "u1");
    m.add_item_to_index(&mut sys, "users", "u1");
    let items = sys.get("collections").unwrap().get("users").unwrap().get("items").unwrap();
    assert_eq!(items.as_array().unwrap().len(), 1);
    assert_eq!(items.as_array().unwrap()[0].get("file").unwrap().as_str().unwrap(), "u1.json");
    // A collection the index does not list is added under the schema it resolves.
    m.add_item_to_index(&mut sys, "pricing", "p1");
    let pricing = sys.get("collections").unwrap().get("pricing").unwrap();
    assert_eq!(pricing.get("schema").unwrap().as_str().unwrap(), "db://space/db/schemas/v1/rules/pricing.json");
    assert!(m.remove_item_from_index(&mut sys, "users", "u1"));
    assert!(!m.remove_item_from_index(&mut sys, "users", "u1"));
    let items = sys.get("collections").unwrap().get("users").unwrap().get("items").unwrap();
    assert_eq!(items.as_array().unwrap().len(), 0);
}

#[test]
fn test_system_index_collections() {
    let m = manager();
    let mut sys = index_doc();
    m.add_item_to_index(&mut sys, "users", "u1");
    m.update_system_index_collection(&mut sys, "users", "db://space/db/schemas/v1/users/v2.json");
    let users = sys.get("collections").unwrap().get("users").unwrap();
    assert_eq!(users.get("schema").unwrap().as_str().unwrap(), "db://space/db/schemas/v1/users/v2.json");
    assert_eq!(users.get("items").unwrap().as_array().unwrap().len(), 1);
    assert!(m.remove_collection_from_system_index(&mut sys, "users"));
    assert!(!m.remove_collection_from_system_index(&mut sys, "users"));
    assert!(sys.get("collections").unwrap().get("users").is_none());
    let mut null_index = JsonValue::Null;
    m.update_system_index_collection(&mut null_index, "logs", "s");
    assert!(null_index.get("collections").unwrap().get("logs").is_some());
}

#[test]
fn test_default_system_index() {
    let m = manager();
    let mut sys = m.default_system_index();
    assert_eq!(sys.get("name").unwrap().as_str().unwrap(), "space_db");
    same(sys.get("version").unwrap(), &num(1));
    same(sys.get("_p2p").unwrap().get("revision").unwrap(), &num(1));
    sys.insert("$schema", s("other"));
    stamp_index_schema(&mut sys);
    assert_eq!(sys.get("$schema").unwrap().as_str().unwrap(), "db://_system/_system/schemas/v1/db/index.schema.json");
}

#[test]
fn test_json_merge_deep() {
    let mut a = obj(vec![("a", num(1)), ("nested", obj(vec![("x", num(1)), ("y", num(2))]))]);
    let b = obj(vec![("nested", obj(vec![("y", num(3)), ("z", num(4))])), ("b", s("new"))]);
    json_merge(&mut a, b);
    same(a.get("a").unwrap(), &num(1));
    same(a.get("b").unwrap(), &s("new"));
    let n = a.get("nested").unwrap();
    same(n.get("x").unwrap(), &num(1));
    same(n.get("y").unwrap(), &num(3));
    same(n.get("z").unwrap(), &num(4));
    let mut scalar = num(1);
    json_merge(&mut scalar, s("replaced"));
    same(&scalar, &s("replaced"));
}

#[test]
fn test_update_document_locks_id_and_bumps_revision() {
    let m = manager();
    let old = obj(vec![("_id", s("d1")), ("name", s("a")), ("_p2p", obj(vec![("revision", num(4))]))]);
    let patch = obj(vec![("_id", s("hijack")), ("name", s("b"))]);
    let doc = m.update_document("d1", Some(old), patch).unwrap();
    same(doc.get("_id").unwrap(), &s("d1"));
    same(doc.get("name").unwrap(), &s("b"));
    same(doc.get("_p2p").unwrap().get("revision").unwrap(), &num(5));
    let err = m.update_document("d1", None, obj(vec![])).unwrap_err();
    assert_eq!(err.code, ErrorCode::DbUpdateTargetNotFound);
}

#[test]
fn test_insert_raw_checks() {
    let m = manager();
    let doc = obj(vec![("_id", s("x")), ("$schema", s("db://s/d/schemas/v1/a.json"))]);
    assert_eq!(m.insert_raw(&doc, true).unwrap(), ("x".to_string(), None));
    assert_eq!(m.insert_raw(&doc, false).unwrap(), ("x".to_string(), Some("db://s/d/schemas/v1/a.json".to_string())));
    let no_id = obj(vec![("name", s("n"))]);
    assert_eq!(m.insert_raw(&no_id, true).unwrap_err().code, ErrorCode::DocumentIdMissing);
    let no_schema = obj(vec![("_id", s("x"))]);
    assert_eq!(m.insert_raw(&no_schema, false).unwrap_err().code, ErrorCode::DbStrictSchemaRequired);
}

#[test]
fn test_upsert_plan_and_target() {
    let data = obj(vec![("handle", s("h1")), ("name", s("n1"))]);
    let plan = plan_upsert(&data).unwrap();
    assert!(plan.id.is_none());
    let (field, value) = plan.search.as_ref().unwrap();
    assert_eq!(field, "handle");
    same(value, &s("h1"));
    let found = obj(vec![("_id", s("doc-9"))]);
    assert_eq!(upsert_target(&plan, false, Some(&found)), Some("doc-9".to_string()));
    assert_eq!(upsert_target(&plan, false, None), None);
    let with_id = plan_upsert(&obj(vec![("_id", s("i1"))])).unwrap();
    assert_eq!(upsert_target(&with_id, true, None), Some("i1".to_string()));
    assert_eq!(plan_upsert(&obj(vec![("x", num(1))])).unwrap_err().code, ErrorCode::DbUpsertMissingIdentity);
    assert_eq!(upsert_report(true, "a"), "Updated: a");
    assert_eq!(upsert_report(false, "b"), "Created: b");
}

#[test]
fn test_identity_query_and_target() {
    let q = identity_query("users", "name", s("Bob"), Some(1));
    assert_eq!(q.collection, "users");
    assert_eq!(q.limit, Some(1));
    let f = q.filter.unwrap();
    assert_eq!(f.operator, FilterOperator::And);
    assert_eq!(f.conditions.len(), 1);
    assert_eq!(f.conditions[0].field, "name");
    assert_eq!(identity_target(EntityIdentity::Id("x".into()), None).unwrap(), "x");
    let found = obj(vec![("_id", s("y"))]);
    assert_eq!(identity_target(EntityIdentity::Name("Bob".into()), Some(&found)).unwrap(), "y");
    assert_eq!(identity_target(EntityIdentity::Name("Bob".into()), None).unwrap_err().code, ErrorCode::DbEntityNotFound);
}

#[test]
fn test_smart_links_resolution() {
    let doc = obj(vec![
        ("owner", s("ref:users:name:Bob")),
        ("tags", JsonValue::Array(vec![s("plain"), s("ref:tags:handle:t1"), s("ref:bad")])),
    ]);
    let mut links = Vec::new();
    collect_smart_links(&doc, &mut links);
    assert_eq!(links, vec!["ref:users:name:Bob".to_string(), "ref:tags:handle:t1".to_string()]);
    let resolved = vec![("ref:users:name:Bob".to_string(), "u42".to_string())];
    let out = resolve_document_references(&doc, &resolved);
    same(out.get("owner").unwrap(), &s("u42"));
    let tags = out.get("tags").unwrap().as_array().unwrap();
    same(&tags[1], &s("ref:tags:handle:t1"));
    same(&tags[2], &s("ref:bad"));
    assert_eq!(resolved_id(Some(&obj(vec![("name", s("x"))]))), Some(String::new()));
    assert_eq!(resolved_id(None), None);
}

#[test]
fn test_compute_diff_paths() {
    let old = obj(vec![("a", num(1)), ("n", obj(vec![("x", num(1)), ("y", num(2))]))]);
    let new = obj(vec![("a", num(1)), ("n", obj(vec![("x", num(5)), ("y", num(2))])), ("b", num(3))]);
    assert_eq!(compute_diff(&new, Some(&old)), vec!["n".to_string(), "n.x".to_string(), "b".to_string()]);
    assert_eq!(compute_diff(&new, Some(&new)), Vec::<String>::new());
    let fresh = compute_diff(&obj(vec![("k", obj(vec![("z", num(1))]))]), None);
    assert_eq!(fresh, vec!["k".to_string(), "k.z".to_string()]);
}

#[test]
fn test_set_value_by_path() {
    let mut doc = obj(vec![("a", num(1))]);
    assert!(set_value_by_path(&mut doc, "b.c", num(7)));
    same(doc.get("b").unwrap().get("c").unwrap(), &num(7));
    assert!(!set_value_by_path(&mut doc, "b.c", num(7)));
    assert!(set_value_by_path(&mut doc, "a", num(2)));
    same(doc.get("a").unwrap(), &num(2));
    // A scalar in the way of the last level is left alone.
    let mut doc2 = obj(vec![("a", num(1))]);
    assert!(!set_value_by_path(&mut doc2, "a.b", num(3)));
    same(doc2.get("a").unwrap(), &num(1));
}

#[test]
fn test_rule_passes_stop() {
    let mut doc = obj(vec![("days", num(2))]);
    let mut passes = RulePasses::new(&doc, None);
    assert!(passes.wants_pass());
    assert!(passes.record(&mut doc, "total", num(10)));
    assert!(!passes.record(&mut doc, "total", num(10)));
    passes.finish_pass();
    assert_eq!(passes.changes, vec!["total".to_string()]);
    assert_eq!(passes.passes, 1);
    passes.finish_pass();
    assert!(!passes.wants_pass());
    let mut busy = RulePasses { changes: vec!["x".into()], next: vec![], passes: MAX_PASSES };
    assert!(!busy.wants_pass());
    busy.changes.clear();
    assert!(!busy.wants_pass());
}

#[test]
fn test_document_checksum_ignores_replication_metadata() {
    let a = obj(vec![("_id", s("x")), ("v", num(1)), ("_p2p", obj(vec![("revision", num(1))]))]);
    let b = obj(vec![("_id", s("x")), ("v", num(1)), ("_p2p", obj(vec![("revision", num(9))]))]);
    let c = obj(vec![("_id", s("x")), ("v", num(2))]);
    let ha = compute_document_checksum(&a);
    assert_eq!(ha.len(), 64);
    assert_eq!(ha, compute_document_checksum(&b));
    assert_ne!(ha, compute_document_checksum(&c));
    // SHA-256 of the text {"_id":"x","v":1}.
    assert_eq!(ha, "27b83de6025f414600bfd222570805a5b639d1ee891218810a581e8eb948318f");
}

#[test]
fn test_prepare_schema_uri_sources() {
    let m = manager();
    let meta = obj(vec![("schema", s("users/user.schema.json"))]);
    let sys = index_doc();
    assert_eq!(
        m.prepare_schema_uri(Some(&meta), Some(&sys), "users").unwrap(),
        "db://space/db/schemas/v1/users/user.schema.json"
    );
    let empty_meta = obj(vec![("schema", s(""))]);
    assert_eq!(
        m.prepare_schema_uri(Some(&empty_meta), Some(&sys), "pricing").unwrap(),
        "db://space/db/schemas/v1/rules/pricing.json"
    );
    assert_eq!(m.prepare_schema_uri(None, None, "users").unwrap_err().code, ErrorCode::DbStrictSchemaRequired);
}

#[test]
fn test_semantic_context_injection() {
    let m = manager();
    let mut vocab = VocabularyRegistry::new();
    vocab.register_prefix("oa", "https://raise.io/oa#");
    let mut doc = obj(vec![("name", s("n"))]);
    m.apply_semantic_logic(&mut doc, Some("db://s/d/schemas/v1/oa/actors.json"), &vocab).unwrap();
    let ctx = doc.get("@context").unwrap();
    same(ctx.get("oa").unwrap(), &s("https://raise.io/oa#"));
    let mut has_ctx = obj(vec![("@context", s("keep"))]);
    m.apply_semantic_logic(&mut has_ctx, None, &vocab).unwrap();
    same(has_ctx.get("@context").unwrap(), &s("keep"));
    let _ = JsonNumber::from_int(0);
}
