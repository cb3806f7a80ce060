use raise::bootstrap::SchemaBootstrapper;
use raise::collections::CollectionsManager;
use raise::compute::{
    is_truthy, parse_scope, parse_update, resolve_ptr, schema_has_default_like, schema_has_x_compute, ComputeOptions,
    Scope, Update,
};
use raise::data_provider::{value_of, CachedDataProvider};
use raise::graph_text::extract_text_content;
use raise::json::JsonValue;
use raise::paths::JsonDbConfig;

fn obj(entries: Vec<(&str, JsonValue)>) -> JsonValue {
    let mut v = JsonValue::new_object();
    for (k, x) in entries {
        v.insert(k, x);
    }
    v
}

fn s(x: &str) -> JsonValue {
    JsonValue::from_str(x)
}

fn num(i: i64) -> JsonValue {
    JsonValue::from_i64(i)
}

#[test]
fn test_cached_provider_memoization() {
    let mut p = CachedDataProvider::new("sp", "db");
    assert!(p.cached("users", "u1").is_none());
    p.remember("users", "u1", Some(obj(vec![("score", num(100))])));
    p.remember("users", "u2", None);
    let hit = p.cached("users", "u1").unwrap().unwrap();
    assert_eq!(value_of(&hit, "score").unwrap().stringify(), "100");
    assert!(p.cached("users", "u2").unwrap().is_none());
    let doc = obj(vec![("profile", obj(vec![("email", s("a@x"))]))]);
    assert_eq!(value_of(&doc, "profile.email").unwrap().stringify(), "\"a@x\"");
    assert_eq!(value_of(&doc, "/profile/email").unwrap().stringify(), "\"a@x\"");
    assert!(value_of(&doc, "profile.phone").is_none());
}

#[test]
fn test_bootstrapper_injects_schemas() {
    let b = SchemaBootstrapper::new(CollectionsManager::new(&JsonDbConfig::new("/d"), "sp", "db"));
    let mut sys = obj(vec![("name", s("x"))]);
    b.prepare_index(&mut sys);
    assert!(sys.get("schemas").unwrap().is_object());
    assert!(b.inject_schema(&mut sys, "v2/identity/session.schema.json", obj(vec![("type", s("object"))])));
    assert!(!b.inject_schema(&mut sys, "loose.json", obj(vec![])));
    let v2 = sys.get("schemas").unwrap().get("v2").unwrap();
    assert!(v2.get("identity/session.schema.json").is_some());
}

#[test]
fn test_compute_schema_detection() {
    let nested = obj(vec![("allOf", JsonValue::Array(vec![obj(vec![]), obj(vec![("x_compute", obj(vec![]))])]))]);
    assert!(schema_has_x_compute(&nested));
    assert!(!schema_has_x_compute(&obj(vec![("type", s("string"))])));
    assert!(schema_has_default_like(&obj(vec![("anyOf", JsonValue::Array(vec![obj(vec![("enum", JsonValue::Array(vec![]))])]))])));
    assert!(!schema_has_default_like(&nested));
}

#[test]
fn test_compute_options_and_modes() {
    let o = ComputeOptions::new();
    assert_eq!(o.max_passes, 4);
    assert!(!o.strict_ptr);
    assert_eq!(parse_scope(Some("root")), Scope::Root);
    assert_eq!(parse_scope(None), Scope::SelfNode);
    assert_eq!(parse_update(Some("always")), Update::Always);
    assert_eq!(parse_update(Some("if_null")), Update::IfNull);
    assert_eq!(parse_update(Some("whatever")), Update::IfMissing);
}

#[test]
fn test_truthiness() {
    assert!(is_truthy(&num(3)));
    assert!(!is_truthy(&num(0)));
    assert!(!is_truthy(&s("false")));
    assert!(!is_truthy(&s("0")));
    assert!(is_truthy(&s("no")));
    assert!(!is_truthy(&JsonValue::Null));
    assert!(!is_truthy(&JsonValue::Array(vec![])));
    assert!(is_truthy(&obj(vec![("a", num(1))])));
}

#[test]
fn test_resolve_ptr_scopes() {
    let root = obj(vec![
        ("total", num(9)),
        ("lines", JsonValue::Array(vec![obj(vec![("qty", num(2)), ("price", num(5))])])),
    ]);
    let base = vec!["lines".to_string(), "0".to_string()];
    assert_eq!(resolve_ptr(&root, &base, "#/qty", Scope::SelfNode, false).unwrap().stringify(), "2");
    // Not found under the node: falls back to the root.
    assert_eq!(resolve_ptr(&root, &base, "#/total", Scope::SelfNode, false).unwrap().stringify(), "9");
    assert!(resolve_ptr(&root, &base, "#/total", Scope::SelfNode, true).is_none());
    assert_eq!(resolve_ptr(&root, &base, "#/../0/price", Scope::SelfNode, false).unwrap().stringify(), "5");
    assert_eq!(resolve_ptr(&root, &base, "#/lines/0/price", Scope::Root, false).unwrap().stringify(), "5");
    assert!(resolve_ptr(&root, &base, "lines", Scope::Root, false).is_none());
}

#[test]
fn graph_text_prefers_description_then_content_then_name() {
    let mut v = JsonValue::new_object();
    v.insert("name", JsonValue::from_str("N"));
    assert_eq!(extract_text_content(&v), "N");
    v.insert("content", JsonValue::from_str("C"));
    assert_eq!(extract_text_content(&v), "C");
    v.insert("description", JsonValue::from_str("D"));
    assert_eq!(extract_text_content(&v), "D");
    let mut w = JsonValue::new_object();
    w.insert("name", JsonValue::from_i64(3));
    assert_eq!(extract_text_content(&w), "{\"name\":3}");
}
