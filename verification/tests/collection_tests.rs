use raise::collections::{collection_from_schema_rel, parse_smart_link, CollectionsManager};
use raise::paths::{index_path, IndexType, JsonDbConfig};

#[test]
fn test_paths_structure() {
    let cfg = JsonDbConfig::new("/data");
    let s = index_path(&cfg, "space", "db", "users", "email", IndexType::Hash);

    assert!(s.contains("collections"));
    assert!(s.contains("users"));
    assert!(s.contains("_indexes"));
    assert!(s.ends_with("email.hash.idx"));
    assert_eq!(s, "/data/space/db/collections/users/_indexes/email.hash.idx");
}

#[test]
fn test_helper_collection_from_schema() {
    assert_eq!(collection_from_schema_rel("users/user.json"), "users");
    assert_eq!(collection_from_schema_rel("invoices/2023/inv.json"), "invoices");
    assert_eq!(collection_from_schema_rel("simple.json"), "simple");
    assert_eq!(collection_from_schema_rel("a.json.json"), "a");
}

#[test]
fn test_parse_smart_link_valid() {
    let input = "ref:oa_actors:name:Sécurité";
    let res = parse_smart_link(input);
    assert!(res.is_some());
    let (col, field, val) = res.unwrap();
    assert_eq!(col, "oa_actors");
    assert_eq!(field, "name");
    assert_eq!(val, "Sécurité");
}

#[test]
fn test_parse_smart_link_invalid_prefix() {
    assert!(parse_smart_link("uuid:1234-5678").is_none());
}

#[test]
fn test_parse_smart_link_missing_parts() {
    assert!(parse_smart_link("ref:oa_actors:name").is_none());
}

#[test]
fn test_parse_smart_link_complex_value() {
    let input = "ref:oa_actors:description:Ceci:est:une:description";
    let res = parse_smart_link(input);
    assert!(res.is_some());
    let (_col, _field, val) = res.unwrap();
    assert_eq!(val, "Ceci:est:une:description");
}

#[test]
fn test_build_schema_uri_forms() {
    let cfg = JsonDbConfig::new("/data");
    let m = CollectionsManager::new(&cfg, "sp", "db1");
    assert_eq!(m.build_schema_uri("db://x/y/schemas/v1/a.json"), "db://x/y/schemas/v1/a.json");
    assert_eq!(m.build_schema_uri("/schemas/v1/users/u.json"), "db://sp/db1/schemas/v1/users/u.json");
    assert_eq!(m.build_schema_uri("schemas/v1/users/u.json"), "db://sp/db1/schemas/v1/users/u.json");
    assert_eq!(m.build_schema_uri("users/u.json"), "db://sp/db1/schemas/v1/users/u.json");
}
