use raise::error::ErrorCode;
use raise::json::{JsonNumber, JsonValue};
use raise::migrations::{applied_ids_of, migration_record, pending_migrations, Migration, MigrationStep, Migrator, StepAction};
use raise::paths::JsonDbConfig;
use raise::query::{ComparisonOperator, Condition, FilterOperator, Projection, Query, QueryFilter, SortField, SortOrder};
use raise::query_eval::{evaluate_condition, get_field_value_smart, match_like_smart, strip_quotes};
use raise::query_exec::{index_probes, primary_key_of, resolve_collection_paths, QueryEngine};

fn obj(entries: Vec<(&str, JsonValue)>) -> JsonValue {
    let mut v = JsonValue::new_object();
    for (k, x) in entries {
        v.insert(k, x);
    }
    v
}

fn s(x: &str) -> JsonValue {
    JsonValue::from_str(x)
}

fn num(i: i64) -> JsonValue {
    JsonValue::from_i64(i)
}

fn query(coll: &str, filter: Option<QueryFilter>) -> Query {
    Query { collection: coll.into(), filter, sort: None, limit: None, offset: None, projection: None }
}

#[test]
fn test_evaluate_condition_logic() {
    let doc = obj(vec![("age", num(25)), ("tags", JsonValue::Array(vec![s("a"), s("b")]))]);
    assert!(evaluate_condition(&doc, &Condition::gt("age", num(20)), "col"));
    assert!(!evaluate_condition(&doc, &Condition::lt("age", num(20)), "col"));
    assert!(evaluate_condition(&doc, &Condition::contains("tags", s("a")), "col"));
    assert!(evaluate_condition(&doc, &Condition::contains("tags", s("A")), "col"));
    assert!(!evaluate_condition(&doc, &Condition::contains("tags", s("c")), "col"));
}

#[test]
fn test_condition_operators() {
    let doc = obj(vec![
        ("name", s("Alice Dev")),
        ("score", JsonValue::Number(JsonNumber::decimal(150, 1))),
        ("meta", obj(vec![("Role", s("admin"))])),
    ]);
    assert!(evaluate_condition(&doc, &Condition::eq("score", JsonValue::Number(JsonNumber::decimal(15, 0))), "c"));
    assert!(evaluate_condition(&doc, &Condition::starts_with("name", s("Ali")), "c"));
    assert!(evaluate_condition(&doc, &Condition::ends_with("name", s("Dev")), "c"));
    assert!(evaluate_condition(&doc, &Condition::eq("c.meta.role", s("'admin'")), "c"));
    assert!(evaluate_condition(&doc, &Condition::eq("role", s("admin")), "c"));
    assert!(evaluate_condition(&doc, &Condition::in_list("name", JsonValue::Array(vec![s("x"), s("Alice Dev")])), "c"));
    assert!(evaluate_condition(&doc, &Condition::new("name", ComparisonOperator::Like, s("a%dev")), "c"));
    assert!(!evaluate_condition(&doc, &Condition::new("name", ComparisonOperator::Like, s("b%")), "c"));
    assert!(evaluate_condition(&doc, &Condition::ne("missing", s("x")), "c"));
    assert!(evaluate_condition(&doc, &Condition::gte("missing2", JsonValue::null()), "c") == false);
}

#[test]
fn test_smart_like_and_array() {
    let doc = obj(vec![("_id", s("1")), ("tags", JsonValue::Array(vec![s("rust"), s("code")]))]);
    assert!(evaluate_condition(&doc, &Condition::new("tags", ComparisonOperator::Like, s("rust")), "docs"));
    assert!(match_like_smart("Hello World", "%WORLD"));
    assert!(match_like_smart("Hello World", "h%o%d"));
    assert!(!match_like_smart("Hello World", "h%z%d"));
    assert!(match_like_smart("abc", "b"));
}

#[test]
fn test_strip_quotes_and_lookup() {
    assert_eq!(strip_quotes(&s(" '\"x\"' ")).as_str().map(|x| x.as_str()), Some("x"));
    assert_eq!(strip_quotes(&s("plain ")).as_str().map(|x| x.as_str()), Some("plain "));
    let doc = obj(vec![("Outer", obj(vec![("Inner", num(3))]))]);
    assert!(get_field_value_smart(&doc, "outer.inner", "c").is_some());
    assert!(get_field_value_smart(&doc, "inner", "c").is_some());
    assert!(get_field_value_smart(&doc, "nope", "c").is_none());
}

#[test]
fn test_full_query_execution() {
    let docs = vec![
        obj(vec![("_id", s("1")), ("age", num(20)), ("role", s("user"))]),
        obj(vec![("_id", s("2")), ("age", num(30)), ("role", s("admin"))]),
    ];
    let q = query(
        "users",
        Some(QueryFilter { operator: FilterOperator::And, conditions: vec![Condition::eq("role", s("admin"))] }),
    );
    let engine = QueryEngine::new();
    let result = engine.finish_query(&q, docs);
    assert_eq!(result.total_count, 1);
    assert_eq!(result.documents[0].get("_id").and_then(|v| v.as_str()).map(|x| x.as_str()), Some("2"));
}

#[test]
fn test_sort_page_project() {
    let docs = vec![
        obj(vec![("n", s("b")), ("k", num(2))]),
        obj(vec![("n", s("a")), ("k", num(1))]),
        obj(vec![("n", s("c")), ("k", num(2))]),
    ];
    let mut q = query("t", None);
    q.sort = Some(vec![
        SortField { field: "k".into(), order: SortOrder::Desc },
        SortField { field: "n".into(), order: SortOrder::Asc },
    ]);
    q.offset = Some(1);
    q.limit = Some(5);
    q.projection = Some(Projection::Include(vec!["n".into()]));
    let r = QueryEngine::new().finish_query(&q, docs);
    assert_eq!(r.total_count, 3);
    assert_eq!(r.documents.len(), 2);
    assert_eq!(r.documents[0].stringify(), "{\"n\":\"c\"}");
    assert_eq!(r.documents[1].stringify(), "{\"n\":\"a\"}");
    assert_eq!(r.offset, Some(1));
    assert_eq!(r.limit, Some(5));

    let mut q2 = query("t", None);
    q2.projection = Some(Projection::Exclude(vec!["t.K".into()]));
    let r2 = QueryEngine::new().finish_query(&q2, vec![obj(vec![("n", s("x")), ("k", num(1))])]);
    assert_eq!(r2.documents[0].stringify(), "{\"n\":\"x\"}");
    assert_eq!(r2.limit, Some(1));
}

#[test]
fn test_primary_key_and_probes() {
    let q = query(
        "users",
        Some(QueryFilter {
            operator: FilterOperator::And,
            conditions: vec![Condition::eq("_id", num(3)), Condition::eq("@id", s("u1")), Condition::eq("users.profile.email", s("x"))],
        }),
    );
    assert_eq!(primary_key_of(&q), Some("u1".to_string()));
    let probes = index_probes(&q);
    assert_eq!(probes.len(), 4);
    assert_eq!(probes[2].2, "profile.email");
    assert_eq!(probes[3].2, "email");
    assert_eq!(primary_key_of(&query("users", None)), None);
}

#[test]
fn test_resolve_collection_paths() {
    let idx = vec!["oa/actors".to_string(), "sa/actors".to_string(), "users".to_string()];
    assert_eq!(resolve_collection_paths("actors", &idx), vec!["oa/actors".to_string(), "sa/actors".to_string()]);
    assert_eq!(resolve_collection_paths("users", &idx), vec!["users".to_string()]);
    assert_eq!(resolve_collection_paths("x/y", &idx), vec!["x/y".to_string()]);
    assert_eq!(resolve_collection_paths("none", &idx), vec!["none".to_string()]);
}

fn migration(id: &str, version: &str) -> Migration {
    Migration { id: id.into(), version: version.into(), description: "d".into(), up: vec![], down: vec![], applied_at: None }
}

#[test]
fn test_pending_migrations_order() {
    let declared = vec![migration("m3", "2.0.0"), migration("m1", "1.0.0"), migration("m2", "1.10.0"), migration("m0", "1.0.0")];
    let applied = vec!["m1".to_string()];
    let pending = pending_migrations(declared, &applied).unwrap();
    let ids: Vec<&str> = pending.iter().map(|m| m.id.as_str()).collect();
    assert_eq!(ids, vec!["m0", "m2", "m3"]);
    let err = pending_migrations(vec![migration("a", "1.0"), migration("b", "x.0.0")], &applied).unwrap_err();
    assert_eq!(err.code, ErrorCode::MigrationVersionFormatInvalid);
}

#[test]
fn test_migration_steps() {
    let m = Migrator::new(&JsonDbConfig::new("/data"), "s", "d");
    let add = MigrationStep::AddField { collection: "users".into(), field: "active".into(), default: Some(JsonValue::from_bool(true)) };
    let doc = obj(vec![("_id", s("user_1")), ("name", s("Alice"))]);
    let out = m.transform_document(&add, &doc).unwrap();
    assert_eq!(out.get("active").and_then(|v| v.as_bool()), Some(true));
    assert!(m.transform_document(&add, &out).is_none());
    let rename = MigrationStep::RenameField { collection: "p".into(), old_name: "cost".into(), new_name: "price".into() };
    let renamed = m.transform_document(&rename, &obj(vec![("_id", s("p1")), ("cost", num(100))])).unwrap();
    assert!(renamed.get("cost").is_none());
    assert_eq!(renamed.get("price").and_then(|v| v.as_number()).and_then(|n| n.as_u64()), Some(100));
    let remove = MigrationStep::RemoveField { collection: "p".into(), field: "price".into() };
    assert!(m.transform_document(&remove, &renamed).unwrap().get("price").is_none());
    match m.plan_step(&MigrationStep::CreateIndex { collection: "c".into(), fields: vec!["f".into(), "g".into()] }).unwrap() {
        StepAction::CreateIndex { field, kind, .. } => {
            assert_eq!(field, "f");
            assert_eq!(kind, "btree");
        }
        _ => panic!("index step expected"),
    }
    assert_eq!(
        m.plan_step(&MigrationStep::CreateIndex { collection: "c".into(), fields: vec![] }).unwrap_err().code,
        ErrorCode::MigrationIndexEmpty
    );
    assert_eq!(
        m.plan_step(&MigrationStep::CreateCollection { name: "c".into(), schema: num(1) }).unwrap_err().code,
        ErrorCode::MigrationSchemaMissing
    );
    assert!(matches!(m.plan_step(&MigrationStep::Custom { handler: "noop".into(), params: JsonValue::null() }).unwrap(), StepAction::Nothing));
    assert_eq!(
        m.plan_step(&MigrationStep::Custom { handler: "x".into(), params: JsonValue::null() }).unwrap_err().code,
        ErrorCode::MigrationCustomHandlerNotFound
    );
}

#[test]
fn test_migration_record_and_ids() {
    let rec = migration_record(&migration("m1", "1.2.0"), "2024-01-01T00:00:00+00:00");
    assert_eq!(rec.get("handle").and_then(|v| v.as_str()).map(|x| x.as_str()), Some("migration_1_2_0"));
    let ids = applied_ids_of(&vec![rec, obj(vec![("_id", num(1))]), obj(vec![("_id", s("m2"))])]);
    assert_eq!(ids, vec!["m1".to_string(), "m2".to_string()]);
}
