use raise::error::ErrorCode;
use raise::json::{JsonNumber, JsonValue};
use raise::schema_defaults::{ComputeStep, SchemaValidator};
use raise::schema_registry::SchemaRegistry;
use raise::schema_uri::{pointer, resolve_path_uri, split_uri_fragment};

fn obj(entries: Vec<(&str, JsonValue)>) -> JsonValue {
    let mut v = JsonValue::new_object();
    for (k, x) in entries {
        v.insert(k, x);
    }
    v
}

fn s(x: &str) -> JsonValue {
    JsonValue::from_str(x)
}

fn num(i: i64) -> JsonValue {
    JsonValue::from_i64(i)
}

fn dec(m: i64, scale: u32) -> JsonValue {
    JsonValue::Number(JsonNumber::decimal(m, scale))
}

fn setup_validator(schema: JsonValue) -> SchemaValidator {
    let mut reg = SchemaRegistry::new();
    reg.register("db://test/schema".to_string(), schema);
    SchemaValidator::compile_with_registry("db://test/schema", &reg).unwrap()
}

#[test]
fn test_string_constraints() {
    let v = setup_validator(obj(vec![
        ("type", s("string")),
        ("minLength", num(3)),
        ("maxLength", num(5)),
        ("pattern", s("^[A-Z]+$")),
    ]));
    assert!(v.validate(&s("TEST")).is_ok());
    assert!(v.validate(&s("TE")).is_err());
    assert!(v.validate(&s("TESTING")).is_err());
    assert!(v.validate(&s("test")).is_err());
}

#[test]
fn test_string_error_codes() {
    let v = setup_validator(obj(vec![
        ("type", s("string")),
        ("minLength", num(3)),
        ("maxLength", num(5)),
        ("pattern", s("^[A-Z]+$")),
    ]));
    assert_eq!(v.validate(&s("TE")).unwrap_err().code, ErrorCode::ValidationStringTooShort);
    assert_eq!(v.validate(&s("TESTING")).unwrap_err().code, ErrorCode::ValidationStringTooLong);
    assert_eq!(v.validate(&s("test")).unwrap_err().code, ErrorCode::ValidationPatternMismatch);
    assert_eq!(v.validate(&num(3)).unwrap_err().code, ErrorCode::ValidationTypeMismatch);
    let bad = setup_validator(obj(vec![("type", s("string")), ("pattern", s("("))]));
    assert_eq!(bad.validate(&s("x")).unwrap_err().code, ErrorCode::SchemaInvalidRegex);
}

#[test]
fn test_number_constraints() {
    let v = setup_validator(obj(vec![
        ("type", s("number")),
        ("minimum", dec(105, 1)),
        ("maximum", dec(200, 1)),
    ]));
    assert!(v.validate(&num(15)).is_ok());
    assert!(v.validate(&dec(105, 1)).is_ok());
    assert!(v.validate(&num(5)).is_err());
    assert!(v.validate(&dec(215, 1)).is_err());
}

#[test]
fn test_integer_type_refuses_fractions() {
    let v = setup_validator(obj(vec![("type", s("integer")), ("maximum", num(10))]));
    assert!(v.validate(&num(10)).is_ok());
    assert_eq!(v.validate(&dec(25, 1)).unwrap_err().code, ErrorCode::ValidationTypeMismatch);
    assert_eq!(v.validate(&num(11)).unwrap_err().code, ErrorCode::ValidationNumberTooLarge);
}

#[test]
fn test_apply_defaults_basic() {
    let v = setup_validator(obj(vec![
        ("type", s("object")),
        (
            "properties",
            obj(vec![
                ("active", obj(vec![("type", s("boolean")), ("default", JsonValue::from_bool(true))])),
                ("version", obj(vec![("type", s("integer")), ("default", num(1))])),
            ]),
        ),
    ]));
    let mut data = JsonValue::new_object();
    assert!(matches!(
        v.compute_then_validate(&mut data, &Vec::new()).expect("L'hydratation doit réussir"),
        ComputeStep::Valid
    ));
    assert_eq!(data.get("active").and_then(|x| x.as_bool()), Some(true));
    assert_eq!(data.get("version").and_then(|x| x.as_number()).and_then(|n| n.as_u64()), Some(1));
}

#[test]
fn test_object_rules() {
    let v = setup_validator(obj(vec![
        ("type", s("object")),
        ("required", JsonValue::Array(vec![s("name")])),
        ("properties", obj(vec![("name", obj(vec![("type", s("string"))]))])),
        ("patternProperties", obj(vec![("^x_", obj(vec![("type", s("number"))]))])),
        ("additionalProperties", JsonValue::from_bool(false)),
    ]));
    assert!(v.validate(&obj(vec![("name", s("a")), ("x_n", num(1))])).is_ok());
    assert_eq!(
        v.validate(&obj(vec![("x_n", num(1))])).unwrap_err().code,
        ErrorCode::ValidationRequiredFieldMissing
    );
    assert_eq!(
        v.validate(&obj(vec![("name", num(1))])).unwrap_err().code,
        ErrorCode::ValidationNestedPropertyFail
    );
    assert_eq!(
        v.validate(&obj(vec![("name", s("a")), ("x_n", s("no"))])).unwrap_err().code,
        ErrorCode::ValidationPatternPropertyFail
    );
    assert_eq!(
        v.validate(&obj(vec![("name", s("a")), ("other", num(1))])).unwrap_err().code,
        ErrorCode::ValidationAdditionalPropertyForbidden
    );
    assert!(v.validate(&obj(vec![("name", s("a")), ("@context", num(1))])).is_ok());
}

#[test]
fn test_array_rules() {
    let v = setup_validator(obj(vec![
        ("type", s("array")),
        ("minItems", num(1)),
        ("maxItems", num(2)),
        ("items", obj(vec![("type", s("string"))])),
    ]));
    assert!(v.validate(&JsonValue::Array(vec![s("a")])).is_ok());
    assert_eq!(v.validate(&JsonValue::new_array()).unwrap_err().code, ErrorCode::ValidationArrayTooSmall);
    assert_eq!(
        v.validate(&JsonValue::Array(vec![s("a"), s("b"), s("c")])).unwrap_err().code,
        ErrorCode::ValidationArrayTooLarge
    );
    assert_eq!(
        v.validate(&JsonValue::Array(vec![num(1)])).unwrap_err().code,
        ErrorCode::ValidationArrayItemFail
    );
}

#[test]
fn test_refs_across_schemas() {
    let mut reg = SchemaRegistry::new();
    reg.register(
        "db://s/d/schemas/v1/common/defs.json".to_string(),
        obj(vec![("definitions", obj(vec![("name", obj(vec![("type", s("string"))]))]))]),
    );
    reg.register(
        "db://s/d/schemas/v1/users/user.json".to_string(),
        obj(vec![
            ("type", s("object")),
            (
                "properties",
                obj(vec![("name", obj(vec![("$ref", s("../common/defs.json#/definitions/name"))]))]),
            ),
        ]),
    );
    let v = SchemaValidator::compile_with_registry("db://s/d/schemas/v1/users/user.json", &reg).unwrap();
    assert!(v.validate(&obj(vec![("name", s("a"))])).is_ok());
    assert!(v.validate(&obj(vec![("name", num(1))])).is_err());

    let missing = setup_validator(obj(vec![("$ref", s("other.json"))]));
    assert_eq!(missing.validate(&num(1)).unwrap_err().code, ErrorCode::SchemaRefNotFound);
    let bad_ptr = setup_validator(obj(vec![("$ref", s("#/nothing"))]));
    assert_eq!(bad_ptr.validate(&num(1)).unwrap_err().code, ErrorCode::SchemaPointerNotFound);
    let cyclic = setup_validator(obj(vec![("$ref", s("#"))]));
    assert_eq!(cyclic.validate(&num(1)).unwrap_err().code, ErrorCode::SchemaRefTooDeep);
}

#[test]
fn test_compile_unknown_schema() {
    let reg = SchemaRegistry::new();
    let err = SchemaValidator::compile_with_registry("db://x/y/schemas/v1/a.json", &reg).unwrap_err();
    assert_eq!(err.code, ErrorCode::SchemaNotInRegistry);
}

#[test]
fn test_registry_fallback_to_mounts() {
    let mut reg = SchemaRegistry::new();
    reg.register("db://_system/_system/schemas/v1/a.json".to_string(), s("sys"));
    reg.register("db://raise/core/schemas/v1/b.json".to_string(), s("core"));
    reg.mounts.push(("raise".to_string(), "core".to_string()));
    assert_eq!(
        reg.get_by_uri("db://any/db/schemas/v1/a.json").and_then(|x| x.as_str()).map(|x| x.as_str()),
        Some("sys")
    );
    assert_eq!(
        reg.get_by_uri("db://any/db/schemas/v1/b.json").and_then(|x| x.as_str()).map(|x| x.as_str()),
        Some("core")
    );
    assert!(reg.get_by_uri("db://any/db/schemas/v1/c.json").is_none());
    assert!(reg.get_by_uri("no-schemas-here").is_none());
    assert_eq!(reg.uri("users/u.json"), "db://unknown/unknown/schemas/v2/users/u.json");
    assert_eq!(reg.list_uris().len(), 2);
}

#[test]
fn test_schema_ddl_operations_in_memory() {
    let mut reg = SchemaRegistry::new();
    let uri = "db://test/db/schemas/v2/products/product.schema.json";
    let initial = obj(vec![
        ("type", s("object")),
        ("properties", obj(vec![("name", obj(vec![("type", s("string"))]))])),
    ]);
    reg.create_schema(uri, initial).unwrap();
    assert!(reg.get_by_uri(uri).is_some());
    assert_eq!(
        reg.create_schema(uri, JsonValue::new_object()).unwrap_err().code,
        ErrorCode::SchemaAlreadyExists
    );

    reg.add_property(uri, "price", obj(vec![("type", s("number"))])).unwrap();
    let props = reg.get_by_uri(uri).unwrap().get("properties").unwrap();
    assert!(props.get("price").unwrap().is_object());
    assert_eq!(
        reg.add_property(uri, "price", JsonValue::new_object()).unwrap_err().code,
        ErrorCode::SchemaPropAlreadyExists
    );

    reg.alter_property(uri, "price", obj(vec![("type", s("number")), ("minimum", num(0))])).unwrap();
    let price = reg.get_by_uri(uri).unwrap().get("properties").unwrap().get("price").unwrap();
    assert_eq!(price.get("minimum").and_then(|x| x.as_number()).and_then(|n| n.as_u64()), Some(0));

    reg.drop_property(uri, "name").unwrap();
    assert!(!reg.get_by_uri(uri).unwrap().get("properties").unwrap().contains_key("name"));
    assert_eq!(reg.drop_property(uri, "name").unwrap_err().code, ErrorCode::SchemaPropNotFound);

    reg.drop_schema(uri).unwrap();
    assert!(reg.get_by_uri(uri).is_none());
    assert_eq!(reg.drop_schema(uri).unwrap_err().code, ErrorCode::SchemaNotFound);
}

#[test]
fn test_resolve_path_uri_forms() {
    assert_eq!(resolve_path_uri("db://s/d/schemas/v1/a/b.json", "c.json"), "db://s/d/schemas/v1/a/c.json");
    assert_eq!(resolve_path_uri("db://s/d/schemas/v1/a/b.json", "../x/c.json"), "db://s/d/schemas/v1/x/c.json");
    assert_eq!(resolve_path_uri("db://s/d/schemas/v1/a/b.json", "./c.json#/p"), "db://s/d/schemas/v1/a/c.json#/p");
    assert_eq!(resolve_path_uri("db://s/d/a.json", "db://o/p/q.json"), "db://o/p/q.json");
    assert_eq!(resolve_path_uri("db://s/d/a.json", ""), "db://s/d/a.json");
    assert_eq!(resolve_path_uri("a/b.json", "/abs/c.json"), "abs/c.json");
    let (f, frag) = split_uri_fragment("db://a/b.json#/x/y");
    assert_eq!(f, "db://a/b.json");
    assert_eq!(frag.as_deref(), Some("#/x/y"));
    assert_eq!(split_uri_fragment("plain").1, None);
}

#[test]
fn test_json_pointer() {
    let doc = obj(vec![
        ("a", JsonValue::Array(vec![num(1), obj(vec![("b/c", num(2)), ("d~e", num(3))])])),
    ]);
    assert!(pointer(&doc, "").is_some());
    assert_eq!(pointer(&doc, "/a/0").and_then(|x| x.as_number()).and_then(|n| n.as_u64()), Some(1));
    assert_eq!(pointer(&doc, "/a/1/b~1c").and_then(|x| x.as_number()).and_then(|n| n.as_u64()), Some(2));
    assert_eq!(pointer(&doc, "/a/1/d~0e").and_then(|x| x.as_number()).and_then(|n| n.as_u64()), Some(3));
    assert!(pointer(&doc, "/a/01").is_none());
    assert!(pointer(&doc, "/a/2").is_none());
    assert!(pointer(&doc, "a").is_none());
}

#[test]
fn list_schemas_sorted_once_each() {
    let mut reg = SchemaRegistry::new();
    reg.register("db://s/d/schemas/v1/b.json".to_string(), JsonValue::new_object());
    reg.register("db://s/d/schemas/v1/a.json".to_string(), JsonValue::new_object());
    reg.register("db://s/d/schemas/v1/c.json".to_string(), JsonValue::new_object());
    let cfg = raise::paths::JsonDbConfig::new("/tmp/raise");
    let mgr = raise::collections::CollectionsManager::new(&cfg, "s", "d");
    assert_eq!(
        mgr.list_schemas(&reg),
        vec![
            "db://s/d/schemas/v1/a.json".to_string(),
            "db://s/d/schemas/v1/b.json".to_string(),
            "db://s/d/schemas/v1/c.json".to_string()
        ]
    );
}

#[test]
fn registered_uris_never_repeat() {
    let mut reg = SchemaRegistry::new();
    reg.register("db://s/d/schemas/v1/a.json".to_string(), JsonValue::new_object());
    reg.register("db://s/d/schemas/v1/b.json".to_string(), JsonValue::new_object());
    reg.register("db://s/d/schemas/v1/a.json".to_string(), JsonValue::from_i64(1));
    assert_eq!(
        reg.list_uris(),
        vec!["db://s/d/schemas/v1/a.json".to_string(), "db://s/d/schemas/v1/b.json".to_string()]
    );
    assert!(SchemaRegistry::new().list_uris().is_empty());
}

/// Fills an instance, giving a fresh identifier to each `uuid_v4`
/// computation asked for.
fn fill_with_uuids(v: &SchemaValidator, data: &mut JsonValue) -> usize {
    let mut computed = Vec::new();
    loop {
        match v.compute_then_validate(data, &computed).unwrap() {
            ComputeStep::Valid => return computed.len(),
            ComputeStep::NeedPlan { op, .. } => {
                assert_eq!(op, "uuid_v4");
                computed.push(JsonValue::String(uuid::Uuid::new_v4().to_string()));
            }
        }
    }
}

#[test]
fn test_dual_schema_x_compute() {
    let mut reg = SchemaRegistry::new();
    let plan = || obj(vec![("update", s("if_missing")), ("plan", obj(vec![("op", s("uuid_v4"))]))]);
    reg.register(
        "db://test/v1".to_string(),
        obj(vec![
            ("type", s("object")),
            ("properties", obj(vec![("Id", obj(vec![("type", s("string")), ("x_compute", plan())]))])),
        ]),
    );
    reg.register(
        "db://test/v2".to_string(),
        obj(vec![
            ("type", s("object")),
            ("properties", obj(vec![("_id", obj(vec![("type", s("string")), ("x_compute", plan())]))])),
        ]),
    );

    let v1 = SchemaValidator::compile_with_registry("db://test/v1", &reg).unwrap();
    let v2 = SchemaValidator::compile_with_registry("db://test/v2", &reg).unwrap();

    let mut data_v1 = JsonValue::new_object();
    let mut data_v2 = JsonValue::new_object();

    fill_with_uuids(&v1, &mut data_v1);
    fill_with_uuids(&v2, &mut data_v2);

    assert!(data_v1.get("Id").is_some(), "Le schéma v1 n'a pas injecté 'Id'");
    assert!(data_v2.get("_id").is_some(), "Le schéma v2 n'a pas injecté '_id'");
}

#[test]
fn x_compute_strategies() {
    let mut reg = SchemaRegistry::new();
    let prop = |update: &str| {
        obj(vec![("x_compute", obj(vec![("update", s(update)), ("plan", obj(vec![("op", s("uuid_v4"))]))]))])
    };
    reg.register(
        "db://test/s".to_string(),
        obj(vec![(
            "properties",
            obj(vec![("a", prop("if_missing")), ("b", prop("always")), ("c", prop("never"))]),
        )]),
    );
    let v = SchemaValidator::compile_with_registry("db://test/s", &reg).unwrap();
    let mut data = obj(vec![("a", s("kept")), ("b", s("old")), ("c", s("old"))]);
    let mut before = obj(vec![("a", s("kept")), ("b", s("old")), ("c", s("old"))]);
    match v.compute_then_validate(&mut before, &Vec::new()).unwrap() {
        ComputeStep::NeedPlan { op, .. } => assert_eq!(op, "uuid_v4"),
        ComputeStep::Valid => panic!("a computation is needed"),
    }
    assert_eq!(before.get("b").unwrap().stringify(), "\"old\"");
    let used = fill_with_uuids(&v, &mut data);
    assert_eq!(used, 1);
    assert_eq!(data.get("a").unwrap().stringify(), "\"kept\"");
    assert_ne!(data.get("b").unwrap().stringify(), "\"old\"");
    assert_eq!(data.get("c").unwrap().stringify(), "\"old\"");
    let mut nulls = obj(vec![("a", s("kept")), ("b", s("old")), ("c", s("old"))]);
    assert!(matches!(
        v.compute_then_validate(&mut nulls, &vec![JsonValue::null()]).unwrap(),
        ComputeStep::Valid
    ));
    assert_eq!(nulls.get("b").unwrap().stringify(), "\"old\"");
}
