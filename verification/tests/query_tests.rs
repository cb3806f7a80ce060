use raise::error::ErrorCode;
use raise::json::JsonValue;
use raise::optimizer::QueryOptimizer;
use raise::parser::{parse_filter_from_json, parse_projection, parse_sort_specs, QueryBuilder};
use raise::query::{ComparisonOperator, Condition, FilterOperator, Projection, Query, QueryFilter, SortOrder};

fn obj(entries: Vec<(&str, JsonValue)>) -> JsonValue {
    let mut v = JsonValue::new_object();
    for (k, x) in entries {
        v.insert(k, x);
    }
    v
}

#[test]
fn test_condition_helpers() {
    let c = Condition::gt("age", JsonValue::from_i64(18));
    assert_eq!(c.operator, ComparisonOperator::Gt);
    assert_eq!(c.field, "age");
}

#[test]
fn test_query_serialization() {
    let query = Query {
        collection: "users".into(),
        filter: Some(QueryFilter {
            operator: FilterOperator::And,
            conditions: vec![Condition::eq("age", JsonValue::from_i64(18))],
        }),
        sort: None,
        limit: Some(10),
        offset: None,
        projection: Some(Projection::Include(vec!["name".into()])),
    };

    let json_str = query.to_json().stringify();
    assert!(json_str.contains("\"users\""));
    assert!(json_str.contains("\"age\""));
    assert!(json_str.contains("\"Include\""));
}

#[test]
fn test_query_json_exact_text() {
    let mut query = Query::new("users");
    query.limit = Some(10);
    query.filter = Some(QueryFilter {
        operator: FilterOperator::Or,
        conditions: vec![Condition::eq("age", JsonValue::from_i64(18))],
    });
    assert_eq!(
        query.to_json().stringify(),
        "{\"collection\":\"users\",\"filter\":{\"operator\":\"Or\",\"conditions\":[{\"field\":\"age\",\"operator\":\"Eq\",\"value\":18}]},\"sort\":null,\"limit\":10,\"offset\":null,\"projection\":null}"
    );
}

#[test]
fn test_optimize_reorder() {
    let optimizer = QueryOptimizer::new();

    let mut query = Query::new("users");
    query.filter = Some(QueryFilter {
        operator: FilterOperator::And,
        conditions: vec![
            Condition {
                field: "bio".into(),
                operator: ComparisonOperator::Contains,
                value: JsonValue::from_str("developer"),
            },
            Condition {
                field: "status".into(),
                operator: ComparisonOperator::Eq,
                value: JsonValue::from_str("active"),
            },
        ],
    });

    let optimized = optimizer.optimize(query).unwrap();
    let filter = optimized.filter.unwrap();

    assert_eq!(filter.conditions[0].field, "status");
    assert_eq!(filter.conditions[1].field, "bio");
}

#[test]
fn test_deduplicate() {
    let optimizer = QueryOptimizer::new();
    let cond = Condition {
        field: "a".into(),
        operator: ComparisonOperator::Eq,
        value: JsonValue::from_i64(1),
    };
    let conditions = vec![cond.duplicate(), cond.duplicate()];

    let unique = optimizer.deduplicate_conditions(&conditions);
    assert_eq!(unique.len(), 1);
}

#[test]
fn test_deduplicate_keeps_distinct_values() {
    let optimizer = QueryOptimizer::new();
    let conditions = vec![
        Condition::eq("a", JsonValue::from_i64(1)),
        Condition::eq("a", JsonValue::from_str("1")),
        Condition::eq("a", JsonValue::from_i64(1)),
        Condition::ne("a", JsonValue::from_i64(1)),
    ];
    let unique = optimizer.deduplicate_conditions(&conditions);
    assert_eq!(unique.len(), 3);
    assert_eq!(unique[2].operator, ComparisonOperator::Ne);
}

#[test]
fn test_optimize_pagination() {
    let optimizer = QueryOptimizer::new();
    let mut query = Query::new("users");
    query.limit = Some(10000);

    let optimized = optimizer.optimize(query).unwrap();
    assert_eq!(optimized.limit, Some(1000));
}

#[test]
fn test_optimize_offset_gets_default_limit() {
    let optimizer = QueryOptimizer::new();
    let mut query = Query::new("users");
    query.offset = Some(20);
    let optimized = optimizer.optimize(query).unwrap();
    assert_eq!(optimized.limit, Some(100));
    assert_eq!(optimized.offset, Some(20));
}

#[test]
fn test_optimize_stable_and_idempotent() {
    let optimizer = QueryOptimizer::new();
    let mut query = Query::new("users");
    query.filter = Some(QueryFilter {
        operator: FilterOperator::And,
        conditions: vec![
            Condition::ne("x", JsonValue::from_i64(1)),
            Condition::gt("b", JsonValue::from_i64(2)),
            Condition::eq("c", JsonValue::from_i64(3)),
            Condition::lt("d", JsonValue::from_i64(4)),
            Condition::eq("e", JsonValue::from_i64(5)),
        ],
    });
    let once = optimizer.optimize(query).unwrap();
    let fields: Vec<String> = once.filter.as_ref().unwrap().conditions.iter().map(|c| c.field.clone()).collect();
    assert_eq!(fields, vec!["c", "e", "b", "d", "x"]);
    let twice = optimizer.optimize(once).unwrap();
    let fields2: Vec<String> = twice.filter.as_ref().unwrap().conditions.iter().map(|c| c.field.clone()).collect();
    assert_eq!(fields2, fields);
}

#[test]
fn test_parse_filter_full() {
    let json_input = obj(vec![
        ("operator", JsonValue::from_str("and")),
        (
            "conditions",
            JsonValue::Array(vec![
                obj(vec![
                    ("field", JsonValue::from_str("age")),
                    ("operator", JsonValue::from_str("gte")),
                    ("value", JsonValue::from_i64(18)),
                ]),
                obj(vec![
                    ("field", JsonValue::from_str("name")),
                    ("operator", JsonValue::from_str("startswith")),
                    ("value", JsonValue::from_str("A")),
                ]),
            ]),
        ),
    ]);

    let filter = parse_filter_from_json(&json_input).unwrap();
    assert_eq!(filter.operator, FilterOperator::And);
    assert_eq!(filter.conditions.len(), 2);
    assert_eq!(filter.conditions[0].operator, ComparisonOperator::Gte);
    assert_eq!(filter.conditions[1].operator, ComparisonOperator::StartsWith);
}

#[test]
fn test_parse_filter_errors() {
    let not_object = JsonValue::from_i64(3);
    assert_eq!(parse_filter_from_json(&not_object).unwrap_err().code, ErrorCode::QueryParseType);

    let bad_cond = obj(vec![("conditions", JsonValue::Array(vec![JsonValue::from_i64(1)]))]);
    assert_eq!(parse_filter_from_json(&bad_cond).unwrap_err().code, ErrorCode::QueryParseCondType);

    let empty_field = obj(vec![(
        "conditions",
        JsonValue::Array(vec![obj(vec![("field", JsonValue::from_str(""))])]),
    )]);
    assert_eq!(parse_filter_from_json(&empty_field).unwrap_err().code, ErrorCode::QueryParseMissingField);

    let bad_op = obj(vec![(
        "conditions",
        JsonValue::Array(vec![obj(vec![
            ("field", JsonValue::from_str("a")),
            ("operator", JsonValue::from_str("between")),
        ])]),
    )]);
    assert_eq!(parse_filter_from_json(&bad_op).unwrap_err().code, ErrorCode::QueryParseOperator);

    let upper = obj(vec![
        ("operator", JsonValue::from_str("OR")),
        (
            "conditions",
            JsonValue::Array(vec![obj(vec![
                ("field", JsonValue::from_str("a")),
                ("operator", JsonValue::from_str("<>")),
            ])]),
        ),
    ]);
    let f = parse_filter_from_json(&upper).unwrap();
    assert_eq!(f.operator, FilterOperator::Or);
    assert_eq!(f.conditions[0].operator, ComparisonOperator::Ne);
    assert!(f.conditions[0].value.is_null());
}

#[test]
fn test_parse_projection() {
    let p = parse_projection(&["name".into(), "age".into()]).unwrap();
    match p {
        Projection::Include(v) => assert_eq!(v.len(), 2),
        _ => panic!("La projection devrait être de type 'Include'."),
    }

    let p_ex = parse_projection(&["-password".into()]).unwrap();
    match p_ex {
        Projection::Exclude(v) => assert_eq!(v[0], "password"),
        _ => panic!("La projection devrait être de type 'Exclude'."),
    }
    assert!(parse_projection(&[]).is_err());
}

#[test]
fn test_parse_sort_specs_forms() {
    let specs: Vec<String> = vec!["+name".into(), " -age ".into(), "created: DESC".into(), "score:up".into(), "plain".into()];
    let v = parse_sort_specs(&specs).unwrap();
    assert_eq!(v[0].field, "name");
    assert_eq!(v[0].order, SortOrder::Asc);
    assert_eq!(v[1].field, "age");
    assert_eq!(v[1].order, SortOrder::Desc);
    assert_eq!(v[2].field, "created");
    assert_eq!(v[2].order, SortOrder::Desc);
    assert_eq!(v[3].order, SortOrder::Asc);
    assert_eq!(v[4].field, "plain");
}

#[test]
fn test_query_builder() {
    let q = QueryBuilder::new("users")
        .where_eq("active", JsonValue::from_bool(true))
        .limit(5)
        .sort("created_at", SortOrder::Desc)
        .select(vec!["handle".into()])
        .unwrap()
        .build();

    assert_eq!(q.collection, "users");
    assert!(q.filter.is_some());
    assert_eq!(q.limit, Some(5));
    assert!(q.sort.is_some());
    assert!(q.projection.is_some());
}
