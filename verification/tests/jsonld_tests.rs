use raise::context::{ArcadiaLayer, ContextJsonValue, ContextManager};
use raise::error::ErrorCode;
use raise::json::JsonValue;
use raise::processor::{JsonLdProcessor, RdfGraph, RdfNode};
use raise::vocabulary::VocabularyRegistry;

fn obj(entries: Vec<(&str, JsonValue)>) -> JsonValue {
    let mut v = JsonValue::new_object();
    for (k, x) in entries {
        v.insert(k, x);
    }
    v
}

fn s(x: &str) -> JsonValue {
    JsonValue::from_str(x)
}

fn setup_test_processor() -> JsonLdProcessor {
    let registry = VocabularyRegistry::init_mock_for_tests();
    JsonLdProcessor::new(&registry)
}

#[test]
fn test_context_json_value_facade_integrity() {
    let simple_json = s("https://raise.io/oa#Activity");
    let val_simple = ContextJsonValue::from_json(&simple_json).unwrap();
    assert_eq!(val_simple.get_iri(), Some("https://raise.io/oa#Activity"));
    assert!(val_simple.get_type().is_none());

    let expanded_json = obj(vec![
        ("@id", s("https://raise.io/oa#Actor")),
        ("@type", s("@id")),
        ("@container", s("@set")),
    ]);
    let val_ext = ContextJsonValue::from_json(&expanded_json).unwrap();
    assert_eq!(val_ext.get_iri(), Some("https://raise.io/oa#Actor"));
    assert_eq!(val_ext.get_type(), Some("@id"));

    let original = ContextJsonValue::Expanded {
        id: Some("https://raise.io/oa#name".into()),
        type_: Some("xsd:string".into()),
        container: None,
        language: None,
    };
    let serialized = original.to_json();
    assert_eq!(
        serialized.get("@id").and_then(|v| v.as_str()).map(|x| x.as_str()),
        Some("https://raise.io/oa#name")
    );
    let back = ContextJsonValue::from_json(&serialized).unwrap();
    assert_eq!(back.get_iri(), original.get_iri());
}

#[test]
fn test_context_json_value_refuses_bad_members() {
    let bad = obj(vec![("@id", JsonValue::from_i64(3))]);
    assert!(ContextJsonValue::from_json(&bad).is_none());
    assert!(ContextJsonValue::from_json(&JsonValue::from_i64(3)).is_none());
    let with_null = obj(vec![("@id", JsonValue::null())]);
    let v = ContextJsonValue::from_json(&with_null).unwrap();
    assert_eq!(v.get_iri(), None);
}

#[test]
fn test_lazy_validation_success() {
    let processor = setup_test_processor();
    let doc = obj(vec![("@id", s("urn:uuid:123")), ("oa:name", s("Mission Alpha"))]);
    let full_iri = "https://raise.io/oa#name";
    processor.validate_required_fields(&doc, &["@id", "oa:name"]).unwrap();
    processor.validate_required_fields(&doc, &[full_iri]).unwrap();
}

#[test]
fn test_validation_reports_first_missing_field() {
    let processor = setup_test_processor();
    let doc = obj(vec![("@id", s("urn:uuid:123"))]);
    let err = processor
        .validate_required_fields(&doc, &["@id", "oa:name", "oa:other"])
        .unwrap_err();
    assert_eq!(err.code, ErrorCode::SemanticFieldMissing);
    assert_eq!(err.detail, "oa:name");
}

#[test]
fn test_to_ntriples_robustness() {
    let processor = setup_test_processor();
    let mut doc = obj(vec![
        ("@id", s("urn:uuid:456")),
        ("oa:name", s("Alpha")),
        ("oa:count", JsonValue::from_i64(10)),
    ]);
    let nt = processor.to_ntriples(&mut doc).unwrap();
    assert!(nt.contains("<urn:uuid:456> <https://raise.io/oa#name> \"Alpha\" ."));
    assert!(nt.contains("\"10\"^^<http://www.w3.org/2001/XMLSchema#integer>"));

    let mut doc_anon = obj(vec![("oa:name", s("Anonyme"))]);
    let nt_anon = processor.to_ntriples(&mut doc_anon).unwrap();
    assert!(nt_anon.starts_with("_:b0"), "Devrait générer un Blank Node pour un doc sans ID.");
}

#[test]
fn test_to_ntriples_exact_lines() {
    let processor = setup_test_processor();
    let mut doc = obj(vec![
        ("@id", s("urn:x")),
        ("oa:tags", JsonValue::Array(vec![s("a\"b"), s("http://e.org/t")])),
        ("oa:ok", JsonValue::from_bool(true)),
    ]);
    let nt = processor.to_ntriples(&mut doc).unwrap();
    assert_eq!(
        nt,
        "<urn:x> <https://raise.io/oa#tags> \"a\\\"b\" .\n\
         <urn:x> <https://raise.io/oa#tags> <http://e.org/t> .\n\
         <urn:x> <https://raise.io/oa#ok> \"true\"^^<http://www.w3.org/2001/XMLSchema#boolean> ."
    );
}

#[test]
fn test_expand_in_place_zero_allocation() {
    let processor = setup_test_processor();
    let mut doc = obj(vec![
        ("@id", s("urn:uuid:123")),
        ("@type", s("oa:OperationalActivity")),
        ("oa:name", s("Surveiller Zone")),
    ]);
    processor.expand_in_place(&mut doc);
    let type_val = doc.get("@type").and_then(|v| v.as_str()).unwrap();
    assert_eq!(type_val, "https://raise.io/oa#OperationalActivity");
    assert!(doc.get("https://raise.io/oa#name").is_some());
    assert!(doc.get("oa:name").is_none());
}

#[test]
fn test_compact_after_expand_restores_keys() {
    let processor = setup_test_processor();
    let mut doc = obj(vec![
        ("@type", s("oa:OperationalActivity")),
        ("oa:name", s("Surveiller Zone")),
    ]);
    processor.expand_in_place(&mut doc);
    processor.compact_in_place(&mut doc);
    assert_eq!(doc.get("@type").and_then(|v| v.as_str()).unwrap(), "oa:OperationalActivity");
    assert_eq!(doc.get("oa:name").and_then(|v| v.as_str()).unwrap(), "Surveiller Zone");
}

#[test]
fn test_get_types_and_id() {
    let processor = setup_test_processor();
    let doc = obj(vec![
        ("@id", s("urn:a")),
        ("@type", JsonValue::Array(vec![s("oa:Actor"), JsonValue::from_i64(1), s("oa:Entity")])),
    ]);
    assert_eq!(processor.get_types(&doc), vec!["oa:Actor".to_string(), "oa:Entity".to_string()]);
    assert_eq!(processor.get_primary_type(&doc), Some("oa:Actor".to_string()));
    assert_eq!(processor.get_id(&doc), Some("urn:a".to_string()));
    assert_eq!(processor.get_primary_type(&JsonValue::null()), None);
}

#[test]
fn test_is_iri() {
    assert!(VocabularyRegistry::is_iri("http://raise.io"));
    assert!(VocabularyRegistry::is_iri("urn:uuid:123"));
    assert!(!VocabularyRegistry::is_iri("oa:Activity"));
}

#[test]
fn test_dynamic_parsing_and_inheritance() {
    let mut reg = VocabularyRegistry::new();
    let doc = obj(vec![
        ("@context", obj(vec![("test", s("http://test.org/"))])),
        (
            "@graph",
            JsonValue::Array(vec![
                obj(vec![
                    ("@id", s("http://test.org/Animal")),
                    ("@type", s("owl:Class")),
                    ("rdfs:label", s("Animal")),
                ]),
                obj(vec![
                    ("@id", s("http://test.org/Chat")),
                    ("@type", s("owl:Class")),
                    ("rdfs:subClassOf", s("http://test.org/Animal")),
                ]),
                obj(vec![
                    ("@id", s("test:owner")),
                    ("@type", s("owl:ObjectProperty")),
                    ("rdfs:domain", s("test:Chat")),
                ]),
            ]),
        ),
    ]);
    reg.load_layer_from_json("mock", &doc).unwrap();
    let ctx = reg.get_default_context();
    assert_eq!(ctx[0].0, "test");
    assert_eq!(ctx[0].1, "http://test.org/");
    assert!(reg.has_class("http://test.org/Animal"));
    assert!(reg.has_class("http://test.org/Chat"));
    assert_eq!(reg.get_class("http://test.org/Chat").unwrap().label, "http://test.org/Chat");
    assert!(reg.is_subtype_of("http://test.org/Chat", "http://test.org/Animal"));
    assert!(!reg.is_subtype_of("http://test.org/Animal", "http://test.org/Chat"));
    let owner = reg.get_property("http://test.org/owner").unwrap();
    assert_eq!(owner.domain.as_deref(), Some("http://test.org/Chat"));
    assert!(reg.get_context_for_layer("mock").is_some());
}

#[test]
fn test_load_without_context_is_refused() {
    let mut reg = VocabularyRegistry::new();
    let err = reg.load_layer_from_json("x", &obj(vec![("@graph", JsonValue::new_array())])).unwrap_err();
    assert_eq!(err.code, ErrorCode::JsonLdContextMissing);
    assert!(reg.get_context_for_layer("x").is_none());
}

#[test]
fn test_test_registry_hierarchy() {
    let reg = VocabularyRegistry::init_test_registry();
    assert!(reg.is_subtype_of(
        "https://raise.io/ontology/raise#QualityRule",
        "https://raise.io/ontology/arcadia#QualityRule"
    ));
    assert_eq!(
        reg.expand_internal_term("oa:Activity"),
        "https://raise.io/ontology/arcadia/oa#Activity"
    );
}

#[test]
fn test_infinite_recursion_protection() {
    let reg = VocabularyRegistry::init_mock_for_tests();
    let mut manager = ContextManager::new(&reg);
    manager.active_mappings.push(("A".to_string(), "B".to_string()));
    manager.active_mappings.push(("B".to_string(), "A".to_string()));
    assert_eq!(manager.expand_term("A"), "A");
}

#[test]
fn test_deep_alias_resolution() {
    let reg = VocabularyRegistry::init_mock_for_tests();
    let mut manager = ContextManager::new(&reg);
    let doc = obj(vec![("@context", obj(vec![("Acteur", s("oa:OperationalActor"))]))]);
    manager.load_from_doc(&doc);
    assert_eq!(manager.expand_term("Acteur"), "https://raise.io/oa#OperationalActor");
}

#[test]
fn test_expansion_compaction_roundtrip() {
    let reg = VocabularyRegistry::init_mock_for_tests();
    let manager = ContextManager::new(&reg);
    for term in ["oa:Activity", "sa:Function"] {
        let expanded = manager.expand_term(term);
        assert_eq!(term, manager.compact_iri(&expanded));
    }
}

#[test]
fn test_load_malformed_json_resilience() {
    let reg = VocabularyRegistry::init_mock_for_tests();
    let mut manager = ContextManager::new(&reg);
    let count_before = manager.active_mappings.len();
    manager.load_from_doc(&JsonValue::null());
    manager.load_from_doc(&obj(vec![("@context", JsonValue::Array(vec![JsonValue::from_i64(123)]))]));
    assert_eq!(manager.active_mappings.len(), count_before);
}

#[test]
fn test_layer_names() {
    assert_eq!(ArcadiaLayer::OA.as_str(), "oa");
    assert_eq!(ArcadiaLayer::Transverse.as_str(), "transverse");
}

#[test]
fn test_rdf_graph_subjects_sorted_distinct() {
    let mut g = RdfGraph::new();
    g.add_triple("b".into(), "p".into(), RdfNode::Literal("1".into()));
    g.add_triple("a".into(), "p".into(), RdfNode::IRI("urn:x".into()));
    g.add_triple("b".into(), "q".into(), RdfNode::BlankNode("_:b".into()));
    assert_eq!(g.subjects(), vec!["a".to_string(), "b".to_string()]);
    assert_eq!(g.triples().len(), 3);
}

#[test]
fn loading_a_prefix_again_replaces_it_without_repeating_it() {
    let reg = VocabularyRegistry::init_mock_for_tests();
    let mut manager = ContextManager::new(&reg);
    let count_before = manager.active_mappings.len();
    let doc = obj(vec![(
        "@context",
        JsonValue::Array(vec![
            obj(vec![("oa", s("https://example.org/oa#")), ("ex", s("https://example.org/ex#"))]),
            obj(vec![("ex", s("https://example.org/other#"))]),
        ]),
    )]);
    manager.load_from_doc(&doc);
    assert_eq!(manager.active_mappings.len(), count_before + 1);
    let mut keys: Vec<&String> = manager.active_mappings.iter().map(|p| &p.0).collect();
    keys.sort();
    keys.dedup();
    assert_eq!(keys.len(), manager.active_mappings.len());
    assert_eq!(manager.expand_term("ex:a"), "https://example.org/other#a");
    assert_eq!(manager.expand_term("oa:b"), "https://example.org/oa#b");
}
