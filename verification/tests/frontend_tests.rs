use raise::dev_setup::{demo_invoice_schema, demo_user_document, dev_schema_uri, model_functions_schema};
use raise::frontend::{
    genetics_params, plugin_loaded_message, plugin_run_response, ChunkAction, ToggleAction, TransactionResult,
    VoiceState, VoiceStatus,
};
use raise::frontend::{active_space_and_db, codegen_domain, CodegenDomain};
use raise::ingest::{extract_elements, plan_ingestion, ElementRoute};
use raise::error::ErrorCode;
use raise::json::JsonValue;

fn obj(entries: Vec<(&str, JsonValue)>) -> JsonValue {
    let mut v = JsonValue::new_object();
    for (k, x) in entries {
        v.insert(k, x);
    }
    v
}

fn same(a: &JsonValue, b: &JsonValue) {
    assert_eq!(a.stringify(), b.stringify());
}

fn s(x: &str) -> JsonValue {
    JsonValue::from_str(x)
}

#[test]
fn test_transaction_result_serialization() {
    let res = TransactionResult {
        success: true,
        message: "Test OK".into(),
        payload: Some(obj(vec![("id", JsonValue::from_i64(1))])),
    };
    let json = res.to_json().stringify();
    assert!(json.contains("\"success\":true"));
}

#[test]
fn test_cognitive_commands_interface() {
    let code = 0;
    let signals = vec![obj(vec![("type", s("LOG")), ("data", s("test"))])];
    let response = plugin_run_response(code, signals);

    same(response.get("exit_code").unwrap(), &JsonValue::from_i64(0));
    assert!(response.get("signals").unwrap().is_array());
}

#[test]
fn test_module_exports() {
    // The optimisation node's parameters are reachable from the crate root.
    let reader: fn(&JsonValue) -> Result<(Vec<String>, Vec<String>), raise::error::RaiseError> = genetics_params;
    let _ = reader;
    assert!(true);
}

#[test]
fn test_transaction_result_without_payload() {
    let res = TransactionResult { success: false, message: "KO".into(), payload: None };
    assert_eq!(res.to_json().stringify(), "{\"success\":false,\"message\":\"KO\",\"payload\":null}");
    assert_eq!(plugin_loaded_message("p1"), "Plugin p1 chargé avec succès");
}

#[test]
fn test_voice_session_toggle() {
    let mut st = VoiceState::new();
    assert!(!st.is_listening);
    assert_eq!(st.toggle(), ToggleAction::Start { load_engine: true });
    st.started();
    assert!(st.is_listening);
    assert!(matches!(st.on_transcript(None), ChunkAction::Skip));
    assert!(matches!(st.on_transcript(Some("   ")), ChunkAction::Resume));
    match st.on_transcript(Some("open the model")) {
        ChunkAction::Dispatch { text } => assert_eq!(text, "open the model"),
        _ => panic!("dispatch expected"),
    }
    assert_eq!(st.toggle(), ToggleAction::Stop);
    assert!(!st.is_listening && !st.listener_active);
    assert!(matches!(st.on_transcript(Some("late")), ChunkAction::Stop));
    assert_eq!(st.toggle(), ToggleAction::Start { load_engine: false });
    assert_eq!(VoiceStatus::Thinking.as_str(), "thinking");
}

#[test]
fn test_genetics_params() {
    let params = obj(vec![
        ("functions", JsonValue::Array(vec![s("f1"), JsonValue::from_i64(2), s("f2")])),
        ("components", JsonValue::Array(vec![s("c1")])),
    ]);
    let (f, c) = genetics_params(&params).unwrap();
    assert_eq!(f, vec!["f1".to_string(), "f2".to_string()]);
    assert_eq!(c, vec!["c1".to_string()]);
    assert_eq!(genetics_params(&obj(vec![])).unwrap_err().code, ErrorCode::GeneticsMissingFunctions);
    let no_comp = obj(vec![("functions", JsonValue::Array(vec![]))]);
    assert_eq!(genetics_params(&no_comp).unwrap_err().code, ErrorCode::GeneticsMissingComponents);
}

#[test]
fn test_ingestion_routing() {
    let arr = JsonValue::Array(vec![obj(vec![("@type", s("LogicalFunction"))]), obj(vec![("name", s("x"))])]);
    assert_eq!(extract_elements(&arr).unwrap().len(), 2);
    let wrapped = obj(vec![("meta", s("m")), ("items", arr)]);
    let els = extract_elements(&wrapped).unwrap();
    assert_eq!(els.len(), 2);
    assert_eq!(extract_elements(&obj(vec![("a", s("b"))])).unwrap_err().code, ErrorCode::FormatElementsMissing);
    assert_eq!(extract_elements(&s("x")).unwrap_err().code, ErrorCode::FormatUnrecognized);
    let mapping = obj(vec![(
        "mappings",
        obj(vec![
            ("LogicalFunction", obj(vec![("layer", s("la")), ("collection", s("functions"))])),
            ("Unknown", obj(vec![])),
        ]),
    )]);
    let routes = plan_ingestion(&mapping, &els, "sys").unwrap();
    match &routes[0] {
        ElementRoute::Target { kind, layer, collection } => {
            assert_eq!(kind, "LogicalFunction");
            assert_eq!(layer, "la");
            assert_eq!(collection, "functions");
        },
        _ => panic!("target expected"),
    }
    assert!(matches!(&routes[1], ElementRoute::CollectionUndefined { kind } if kind == "Unknown"));
    assert_eq!(plan_ingestion(&s("x"), &els, "sys").unwrap_err().code, ErrorCode::MappingPropertyMissing);
}

#[test]
fn test_dev_setup_documents() {
    let user = demo_user_document();
    assert_eq!(user.stringify(), "{\"_id\":\"u_dev\",\"id\":\"u_dev\",\"name\":\"Alice Dev\",\"tjm\":500.0}");
    let inv = demo_invoice_schema();
    assert_eq!(inv.get("x_rules").unwrap().as_array().unwrap().len(), 3);
    assert_eq!(inv.get("properties").unwrap().as_object().unwrap().len(), 6);
    let model = model_functions_schema();
    let rules = model.get("x_rules").unwrap().as_array().unwrap();
    same(rules[1].get("id").unwrap(), &s("check_naming"));
    assert_eq!(dev_schema_uri("sp", "db", "la/functions.json"), "db://sp/db/schemas/v1/la/functions.json");
}

#[test]
fn test_codegen_domain_and_active_model() {
    assert_eq!(codegen_domain("Rust").unwrap(), CodegenDomain::Software);
    assert_eq!(codegen_domain("VHDL").unwrap(), CodegenDomain::Hardware);
    assert_eq!(codegen_domain("doc").unwrap(), CodegenDomain::System);
    assert_eq!(codegen_domain("cobol").unwrap_err().code, ErrorCode::CodegenDomainUnsupported);
    assert_eq!(active_space_and_db("ws/db1/extra"), ("ws".to_string(), "db1".to_string()));
    assert_eq!(active_space_and_db("single"), ("default".to_string(), "default".to_string()));
}

#[test]
fn system_info_reports_local_api() {
    let info = raise::frontend::system_info("1.2.3", "development", "/data");
    assert_eq!(info.app_version, "1.2.3");
    assert_eq!(info.env_mode, "development");
    assert_eq!(info.api_status, "Connecté en local");
    assert_eq!(info.database_path, "/data");
}
