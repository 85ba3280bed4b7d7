use std::sync::Arc;

use nmbrs_runtime::adapter::{
    adapter_display_preference, adapter_driver_params, default_drivers, find_adapter_registration,
    find_driver, find_shared_driver, registered_adapter_params, registered_driver_names,
    resolve_driver_name, select_driver, AdapterError, AdapterRegistration, DisplayPreference,
    DriverImpl, ExecutionError, JsonBody, OpResult, Registry, ResolvedFields, ResultBody,
    SharedDriverRegistration, TextBody,
};
use nmbrs_runtime::executor::shell::OpShell;
use nmbrs_runtime::phase_outcome::{Disposition, Validity};
use nmbrs_runtime::strmap::StrMap;
use nmbrs_runtime::value::{Float, Json, JsonNumber, Value};

fn f64_value(f: f64) -> Value {
    Value::F64(Float { bits: f.to_bits(), text: f.to_string() })
}

fn texts(v: &[&str]) -> Vec<String> {
    v.iter().map(|s| s.to_string()).collect()
}

fn params(pairs: &[(&str, &str)]) -> StrMap<String> {
    let mut m = StrMap::new();
    for (k, v) in pairs {
        m.insert(k.to_string(), v.to_string());
    }
    m
}

#[test]
fn resolved_fields_lazy_strings() {
    let fields = ResolvedFields::new(texts(&["a", "b"]), vec![Value::U64(42), f64_value(3.5)]);
    assert_eq!(fields.get_str("a").as_deref(), Some("42"));
    assert_eq!(fields.get_str("b").as_deref(), Some("3.5"));
}

#[test]
fn resolved_fields_get_value() {
    let fields = ResolvedFields::new(texts(&["x"]), vec![f64_value(3.5)]);
    match fields.get_value("x") {
        Some(Value::F64(v)) => assert!((f64::from_bits(v.bits) - 3.5).abs() < 1e-10),
        other => panic!("expected F64(3.5), got {other:?}"),
    }
}

#[test]
fn execution_error_display() {
    let op_err = ExecutionError::Op(AdapterError {
        error_name: "Timeout".into(),
        message: "timed out".into(),
        retryable: true,
    });
    assert!(op_err.text().contains("[op]"));
    assert!(!op_err.is_adapter_level());

    let adapter_err = ExecutionError::Adapter(AdapterError {
        error_name: "ConnectionRefused".into(),
        message: "refused".into(),
        retryable: false,
    });
    assert!(adapter_err.text().contains("[adapter]"));
    assert!(adapter_err.is_adapter_level());
}

#[test]
fn execution_error_shows_level_name_and_message() {
    let e = ExecutionError::Op(AdapterError {
        error_name: "Timeout".into(),
        message: "timed out".into(),
        retryable: true,
    });
    assert_eq!(e.text(), "[op] [Timeout] timed out");
    assert_eq!(e.error().text(), "[Timeout] timed out");
}

#[test]
fn op_shell_projects_quadrants_and_payload() {
    // clean, no body -> Completed+Succeeded, no payload
    let o = OpShell::project(Ok(OpResult::default()));
    assert_eq!(o.disposition, Disposition::Completed);
    assert_eq!(o.validity, Validity::Succeeded);
    assert!(o.payload.is_none());

    // skipped -> Skipped
    assert_eq!(OpShell::project(Ok(OpResult::skipped())).disposition, Disposition::Skipped);

    // ran-and-errored -> Completed+Failed (NOT Interrupted), message on reason
    let err = ExecutionError::Op(AdapterError {
        error_name: "test".into(),
        message: "boom".into(),
        retryable: false,
    });
    let o = OpShell::project(Err(err));
    assert_eq!(o.disposition, Disposition::Completed);
    assert_eq!(o.validity, Validity::Failed);
    assert!(o.reason.as_deref().unwrap_or_default().contains("boom"));

    // clean WITH a body -> payload populated
    let r = OpResult { body: Some(Arc::new(TextBody("hi".into()))), skipped: false };
    let o = OpShell::project(Ok(r));
    assert_eq!(o.disposition, Disposition::Completed);
    assert!(o.payload.is_some());
}

#[test]
fn bodies_count_their_elements() {
    let body = TextBody("hi".into());
    assert_eq!(body.element_count(), 1);
    assert_eq!(body.byte_count(), None);
    assert_eq!(body.to_text(), "hi");
    assert!(matches!(body.to_json(), Json::Text(t) if t == "hi"));
    assert_eq!(JsonBody(Json::Array(vec![Json::Null, Json::Bool(true)])).element_count(), 2);
    assert_eq!(JsonBody(Json::Null).element_count(), 1);
}

#[test]
fn a_json_body_gives_its_value() {
    let mut members = StrMap::new();
    members.insert("n".to_string(), Json::Number(JsonNumber::Signed(-3)));
    members.insert("a".to_string(), Json::Text("x".to_string()));
    let body = JsonBody(Json::Array(vec![Json::Bool(true), Json::Object(members)]));
    let Json::Array(items) = body.to_json() else { panic!("an array") };
    assert_eq!(items.len(), 2);
    assert!(matches!(items[0], Json::Bool(true)));
    let Json::Object(copied) = &items[1] else { panic!("an object") };
    assert_eq!(copied.len(), 2);
    assert_eq!(copied.name_at(0), "a");
    assert!(matches!(copied.get("a"), Some(Json::Text(t)) if t == "x"));
    assert!(matches!(copied.get("n"), Some(Json::Number(JsonNumber::Signed(-3)))));
    assert_eq!(body.byte_count(), None);
}

#[test]
fn without_drops_every_field_of_that_name() {
    let fields = ResolvedFields::new(
        texts(&["a", "b", "a"]),
        vec![Value::U64(1), Value::Bool(true), Value::U64(2)],
    );
    let rest = fields.without("a");
    assert_eq!(rest.names, texts(&["b"]));
    assert_eq!(rest.values, vec![Value::Bool(true)]);
    assert_eq!(fields.get_str("a").as_deref(), Some("1"));
    assert_eq!(fields.get_str("z"), None);
    assert_eq!(fields.str_at(2), "2");
    assert_eq!(fields.strings(), texts(&["1", "true", "2"]));
}

#[test]
fn fields_as_json_keep_the_last_of_a_name() {
    let fields =
        ResolvedFields::new(texts(&["a", "a"]), vec![Value::U64(1), Value::Str("x".into())]);
    let m = fields.to_json();
    assert_eq!(m.len(), 1);
    assert!(matches!(m.get("a"), Some(Json::Text(t)) if t == "x"));
}

fn registry() -> Registry {
    Registry {
        adapters: vec![
            AdapterRegistration {
                names: texts(&["stdout"]),
                known_params: texts(&["filename"]),
                display_preference: DisplayPreference::Off,
            },
            AdapterRegistration {
                names: texts(&["cql", "cassandra"]),
                known_params: texts(&["trace"]),
                display_preference: DisplayPreference::Auto,
            },
        ],
        drivers: vec![
            DriverImpl {
                adapter: "cql".into(),
                driver: "scylla".into(),
                default_rank: 200,
                known_params: texts(&["hosts"]),
            },
            DriverImpl {
                adapter: "cql".into(),
                driver: "cassandra-cpp".into(),
                default_rank: 100,
                known_params: texts(&["port"]),
            },
        ],
        shared: vec![SharedDriverRegistration { adapter: "cql".into(), driver: "scylla".into() }],
    }
}

#[test]
fn registrations_are_found_by_any_name() {
    let r = registry();
    assert_eq!(find_adapter_registration(&r, "cassandra").unwrap().names[0], "cql");
    assert!(find_adapter_registration(&r, "http").is_none());
    assert_eq!(registered_driver_names(&r), texts(&["stdout", "cql", "cassandra"]));
    assert_eq!(registered_adapter_params(&r), texts(&["filename", "trace", "hosts", "port"]));
    assert_eq!(adapter_driver_params(&r, "cql"), texts(&["hosts", "port"]));
    assert_eq!(adapter_display_preference(&r, "stdout"), DisplayPreference::Off);
    assert_eq!(adapter_display_preference(&r, "http"), DisplayPreference::Auto);
}

#[test]
fn drivers_are_ranked_and_overridden() {
    let r = registry();
    assert_eq!(default_drivers(&r, "cql"), texts(&["cassandra-cpp", "scylla"]));
    assert!(find_driver(&r, "cql", "scylla").is_some());
    assert!(find_driver(&r, "cql", "other").is_none());
    assert!(find_shared_driver(&r, "cql", "scylla").is_some());
    assert!(find_shared_driver(&r, "cql", "cassandra-cpp").is_none());
    let none = params(&[]);
    assert_eq!(resolve_driver_name(&r, "cql", "cqldriver", &none).as_deref(), Some("cassandra-cpp"));
    let chosen = params(&[("cqldriver", " nope , scylla ")]);
    assert_eq!(resolve_driver_name(&r, "cql", "cqldriver", &chosen).as_deref(), Some("scylla"));
    assert_eq!(resolve_driver_name(&r, "http", "httpdriver", &none).as_deref(), Some("default"));
}

#[test]
fn driver_selection_says_what_is_missing() {
    let r = registry();
    assert_eq!(
        select_driver(&r, "http", "httpdriver", &params(&[])).err().unwrap(),
        "adapter 'http': no driver implementations registered. Build the binary with at least one driver feature enabled."
    );
    assert_eq!(
        select_driver(&r, "cql", "cqldriver", &params(&[("cqldriver", "x, y")])).err().unwrap(),
        "adapter 'cql': no driver in cqldriver='x,y' is compiled in; available drivers: [cassandra-cpp, scylla]"
    );
    assert!(select_driver(&r, "cql", "cqldriver", &params(&[])).is_ok());
}
