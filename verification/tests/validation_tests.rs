use modular::graph::{ModuleState, PatchGraph, Scope, ScopeChannel};
use modular::json::JsonValue;
use modular::validation::{format_module_location, validate_patch, validate_patch_graph, ModuleSchema, OutputSchema, ValidationError};

fn text(s: &str) -> JsonValue {
    JsonValue::Str(s.to_string())
}

fn number(s: &str) -> JsonValue {
    JsonValue::Number(s.to_string())
}

fn object(members: Vec<(&str, JsonValue)>) -> JsonValue {
    JsonValue::Object(members.into_iter().map(|(k, v)| (k.to_string(), v)).collect())
}

fn signal_ref(def: &str) -> JsonValue {
    object(vec![("$ref", text(&format!("#/$defs/{}", def)))])
}

fn cable(module: &str, port: &str) -> JsonValue {
    object(vec![("type", text("cable")), ("module", text(module)), ("port", text(port))])
}

fn output(name: &str) -> OutputSchema {
    OutputSchema { name: name.to_string(), description: String::new(), polyphonic: true, default: true }
}

fn schema(name: &str, properties: Vec<(&str, JsonValue)>) -> ModuleSchema {
    ModuleSchema {
        name: name.to_string(),
        description: String::new(),
        params_schema: object(vec![("type", text("object")), ("properties", object(properties))]),
        outputs: vec![output("output")],
        positional_args: vec![],
    }
}

/// The module schemas the scenarios need: an oscillator, a signal router,
/// a mixer with a list of inputs, and a noise source without signal params.
fn schemas() -> Vec<ModuleSchema> {
    vec![
        schema("$sine", vec![("freq", signal_ref("PolySignal"))]),
        schema(
            "$signal",
            vec![("source", object(vec![("anyOf", JsonValue::Array(vec![signal_ref("PolySignal"), object(vec![("type", text("null"))])]))]))],
        ),
        schema(
            "$mix",
            vec![
                ("inputs", object(vec![("type", text("array")), ("items", signal_ref("PolySignal"))])),
                ("mode", object(vec![("type", text("string"))])),
            ],
        ),
        schema("$noise", vec![("color", object(vec![("type", text("string"))]))]),
    ]
}

fn module(id: &str, module_type: &str, params: JsonValue) -> ModuleState {
    ModuleState { id: id.to_string(), module_type: module_type.to_string(), id_is_explicit: None, params }
}

fn patch(modules: Vec<ModuleState>) -> PatchGraph {
    PatchGraph { modules, module_id_remaps: None, scopes: vec![] }
}

#[test]
fn test_valid_patch() {
    let p = patch(vec![module("sine-1", "$sine", object(vec![("freq", number("4.0"))]))]);
    assert!(validate_patch(&p, &schemas()).is_ok());
}

#[test]
fn test_unknown_module_type() {
    let p = patch(vec![module("foo-1", "unknown-module", object(vec![]))]);
    let errors = validate_patch(&p, &schemas()).unwrap_err();
    assert_eq!(errors.len(), 1);
    assert!(errors[0].message.contains("Unknown module type"));
}

#[test]
fn test_cable_to_nonexistent_module() {
    let p = patch(vec![module("root", "$signal", object(vec![("source", cable("nonexistent", "output"))]))]);
    let errors = validate_patch(&p, &schemas()).unwrap_err();
    assert_eq!(errors.len(), 1);
    assert!(errors[0].message.contains("not found for cable source"));
}

#[test]
fn test_cable_to_invalid_port() {
    let p = patch(vec![
        module("sine-1", "$sine", object(vec![("freq", number("4.0"))])),
        module("root", "$signal", object(vec![("source", cable("sine-1", "invalid_port"))])),
    ]);
    let errors = validate_patch(&p, &schemas()).unwrap_err();
    assert_eq!(errors.len(), 1);
    assert!(errors[0].message.contains("Output port 'invalid_port' not found"));
}

#[test]
fn test_nested_signal_cable_to_nonexistent_module() {
    let p = patch(vec![module(
        "nested-1",
        "$mix",
        object(vec![("inputs", JsonValue::Array(vec![cable("nonexistent", "output")]))]),
    )]);
    let errors = validate_patch(&p, &schemas()).unwrap_err();
    assert!(errors.iter().any(|e| {
        e.location.as_deref() == Some("$mix(...)")
            && e.field == "params.inputs"
            && e.message.contains("not found for cable source")
    }));
}

#[test]
fn test_nested_signal_valid_cable_connection() {
    let p = patch(vec![
        module("sine-1", "$sine", object(vec![("freq", number("4.0"))])),
        module("nested-1", "$mix", object(vec![("inputs", JsonValue::Array(vec![cable("sine-1", "output")]))])),
    ]);
    assert!(validate_patch(&p, &schemas()).is_ok());
}

#[test]
fn test_valid_cable_connection() {
    let p = patch(vec![
        module("sine-1", "$sine", object(vec![("freq", number("4.0"))])),
        module("signal-1", "$signal", object(vec![("source", cable("sine-1", "output"))])),
    ]);
    assert!(validate_patch(&p, &schemas()).is_ok());
}

#[test]
fn test_empty_patch_is_valid() {
    let p = PatchGraph { modules: Vec::new(), module_id_remaps: None, scopes: vec![] };
    assert!(validate_patch(&p, &schemas()).is_ok());
}

#[test]
fn test_null_params_is_tolerated() {
    let p = patch(vec![module("noise-1", "$noise", JsonValue::Null)]);
    assert!(validate_patch(&p, &schemas()).is_ok());
}

#[test]
fn params_of_the_wrong_shape_are_reported_with_their_text() {
    let p = patch(vec![module("sine-1", "$sine", JsonValue::Array(vec![number("1"), JsonValue::Bool(true)]))]);
    let errors = validate_patch(&p, &schemas()).unwrap_err();
    assert_eq!(errors.len(), 1);
    let e: &ValidationError = &errors[0];
    assert_eq!(e.field, "params");
    assert_eq!(e.message, "Module params must be a JSON object");
    assert_eq!(e.location.as_deref(), Some("$sine(...)"));
    assert_eq!(e.expected_type.as_deref(), Some("an object with parameter values"));
    assert_eq!(e.actual_value.as_deref(), Some("[1,true]"));
}

#[test]
fn long_params_text_is_shortened() {
    let long = "x".repeat(200);
    let p = patch(vec![module("sine-1", "$sine", text(&long))]);
    let errors = validate_patch(&p, &schemas()).unwrap_err();
    let shown = errors[0].actual_value.clone().unwrap();
    assert_eq!(shown.len(), 100);
    assert!(shown.starts_with("\"xxx"));
    assert!(shown.ends_with("..."));
}

#[test]
fn cables_to_the_hidden_audio_input_are_accepted() {
    let p = patch(vec![module("root", "$signal", object(vec![("source", cable("HIDDEN_AUDIO_IN", "anything"))]))]);
    assert!(validate_patch(&p, &schemas()).is_ok());
}

#[test]
fn cable_source_of_unknown_type_is_reported() {
    let p = patch(vec![
        module("weird", "mystery", JsonValue::Null),
        module("root", "$signal", object(vec![("source", cable("weird", "output"))])),
    ]);
    let errors = validate_patch(&p, &schemas()).unwrap_err();
    assert_eq!(errors.len(), 2);
    assert_eq!(errors[0].message, "Unknown module type 'mystery'");
    assert_eq!(errors[1].message, "Unknown module type 'mystery' for cable source module 'weird'");
    assert_eq!(errors[1].field, "params.source");
}

#[test]
fn buffer_references_must_name_a_module() {
    let buffer_ref = object(vec![("type", text("buffer_ref")), ("module", text("ghost"))]);
    let p = patch(vec![module("mix-1", "$mix", object(vec![("inputs", JsonValue::Array(vec![buffer_ref]))]))]);
    let errors = validate_patch(&p, &schemas()).unwrap_err();
    assert_eq!(errors.len(), 1);
    assert_eq!(errors[0].message, "buffer_ref references module 'ghost' which does not exist in the patch");
}

#[test]
fn params_without_signal_schema_are_not_searched() {
    let p = patch(vec![module("mix-1", "$mix", object(vec![("mode", cable("nowhere", "output")), ("__argument_spans", cable("nowhere", "x"))]))]);
    assert!(validate_patch(&p, &schemas()).is_ok());
}

#[test]
fn scopes_are_checked() {
    let mut p = patch(vec![module("sine-1", "$sine", JsonValue::Null), module("odd", "mystery", JsonValue::Null)]);
    p.scopes = vec![
        Scope { channels: vec![] },
        Scope {
            channels: vec![
                ScopeChannel { module_id: "sine-1".to_string(), port_name: "output".to_string() },
                ScopeChannel { module_id: "missing".to_string(), port_name: "output".to_string() },
                ScopeChannel { module_id: "sine-1".to_string(), port_name: "nope".to_string() },
                ScopeChannel { module_id: "odd".to_string(), port_name: "output".to_string() },
            ],
        },
    ];
    let errors = validate_patch(&p, &schemas()).unwrap_err();
    let messages: Vec<&str> = errors.iter().map(|e| e.message.as_str()).collect();
    assert_eq!(
        messages,
        vec![
            "Unknown module type 'mystery'",
            "Scope has no channels",
            "Scope references missing module 'missing'",
            "Scope references missing output port 'nope' on module 'sine-1'",
            "Scope references module 'odd' with unknown type 'mystery'",
        ]
    );
    assert!(errors[1..].iter().all(|e| e.field == "scopes" && e.location.is_none()));
}

#[test]
fn explicit_ids_are_shown_quoted() {
    let mut m = module("myOsc", "$sine", JsonValue::Null);
    assert_eq!(format_module_location(&m), "$sine(...)");
    m.id_is_explicit = Some(true);
    assert_eq!(format_module_location(&m), "'myOsc'");
    m.id_is_explicit = Some(false);
    assert_eq!(format_module_location(&m), "$sine(...)");
}

#[test]
fn patch_graph_lists_all_problems() {
    let good = patch(vec![module("sine-1", "$sine", object(vec![("freq", number("4.0"))]))]);
    assert!(validate_patch_graph(&good, &schemas()).is_empty());
    let bad = patch(vec![
        module("foo-1", "unknown-module", object(vec![])),
        module("root", "$signal", object(vec![("source", cable("nonexistent", "output"))])),
    ]);
    let errors = validate_patch_graph(&bad, &schemas());
    assert_eq!(errors.len(), 2);
    assert!(errors[0].message.contains("Unknown module type"));
    assert!(errors[1].message.contains("not found for cable source"));
}

#[test]
fn validation_error_as_text() {
    let with_location = ValidationError {
        field: "freq".to_string(),
        message: "bad value".to_string(),
        location: Some("'osc'".to_string()),
        expected_type: None,
        actual_value: None,
    };
    assert_eq!(with_location.to_string(), "freq: bad value (at 'osc')");
    let without = ValidationError {
        field: "source".to_string(),
        message: "missing".to_string(),
        location: None,
        expected_type: None,
        actual_value: None,
    };
    assert_eq!(without.to_string(), "source: missing");
}
