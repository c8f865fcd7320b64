use modular::json::JsonValue;
use modular::type_resolver::{
    get_enum_variants, is_valid_identifier, map_primitive, render_property_key, resolve_ref, schema_to_type_expr,
    ResolveError, ResolvedRef,
};

fn text(s: &str) -> JsonValue {
    JsonValue::Str(s.to_string())
}

fn object(members: Vec<(&str, JsonValue)>) -> JsonValue {
    JsonValue::Object(members.into_iter().map(|(k, v)| (k.to_string(), v)).collect())
}

fn array(items: Vec<JsonValue>) -> JsonValue {
    JsonValue::Array(items)
}

fn ty(t: &str) -> JsonValue {
    object(vec![("type", text(t))])
}

fn reference(r: &str) -> JsonValue {
    object(vec![("$ref", text(r))])
}

fn root() -> JsonValue {
    object(vec![(
        "$defs",
        object(vec![
            ("Waveform", object(vec![("enum", array(vec![text("sine"), text("saw")]))])),
            ("Gain", object(vec![("title", text("PolySignal")), ("type", text("object"))])),
            ("Shape", object(vec![("type", text("object")), ("properties", object(vec![("a", ty("number"))]))])),
        ]),
    )])
}

fn type_of(schema: &JsonValue) -> Result<String, ResolveError> {
    schema_to_type_expr(schema, &root())
}

fn ok(schema: JsonValue) -> String {
    type_of(&schema).unwrap_or_else(|e| panic!("{}", e.to_string()))
}

#[test]
fn primitives() {
    assert_eq!(ok(ty("integer")), "number");
    assert_eq!(ok(ty("number")), "number");
    assert_eq!(ok(ty("string")), "string");
    assert_eq!(ok(ty("boolean")), "boolean");
    assert_eq!(map_primitive("null"), "any");
    assert_eq!(ok(object(vec![("type", array(vec![text("string"), text("null")]))])), "string");
    assert_eq!(ok(object(vec![("type", array(vec![text("integer"), text("boolean")]))])), "number | boolean");
    assert_eq!(ok(object(vec![("type", array(vec![text("null")]))])), "any");
}

#[test]
fn references() {
    assert_eq!(ok(reference("#/$defs/Signal")), "Signal");
    assert_eq!(ok(reference("#/$defs/PolySignal")), "Poly<Signal>");
    assert_eq!(ok(reference("#/$defs/MonoSignal")), "Mono<Signal>");
    assert_eq!(ok(reference("Buffer")), "BufferOutputRef");
    assert_eq!(ok(reference("#/$defs/Table")), "Table");
    assert_eq!(ok(reference("#/$defs/Gain")), "Poly<Signal>");
    assert_eq!(ok(reference("#/$defs/Waveform")), "\"sine\" | \"saw\"");
    assert_eq!(ok(reference("#/$defs/Shape")), "{ a?: number }");
    assert_eq!(type_of(&reference("#/$defs/Nope")).unwrap_err().to_string(), "Unresolved $ref: #/$defs/Nope");
    assert_eq!(type_of(&reference("http://x")).unwrap_err().to_string(), "Unsupported $ref: http://x");
    assert!(matches!(resolve_ref("PolySignal", &root()), Err(ResolveError::UnsupportedRef(_))));
    assert!(matches!(resolve_ref("#/$defs/Shape", &root()), Ok(ResolvedRef::Schema(_))));
}

#[test]
fn alternatives() {
    let nullable = object(vec![("anyOf", array(vec![reference("#/$defs/Signal"), ty("null")]))]);
    assert_eq!(ok(nullable), "Signal");
    let only_null = object(vec![("oneOf", array(vec![ty("null")]))]);
    assert_eq!(ok(only_null), "unknown");
    let consts = object(vec![("oneOf", array(vec![object(vec![("const", text("a"))]), object(vec![("const", text("b"))])]))]);
    assert_eq!(ok(consts), "\"a\" | \"b\"");
    let mono_or_list = object(vec![(
        "anyOf",
        array(vec![reference("#/$defs/Signal"), object(vec![("type", text("array")), ("items", reference("#/$defs/Signal"))])]),
    )]);
    assert_eq!(ok(mono_or_list), "Poly<Signal>");
    let mixed = object(vec![("anyOf", array(vec![ty("string"), ty("number")]))]);
    assert_eq!(ok(mixed), "string | number");
    assert_eq!(ok(object(vec![("allOf", array(vec![]))])), "any");
}

#[test]
fn objects_arrays_and_enums() {
    let obj = object(vec![
        ("type", text("object")),
        (
            "properties",
            object(vec![("freq", reference("#/$defs/Signal")), ("my-key", ty("string")), ("on", ty("boolean"))]),
        ),
        ("required", array(vec![text("freq")])),
    ]);
    assert_eq!(ok(obj), "{ freq: Signal; \"my-key\"?: string; on?: boolean }");
    assert_eq!(ok(ty("object")), "{}");
    let tuple = object(vec![("type", text("array")), ("prefixItems", array(vec![ty("number"), ty("string")]))]);
    assert_eq!(ok(tuple), "[number, string]");
    let list = object(vec![("type", text("array")), ("items", ty("number"))]);
    assert_eq!(ok(list), "number[]");
    assert_eq!(ok(object(vec![("enum", array(vec![JsonValue::Number("1".to_string()), JsonValue::Null]))])), "1 | null");
    assert_eq!(ok(object(vec![("const", text("x"))])), "\"x\"");
}

#[test]
fn unsupported_schemas() {
    let e = |s: JsonValue| type_of(&s).unwrap_err().to_string();
    assert_eq!(e(text("oops")), "Unsupported schema: non-object node");
    assert_eq!(e(object(vec![("enum", array(vec![]))])), "Unsupported schema: empty enum");
    assert_eq!(e(ty("array")), "Unsupported schema: array missing items/prefixItems");
    assert_eq!(e(object(vec![])), "Unsupported schema: missing type");
    assert_eq!(e(ty("null")), "Unsupported schema: unsupported scalar type: null");
    let bad_prop = object(vec![("properties", object(vec![("x", text("bad"))]))]);
    assert_eq!(e(bad_prop), "Unsupported schema: non-object node");
}

#[test]
fn identifiers_and_keys() {
    assert!(is_valid_identifier("freq"));
    assert!(is_valid_identifier("_x$1"));
    assert!(!is_valid_identifier(""));
    assert!(!is_valid_identifier("1abc"));
    assert!(!is_valid_identifier("my-key"));
    assert_eq!(render_property_key("ok"), "ok");
    assert_eq!(render_property_key("a b"), "\"a b\"");
}

#[test]
fn enum_variants() {
    let one_of = object(vec![(
        "oneOf",
        array(vec![
            object(vec![("const", text("vaVcf")), ("description", text("Vintage"))]),
            object(vec![("const", JsonValue::Number("2".to_string()))]),
        ]),
    )]);
    let v = get_enum_variants(&one_of, &root()).ok().unwrap().unwrap();
    assert_eq!(v.len(), 2);
    assert_eq!(v[0].value, "\"vaVcf\"");
    assert_eq!(v[0].description.as_deref(), Some("Vintage"));
    assert_eq!(v[1].value, "2");
    assert!(v[1].description.is_none());
    let via_ref = get_enum_variants(&reference("#/$defs/Waveform"), &root()).ok().unwrap().unwrap();
    assert_eq!(via_ref.iter().map(|i| i.value.clone()).collect::<Vec<_>>(), vec!["\"sine\"", "\"saw\""]);
    assert!(get_enum_variants(&reference("#/$defs/Signal"), &root()).ok().unwrap().is_none());
    assert!(get_enum_variants(&ty("string"), &root()).ok().unwrap().is_none());
    let mixed = object(vec![("anyOf", array(vec![object(vec![("const", text("a"))]), ty("string")]))]);
    assert!(get_enum_variants(&mixed, &root()).ok().unwrap().is_none());
}
