use modular::json::{to_json_string, JsonValue};
use modular::metadata::{
    finish_identifier, module_metadata, order_by_name, render_metadata, sanitize_identifier, schema_metadata_summary,
    upper_str,
};
use modular::validation::{ModuleSchema, OutputSchema, PositionalArg};

fn module(name: &str, outputs: &[(&str, bool, bool)], args: &[&str]) -> ModuleSchema {
    ModuleSchema {
        name: name.to_string(),
        description: String::new(),
        params_schema: JsonValue::Null,
        outputs: outputs
            .iter()
            .map(|(n, poly, def)| OutputSchema {
                name: n.to_string(),
                description: String::new(),
                polyphonic: *poly,
                default: *def,
            })
            .collect(),
        positional_args: args.iter().map(|a| PositionalArg { name: a.to_string() }).collect(),
    }
}

#[test]
fn identifiers_from_module_names() {
    assert_eq!(sanitize_identifier("sine"), "sine");
    assert_eq!(sanitize_identifier("my-module"), "myModule");
    assert_eq!(sanitize_identifier("fx.plate reverb"), "fxPlateReverb");
    assert_eq!(sanitize_identifier("$midiCC"), "$midiCC");
    assert_eq!(sanitize_identifier("3d-osc"), "_3dOsc");
    assert_eq!(sanitize_identifier("---"), "_");
    assert_eq!(sanitize_identifier(""), "_");
    assert_eq!(finish_identifier("9a"), "_9a");
    assert_eq!(finish_identifier("Ab"), "Ab");
    assert_eq!(upper_str("aBc1"), "ABC1");
}

#[test]
fn module_summary_json() {
    let m = module("osc.sine", &[("output", true, true), ("sync", false, false)], &["freq"]);
    assert_eq!(
        to_json_string(&schema_metadata_summary(&m)),
        r#"{"name":"osc.sine","outputs":[{"default":true,"name":"output","polyphonic":true},{"default":false,"name":"sync","polyphonic":false}],"positionalArgs":["freq"]}"#
    );
    assert_eq!(
        to_json_string(&module_metadata(&m)),
        r#"{"factoryName":"oscSine","moduleName":"osc.sine","namespacePath":["osc"],"outputs":[{"default":true,"name":"output","polyphonic":true},{"default":false,"name":"sync","polyphonic":false}],"positionalArgNames":["freq"]}"#
    );
}

#[test]
fn metadata_sorted_by_module_name() {
    let schemas = vec![module("noise", &[], &[]), module("$clock", &[], &[]), module("fx.delay", &[], &["time"])];
    let doc = to_json_string(&render_metadata(&schemas));
    assert_eq!(
        doc,
        [
            r#"[{"factoryName":"$clock","moduleName":"$clock","namespacePath":[],"outputs":[],"positionalArgNames":[]},"#,
            r#"{"factoryName":"fxDelay","moduleName":"fx.delay","namespacePath":["fx"],"outputs":[],"positionalArgNames":["time"]},"#,
            r#"{"factoryName":"noise","moduleName":"noise","namespacePath":[],"outputs":[],"positionalArgNames":[]}]"#,
        ]
        .join("")
    );
    let names: Vec<String> = vec!["b".into(), "a".into(), "b".into(), "A".into()];
    assert_eq!(order_by_name(&names), vec![3, 1, 0, 2]);
}

#[test]
fn identifiers_drop_every_separator_run() {
    assert_eq!(sanitize_identifier("a  b--c"), "aBC");
    assert_eq!(sanitize_identifier("x."), "x");
    assert_eq!(sanitize_identifier("é-x"), "X");
    assert_eq!(sanitize_identifier("a_b$c9"), "a_b$c9");
}
