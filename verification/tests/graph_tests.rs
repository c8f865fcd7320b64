use modular::graph::{classify_modules, ModuleState, PatchGraph, ProcessingMode};
use modular::json::JsonValue;

fn text(s: &str) -> JsonValue {
    JsonValue::Str(s.to_string())
}

fn object(members: Vec<(&str, JsonValue)>) -> JsonValue {
    JsonValue::Object(members.into_iter().map(|(k, v)| (k.to_string(), v)).collect())
}

fn cable(module: &str, port: &str) -> JsonValue {
    object(vec![
        ("type", text("cable")),
        ("module", text(module)),
        ("port", text(port)),
        ("channel", JsonValue::Number("0".to_string())),
    ])
}

fn module(id: &str, params: JsonValue) -> ModuleState {
    ModuleState { id: id.to_string(), module_type: "test".to_string(), id_is_explicit: None, params }
}

/// `edges`: (consumer id, producer id, port).
fn make_graph(edges: &[(&str, &str, &str)]) -> PatchGraph {
    let mut ids: Vec<&str> = Vec::new();
    for (c, p, _) in edges {
        if !ids.contains(c) {
            ids.push(c);
        }
        if !ids.contains(p) {
            ids.push(p);
        }
    }
    let mut modules = Vec::new();
    for id in &ids {
        let params = if let Some(edge) = edges.iter().find(|(c, _, _)| c == id) {
            object(vec![("input", cable(edge.1, edge.2))])
        } else {
            object(vec![])
        };
        modules.push(module(id, params));
    }
    PatchGraph { modules, module_id_remaps: None, scopes: vec![] }
}

fn mode_of(modes: &[(String, ProcessingMode)], id: &str) -> ProcessingMode {
    modes.iter().find(|(k, _)| k == id).map(|(_, m)| *m).expect("module classified")
}

#[test]
fn no_cycle_is_block_mode() {
    // A -> B -> C (A produces, C consumes)
    let graph = make_graph(&[("B", "A", "out"), ("C", "B", "out")]);
    let modes = classify_modules(&graph);
    assert_eq!(mode_of(&modes, "A"), ProcessingMode::Block);
    assert_eq!(mode_of(&modes, "B"), ProcessingMode::Block);
    assert_eq!(mode_of(&modes, "C"), ProcessingMode::Block);
}

#[test]
fn two_node_cycle_is_sample_mode() {
    // A <-> B (A reads B and B reads A)
    let graph = make_graph(&[("A", "B", "out"), ("B", "A", "out")]);
    let modes = classify_modules(&graph);
    assert_eq!(mode_of(&modes, "A"), ProcessingMode::Sample);
    assert_eq!(mode_of(&modes, "B"), ProcessingMode::Sample);
}

#[test]
fn self_loop_is_sample_mode() {
    let graph = make_graph(&[("A", "A", "out")]);
    let modes = classify_modules(&graph);
    assert_eq!(mode_of(&modes, "A"), ProcessingMode::Sample);
}

#[test]
fn cycle_plus_independent_node() {
    // A <-> B, C is independent
    let mut graph = make_graph(&[("A", "B", "out"), ("B", "A", "out")]);
    graph.modules.push(module("C", object(vec![])));
    let modes = classify_modules(&graph);
    assert_eq!(mode_of(&modes, "A"), ProcessingMode::Sample);
    assert_eq!(mode_of(&modes, "B"), ProcessingMode::Sample);
    assert_eq!(mode_of(&modes, "C"), ProcessingMode::Block);
}

#[test]
fn every_module_is_classified_once() {
    // D reads E, which is not a module of the patch, so E gets no entry.
    let graph = PatchGraph {
        modules: vec![
            module("A", object(vec![("input", cable("B", "out"))])),
            module("B", object(vec![("list", JsonValue::Array(vec![cable("C", "out"), cable("A", "out")]))])),
            module("C", object(vec![])),
            module("D", object(vec![("deep", object(vec![("x", cable("E", "out"))]))])),
        ],
        module_id_remaps: None,
        scopes: vec![],
    };
    let modes = classify_modules(&graph);
    assert_eq!(modes.len(), 4);
    for id in ["A", "B", "C", "D"] {
        assert_eq!(modes.iter().filter(|(k, _)| k == id).count(), 1);
    }
    assert!(modes.iter().all(|(k, _)| k != "E"));
    assert_eq!(mode_of(&modes, "A"), ProcessingMode::Sample);
    assert_eq!(mode_of(&modes, "B"), ProcessingMode::Sample);
    assert_eq!(mode_of(&modes, "C"), ProcessingMode::Block);
    assert_eq!(mode_of(&modes, "D"), ProcessingMode::Block);
}

#[test]
fn three_node_cycle_with_tail() {
    // A -> B -> C -> A is a cycle; D reads C from outside it.
    let graph = make_graph(&[("B", "A", "out"), ("C", "B", "out"), ("A", "C", "out"), ("D", "C", "out")]);
    let modes = classify_modules(&graph);
    assert_eq!(mode_of(&modes, "A"), ProcessingMode::Sample);
    assert_eq!(mode_of(&modes, "B"), ProcessingMode::Sample);
    assert_eq!(mode_of(&modes, "C"), ProcessingMode::Sample);
    assert_eq!(mode_of(&modes, "D"), ProcessingMode::Block);
}
