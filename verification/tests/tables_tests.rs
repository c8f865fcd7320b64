use modular::graph::ModuleIdRemap;
use modular::id_map::IdMap;
use modular::midi_inputs::MidiInputManager;
use modular::perf_log::{
    aggregate_by_type, order_desc, query_entries, tail_start, type_average, PerfQuery, PerfSample,
};

fn remap(from: &str, to: &str) -> ModuleIdRemap {
    ModuleIdRemap { from: from.to_string(), to: to.to_string() }
}

fn ins(v: &[(&str, u32)]) -> Vec<(String, u32)> {
    v.iter().map(|(k, m)| (k.to_string(), *m)).collect()
}

#[test]
fn patch_update_keeps_running_modules() {
    let mut t: IdMap<u32> = IdMap::new();
    t.apply_patch_update(&vec![], ins(&[("ROOT_OUTPUT", 1), ("osc", 2), ("lfo", 3)]));
    assert_eq!(t.get("osc"), Some(&2));
    // A new instance for a running id is not taken; stale modules go.
    t.apply_patch_update(&vec![], ins(&[("osc", 20), ("env", 4)]));
    assert_eq!(t.get("osc"), Some(&2));
    assert_eq!(t.get("env"), Some(&4));
    assert!(!t.contains("lfo"));
    // Reserved modules stay even when not named.
    assert_eq!(t.get("ROOT_OUTPUT"), Some(&1));
}

#[test]
fn patch_update_renames_first() {
    let mut t: IdMap<u32> = IdMap::new();
    t.apply_patch_update(&vec![], ins(&[("a", 1), ("b", 2)]));
    t.apply_patch_update(&vec![remap("a", "c"), remap("ROOT_CLOCK", "x"), remap("b", "b")], ins(&[("c", 9), ("b", 8)]));
    assert_eq!(t.get("c"), Some(&1));
    assert_eq!(t.get("b"), Some(&2));
    assert!(!t.contains("a"));
    // A rename replaces what ran under the new id.
    t.apply_remaps(&vec![remap("c", "b")]);
    assert_eq!(t.get("b"), Some(&1));
    assert!(!t.contains("c"));
}

#[test]
fn id_map_basics() {
    let mut t: IdMap<&str> = IdMap::new();
    t.insert("x".to_string(), "one");
    t.insert("x".to_string(), "two");
    t.insert_new("y".to_string(), "three");
    assert_eq!(t.get("x"), Some(&"two"));
    let mut keys = t.keys();
    keys.sort();
    assert_eq!(keys, vec!["x", "y"]);
    assert_eq!(t.remove("x"), Some("two"));
    assert_eq!(t.remove("x"), None);
    assert_eq!(t.first_key(), Some("y".to_string()));
    t.retain_named(&vec!["z".to_string()]);
    assert_eq!(t.first_key(), None);
    assert!(t.drain().is_empty());
}

#[test]
fn midi_inputs_connect_and_disconnect() {
    let mut m: MidiInputManager<u8> = MidiInputManager::new();
    assert!(m.connect("keys"));
    m.add_connection("keys".to_string(), 1);
    assert!(!m.connect("keys"));
    assert!(m.is_connected("keys"));
    assert_eq!(m.connected_ports(), vec!["keys"]);
    assert_eq!(m.connected_port(), Some("keys".to_string()));
    assert_eq!(m.disconnect("keys"), Some(1));
    assert_eq!(m.disconnect("keys"), None);
    assert!(m.try_reconnect().is_empty());
    assert_eq!(m.connected_port(), None);
}

#[test]
fn midi_inputs_sync_and_reconnect() {
    let mut m: MidiInputManager<u8> = MidiInputManager::new();
    m.connect("a");
    m.add_connection("a".to_string(), 1);
    m.connect("b");
    m.add_connection("b".to_string(), 2);
    let (closed, to_open) = m.sync_devices(&vec!["b".to_string(), "c".to_string()]);
    assert_eq!(closed, vec![("a".to_string(), 1)]);
    assert_eq!(to_open, vec!["c"]);
    assert_eq!(m.try_reconnect(), vec!["c"]);
    m.add_connection("c".to_string(), 3);
    assert!(m.try_reconnect().is_empty());
    let mut all = m.disconnect_all();
    all.sort();
    assert_eq!(all, vec![("b".to_string(), 2), ("c".to_string(), 3)]);
    assert!(m.connected_ports().is_empty());
}

fn sample(id: &str, ty: &str, count: u64, total: u64, min: u64, max: u64) -> PerfSample {
    PerfSample {
        ts: 1,
        module_id: id.to_string(),
        module_type: ty.to_string(),
        count,
        total_ns: total,
        avg_ns: if count > 0 { total / count } else { 0 },
        min_ns: min,
        max_ns: max,
    }
}

#[test]
fn perf_log_queries() {
    let entries = vec![
        sample("osc-1", "sine", 10, 1000, 50, 200),
        sample("lfo-1", "sine", 5, 2000, 100, 900),
        sample("env-1", "adsr", 0, 0, 0, 0),
        sample("osc-2", "saw", 4, 400, 90, 110),
    ];
    let q = PerfQuery { module_type: Some("in".to_string()), module_id: None, min_avg: None };
    assert_eq!(query_entries(&entries, &q, 10), vec![0, 1]);
    let q = PerfQuery { module_type: None, module_id: Some("osc".to_string()), min_avg: Some(100) };
    assert_eq!(query_entries(&entries, &q, 10), vec![0, 3]);
    let q = PerfQuery { module_type: None, module_id: None, min_avg: None };
    assert_eq!(query_entries(&entries, &q, 2), vec![0, 1]);
    assert_eq!(tail_start(4, 10), 0);
    assert_eq!(tail_start(4, 1), 3);

    let stats = aggregate_by_type(&entries);
    assert_eq!(stats.len(), 3);
    assert_eq!(stats[0].module_type, "sine");
    assert_eq!((stats[0].total_ns, stats[0].count, stats[0].min_ns, stats[0].max_ns, stats[0].periods), (3000, 15, 50, 900, 2));
    assert_eq!(type_average(&stats[0]), 200);
    assert_eq!(type_average(&stats[1]), 0);

    let avgs: Vec<u64> = entries.iter().map(|e| e.avg_ns).collect();
    assert_eq!(order_desc(&avgs), vec![1, 0, 3, 2]);
    assert_eq!(order_desc(&vec![5, 7, 5, 7]), vec![1, 3, 0, 2]);
}
