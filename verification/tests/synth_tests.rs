use modular::devices::{AudioDeviceCache, AudioDeviceInfo, HostInfo};
use modular::graph::{ModuleState, PatchGraph};
use modular::json::{to_json_string, JsonValue};
use modular::synth::{
    check_sample_rate, configured_output, find_module_index, midi_devices_in_patch, number_as_u64,
    output_device_default_rate, stream_input_request, stream_output_device, take_tempo_set, time_signature,
};

fn obj(v: Vec<(&str, JsonValue)>) -> JsonValue {
    JsonValue::Object(v.into_iter().map(|(k, x)| (k.to_string(), x)).collect())
}

fn text(s: &str) -> JsonValue {
    JsonValue::Str(s.to_string())
}

fn num(s: &str) -> JsonValue {
    JsonValue::Number(s.to_string())
}

fn module(id: &str, ty: &str, params: JsonValue) -> ModuleState {
    ModuleState { id: id.to_string(), module_type: ty.to_string(), id_is_explicit: None, params }
}

#[test]
fn midi_devices_of_a_patch() {
    let patch = PatchGraph {
        modules: vec![
            module("cv", "$midiCV", obj(vec![("device", text("keys"))])),
            module("cc", "$midiCC", obj(vec![("device", text("knobs"))])),
            module("cv2", "$midiCV", obj(vec![("device", text("keys"))])),
            module("any", "$midiCV", obj(vec![("device", text(""))])),
            module("osc", "sine", obj(vec![("device", text("ignored"))])),
            module("gate", "midiGate", obj(vec![("device", text("pads"))])),
        ],
        module_id_remaps: None,
        scopes: vec![],
    };
    assert_eq!(midi_devices_in_patch(&patch), vec!["keys", "knobs"]);
    assert_eq!(find_module_index(&patch, "cv2"), Some(2));
    assert_eq!(find_module_index(&patch, "nope"), None);
}

#[test]
fn root_clock_params() {
    assert_eq!(number_as_u64("3"), Some(3));
    assert_eq!(number_as_u64("18446744073709551615"), Some(u64::MAX));
    assert_eq!(number_as_u64("18446744073709551616"), None);
    assert_eq!(number_as_u64("3.0"), None);
    assert_eq!(number_as_u64("-3"), None);
    assert_eq!(number_as_u64(""), None);
    assert_eq!(time_signature(&obj(vec![("numerator", num("7")), ("denominator", num("8"))])), (7, 8));
    assert_eq!(time_signature(&obj(vec![("numerator", num("2.5")), ("tempo", num("90"))])), (4, 4));
    assert_eq!(time_signature(&obj(vec![("numerator", num("4294967301"))])), (5, 4));
    assert_eq!(time_signature(&JsonValue::Null), (4, 4));

    let mut p = obj(vec![("tempo", num("140")), ("tempoSet", JsonValue::Bool(true))]);
    assert!(take_tempo_set(&mut p));
    assert_eq!(to_json_string(&p), r#"{"tempo":140}"#);
    assert!(!take_tempo_set(&mut p));
    let mut q = obj(vec![("tempoSet", JsonValue::Bool(false)), ("x", num("1"))]);
    assert!(!take_tempo_set(&mut q));
    assert_eq!(to_json_string(&q), r#"{"x":1}"#);
}

fn device(id: &str, host: &str, rates: &[u32]) -> AudioDeviceInfo {
    AudioDeviceInfo {
        id: id.to_string(),
        host_id: host.to_string(),
        name: id.to_string(),
        input_channels: 2,
        output_channels: 2,
        is_default: false,
        sample_rate: rates[0],
        supported_sample_rates: rates.to_vec(),
        buffer_size_range: None,
    }
}

#[test]
fn stream_requests_checked_against_cache() {
    let mut cache = AudioDeviceCache::new();
    cache.add_host(
        HostInfo { id: "ALSA".to_string(), name: "ALSA".to_string() },
        Some((vec![device("out", "ALSA", &[44100, 48000])], vec![device("in", "ALSA", &[48000])])),
    );
    cache.add_host(
        HostInfo { id: "JACK".to_string(), name: "JACK".to_string() },
        Some((vec![], vec![device("jin", "JACK", &[48000])])),
    );
    let out = stream_output_device(&cache, "out").unwrap();
    assert_eq!(out.host_id, "ALSA");
    assert_eq!(
        stream_output_device(&cache, "x").err().unwrap(),
        "Output device 'x' not found in cache. Try refreshing the device cache."
    );
    assert!(check_sample_rate(out, 48000, "output device").is_ok());
    assert_eq!(check_sample_rate(out, 96000, "output device").unwrap_err(), "Sample rate 96000Hz not supported by output device");
    assert_eq!(stream_input_request(&cache, &None, "ALSA", 48000), Ok(None));
    assert_eq!(stream_input_request(&cache, &Some("none".to_string()), "ALSA", 48000), Ok(None));
    assert_eq!(stream_input_request(&cache, &Some("in".to_string()), "ALSA", 48000), Ok(Some("in".to_string())));
    assert_eq!(
        stream_input_request(&cache, &Some("in".to_string()), "ALSA", 44100).unwrap_err(),
        "Sample rate 44100Hz not supported by input device"
    );
    assert_eq!(
        stream_input_request(&cache, &Some("jin".to_string()), "ALSA", 48000).unwrap_err(),
        "Input device 'jin' is on host 'JACK' but output device is on host 'ALSA'. Both must be on the same host."
    );
    assert_eq!(stream_input_request(&cache, &Some("q".to_string()), "ALSA", 48000).unwrap_err(), "Input device 'q' not found in cache");
    assert_eq!(output_device_default_rate(&cache, "out"), Ok(44100));
    assert_eq!(output_device_default_rate(&cache, "z").unwrap_err(), "Output device 'z' not found");
    assert_eq!(configured_output(&None).unwrap_err(), "No output device configured");
    assert_eq!(configured_output(&Some("out".to_string())), Ok("out".to_string()));
}
