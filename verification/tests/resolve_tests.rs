use modular::devices::{HostProbe, ProbedDevice};
use modular::engine::AudioConfigOptions;
use modular::resolve::{
    find_host, get_host_by_preference, host_kind_name, parse_host_id, resolve_devices, DevicePick, HostKind,
    Platform,
};

fn device(id: &str) -> ProbedDevice {
    ProbedDevice { id: id.to_string(), name: id.to_uppercase(), channels: 2, sample_rate: 48000, configs: vec![] }
}

fn host(id: &str, outputs: &[&str], inputs: &[&str], default_in: Option<&str>) -> HostProbe {
    HostProbe {
        host_id: id.to_string(),
        has_default_output: !outputs.is_empty(),
        default_output_id: outputs.first().map(|s| s.to_string()),
        has_default_input: default_in.is_some(),
        default_input_id: default_in.map(|s| s.to_string()),
        output_devices: outputs.iter().map(|s| device(s)).collect(),
        input_devices: inputs.iter().map(|s| device(s)).collect(),
    }
}

fn linux_hosts() -> Vec<HostProbe> {
    vec![
        host("Alsa", &["hw:0", "hw:1"], &["mic"], Some("mic")),
        host("Jack", &["system"], &[], None),
    ]
}

#[test]
fn host_names_per_platform() {
    assert_eq!(parse_host_id("ALSA", Platform::Linux), Some(HostKind::Alsa));
    assert_eq!(parse_host_id("Alsa", Platform::Linux), Some(HostKind::Alsa));
    assert_eq!(parse_host_id("JACK", Platform::Linux), Some(HostKind::Jack));
    assert_eq!(parse_host_id("alsa", Platform::Linux), None);
    assert_eq!(parse_host_id("CoreAudio", Platform::Linux), None);
    assert_eq!(parse_host_id("CoreAudio", Platform::MacOs), Some(HostKind::CoreAudio));
    assert_eq!(parse_host_id("WASAPI", Platform::Windows), Some(HostKind::Wasapi));
    assert_eq!(parse_host_id("Wasapi", Platform::Other), None);
    assert_eq!(host_kind_name(HostKind::Wasapi), "Wasapi");
}

#[test]
fn preference_order() {
    let hosts = linux_hosts();
    assert_eq!(get_host_by_preference(&hosts, Platform::Linux, 0), 1);
    let alsa_only = vec![host("Alsa", &["hw:0"], &[], None), host("Null", &["n"], &[], None)];
    assert_eq!(get_host_by_preference(&alsa_only, Platform::Linux, 1), 0);
    assert_eq!(get_host_by_preference(&alsa_only, Platform::MacOs, 1), 1);
    assert_eq!(find_host(&hosts, "Jack"), Some(1));
    assert_eq!(find_host(&hosts, "Pulse"), None);
}

#[test]
fn nothing_requested_takes_defaults() {
    let hosts = linux_hosts();
    let mut warning = None;
    let r = resolve_devices(&AudioConfigOptions::default(), &hosts, 0, Platform::Linux, &mut warning);
    assert_eq!(r.host, 0);
    assert_eq!(r.host_id, "Alsa");
    assert_eq!(r.output, DevicePick::Default);
    assert_eq!(r.output_device_id, "hw:0");
    assert_eq!(r.input, DevicePick::Default);
    assert_eq!(r.input_device_id.as_deref(), Some("mic"));
    assert_eq!(warning, None);
}

#[test]
fn requested_host_and_devices() {
    let hosts = linux_hosts();
    let config = AudioConfigOptions {
        host_id: Some("ALSA".to_string()),
        output_device_id: Some("hw:1".to_string()),
        input_device_id: Some("none".to_string()),
        sample_rate: None,
        buffer_size: None,
    };
    let mut warning = None;
    let r = resolve_devices(&config, &hosts, 1, Platform::Linux, &mut warning);
    assert_eq!(r.host, 0);
    // The requested name is kept as given.
    assert_eq!(r.host_id, "ALSA");
    assert_eq!(r.output, DevicePick::Listed(1));
    assert_eq!(r.output_device_id, "hw:1");
    assert_eq!(r.input, DevicePick::Absent);
    assert_eq!(r.input_device_id, None);
    assert_eq!(warning, None);
}

#[test]
fn fallbacks_are_reported() {
    let hosts = linux_hosts();
    let config = AudioConfigOptions {
        host_id: Some("Pulse".to_string()),
        output_device_id: Some("usb".to_string()),
        input_device_id: Some("usb-in".to_string()),
        sample_rate: None,
        buffer_size: None,
    };
    let mut warning = Some("earlier".to_string());
    let r = resolve_devices(&config, &hosts, 1, Platform::Linux, &mut warning);
    assert_eq!(r.host, 1);
    assert_eq!(r.host_id, "Jack");
    assert_eq!(r.output, DevicePick::Default);
    assert_eq!(r.output_device_id, "system");
    assert_eq!(r.input, DevicePick::Absent);
    assert_eq!(
        warning.as_deref(),
        Some(
            "Unknown host 'Pulse', using default. Output device 'usb' not found, using default. \
             Input device 'usb-in' not found, using default. "
        )
    );
}

#[test]
fn known_host_not_available() {
    let hosts = vec![host("Alsa", &["hw:0"], &[], None)];
    let config = AudioConfigOptions {
        host_id: Some("JACK".to_string()),
        output_device_id: None,
        input_device_id: Some(String::new()),
        sample_rate: None,
        buffer_size: None,
    };
    let mut warning = None;
    let r = resolve_devices(&config, &hosts, 0, Platform::Linux, &mut warning);
    assert_eq!(r.host_id, "Alsa");
    assert_eq!(r.input, DevicePick::Absent);
    assert_eq!(warning.as_deref(), Some("Requested host 'JACK' not available, using default. "));
}
