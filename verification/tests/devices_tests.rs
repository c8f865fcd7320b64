use modular::devices::{
    get_current_audio_state, AudioSettings, device_capabilities, list_input_devices, list_output_devices, preferred_default_sample_rate, AudioBudgetMeter,
    AudioDeviceCache, AudioDeviceInfo, BufferSizeRange, ConfigRange, HostInfo, HostProbe, ProbedDevice,
};

fn device(id: &str, host: &str) -> AudioDeviceInfo {
    AudioDeviceInfo {
        id: id.to_string(),
        host_id: host.to_string(),
        name: format!("{} device", id),
        input_channels: 0,
        output_channels: 2,
        is_default: false,
        sample_rate: 48000,
        supported_sample_rates: vec![44100, 48000],
        buffer_size_range: None,
    }
}

fn host(id: &str) -> HostInfo {
    HostInfo { id: id.to_string(), name: id.to_string() }
}

#[test]
fn preferred_rate_keeps_low_defaults_and_caps_high_ones() {
    assert_eq!(preferred_default_sample_rate(44100, &[44100, 48000, 96000]), 44100);
    assert_eq!(preferred_default_sample_rate(48000, &[]), 48000);
    assert_eq!(preferred_default_sample_rate(96000, &[44100, 48000, 96000]), 48000);
    assert_eq!(preferred_default_sample_rate(192000, &[44100, 88200]), 44100);
    assert_eq!(preferred_default_sample_rate(96000, &[88200, 96000]), 96000);
}

#[test]
fn capabilities_cover_common_rates_and_buffer_bounds() {
    let configs = [
        ConfigRange { min_sample_rate: 44100, max_sample_rate: 48000, buffer_size: Some(BufferSizeRange { min: 64, max: 1024 }) },
        ConfigRange { min_sample_rate: 96000, max_sample_rate: 96000, buffer_size: Some(BufferSizeRange { min: 32, max: 512 }) },
        ConfigRange { min_sample_rate: 8000, max_sample_rate: 22050, buffer_size: None },
    ];
    let (rates, range) = device_capabilities(&configs);
    assert_eq!(rates, vec![44100, 48000, 96000]);
    let range = range.unwrap();
    assert_eq!((range.min, range.max), (32, 1024));

    let (rates, range) = device_capabilities(&[]);
    assert!(rates.is_empty());
    assert!(range.is_none());
}

#[test]
fn cache_lookups() {
    let mut cache = AudioDeviceCache::new();
    cache.add_host(host("ALSA"), Some((vec![device("a1", "ALSA"), device("a2", "ALSA")], vec![device("in1", "ALSA")])));
    cache.add_host(host("JACK"), None);
    cache.add_host(host("Pulse"), Some((vec![device("p1", "Pulse")], vec![])));
    assert_eq!(cache.host_ids(), vec!["ALSA".to_string(), "JACK".to_string(), "Pulse".to_string()]);
    let outs: Vec<String> = cache.all_output_devices().iter().map(|d| d.id.clone()).collect();
    assert_eq!(outs, vec!["a1", "a2", "p1"]);
    assert_eq!(cache.all_input_devices().len(), 1);
    assert_eq!(cache.find_output_device("a2").unwrap().id, "a2");
    assert!(cache.find_output_device("in1").is_none());
    assert_eq!(cache.find_input_device("in1").unwrap().host_id, "ALSA");
    assert_eq!(cache.output_devices_for_host("Pulse").len(), 1);
    assert!(cache.output_devices_for_host("JACK").is_empty());
    assert!(cache.input_devices_for_host("nowhere").is_empty());
    let snapshot = cache.snapshot();
    assert_eq!(snapshot.hosts.len(), 3);
    assert_eq!(snapshot.hosts[0].output_devices.len(), 2);
    assert!(snapshot.hosts[1].output_devices.is_empty());
    cache.clear();
    assert!(cache.host_ids().is_empty());
    assert!(cache.all_output_devices().is_empty());
}

#[test]
fn adding_a_host_again_replaces_its_devices() {
    let mut cache = AudioDeviceCache::new();
    cache.add_host(host("ALSA"), Some((vec![device("old", "ALSA")], vec![])));
    cache.add_host(host("ALSA"), Some((vec![device("new", "ALSA")], vec![])));
    let outs: Vec<String> = cache.output_devices_for_host("ALSA").iter().map(|d| d.id.clone()).collect();
    assert_eq!(outs, vec!["new"]);
    assert!(cache.find_output_device("old").is_none());
}

#[test]
fn probed_devices_are_described() {
    let probe = HostProbe {
        host_id: "ALSA".to_string(),
        has_default_output: true,
        default_output_id: Some("hw:1".to_string()),
        has_default_input: false,
        default_input_id: None,
        output_devices: vec![
            ProbedDevice {
                id: "hw:0".to_string(),
                name: "Onboard".to_string(),
                channels: 2,
                sample_rate: 44100,
                configs: vec![ConfigRange { min_sample_rate: 44100, max_sample_rate: 192000, buffer_size: None }],
            },
            ProbedDevice { id: "hw:1".to_string(), name: "USB".to_string(), channels: 8, sample_rate: 96000, configs: vec![] },
        ],
        input_devices: vec![ProbedDevice { id: "mic".to_string(), name: "Mic".to_string(), channels: 1, sample_rate: 48000, configs: vec![] }],
    };
    let outs = list_output_devices(&probe);
    assert_eq!(outs.len(), 2);
    assert_eq!(outs[0].supported_sample_rates, vec![44100, 48000, 88200, 96000, 176400, 192000]);
    assert!(!outs[0].is_default);
    assert!(outs[1].is_default);
    assert_eq!((outs[1].output_channels, outs[1].input_channels), (8, 0));
    assert_eq!(outs[1].host_id, "ALSA");
    let ins = list_input_devices(&probe);
    assert_eq!((ins[0].input_channels, ins[0].output_channels), (1, 0));
    assert!(!ins[0].is_default);
}

#[test]
fn budget_meter_totals_and_peak() {
    let mut m = AudioBudgetMeter::new();
    m.record_chunk(0, 999);
    m.record_chunk(100, 1000);
    m.record_chunk(10, 500);
    let (samples, time, peak) = m.take_totals();
    assert_eq!(samples, 110);
    assert_eq!(time, 1500);
    assert_eq!(peak, (500u64 << 32) / 10);
    assert_eq!(m.take_totals(), (0, 0, 0));
}

#[test]
fn current_audio_state_names_devices_from_cache() {
    let mut cache = AudioDeviceCache::new();
    cache.add_host(host("ALSA"), Some((vec![device("a1", "ALSA")], vec![device("in1", "ALSA")])));
    let settings = AudioSettings {
        host_id: "ALSA".to_string(),
        output_device_id: Some("a1".to_string()),
        input_device_id: Some("gone".to_string()),
        sample_rate: 48000,
        buffer_size: Some(256),
        channels: 2,
        input_channels: 0,
        fallback_warning: None,
    };
    let st = get_current_audio_state(&settings, &cache);
    assert_eq!(st.host_id, "ALSA");
    assert_eq!(st.output_device_name.as_deref(), Some("a1 device"));
    assert_eq!(st.input_device_id.as_deref(), Some("gone"));
    assert_eq!(st.input_device_name, None);
    assert_eq!((st.sample_rate, st.buffer_size, st.output_channels), (48000, Some(256), 2));
}
