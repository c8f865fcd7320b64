use modular::engine::{
    derive_channel_count_result, is_reserved_module_id, AudioConfigOptions, AudioError, ParamError, QueuedTrigger,
    WellKnownModule,
};
use modular::mix::{mix_derive_channel_count, MixMode, MixParams, PolySignal};
use modular::poly_mix;

#[test]
fn reserved_ids_are_the_system_modules() {
    for m in [WellKnownModule::RootOutput, WellKnownModule::RootClock, WellKnownModule::RootInput, WellKnownModule::HiddenAudioIn] {
        assert!(is_reserved_module_id(m.id()));
    }
    assert_eq!(WellKnownModule::RootClock.id(), "ROOT_CLOCK");
    assert!(!is_reserved_module_id("sine-1"));
    assert!(!is_reserved_module_id("root_output"));
}

#[test]
fn audio_errors_read_as_sentences() {
    let e = AudioError::ParamUpdateFailed { module_id: "osc".to_string(), message: "bad freq".to_string() };
    assert_eq!(e.to_string(), "Failed to update params for osc: bad freq");
    assert_eq!(AudioError::MessageDispatchFailed { message: "full".to_string() }.to_string(), "Failed to dispatch message: full");
    assert_eq!(AudioError::ModuleNotFound { module_id: "x".to_string() }.to_string(), "Module not found: x");
    assert_eq!(AudioError::PatchProcessingError { message: "oops".to_string() }.to_string(), "Patch processing error: oops");
}

#[test]
fn channel_count_results() {
    let ok = derive_channel_count_result(Ok(4));
    assert_eq!(ok.channel_count, Some(4));
    assert!(ok.errors.is_none());
    let err = derive_channel_count_result(Err(vec![
        ParamError { field: "freq".to_string(), message: "not a number".to_string() },
        ParamError { field: String::new(), message: "unknown parameter".to_string() },
    ]));
    assert!(err.channel_count.is_none());
    let errors = err.errors.unwrap();
    assert_eq!(errors.len(), 2);
    assert_eq!(errors[0].message, "not a number");
    assert_eq!(errors[0].params, vec!["freq".to_string()]);
    assert!(errors[1].params.is_empty());
}

#[test]
fn defaults() {
    let c = AudioConfigOptions::default();
    assert!(c.host_id.is_none() && c.output_device_id.is_none() && c.input_device_id.is_none());
    assert!(c.sample_rate.is_none() && c.buffer_size.is_none());
    assert_eq!(MixMode::default(), MixMode::Average);
    assert_eq!(poly_mix::MixMode::default(), poly_mix::MixMode::Sum);
    assert_ne!(QueuedTrigger::NextBar, QueuedTrigger::NextBeat);
}

fn mix(inputs: &[u8], gain: u8) -> usize {
    let params = MixParams {
        inputs: inputs.iter().map(|&c| PolySignal { channels: c }).collect(),
        mode: MixMode::Sum,
        gain: PolySignal { channels: gain },
    };
    mix_derive_channel_count(&params)
}

#[test]
fn mix_channel_count() {
    assert_eq!(mix(&[], 0), 1);
    assert_eq!(mix(&[], 3), 3);
    assert_eq!(mix(&[2, 4], 1), 4);
    assert_eq!(mix(&[2], 6), 6);
    assert_eq!(mix(&[0, 0], 0), 1);
    assert_eq!(mix(&[20], 0), 16);
}
