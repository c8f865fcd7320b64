use modular::midi::{
    Message, MidiChannelPressure, MidiControlChange, MidiNoteOff, MidiNoteOn, MidiPitchBend, MidiPolyPressure,
    MonoMode, PolyMode,
};
use modular::midi_cv::{default_channels, default_pitch_bend_range, MidiCv, MidiCvParams, VoiceOutput};

fn params(channels: usize, poly_mode: PolyMode, mono_mode: MonoMode) -> MidiCvParams {
    MidiCvParams {
        device: None,
        channels,
        channel: None,
        poly_mode,
        mono_mode,
        pitch_bend_range: default_pitch_bend_range(),
    }
}

fn on(cv: &mut MidiCv, ch: u8, note: u8, velocity: u8) {
    cv.on_midi_note_on(&MidiNoteOn { device: None, channel: ch, note, velocity });
}

fn off(cv: &mut MidiCv, ch: u8, note: u8) {
    cv.on_midi_note_off(&MidiNoteOff { device: None, channel: ch, note, velocity: 0 });
}

fn cc(cv: &mut MidiCv, ch: u8, cc: u8, value: u8) {
    cv.on_midi_cc(&MidiControlChange { device: None, channel: ch, cc, value });
}

fn gates(out: &[VoiceOutput]) -> Vec<bool> {
    out.iter().map(|v| v.gate).collect()
}

fn notes(out: &[VoiceOutput]) -> Vec<u8> {
    out.iter().map(|v| v.note).collect()
}

#[test]
fn midi_cv_defaults() {
    assert_eq!(default_channels(), 1);
    assert_eq!(default_pitch_bend_range(), 2);
    assert_eq!(PolyMode::default(), PolyMode::Rotate);
    assert_eq!(MonoMode::default(), MonoMode::Last);
}

#[test]
fn new_module_is_silent() {
    let mut cv = MidiCv::new(params(3, PolyMode::Rotate, MonoMode::Last), 48);
    let out = cv.next_outputs();
    assert_eq!(out.len(), 3);
    assert_eq!(gates(&out), vec![false, false, false]);
    assert_eq!(cv.pitch_bend_range(), 2);
}

#[test]
fn channels_are_clamped() {
    let mut cv = MidiCv::new(params(0, PolyMode::Rotate, MonoMode::Last), 48);
    assert_eq!(cv.next_outputs().len(), 1);
    let mut cv = MidiCv::new(params(40, PolyMode::Rotate, MonoMode::Last), 48);
    assert_eq!(cv.next_outputs().len(), 16);
}

#[test]
fn rotate_goes_round() {
    let mut cv = MidiCv::new(params(3, PolyMode::Rotate, MonoMode::Last), 48);
    on(&mut cv, 0, 60, 100);
    on(&mut cv, 0, 62, 100);
    off(&mut cv, 0, 60);
    // Voice 0 is free again, but rotation continues at voice 2.
    on(&mut cv, 0, 64, 90);
    let out = cv.next_outputs();
    assert_eq!(gates(&out), vec![false, true, true]);
    assert_eq!(notes(&out), vec![60, 62, 64]);
    assert_eq!(out[2].velocity, 90);
    // Next free voice from the rotation is voice 0.
    on(&mut cv, 0, 65, 90);
    let out = cv.next_outputs();
    assert_eq!(notes(&out), vec![65, 62, 64]);
    assert_eq!(gates(&out), vec![true, true, true]);
    // All busy: the voice at the rotation (1) is stolen.
    on(&mut cv, 0, 67, 90);
    assert_eq!(notes(&cv.next_outputs()), vec![65, 67, 64]);
}

#[test]
fn reuse_takes_the_same_voice() {
    let mut cv = MidiCv::new(params(3, PolyMode::Reuse, MonoMode::Last), 48);
    on(&mut cv, 0, 60, 100);
    on(&mut cv, 0, 62, 100);
    on(&mut cv, 0, 60, 50);
    let out = cv.next_outputs();
    assert_eq!(notes(&out), vec![60, 62, 0]);
    assert_eq!(gates(&out), vec![true, true, false]);
    assert_eq!(out[0].velocity, 50);
}

#[test]
fn reset_starts_from_the_first_voice() {
    let mut cv = MidiCv::new(params(3, PolyMode::Reset, MonoMode::Last), 48);
    on(&mut cv, 0, 60, 100);
    on(&mut cv, 0, 62, 100);
    off(&mut cv, 0, 60);
    on(&mut cv, 0, 64, 100);
    assert_eq!(notes(&cv.next_outputs()), vec![64, 62, 0]);
    on(&mut cv, 0, 65, 100);
    on(&mut cv, 0, 67, 100);
    // All busy: the last voice is taken.
    assert_eq!(notes(&cv.next_outputs()), vec![64, 62, 67]);
}

#[test]
fn mpe_channel_picks_voice() {
    let mut cv = MidiCv::new(params(4, PolyMode::Mpe, MonoMode::Last), 48);
    on(&mut cv, 3, 70, 100);
    on(&mut cv, 0, 50, 100);
    on(&mut cv, 9, 72, 100);
    let out = cv.next_outputs();
    assert_eq!(notes(&out), vec![50, 0, 70, 72]);
    // Per-voice controls on member channels.
    cv.on_midi_pitch_bend(&MidiPitchBend { device: None, channel: 3, value: -4096 });
    cv.on_midi_channel_pressure(&MidiChannelPressure { device: None, channel: 3, pressure: 40 });
    cc(&mut cv, 3, 1, 99);
    let out = cv.next_outputs();
    assert_eq!(out[2].pitch_wheel, -4096);
    assert_eq!(out[2].aftertouch, 40);
    assert_eq!(out[2].mod_wheel, 99);
    assert_eq!(out[0].pitch_wheel, 0);
    assert_eq!(out[0].mod_wheel, 0);
}

#[test]
fn mono_last_priority() {
    let mut cv = MidiCv::new(params(1, PolyMode::Rotate, MonoMode::Last), 48);
    on(&mut cv, 0, 60, 100);
    on(&mut cv, 0, 64, 80);
    let out = cv.next_outputs();
    assert_eq!((out[0].note, out[0].velocity, out[0].gate), (64, 80, true));
    off(&mut cv, 0, 64);
    assert_eq!(cv.next_outputs()[0].note, 60);
    off(&mut cv, 0, 60);
    let out = cv.next_outputs();
    assert!(!out[0].gate);
    assert_eq!(out[0].note, 60);
}

#[test]
fn mono_first_priority() {
    let mut cv = MidiCv::new(params(1, PolyMode::Rotate, MonoMode::First), 48);
    on(&mut cv, 0, 60, 100);
    on(&mut cv, 0, 64, 80);
    assert_eq!(cv.next_outputs()[0].note, 60);
    off(&mut cv, 0, 60);
    assert_eq!(cv.next_outputs()[0].note, 64);
}

#[test]
fn mono_lowest_and_highest_priority() {
    let mut low = MidiCv::new(params(1, PolyMode::Rotate, MonoMode::Lowest), 48);
    let mut high = MidiCv::new(params(1, PolyMode::Rotate, MonoMode::Highest), 48);
    for n in [64u8, 57, 71, 60] {
        on(&mut low, 0, n, 100);
        on(&mut high, 0, n, 100);
    }
    assert_eq!(low.next_outputs()[0].note, 57);
    assert_eq!(high.next_outputs()[0].note, 71);
    off(&mut low, 0, 57);
    off(&mut high, 0, 71);
    assert_eq!(low.next_outputs()[0].note, 60);
    assert_eq!(high.next_outputs()[0].note, 64);
}

#[test]
fn sustain_pedal_holds_then_releases() {
    let mut cv = MidiCv::new(params(2, PolyMode::Rotate, MonoMode::Last), 48);
    on(&mut cv, 0, 60, 100);
    cc(&mut cv, 0, 64, 127);
    off(&mut cv, 0, 60);
    assert_eq!(gates(&cv.next_outputs()), vec![true, false]);
    // A pedal on another channel does not matter.
    cc(&mut cv, 1, 64, 0);
    assert_eq!(gates(&cv.next_outputs()), vec![true, false]);
    cc(&mut cv, 0, 64, 0);
    assert_eq!(gates(&cv.next_outputs()), vec![false, false]);
}

#[test]
fn global_controls_without_mpe() {
    let mut cv = MidiCv::new(params(2, PolyMode::Rotate, MonoMode::Last), 48);
    on(&mut cv, 0, 60, 100);
    cv.on_midi_pitch_bend(&MidiPitchBend { device: None, channel: 0, value: 8191 });
    cc(&mut cv, 0, 1, 64);
    cv.on_midi_channel_pressure(&MidiChannelPressure { device: None, channel: 0, pressure: 20 });
    cv.on_midi_poly_pressure(&MidiPolyPressure { device: None, channel: 0, note: 60, pressure: 90 });
    let out = cv.next_outputs();
    assert_eq!(out[0].pitch_wheel, 8191);
    assert_eq!(out[1].pitch_wheel, 8191);
    assert_eq!(out[0].mod_wheel, 64);
    // The larger of the global and the voice's own pressure.
    assert_eq!(out[0].aftertouch, 90);
    assert_eq!(out[1].aftertouch, 20);
}

#[test]
fn device_and_channel_filters() {
    let mut p = params(2, PolyMode::Rotate, MonoMode::Last);
    p.device = Some("keys".to_string());
    p.channel = Some(2);
    let mut cv = MidiCv::new(p, 48);
    assert!(cv.should_process_device(&Some("keys".to_string())));
    assert!(!cv.should_process_device(&Some("pads".to_string())));
    assert!(!cv.should_process_device(&None));
    assert!(cv.should_process_channel(1));
    assert!(!cv.should_process_channel(2));
    cv.on_midi_note_on(&MidiNoteOn { device: Some("pads".to_string()), channel: 1, note: 60, velocity: 1 });
    cv.on_midi_note_on(&MidiNoteOn { device: Some("keys".to_string()), channel: 0, note: 61, velocity: 1 });
    assert_eq!(gates(&cv.next_outputs()), vec![false, false]);
    cv.on_midi_note_on(&MidiNoteOn { device: Some("keys".to_string()), channel: 1, note: 62, velocity: 1 });
    let out = cv.next_outputs();
    assert_eq!(gates(&out), vec![true, false]);
    assert_eq!(out[0].note, 62);
}

#[test]
fn retrigger_pulse_lasts_its_length() {
    let mut cv = MidiCv::new(params(2, PolyMode::Rotate, MonoMode::Last), 2);
    on(&mut cv, 0, 60, 100);
    assert!(cv.next_outputs()[0].retrigger);
    assert!(cv.next_outputs()[0].retrigger);
    assert!(!cv.next_outputs()[0].retrigger);
    // Monophonic: the same note again does not retrigger a gated voice.
    let mut mono = MidiCv::new(params(1, PolyMode::Rotate, MonoMode::Last), 1);
    on(&mut mono, 0, 60, 100);
    assert!(mono.next_outputs()[0].retrigger);
    on(&mut mono, 0, 60, 100);
    assert!(!mono.next_outputs()[0].retrigger);
    on(&mut mono, 0, 62, 100);
    assert!(mono.next_outputs()[0].retrigger);
}

#[test]
fn panic_silences_everything() {
    let mut cv = MidiCv::new(params(2, PolyMode::Rotate, MonoMode::Last), 48);
    on(&mut cv, 0, 60, 100);
    cc(&mut cv, 0, 64, 127);
    cv.on_midi_pitch_bend(&MidiPitchBend { device: None, channel: 0, value: 100 });
    cv.on_midi_panic();
    let out = cv.next_outputs();
    assert_eq!(gates(&out), vec![false, false]);
    assert_eq!(notes(&out), vec![0, 0]);
    assert_eq!(out[0].pitch_wheel, 0);
    assert!(!out[0].retrigger);
    // The pedal is up again: a released note is not sustained.
    on(&mut cv, 0, 62, 100);
    off(&mut cv, 0, 62);
    assert_eq!(gates(&cv.next_outputs()), vec![false, false]);
}

#[test]
fn messages_dispatch_to_handlers() {
    let mut cv = MidiCv::new(params(2, PolyMode::Rotate, MonoMode::Last), 48);
    cv.handle_message(&Message::MidiNoteOn(MidiNoteOn { device: None, channel: 0, note: 48, velocity: 7 }));
    assert_eq!(notes(&cv.next_outputs()), vec![48, 0]);
    cv.handle_message(&Message::MidiNoteOff(MidiNoteOff { device: None, channel: 0, note: 48, velocity: 0 }));
    assert_eq!(gates(&cv.next_outputs()), vec![false, false]);
}
