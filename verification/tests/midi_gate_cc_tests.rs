use modular::midi::{MidiControlChange, MidiControlChange14Bit, MidiNoteOff, MidiNoteOn};
use modular::midi_cc::{MidiCc, MidiCcParams};
use modular::midi_gate::{default_max_note, MidiGate, MidiGateParams};

fn note_on(ch: u8, note: u8) -> MidiNoteOn {
    MidiNoteOn { device: None, channel: ch, note, velocity: 100 }
}

fn note_off(ch: u8, note: u8) -> MidiNoteOff {
    MidiNoteOff { device: None, channel: ch, note, velocity: 0 }
}

#[test]
fn gate_counts_notes_in_range() {
    assert_eq!(default_max_note(), 127);
    let mut g = MidiGate::new(MidiGateParams { device: None, min_note: 60, max_note: 72, channel: None });
    assert!(!g.gate_open());
    g.on_midi_note_on(&note_on(0, 59));
    assert!(!g.gate_open());
    g.on_midi_note_on(&note_on(0, 60));
    g.on_midi_note_on(&note_on(3, 72));
    assert_eq!(g.note_count(), 2);
    g.on_midi_note_off(&note_off(0, 60));
    assert!(g.gate_open());
    g.on_midi_note_off(&note_off(3, 72));
    assert!(!g.gate_open());
    // The count does not go below zero.
    g.on_midi_note_off(&note_off(0, 65));
    assert_eq!(g.note_count(), 0);
    g.on_midi_note_on(&note_on(0, 65));
    g.on_midi_panic();
    assert_eq!(g.note_count(), 0);
}

#[test]
fn gate_count_saturates() {
    let mut g = MidiGate::new(MidiGateParams { device: None, min_note: 0, max_note: 127, channel: None });
    for _ in 0..300 {
        g.on_midi_note_on(&note_on(0, 1));
    }
    assert_eq!(g.note_count(), 255);
    g.on_midi_note_off(&note_off(0, 1));
    assert_eq!(g.note_count(), 254);
}

#[test]
fn gate_filters_device_and_channel() {
    let mut g = MidiGate::new(MidiGateParams {
        device: Some("pads".to_string()),
        min_note: 0,
        max_note: 127,
        channel: Some(10),
    });
    assert!(g.should_process_channel(9));
    assert!(!g.should_process_channel(10));
    assert!(g.is_in_range(0));
    g.on_midi_note_on(&MidiNoteOn { device: Some("pads".to_string()), channel: 9, note: 36, velocity: 1 });
    g.on_midi_note_on(&MidiNoteOn { device: Some("keys".to_string()), channel: 9, note: 36, velocity: 1 });
    g.on_midi_note_on(&MidiNoteOn { device: None, channel: 9, note: 36, velocity: 1 });
    g.on_midi_note_on(&MidiNoteOn { device: Some("pads".to_string()), channel: 0, note: 36, velocity: 1 });
    assert_eq!(g.note_count(), 1);
}

#[test]
fn cc_follows_seven_bit_values() {
    let mut m = MidiCc::new(MidiCcParams { device: None, cc: 7, channel: Some(1), high_resolution: false });
    assert_eq!(m.current_level(), (0, 127));
    m.on_midi_cc(&MidiControlChange { device: None, channel: 0, cc: 7, value: 100 });
    assert_eq!(m.current_level(), (100, 127));
    m.on_midi_cc(&MidiControlChange { device: None, channel: 0, cc: 8, value: 5 });
    m.on_midi_cc(&MidiControlChange { device: None, channel: 1, cc: 7, value: 5 });
    m.on_midi_cc_14bit(&MidiControlChange14Bit { device: None, channel: 0, cc: 7, value: 9000 });
    assert_eq!(m.current_level(), (100, 127));
}

#[test]
fn cc_follows_fourteen_bit_values_in_high_resolution() {
    let mut m = MidiCc::new(MidiCcParams { device: None, cc: 1, channel: None, high_resolution: true });
    m.on_midi_cc(&MidiControlChange { device: None, channel: 4, cc: 1, value: 100 });
    assert_eq!(m.current_level(), (0, 127));
    m.on_midi_cc_14bit(&MidiControlChange14Bit { device: None, channel: 4, cc: 1, value: 16383 });
    assert_eq!(m.current_level(), (16383, 16383));
}
