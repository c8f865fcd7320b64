use modular::midi::{parse_midi_message, Message, MidiCcState, MidiParseState, MonoMode, PolyMode};

fn parse_all(state: &mut MidiParseState, device: &str, items: &[(u64, &[u8])]) {
    for (t, data) in items {
        parse_midi_message(data, device, *t, state);
    }
}

#[test]
fn note_on_and_note_off() {
    let mut st = MidiParseState::new();
    parse_all(&mut st, "keys", &[(10, &[0x91, 60, 100]), (20, &[0x81, 60, 0]), (30, &[0x92, 64, 0])]);
    let msgs = st.take_messages();
    assert_eq!(msgs.len(), 3);
    match &msgs[0] {
        Message::MidiNoteOn(m) => {
            assert_eq!((m.channel, m.note, m.velocity), (1, 60, 100));
            assert_eq!(m.device.as_deref(), Some("keys"));
        },
        _ => panic!("expected note on"),
    }
    match &msgs[1] {
        Message::MidiNoteOff(m) => assert_eq!((m.channel, m.note, m.velocity), (1, 60, 0)),
        _ => panic!("expected note off"),
    }
    // A note-on with velocity 0 is a note-off.
    match &msgs[2] {
        Message::MidiNoteOff(m) => assert_eq!((m.channel, m.note), (2, 64)),
        _ => panic!("expected note off"),
    }
}

#[test]
fn fourteen_bit_controller_pairs() {
    let mut st = MidiParseState::new();
    // High half 0x40 on CC 1, then low half 0x05 on CC 33.
    parse_all(&mut st, "ctl", &[(1, &[0xB0, 1, 0x40]), (2, &[0xB0, 33, 0x05])]);
    let msgs = st.take_messages();
    assert_eq!(msgs.len(), 3);
    match &msgs[0] {
        Message::MidiCC(m) => assert_eq!((m.cc, m.value), (1, 0x40)),
        _ => panic!("expected plain cc"),
    }
    match &msgs[1] {
        Message::MidiCC(m) => assert_eq!((m.cc, m.value), (33, 0x05)),
        _ => panic!("expected plain cc"),
    }
    match &msgs[2] {
        Message::MidiCC14Bit(m) => {
            assert_eq!(m.cc, 1);
            assert_eq!(m.value, (0x40 << 7) | 0x05);
        },
        _ => panic!("expected 14-bit cc"),
    }
    // The high half was consumed: another low half is only a plain message.
    parse_midi_message(&[0xB0, 33, 0x06], "ctl", 3, &mut st);
    let msgs = st.take_messages();
    assert_eq!(msgs.len(), 1);
    assert!(matches!(&msgs[0], Message::MidiCC(m) if m.cc == 33));
}

#[test]
fn controller_halves_are_kept_per_device_and_channel() {
    let mut st = MidiParseState::new();
    parse_midi_message(&[0xB0, 7, 1], "a", 1, &mut st);
    parse_midi_message(&[0xB1, 39, 2], "a", 2, &mut st); // other channel: no pair
    parse_midi_message(&[0xB0, 39, 3], "b", 3, &mut st); // other device: no pair
    parse_midi_message(&[0xB0, 39, 4], "a", 4, &mut st); // pair
    let msgs = st.take_messages();
    assert_eq!(msgs.len(), 5);
    assert!(matches!(&msgs[4], Message::MidiCC14Bit(m) if m.cc == 7 && m.value == (1 << 7) | 4));
}

#[test]
fn pitch_bend_pressure_and_ignored_messages() {
    let mut st = MidiParseState::new();
    parse_all(
        &mut st,
        "x",
        &[
            (1, &[0xE3, 0x00, 0x40]),
            (2, &[0xE0, 0x7F, 0x7F]),
            (3, &[0xE0, 0x00, 0x00]),
            (4, &[0xD5, 90]),
            (5, &[0xA2, 60, 33]),
            (6, &[0xF8]),
            (7, &[]),
            (8, &[0xC0, 5]),
        ],
    );
    let msgs = st.take_messages();
    assert_eq!(msgs.len(), 5);
    assert!(matches!(&msgs[0], Message::MidiPitchBend(m) if m.channel == 3 && m.value == 0));
    assert!(matches!(&msgs[1], Message::MidiPitchBend(m) if m.value == 8191));
    assert!(matches!(&msgs[2], Message::MidiPitchBend(m) if m.value == -8192));
    assert!(matches!(&msgs[3], Message::MidiChannelPressure(m) if m.channel == 5 && m.pressure == 90));
    assert!(matches!(&msgs[4], Message::MidiPolyPressure(m) if m.note == 60 && m.pressure == 33));
}

#[test]
fn missing_data_bytes_read_as_zero() {
    let mut st = MidiParseState::new();
    parse_midi_message(&[0x90, 60], "x", 1, &mut st);
    let msgs = st.take_messages();
    // Velocity 0: a note-off.
    assert!(matches!(&msgs[0], Message::MidiNoteOff(m) if m.note == 60 && m.velocity == 0));
}

#[test]
fn messages_are_taken_in_time_order() {
    let mut st = MidiParseState::new();
    parse_midi_message(&[0x90, 1, 1], "a", 30, &mut st);
    parse_midi_message(&[0x90, 2, 1], "b", 10, &mut st);
    parse_midi_message(&[0x90, 3, 1], "a", 20, &mut st);
    parse_midi_message(&[0x90, 4, 1], "b", 10, &mut st);
    assert_eq!(st.pending_count(), 4);
    let notes: Vec<u8> = st
        .take_messages()
        .iter()
        .map(|m| match m {
            Message::MidiNoteOn(n) => n.note,
            _ => 0,
        })
        .collect();
    // Equal times keep their arrival order.
    assert_eq!(notes, vec![2, 4, 3, 1]);
    assert_eq!(st.pending_count(), 0);
    assert!(st.take_messages().is_empty());
}

#[test]
fn cc_state_set_and_take() {
    let mut s = MidiCcState::new();
    assert_eq!(s.take_msb(0, 5), None);
    s.set_msb(0, 5, 99);
    s.set_msb(3, 40, 1); // not a high-half controller: ignored
    s.set_msb(16, 5, 1); // no such channel: ignored
    assert_eq!(s.take_msb(3, 40), None);
    assert_eq!(s.take_msb(0, 5), Some(99));
    assert_eq!(s.take_msb(0, 5), None);
}

#[test]
fn voice_mode_defaults() {
    assert_eq!(PolyMode::default(), PolyMode::Rotate);
    assert_eq!(MonoMode::default(), MonoMode::Last);
}
