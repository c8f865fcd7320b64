//! MIDI input decoding: raw MIDI bytes from any number of devices become
//! timestamped messages for the modules. Control changes 0-31 carry the
//! most significant half of a 14-bit value; when the matching control
//! change 32-63 arrives, a 14-bit message follows the plain one.

use vstd::prelude::*;
use crate::text::str_eq;

verus! {

/// Number of channels in a MIDI stream.
pub const MIDI_CHANNELS: usize = 16;

/// Control changes that can carry the high half of a 14-bit value.
pub const MSB_CONTROLLERS: usize = 32;

/// At most this many messages wait to be taken.
pub const MIDI_BUFFER_SIZE: usize = 1024;

pub struct MidiNoteOn {
    pub device: Option<String>,
    pub channel: u8,
    pub note: u8,
    pub velocity: u8,
}

pub struct MidiNoteOff {
    pub device: Option<String>,
    pub channel: u8,
    pub note: u8,
    pub velocity: u8,
}

pub struct MidiControlChange {
    pub device: Option<String>,
    pub channel: u8,
    pub cc: u8,
    pub value: u8,
}

pub struct MidiControlChange14Bit {
    pub device: Option<String>,
    pub channel: u8,
    /// The controller that carried the high half (0-31).
    pub cc: u8,
    pub value: u16,
}

pub struct MidiPitchBend {
    pub device: Option<String>,
    pub channel: u8,
    /// Bend relative to the centre, from -8192 up.
    pub value: i16,
}

pub struct MidiChannelPressure {
    pub device: Option<String>,
    pub channel: u8,
    pub pressure: u8,
}

pub struct MidiPolyPressure {
    pub device: Option<String>,
    pub channel: u8,
    pub note: u8,
    pub pressure: u8,
}

/// A MIDI input port found on the system.
pub struct MidiPortInfo {
    pub name: String,
    pub index: usize,
}

/// How the MIDI-to-CV module hands notes to voices when polyphonic.
#[derive(Clone, Copy, Debug, PartialEq, Eq, Structural)]
pub enum PolyMode {
    /// Round-robin through the voices.
    Rotate,
    /// Reuse the voice already playing the same note before rotating.
    Reuse,
    /// Always start from the first voice.
    Reset,
    /// MPE: the MIDI channel picks the output channel.
    Mpe,
}

impl Default for PolyMode {
    /// Round-robin.
    fn default() -> (r: Self)
        ensures
            r == PolyMode::Rotate,
    {
        PolyMode::Rotate
    }
}

/// Which note wins when the MIDI-to-CV module is monophonic.
#[derive(Clone, Copy, Debug, PartialEq, Eq, Structural)]
pub enum MonoMode {
    /// The last note pressed.
    Last,
    /// The first note pressed; later notes are ignored.
    First,
    /// The lowest note held.
    Lowest,
    /// The highest note held.
    Highest,
}

impl Default for MonoMode {
    /// The last note pressed.
    fn default() -> (r: Self)
        ensures
            r == MonoMode::Last,
    {
        MonoMode::Last
    }
}

/// A decoded MIDI message, dispatched to the modules that listen for MIDI.
pub enum Message {
    MidiNoteOn(MidiNoteOn),
    MidiNoteOff(MidiNoteOff),
    MidiCC(MidiControlChange),
    MidiCC14Bit(MidiControlChange14Bit),
    MidiPitchBend(MidiPitchBend),
    MidiChannelPressure(MidiChannelPressure),
    MidiPolyPressure(MidiPolyPressure),
}

/// What a message says, with the device name as text.
pub enum MidiEvent {
    NoteOn { device: Option<Seq<char>>, channel: u8, note: u8, velocity: u8 },
    NoteOff { device: Option<Seq<char>>, channel: u8, note: u8, velocity: u8 },
    ControlChange { device: Option<Seq<char>>, channel: u8, cc: u8, value: u8 },
    ControlChange14Bit { device: Option<Seq<char>>, channel: u8, cc: u8, value14: u16 },
    PitchBend { device: Option<Seq<char>>, channel: u8, bend: int },
    ChannelPressure { device: Option<Seq<char>>, channel: u8, pressure: u8 },
    PolyPressure { device: Option<Seq<char>>, channel: u8, note: u8, pressure: u8 },
}

pub open spec fn device_text(d: Option<String>) -> Option<Seq<char>> {
    match d {
        Some(s) => Some(s@),
        None => None,
    }
}

impl Message {
    pub open spec fn event(self) -> MidiEvent {
        match self {
            Message::MidiNoteOn(m) => MidiEvent::NoteOn {
                device: device_text(m.device), channel: m.channel, note: m.note, velocity: m.velocity },
            Message::MidiNoteOff(m) => MidiEvent::NoteOff {
                device: device_text(m.device), channel: m.channel, note: m.note, velocity: m.velocity },
            Message::MidiCC(m) => MidiEvent::ControlChange {
                device: device_text(m.device), channel: m.channel, cc: m.cc, value: m.value },
            Message::MidiCC14Bit(m) => MidiEvent::ControlChange14Bit {
                device: device_text(m.device), channel: m.channel, cc: m.cc, value14: m.value },
            Message::MidiPitchBend(m) => MidiEvent::PitchBend {
                device: device_text(m.device), channel: m.channel, bend: m.value as int },
            Message::MidiChannelPressure(m) => MidiEvent::ChannelPressure {
                device: device_text(m.device), channel: m.channel, pressure: m.pressure },
            Message::MidiPolyPressure(m) => MidiEvent::PolyPressure {
                device: device_text(m.device), channel: m.channel, note: m.note, pressure: m.pressure },
        }
    }
}

/// A message with the time it arrived, in microseconds.
pub struct TimestampedMessage {
    pub timestamp_us: u64,
    pub message: Message,
}

pub open spec fn stamped(s: Seq<TimestampedMessage>) -> Seq<(u64, MidiEvent)> {
    s.map_values(|m: TimestampedMessage| (m.timestamp_us, m.message.event()))
}

// ---------------------------------------------------------------------------
// 14-bit controller state
// ---------------------------------------------------------------------------

/// High halves of 14-bit controller values waiting for their low half, per
/// channel and controller 0-31.
pub struct MidiCcState {
    msb_values: Vec<Option<u8>>,
}

impl MidiCcState {
    pub closed spec fn wf(self) -> bool {
        self.msb_values@.len() == MIDI_CHANNELS * MSB_CONTROLLERS
    }

    /// The waiting high half for `channel` and controller `cc`; none outside
    /// channels 0-15 and controllers 0-31.
    pub closed spec fn msb(self, channel: int, cc: int) -> Option<u8> {
        if 0 <= channel < MIDI_CHANNELS && 0 <= cc < MSB_CONTROLLERS {
            self.msb_values@[channel * MSB_CONTROLLERS + cc]
        } else {
            None
        }
    }

    /// No high half is waiting.
    pub fn new() -> (r: Self)
        ensures
            r.wf(),
            forall|ch: int, cc: int| r.msb(ch, cc) is None,
    {
        let mut v: Vec<Option<u8>> = Vec::new();
        while v.len() < MIDI_CHANNELS * MSB_CONTROLLERS
            invariant
                v@.len() <= MIDI_CHANNELS * MSB_CONTROLLERS,
                forall|k: int| 0 <= k < v@.len() ==> v@[k] is None,
            decreases MIDI_CHANNELS * MSB_CONTROLLERS - v@.len(),
        {
            v.push(None);
        }
        let r = MidiCcState { msb_values: v };
        assert forall|ch: int, cc: int| r.msb(ch, cc) is None by {
            if 0 <= ch < MIDI_CHANNELS && 0 <= cc < MSB_CONTROLLERS {
                assert(0 <= ch * MSB_CONTROLLERS + cc < MIDI_CHANNELS * MSB_CONTROLLERS) by (nonlinear_arith)
                    requires 0 <= ch < 16, 0 <= cc < 32;
            }
        }
        r
    }

    /// Stores the high half `value` for `channel` and controller `cc`;
    /// ignored outside channels 0-15 and controllers 0-31.
    pub fn set_msb(&mut self, channel: u8, cc: u8, value: u8)
        requires
            old(self).wf(),
        ensures
            final(self).wf(),
            forall|ch: int, c: int| #[trigger] final(self).msb(ch, c) == if ch == channel && c == cc && cc < 32 && channel < 16 {
                Some(value)
            } else {
                old(self).msb(ch, c)
            },
    {
        if cc < 32 && channel < 16 {
            let k = (channel as usize) * MSB_CONTROLLERS + (cc as usize);
            proof {
                lemma_slot(channel as int, cc as int);
            }
            self.msb_values.set(k, Some(value));
            proof {
                assert forall|ch: int, c: int| #[trigger] self.msb(ch, c) == if ch == channel && c == cc {
                    Some(value)
                } else {
                    old(self).msb(ch, c)
                } by {
                    if 0 <= ch < 16 && 0 <= c < 32 {
                        lemma_slot(ch, c);
                        lemma_slot_injective(ch, c, channel as int, cc as int);
                    }
                }
            }
        }
    }

    /// Takes the waiting high half for `channel` and controller `cc_msb`,
    /// leaving none; none outside channels 0-15 and controllers 0-31.
    pub fn take_msb(&mut self, channel: u8, cc_msb: u8) -> (r: Option<u8>)
        requires
            old(self).wf(),
        ensures
            final(self).wf(),
            r == old(self).msb(channel as int, cc_msb as int),
            forall|ch: int, c: int| #[trigger] final(self).msb(ch, c) == if ch == channel && c == cc_msb {
                None
            } else {
                old(self).msb(ch, c)
            },
    {
        if cc_msb < 32 && channel < 16 {
            let k = (channel as usize) * MSB_CONTROLLERS + (cc_msb as usize);
            proof {
                lemma_slot(channel as int, cc_msb as int);
            }
            let r = self.msb_values[k];
            self.msb_values.set(k, None);
            proof {
                assert forall|ch: int, c: int| #[trigger] self.msb(ch, c) == if ch == channel && c == cc_msb {
                    None
                } else {
                    old(self).msb(ch, c)
                } by {
                    if 0 <= ch < 16 && 0 <= c < 32 {
                        lemma_slot(ch, c);
                        lemma_slot_injective(ch, c, channel as int, cc_msb as int);
                    }
                }
            }
            r
        } else {
            None
        }
    }
}

proof fn lemma_slot(ch: int, cc: int)
    requires
        0 <= ch < 16,
        0 <= cc < 32,
    ensures
        0 <= ch * 32 + cc < 512,
{
    assert(0 <= ch * 32 + cc < 512) by (nonlinear_arith)
        requires 0 <= ch < 16, 0 <= cc < 32;
}

proof fn lemma_slot_injective(a: int, b: int, c: int, d: int)
    requires
        0 <= a < 16,
        0 <= b < 32,
        0 <= c < 16,
        0 <= d < 32,
    ensures
        (a * 32 + b == c * 32 + d) <==> (a == c && b == d),
{
    if a * 32 + b == c * 32 + d {
        assert(a == c && b == d) by (nonlinear_arith)
            requires 0 <= b < 32, 0 <= d < 32, a * 32 + b == c * 32 + d;
    }
}

// ---------------------------------------------------------------------------
// Decoding
// ---------------------------------------------------------------------------

/// Byte `i` of a message, or 0 when the message is shorter.
pub open spec fn data_byte(data: Seq<u8>, i: int) -> u8 {
    if 0 <= i < data.len() {
        data[i]
    } else {
        0
    }
}

/// A channel message (not a system message) with status nibble `nibble`.
pub open spec fn has_status(data: Seq<u8>, nibble: int) -> bool {
    data.len() > 0 && data[0] < 0xF0 && data[0] / 16 == nibble
}

/// A control change for controllers 32-63: the low half of a 14-bit value.
pub open spec fn is_low_half(data: Seq<u8>) -> bool {
    has_status(data, 0xB) && 32 <= data_byte(data, 1) < 64
}

/// The channel of a channel message.
pub open spec fn channel_of(data: Seq<u8>) -> u8 {
    (data[0] % 16) as u8
}

/// The messages one raw MIDI message decodes to, given the high half
/// `stored` that waits for its controller when it is a low half. System
/// messages, empty input and unknown statuses decode to nothing; a note-on
/// with velocity 0 is a note-off; missing data bytes read as 0.
pub open spec fn midi_events(data: Seq<u8>, device: Seq<char>, stored: Option<u8>) -> Seq<MidiEvent> {
    let dev = Some(device);
    let d1 = data_byte(data, 1);
    let d2 = data_byte(data, 2);
    if data.len() == 0 || data[0] >= 0xF0 {
        Seq::empty()
    } else if has_status(data, 0x9) && d2 > 0 {
        seq![MidiEvent::NoteOn { device: dev, channel: channel_of(data), note: d1, velocity: d2 }]
    } else if has_status(data, 0x8) || has_status(data, 0x9) {
        seq![MidiEvent::NoteOff { device: dev, channel: channel_of(data), note: d1, velocity: d2 }]
    } else if has_status(data, 0xB) {
        let plain = MidiEvent::ControlChange { device: dev, channel: channel_of(data), cc: d1, value: d2 };
        if is_low_half(data) && stored is Some {
            seq![plain, MidiEvent::ControlChange14Bit {
                device: dev,
                channel: channel_of(data),
                cc: (d1 - 32) as u8,
                value14: (((stored->Some_0 as u16) << 7u16) | (d2 as u16)) as u16,
            }]
        } else {
            seq![plain]
        }
    } else if has_status(data, 0xE) {
        seq![MidiEvent::PitchBend {
            device: dev,
            channel: channel_of(data),
            bend: ((((d2 as u16) << 7u16) | (d1 as u16)) as u16) as int - 8192,
        }]
    } else if has_status(data, 0xD) {
        seq![MidiEvent::ChannelPressure { device: dev, channel: channel_of(data), pressure: d1 }]
    } else if has_status(data, 0xA) {
        seq![MidiEvent::PolyPressure { device: dev, channel: channel_of(data), note: d1, pressure: d2 }]
    } else {
        Seq::empty()
    }
}

/// The waiting high half for (`dev`, `ch`, `cc`) after decoding `data`
/// from `device`, when it was `before`: a control change 0-31 stores its
/// value, one for 32-63 consumes the high half of its partner.
pub open spec fn msb_after(data: Seq<u8>, device: Seq<char>, dev: Seq<char>, ch: int, cc: int, before: Option<u8>) -> Option<u8> {
    if dev == device && has_status(data, 0xB) && ch == channel_of(data) {
        let d1 = data_byte(data, 1);
        if d1 < 32 && cc == d1 {
            Some(data_byte(data, 2))
        } else if 32 <= d1 < 64 && cc == d1 - 32 {
            None
        } else {
            before
        }
    } else {
        before
    }
}

pub open spec fn with_time(events: Seq<MidiEvent>, t: u64) -> Seq<(u64, MidiEvent)> {
    events.map_values(|e: MidiEvent| (t, e))
}

spec fn first_slot(entries: Seq<(String, MidiCcState)>, device: Seq<char>) -> Option<int>
    decreases entries.len(),
{
    if entries.len() == 0 {
        None
    } else if entries.last().0@ == device {
        match first_slot(entries.drop_last(), device) {
            Some(i) => Some(i),
            None => Some(entries.len() - 1),
        }
    } else {
        first_slot(entries.drop_last(), device)
    }
}

proof fn lemma_first_slot(entries: Seq<(String, MidiCcState)>, device: Seq<char>)
    ensures
        match first_slot(entries, device) {
            Some(i) => 0 <= i < entries.len() && entries[i].0@ == device
                && forall|k: int| 0 <= k < i ==> (#[trigger] entries[k]).0@ != device,
            None => forall|k: int| 0 <= k < entries.len() ==> (#[trigger] entries[k]).0@ != device,
        },
    decreases entries.len(),
{
    if entries.len() > 0 {
        let init = entries.drop_last();
        lemma_first_slot(init, device);
        assert forall|k: int| 0 <= k < init.len() implies #[trigger] entries[k] == init[k] by {}
    }
}

spec fn msb_in(entries: Seq<(String, MidiCcState)>, device: Seq<char>, channel: int, cc: int) -> Option<u8> {
    match first_slot(entries, device) {
        Some(i) => entries[i].1.msb(channel, cc),
        None => None,
    }
}

/// Two entry lists with the same keys find a device at the same place.
proof fn lemma_same_keys(a: Seq<(String, MidiCcState)>, b: Seq<(String, MidiCcState)>, device: Seq<char>)
    requires
        a.len() == b.len(),
        forall|k: int| 0 <= k < a.len() ==> (#[trigger] a[k]).0@ == b[k].0@,
    ensures
        first_slot(a, device) == first_slot(b, device),
    decreases a.len(),
{
    if a.len() > 0 {
        lemma_same_keys(a.drop_last(), b.drop_last(), device);
    }
}

/// Messages waiting to be taken, and the 14-bit controller state of each
/// device.
pub struct MidiParseState {
    messages: Vec<TimestampedMessage>,
    cc_state: Vec<(String, MidiCcState)>,
}

impl MidiParseState {
    pub closed spec fn wf(self) -> bool {
        forall|i: int| 0 <= i < self.cc_state@.len() ==> (#[trigger] self.cc_state@[i]).1.wf()
    }

    /// The waiting messages with their arrival times, in arrival order.
    pub closed spec fn pending(self) -> Seq<(u64, MidiEvent)> {
        stamped(self.messages@)
    }

    /// The waiting high half for a device, channel and controller.
    pub closed spec fn msb(self, device: Seq<char>, channel: int, cc: int) -> Option<u8> {
        msb_in(self.cc_state@, device, channel, cc)
    }

    /// Nothing waits.
    pub fn new() -> (r: Self)
        ensures
            r.wf(),
            r.pending() == Seq::<(u64, MidiEvent)>::empty(),
            forall|d: Seq<char>, ch: int, cc: int| r.msb(d, ch, cc) is None,
    {
        let r = MidiParseState { messages: Vec::new(), cc_state: Vec::new() };
        assert(r.pending() =~= Seq::<(u64, MidiEvent)>::empty());
        r
    }

    /// How many messages wait.
    pub fn pending_count(&self) -> (n: usize)
        ensures
            n == self.pending().len(),
    {
        self.messages.len()
    }

    /// The controller state of `device`, created empty when the device has none yet.
    pub fn get_cc_state(&mut self, device: &str) -> (r: &mut MidiCcState)
        requires
            old(self).wf(),
        ensures
            r.wf(),
            forall|ch: int, cc: int| #[trigger] r.msb(ch, cc) == old(self).msb(device@, ch, cc),
            final(self).pending() == old(self).pending(),
            final(r).wf() ==> final(self).wf(),
            forall|d: Seq<char>, ch: int, cc: int| #[trigger] final(self).msb(d, ch, cc) == if d == device@ {
                final(r).msb(ch, cc)
            } else {
                old(self).msb(d, ch, cc)
            },
    {
        let mut i: usize = 0;
        while i < self.cc_state.len()
            invariant
                i <= self.cc_state@.len(),
                forall|k: int| 0 <= k < i ==> (#[trigger] self.cc_state@[k]).0@ != device@,
            ensures
                i <= self.cc_state@.len(),
                forall|k: int| 0 <= k < i ==> (#[trigger] self.cc_state@[k]).0@ != device@,
                i < self.cc_state@.len() ==> self.cc_state@[i as int].0@ == device@,
            decreases self.cc_state@.len() - i,
        {
            if str_eq(self.cc_state[i].0.as_str(), device) {
                break;
            }
            i = i + 1;
        }
        proof {
            lemma_first_slot(self.cc_state@, device@);
        }
        if i == self.cc_state.len() {
            self.cc_state.push((String::from_str(device), MidiCcState::new()));
        }
        let ghost mid = self.cc_state@;
        proof {
            lemma_first_slot(mid, device@);
            assert(first_slot(mid, device@) == Some(i as int));
            assert forall|x: MidiCcState, d: Seq<char>, ch: int, cc: int|
                #[trigger] msb_in(mid.update(i as int, (mid[i as int].0, x)), d, ch, cc) == if d == device@ {
                    x.msb(ch, cc)
                } else {
                    msb_in(old(self).cc_state@, d, ch, cc)
                } by {
                let upd = mid.update(i as int, (mid[i as int].0, x));
                lemma_first_slot(upd, d);
                lemma_first_slot(mid, d);
                lemma_first_slot(old(self).cc_state@, d);
                lemma_same_keys(mid, upd, d);
                if i < old(self).cc_state@.len() {
                    assert(mid == old(self).cc_state@);
                } else {
                    assert(old(self).cc_state@ == mid.drop_last());
                    lemma_same_keys(old(self).cc_state@, mid.drop_last(), d);
                }
            }
        }
        let r = &mut self.cc_state[i].1;
        r
    }
}

fn push_message(state: &mut MidiParseState, timestamp_us: u64, message: Message)
    ensures
        final(state).pending() == old(state).pending().push((timestamp_us, message.event())),
        final(state).cc_state == old(state).cc_state,
        forall|d: Seq<char>, ch: int, c: int| #[trigger] final(state).msb(d, ch, c) == old(state).msb(d, ch, c),
{
    let ghost e = message.event();
    state.messages.push(TimestampedMessage { timestamp_us, message });
    proof {
        assert(stamped(state.messages@) =~= stamped(old(state).messages@).push((timestamp_us, e)));
    }
}

/// Decodes one raw MIDI message from `device`, received at `timestamp_us`,
/// and queues what it decodes to. Control changes 0-31 store their value
/// as the high half of a 14-bit value; a control change 32-63 whose
/// partner's high half waits queues the plain message and then the 14-bit
/// one, consuming the high half.
pub fn parse_midi_message(data: &[u8], device: &str, timestamp_us: u64, state: &mut MidiParseState)
    requires
        old(state).wf(),
    ensures
        final(state).wf(),
        final(state).pending() == old(state).pending() + with_time(midi_events(data@, device@,
            if is_low_half(data@) {
                old(state).msb(device@, channel_of(data@) as int, data_byte(data@, 1) - 32)
            } else {
                None
            }), timestamp_us),
        forall|d: Seq<char>, ch: int, cc: int| #[trigger] final(state).msb(d, ch, cc)
            == msb_after(data@, device@, d, ch, cc, old(state).msb(d, ch, cc)),
{
    let ghost stored = if is_low_half(data@) {
        old(state).msb(device@, channel_of(data@) as int, data_byte(data@, 1) - 32)
    } else {
        None
    };
    let ghost expected = midi_events(data@, device@, stored);
    if data.len() == 0 {
        assert(with_time(expected, timestamp_us) =~= Seq::<(u64, MidiEvent)>::empty());
        return;
    }
    let status_byte = data[0];
    if status_byte >= 0xF0 {
        assert(with_time(expected, timestamp_us) =~= Seq::<(u64, MidiEvent)>::empty());
        return;
    }
    let channel = status_byte & 0x0F;
    let status = status_byte & 0xF0;
    proof {
        assert(channel == status_byte % 16 && status == (status_byte / 16) * 16) by (bit_vector)
            requires
                channel == status_byte & 0x0F,
                status == status_byte & 0xF0;
    }
    let data1 = if data.len() > 1 { data[1] } else { 0 };
    let data2 = if data.len() > 2 { data[2] } else { 0 };
    let message: Option<Message> = if status == 0x90 && data2 > 0 {
        Some(Message::MidiNoteOn(MidiNoteOn {
            device: Some(String::from_str(device)), channel, note: data1, velocity: data2 }))
    } else if status == 0x80 || status == 0x90 {
        Some(Message::MidiNoteOff(MidiNoteOff {
            device: Some(String::from_str(device)), channel, note: data1, velocity: data2 }))
    } else if status == 0xB0 {
        let cc = data1;
        let value = data2;
        let cc_state = state.get_cc_state(device);
        if cc < 32 {
            cc_state.set_msb(channel, cc, value);
            Some(Message::MidiCC(MidiControlChange {
                device: Some(String::from_str(device)), channel, cc, value }))
        } else if cc < 64 {
            let cc_msb = cc - 32;
            let taken = cc_state.take_msb(channel, cc_msb);
            match taken {
                Some(msb) => {
                    let value_14bit: u16 = ((msb as u16) << 7) | (value as u16);
                    push_message(state, timestamp_us, Message::MidiCC(MidiControlChange {
                        device: Some(String::from_str(device)), channel, cc, value }));
                    Some(Message::MidiCC14Bit(MidiControlChange14Bit {
                        device: Some(String::from_str(device)), channel, cc: cc_msb, value: value_14bit }))
                },
                None => Some(Message::MidiCC(MidiControlChange {
                    device: Some(String::from_str(device)), channel, cc, value })),
            }
        } else {
            Some(Message::MidiCC(MidiControlChange {
                device: Some(String::from_str(device)), channel, cc, value }))
        }
    } else if status == 0xE0 {
        let raw: u16 = ((data2 as u16) << 7) | (data1 as u16);
        proof {
            assert(((data2 as u16) << 7u16) | (data1 as u16) <= 32767) by (bit_vector);
        }
        let value: i16 = (raw as i16) - 8192;
        Some(Message::MidiPitchBend(MidiPitchBend { device: Some(String::from_str(device)), channel, value }))
    } else if status == 0xD0 {
        Some(Message::MidiChannelPressure(MidiChannelPressure {
            device: Some(String::from_str(device)), channel, pressure: data1 }))
    } else if status == 0xA0 {
        Some(Message::MidiPolyPressure(MidiPolyPressure {
            device: Some(String::from_str(device)), channel, note: data1, pressure: data2 }))
    } else {
        None
    };
    match message {
        Some(msg) => {
            push_message(state, timestamp_us, msg);
        },
        None => {},
    }
    proof {
        assert(state.pending() =~= old(state).pending() + with_time(expected, timestamp_us));
    }
}

// ---------------------------------------------------------------------------
// Taking messages in time order
// ---------------------------------------------------------------------------

/// `s` with `x` placed after every entry that is not later than it.
pub open spec fn insert_by_time(s: Seq<(u64, MidiEvent)>, x: (u64, MidiEvent)) -> Seq<(u64, MidiEvent)>
    decreases s.len(),
{
    if s.len() == 0 || s.last().0 <= x.0 {
        s.push(x)
    } else {
        insert_by_time(s.drop_last(), x).push(s.last())
    }
}

/// The stable ordering of `s` by arrival time: earlier first, and entries
/// with equal times in the order they arrived.
pub open spec fn sort_by_time(s: Seq<(u64, MidiEvent)>) -> Seq<(u64, MidiEvent)>
    decreases s.len(),
{
    if s.len() == 0 {
        Seq::empty()
    } else {
        insert_by_time(sort_by_time(s.drop_last()), s.last())
    }
}

pub open spec fn events_of(s: Seq<(u64, MidiEvent)>) -> Seq<MidiEvent> {
    s.map_values(|p: (u64, MidiEvent)| p.1)
}

/// Inserting at the place found by scanning back over later entries.
proof fn lemma_insert_at(s: Seq<(u64, MidiEvent)>, x: (u64, MidiEvent), p: int)
    requires
        0 <= p <= s.len(),
        forall|k: int| p <= k < s.len() ==> (#[trigger] s[k]).0 > x.0,
        p > 0 ==> s[p - 1].0 <= x.0,
    ensures
        insert_by_time(s, x) == s.insert(p, x),
    decreases s.len(),
{
    if s.len() == 0 || s.last().0 <= x.0 {
        assert(s.insert(p, x) =~= s.push(x));
    } else {
        lemma_insert_at(s.drop_last(), x, p);
        assert(s.insert(p, x) =~= s.drop_last().insert(p, x).push(s.last()));
    }
}

impl MidiParseState {
    /// Takes every waiting message, earliest first, so that messages from
    /// several devices interleave in the order they happened; messages with
    /// equal times keep their arrival order. Nothing waits afterwards.
    pub fn take_messages(&mut self) -> (r: Vec<Message>)
        requires
            old(self).wf(),
        ensures
            final(self).wf(),
            final(self).pending() == Seq::<(u64, MidiEvent)>::empty(),
            r@.map_values(|m: Message| m.event()) == events_of(sort_by_time(old(self).pending())),
            forall|d: Seq<char>, ch: int, c: int| #[trigger] final(self).msb(d, ch, c) == old(self).msb(d, ch, c),
    {
        let mut queue: Vec<TimestampedMessage> = Vec::new();
        std::mem::swap(&mut queue, &mut self.messages);
        let ghost all = stamped(queue@);
        let mut sorted: Vec<TimestampedMessage> = Vec::new();
        let ghost mut taken: int = 0;
        assert(all.take(0) =~= Seq::<(u64, MidiEvent)>::empty());
        while queue.len() > 0
            invariant
                0 <= taken,
                taken + queue@.len() == all.len(),
                stamped(queue@) == all.skip(taken),
                stamped(sorted@) == sort_by_time(all.take(taken)),
            decreases queue@.len(),
        {
            let ghost q0 = queue@;
            let m = queue.remove(0);
            let ghost x = (m.timestamp_us, m.message.event());
            proof {
                assert(stamped(q0)[0] == x);
                assert(all.skip(taken)[0] == x);
                assert(queue@ =~= q0.drop_first());
                assert(stamped(q0).drop_first() =~= all.skip(taken + 1));
                assert(all.take(taken + 1).drop_last() =~= all.take(taken));
                assert(all.take(taken + 1).last() == x);
                assert(stamped(queue@) =~= all.skip(taken + 1));
            }
            let mut p = sorted.len();
            while p > 0 && sorted[p - 1].timestamp_us > m.timestamp_us
                invariant
                    p <= sorted@.len(),
                    forall|k: int| p <= k < sorted@.len() ==> (#[trigger] sorted@[k]).timestamp_us > m.timestamp_us,
                decreases p,
            {
                p = p - 1;
            }
            proof {
                let ss = stamped(sorted@);
                assert forall|k: int| p <= k < ss.len() implies (#[trigger] ss[k]).0 > x.0 by {
                    assert(ss[k].0 == sorted@[k].timestamp_us);
                }
                if p > 0 {
                    assert(ss[p - 1].0 == sorted@[p - 1].timestamp_us);
                }
                lemma_insert_at(ss, x, p as int);
            }
            let ghost before = sorted@;
            sorted.insert(p, m);
            proof {
                taken = taken + 1;
                assert(stamped(sorted@) =~= stamped(before).insert(p as int, x));
            }
        }
        proof {
            assert(all.take(taken) =~= all);
            assert(self.messages@.len() == 0);
            assert(stamped(self.messages@) =~= Seq::<(u64, MidiEvent)>::empty());
        }
        let mut out: Vec<Message> = Vec::new();
        let ghost src = sorted@;
        while sorted.len() > 0
            invariant
                out@.len() + sorted@.len() == src.len(),
                sorted@ == src.skip(out@.len() as int),
                out@.map_values(|m: Message| m.event()) == events_of(stamped(src)).take(out@.len() as int),
            decreases sorted@.len(),
        {
            let m = sorted.remove(0);
            proof {
                assert(src.skip(out@.len() as int)[0] == m);
            }
            let ghost before = out@;
            out.push(m.message);
            proof {
                assert(sorted@ =~= src.skip(out@.len() as int));
                assert(out@.map_values(|m: Message| m.event()) =~= events_of(stamped(src)).take(out@.len() as int));
            }
        }
        proof {
            assert(events_of(stamped(src)).take(out@.len() as int) =~= events_of(stamped(src)));
        }
        out
    }
}

/// Entries are in nondecreasing time order.
pub open spec fn in_time_order(s: Seq<(u64, MidiEvent)>) -> bool {
    forall|i: int, j: int| 0 <= i < j < s.len() ==> s[i].0 <= s[j].0
}

proof fn lemma_insert_by_time(s: Seq<(u64, MidiEvent)>, x: (u64, MidiEvent))
    requires
        in_time_order(s),
    ensures
        in_time_order(insert_by_time(s, x)),
        insert_by_time(s, x).to_multiset() =~= s.to_multiset().insert(x),
    decreases s.len(),
{
    broadcast use vstd::seq_lib::group_to_multiset_ensures;
    if s.len() == 0 || s.last().0 <= x.0 {
    } else {
        let t = s.drop_last();
        assert(in_time_order(t)) by {
            assert forall|i: int, j: int| 0 <= i < j < t.len() implies t[i].0 <= t[j].0 by {
                assert(t[i] == s[i] && t[j] == s[j]);
            }
        }
        lemma_insert_by_time(t, x);
        let r = insert_by_time(t, x);
        assert(s =~= t.push(s.last()));
        assert forall|i: int| 0 <= i < r.len() implies (#[trigger] r[i]).0 <= s.last().0 by {
            assert(r.to_multiset().count(r[i]) > 0);
            if r[i] != x {
                assert(t.to_multiset().count(r[i]) > 0);
                assert(t.contains(r[i]));
                let k = choose|k: int| 0 <= k < t.len() && t[k] == r[i];
                assert(s[k] == t[k]);
            }
        }
        let out = r.push(s.last());
        assert forall|i: int, j: int| 0 <= i < j < out.len() implies out[i].0 <= out[j].0 by {
            if j == out.len() - 1 {
                assert(out[i] == r[i]);
            } else {
                assert(out[i] == r[i] && out[j] == r[j]);
            }
        }
    }
}

/// Messages are taken in time order, and none is lost or added: the order
/// in which `take_messages` hands out the waiting messages is a
/// rearrangement of them with nondecreasing arrival times.
pub proof fn lemma_taken_in_time_order(s: Seq<(u64, MidiEvent)>)
    ensures
        in_time_order(sort_by_time(s)),
        sort_by_time(s).to_multiset() =~= s.to_multiset(),
    decreases s.len(),
{
    broadcast use vstd::seq_lib::group_to_multiset_ensures;
    if s.len() > 0 {
        lemma_taken_in_time_order(s.drop_last());
        lemma_insert_by_time(sort_by_time(s.drop_last()), s.last());
        assert(s =~= s.drop_last().push(s.last()));
    }
}

/// A control change 0-31 carrying a high half, followed on the same device
/// and channel by control change 32 higher carrying the low half, queues
/// the plain low-half message and then the 14-bit value `high << 7 | low`.
pub proof fn lemma_fourteen_bit_pair(
    s0: MidiParseState,
    s1: MidiParseState,
    s2: MidiParseState,
    device: Seq<char>,
    channel: u8,
    cc: u8,
    high: u8,
    low: u8,
    t: u64,
)
    requires
        channel < 16,
        cc < 32,
        forall|d: Seq<char>, ch: int, c: int| #[trigger] s1.msb(d, ch, c)
            == msb_after(seq![(0xB0 + channel) as u8, cc, high], device, d, ch, c, s0.msb(d, ch, c)),
        s2.pending() == s1.pending() + with_time(midi_events(seq![(0xB0 + channel) as u8, (cc + 32) as u8, low], device,
            s1.msb(device, channel as int, cc as int)), t),
    ensures
        s2.pending().len() == s1.pending().len() + 2,
        s2.pending()[s1.pending().len() as int] == (t, MidiEvent::ControlChange {
            device: Some(device), channel, cc: (cc + 32) as u8, value: low }),
        s2.pending().last() == (t, MidiEvent::ControlChange14Bit {
            device: Some(device), channel, cc, value14: (((high as u16) << 7u16) | (low as u16)) as u16 }),
{
    let first = seq![(0xB0 + channel) as u8, cc, high];
    let second = seq![(0xB0 + channel) as u8, (cc + 32) as u8, low];
    assert(has_status(first, 0xB));
    assert(channel_of(first) == channel);
    assert(s1.msb(device, channel as int, cc as int) == Some(high));
    assert(has_status(second, 0xB) && is_low_half(second) && channel_of(second) == channel);
    let ev = midi_events(second, device, Some(high));
    assert(ev.len() == 2);
}

/// Every control change is queued as a plain control change carrying its
/// device, channel, controller and value, first among what it queues and
/// never dropped; for controllers 0-31 and 64-127 (sustain pedal, all notes
/// off, ...) it is the only message queued.
pub proof fn lemma_control_change_queued(
    s0: MidiParseState,
    s1: MidiParseState,
    device: Seq<char>,
    channel: u8,
    cc: u8,
    value: u8,
    stored: Option<u8>,
    t: u64,
)
    requires
        channel < 16,
        cc < 128,
        value < 128,
        s1.pending() == s0.pending() + with_time(midi_events(seq![(0xB0 + channel) as u8, cc, value], device, stored), t),
    ensures
        s1.pending().len() > s0.pending().len(),
        s1.pending()[s0.pending().len() as int] == (t, MidiEvent::ControlChange { device: Some(device), channel, cc, value }),
        !(32 <= cc < 64) ==> s1.pending() == s0.pending().push(
            (t, MidiEvent::ControlChange { device: Some(device), channel, cc, value })),
{
    let data = seq![(0xB0 + channel) as u8, cc, value];
    assert(data[0] == 0xB0 + channel);
    assert(has_status(data, 0xB));
    assert(!has_status(data, 0x9) && !has_status(data, 0x8));
    assert(channel_of(data) == channel);
    assert(data_byte(data, 1) == cc && data_byte(data, 2) == value);
    let ev = midi_events(data, device, stored);
    assert(ev[0] == MidiEvent::ControlChange { device: Some(device), channel, cc, value });
    if !(32 <= cc < 64) {
        assert(!is_low_half(data));
        assert(ev.len() == 1);
        assert(s1.pending() =~= s0.pending().push((t, MidiEvent::ControlChange { device: Some(device), channel, cc, value })));
    }
}

/// A note-on with a velocity above 0 queues a note-on with its device,
/// channel, note and velocity; a note-on with velocity 0 and every
/// note-off queue a note-off; nothing else is queued.
pub proof fn lemma_note_messages(device: Seq<char>, channel: u8, note: u8, velocity: u8, stored: Option<u8>)
    requires
        channel < 16,
        note < 128,
        velocity < 128,
    ensures
        midi_events(seq![(0x90 + channel) as u8, note, velocity], device, stored) == if velocity > 0 {
            seq![MidiEvent::NoteOn { device: Some(device), channel, note, velocity }]
        } else {
            seq![MidiEvent::NoteOff { device: Some(device), channel, note, velocity: 0 }]
        },
        midi_events(seq![(0x80 + channel) as u8, note, velocity], device, stored)
            == seq![MidiEvent::NoteOff { device: Some(device), channel, note, velocity }],
{
    let on = seq![(0x90 + channel) as u8, note, velocity];
    let off = seq![(0x80 + channel) as u8, note, velocity];
    assert(on[0] == 0x90 + channel && off[0] == 0x80 + channel);
    assert(has_status(on, 0x9) && has_status(off, 0x8) && !has_status(off, 0x9));
    assert(channel_of(on) == channel && channel_of(off) == channel);
    assert(data_byte(on, 1) == note && data_byte(on, 2) == velocity);
    assert(data_byte(off, 1) == note && data_byte(off, 2) == velocity);
}

/// A pitch bend carries the 14-bit value `msb * 128 + lsb` centred on 8192:
/// the bend is that value minus 8192, from -8192 to 8191.
pub proof fn lemma_pitch_bend(device: Seq<char>, channel: u8, lsb: u8, msb: u8, stored: Option<u8>)
    requires
        channel < 16,
        lsb < 128,
        msb < 128,
    ensures
        midi_events(seq![(0xE0 + channel) as u8, lsb, msb], device, stored)
            == seq![MidiEvent::PitchBend { device: Some(device), channel, bend: msb * 128 + lsb - 8192 }],
{
    let data = seq![(0xE0 + channel) as u8, lsb, msb];
    assert(data[0] == 0xE0 + channel);
    assert(has_status(data, 0xE) && !has_status(data, 0x9) && !has_status(data, 0x8) && !has_status(data, 0xB));
    assert(channel_of(data) == channel);
    assert(data_byte(data, 1) == lsb && data_byte(data, 2) == msb);
    assert((((msb as u16) << 7u16) | (lsb as u16)) as u16 == msb * 128 + lsb) by (bit_vector)
        requires
            lsb < 128,
            msb < 128;
}

} // verus!
