//! Voice allocation of the MIDI-to-CV module: which voice plays which note,
//! with polyphonic allocation modes, monophonic note priority, sustain
//! pedal handling and MPE per-voice controls. The voltages derived from
//! the voices are computed by the audio engine.

use vstd::prelude::*;
use crate::midi::{
    Message, MidiChannelPressure, MidiControlChange, MidiNoteOff, MidiNoteOn, MidiPitchBend, MidiPolyPressure, MonoMode,
    PolyMode, device_text,
};
use crate::text::str_eq;

verus! {

/// Voices available to the module.
pub const MAX_VOICES: usize = 16;

/// The state of one voice.
#[derive(Clone, Copy, Debug, PartialEq, Eq, Structural)]
pub struct VoiceState {
    /// MIDI note number.
    pub note: u8,
    pub velocity: u8,
    pub gate: bool,
    pub aftertouch: u8,
    /// Pitch wheel, -8192 to 8191.
    pub pitch_wheel: i16,
    pub mod_wheel: u8,
}

pub open spec fn silent_voice() -> VoiceState {
    VoiceState { note: 0, velocity: 0, gate: false, aftertouch: 0, pitch_wheel: 0, mod_wheel: 0 }
}

/// The params of the MIDI-to-CV module.
pub struct MidiCvParams {
    /// Only MIDI from this device is used; all devices when absent.
    pub device: Option<String>,
    /// Number of voices (used clamped to 1-16).
    pub channels: usize,
    /// Only this MIDI channel (1-16) is used; all channels when absent.
    pub channel: Option<u8>,
    pub poly_mode: PolyMode,
    pub mono_mode: MonoMode,
    /// Pitch bend range in semitones; 0 disables pitch bend.
    pub pitch_bend_range: u8,
}

/// The default number of voices.
pub fn default_channels() -> (r: usize)
    ensures
        r == 1,
{
    1
}

/// The default pitch bend range, in semitones.
pub fn default_pitch_bend_range() -> (r: u8)
    ensures
        r == 2,
{
    2
}

/// The params as values.
pub struct CvParams {
    pub device: Option<Seq<char>>,
    pub channels: usize,
    pub channel: Option<u8>,
    pub poly_mode: PolyMode,
    pub mono_mode: MonoMode,
    pub pitch_bend_range: u8,
}

/// The whole allocation state as values.
pub struct CvState {
    pub params: CvParams,
    pub voices: Seq<VoiceState>,
    /// Held notes in the order they were pressed: (note, velocity, MIDI channel).
    pub held: Seq<(u8, u8, u8)>,
    pub rotate: int,
    /// Sustain pedal state per MIDI channel.
    pub sustain: Seq<bool>,
    /// Notes released while the pedal was down.
    pub sustained: Seq<(u8, u8, u8)>,
    pub pitch_wheel: i16,
    pub mod_wheel: u8,
    pub aftertouch: u8,
    /// Samples left of each voice's retrigger pulse.
    pub retrigger: Seq<u32>,
    /// Length of a retrigger pulse in samples.
    pub pulse: u32,
}

/// The voices in use: the `channels` param clamped to 1-16.
pub open spec fn voice_count(p: CvParams) -> int {
    if p.channels < 1 {
        1
    } else if p.channels > MAX_VOICES {
        MAX_VOICES as int
    } else {
        p.channels as int
    }
}

/// The module listens to this device.
pub open spec fn device_ok(p: CvParams, device: Option<Seq<char>>) -> bool {
    match p.device {
        None => true,
        Some(wanted) => device == Some(wanted),
    }
}

/// The module listens to this MIDI channel (the param counts from 1).
pub open spec fn channel_ok(p: CvParams, ch: u8) -> bool {
    match p.channel {
        None => true,
        Some(c) => ch == if c == 0 { 0 } else { c - 1 },
    }
}

pub open spec fn accepts(p: CvParams, device: Option<Seq<char>>, ch: u8) -> bool {
    device_ok(p, device) && channel_ok(p, ch)
}

/// The voice an MPE member channel controls: channel 1 is the first voice.
pub open spec fn mpe_voice(p: CvParams, ch: u8) -> int {
    let last = if p.channels == 0 { 0 } else { p.channels - 1 };
    if ch - 1 < last { ch - 1 } else { last }
}

/// A per-voice MPE control message for channel `ch` names a voice that exists.
pub open spec fn mpe_in_range(p: CvParams, ch: u8) -> bool {
    p.poly_mode == PolyMode::Mpe && ch > 0 ==> mpe_voice(p, ch) < MAX_VOICES
}

/// The first free voice among the `n` in use, counting from `rotate`.
pub open spec fn free_from(voices: Seq<VoiceState>, rotate: int, n: int, i: int) -> Option<int>
    decreases n - i,
{
    if i >= n || n <= 0 {
        None
    } else if !voices[(rotate + i) % n].gate {
        Some((rotate + i) % n)
    } else {
        free_from(voices, rotate, n, i + 1)
    }
}

/// Round-robin choice: the first free voice from `rotate` on, else the
/// voice at `rotate` is stolen; the rotation moves past the chosen voice.
pub open spec fn rotate_choice(voices: Seq<VoiceState>, rotate: int, n: int) -> (int, int) {
    match free_from(voices, rotate, n, 0) {
        Some(idx) => (idx, (idx + 1) % n),
        None => (rotate, (rotate + 1) % n),
    }
}

/// The first voice among the first `n` that plays `note`.
pub open spec fn playing(voices: Seq<VoiceState>, n: int, note: u8) -> Option<int>
    decreases n,
{
    if n <= 0 {
        None
    } else {
        match playing(voices, n - 1, note) {
            Some(i) => Some(i),
            None => if voices[n - 1].gate && voices[n - 1].note == note { Some(n - 1) } else { None },
        }
    }
}

/// The first free voice among the first `n`.
pub open spec fn first_free(voices: Seq<VoiceState>, n: int) -> Option<int>
    decreases n,
{
    if n <= 0 {
        None
    } else {
        match first_free(voices, n - 1) {
            Some(i) => Some(i),
            None => if !voices[n - 1].gate { Some(n - 1) } else { None },
        }
    }
}

/// The voice a new note goes to and the rotation afterwards: MPE maps the
/// MIDI channel to a voice; reuse prefers a voice already playing the note;
/// reset takes the first free voice, else the last; rotate goes round.
pub open spec fn allocation(st: CvState, note: u8, ch: u8) -> (int, int) {
    let n = voice_count(st.params);
    match st.params.poly_mode {
        PolyMode::Mpe => (if ch == 0 { 0 } else if ch - 1 < n - 1 { ch - 1 } else { n - 1 }, st.rotate),
        PolyMode::Reuse => match playing(st.voices, n, note) {
            Some(i) => (i, st.rotate),
            None => rotate_choice(st.voices, st.rotate, n),
        },
        PolyMode::Reset => (match first_free(st.voices, n) { Some(i) => i, None => n - 1 }, st.rotate),
        PolyMode::Rotate => rotate_choice(st.voices, st.rotate, n),
    }
}

/// `s` without the entries for `note`.
pub open spec fn without_note(s: Seq<(u8, u8, u8)>, note: u8) -> Seq<(u8, u8, u8)>
    decreases s.len(),
{
    if s.len() == 0 {
        s
    } else if s.last().0 == note {
        without_note(s.drop_last(), note)
    } else {
        without_note(s.drop_last(), note).push(s.last())
    }
}

/// `s` without the entries of MIDI channel `ch`.
pub open spec fn without_channel(s: Seq<(u8, u8, u8)>, ch: u8) -> Seq<(u8, u8, u8)>
    decreases s.len(),
{
    if s.len() == 0 {
        s
    } else if s.last().2 == ch {
        without_channel(s.drop_last(), ch)
    } else {
        without_channel(s.drop_last(), ch).push(s.last())
    }
}

/// The notes of MIDI channel `ch` in `s`, in order.
pub open spec fn notes_of_channel(s: Seq<(u8, u8, u8)>, ch: u8) -> Seq<u8>
    decreases s.len(),
{
    if s.len() == 0 {
        Seq::empty()
    } else if s.last().2 == ch {
        notes_of_channel(s.drop_last(), ch).push(s.last().0)
    } else {
        notes_of_channel(s.drop_last(), ch)
    }
}

/// The first place of `note` in `s`.
pub open spec fn note_position(s: Seq<(u8, u8, u8)>, note: u8) -> Option<int>
    decreases s.len(),
{
    if s.len() == 0 {
        None
    } else {
        match note_position(s.drop_last(), note) {
            Some(i) => Some(i),
            None => if s.last().0 == note { Some(s.len() - 1) } else { None },
        }
    }
}

/// The place of the lowest note among the first `k` (the first of equals).
pub open spec fn lowest_in(s: Seq<(u8, u8, u8)>, k: int) -> int
    decreases k,
{
    if k <= 1 {
        0
    } else {
        let b = lowest_in(s, k - 1);
        if s[k - 1].0 < s[b].0 { k - 1 } else { b }
    }
}

/// The place of the highest note among the first `k` (the last of equals).
pub open spec fn highest_in(s: Seq<(u8, u8, u8)>, k: int) -> int
    decreases k,
{
    if k <= 1 {
        0
    } else {
        let b = highest_in(s, k - 1);
        if s[k - 1].0 >= s[b].0 { k - 1 } else { b }
    }
}

/// The note and velocity a monophonic voice plays among the held notes.
pub open spec fn mono_note(held: Seq<(u8, u8, u8)>, mode: MonoMode) -> Option<(u8, u8)> {
    if held.len() == 0 {
        None
    } else {
        let i = match mode {
            MonoMode::Last => held.len() - 1,
            MonoMode::First => 0,
            MonoMode::Lowest => lowest_in(held, held.len() as int),
            MonoMode::Highest => highest_in(held, held.len() as int),
        };
        Some((held[i].0, held[i].1))
    }
}

pub open spec fn with_gate(v: VoiceState, gate: bool) -> VoiceState {
    VoiceState { gate, ..v }
}

/// A note is pressed.
pub open spec fn note_on_step(st: CvState, note: u8, velocity: u8, ch: u8) -> CvState {
    let held = without_note(st.held, note).push((note, velocity, ch));
    if voice_count(st.params) == 1 {
        let (mn, mv) = mono_note(held, st.params.mono_mode)->Some_0;
        let v0 = st.voices[0];
        let retrig = !v0.gate || v0.note != mn;
        CvState {
            held,
            voices: st.voices.update(0, VoiceState { note: mn, velocity: mv, gate: true, ..v0 }),
            retrigger: if retrig { st.retrigger.update(0, st.pulse) } else { st.retrigger },
            ..st
        }
    } else {
        let (idx, rotate) = allocation(st, note, ch);
        CvState {
            held,
            rotate,
            voices: st.voices.update(idx, VoiceState { note, velocity, gate: true, ..st.voices[idx] }),
            retrigger: st.retrigger.update(idx, st.pulse),
            ..st
        }
    }
}

/// A note is released.
pub open spec fn note_off_step(st: CvState, note: u8, ch: u8) -> CvState {
    if ch < 16 && st.sustain[ch as int] {
        match note_position(st.held, note) {
            Some(i) => CvState { held: st.held.remove(i), sustained: st.sustained.push(st.held[i]), ..st },
            None => st,
        }
    } else {
        let held = without_note(st.held, note);
        let st2 = CvState { held, sustained: without_note(st.sustained, note), ..st };
        if voice_count(st.params) == 1 {
            match mono_note(held, st.params.mono_mode) {
                Some((mn, mv)) => if st.voices[0].note != mn {
                    CvState {
                        voices: st.voices.update(0, VoiceState { note: mn, velocity: mv, ..st.voices[0] }),
                        retrigger: st.retrigger.update(0, st.pulse),
                        ..st2
                    }
                } else {
                    st2
                },
                None => CvState { voices: st.voices.update(0, with_gate(st.voices[0], false)), ..st2 },
            }
        } else {
            match playing(st.voices, voice_count(st.params), note) {
                Some(i) => CvState { voices: st.voices.update(i, with_gate(st.voices[i], false)), ..st2 },
                None => st2,
            }
        }
    }
}

/// Releases the voice playing `note`, if any.
pub open spec fn release_note(voices: Seq<VoiceState>, n: int, note: u8) -> Seq<VoiceState> {
    match playing(voices, n, note) {
        Some(i) => voices.update(i, with_gate(voices[i], false)),
        None => voices,
    }
}

/// Releases the voices of `notes`, one after the other.
pub open spec fn release_notes(voices: Seq<VoiceState>, n: int, notes: Seq<u8>) -> Seq<VoiceState>
    decreases notes.len(),
{
    if notes.len() == 0 {
        voices
    } else {
        release_note(release_notes(voices, n, notes.drop_last()), n, notes.last())
    }
}

/// A control change: the mod wheel (1), per voice under MPE, and the
/// sustain pedal (64), whose release lets go of the notes it held.
pub open spec fn cc_step(st: CvState, cc: u8, value: u8, ch: u8) -> CvState {
    if cc == 1 {
        if st.params.poly_mode == PolyMode::Mpe && ch > 0 {
            let i = mpe_voice(st.params, ch);
            CvState { voices: st.voices.update(i, VoiceState { mod_wheel: value, ..st.voices[i] }), ..st }
        } else {
            CvState { mod_wheel: value, ..st }
        }
    } else if cc == 64 && ch < 16 {
        let down = value >= 64;
        let was = st.sustain[ch as int];
        let st2 = CvState { sustain: st.sustain.update(ch as int, down), ..st };
        if was && !down {
            CvState {
                sustained: without_channel(st.sustained, ch),
                voices: release_notes(st.voices, voice_count(st.params), notes_of_channel(st.sustained, ch)),
                ..st2
            }
        } else {
            st2
        }
    } else {
        st
    }
}

/// Pitch bend: per voice under MPE, else for all voices.
pub open spec fn pitch_bend_step(st: CvState, value: i16, ch: u8) -> CvState {
    if st.params.poly_mode == PolyMode::Mpe && ch > 0 {
        let i = mpe_voice(st.params, ch);
        CvState { voices: st.voices.update(i, VoiceState { pitch_wheel: value, ..st.voices[i] }), ..st }
    } else {
        CvState { pitch_wheel: value, ..st }
    }
}

/// Channel pressure: per voice under MPE, else for all voices.
pub open spec fn channel_pressure_step(st: CvState, pressure: u8, ch: u8) -> CvState {
    if st.params.poly_mode == PolyMode::Mpe && ch > 0 {
        let i = mpe_voice(st.params, ch);
        CvState { voices: st.voices.update(i, VoiceState { aftertouch: pressure, ..st.voices[i] }), ..st }
    } else {
        CvState { aftertouch: pressure, ..st }
    }
}

/// Polyphonic pressure: the aftertouch of the voice playing the note.
pub open spec fn poly_pressure_step(st: CvState, note: u8, pressure: u8) -> CvState {
    match playing(st.voices, voice_count(st.params), note) {
        Some(i) => CvState { voices: st.voices.update(i, VoiceState { aftertouch: pressure, ..st.voices[i] }), ..st },
        None => st,
    }
}


/// The params as values.
pub open spec fn params_view(p: MidiCvParams) -> CvParams {
    CvParams {
        device: device_text(p.device),
        channels: p.channels,
        channel: p.channel,
        poly_mode: p.poly_mode,
        mono_mode: p.mono_mode,
        pitch_bend_range: p.pitch_bend_range,
    }
}

/// The MIDI-to-CV module's voice state.
pub struct MidiCv {
    params: MidiCvParams,
    voices: Vec<VoiceState>,
    held_notes: Vec<(u8, u8, u8)>,
    rotate_index: usize,
    sustain: Vec<bool>,
    sustained_notes: Vec<(u8, u8, u8)>,
    global_pitch_wheel: i16,
    global_mod_wheel: u8,
    global_aftertouch: u8,
    retrigger_counters: Vec<u32>,
    retrigger_samples: u32,
}

impl MidiCv {
    pub closed spec fn view(&self) -> CvState {
        CvState {
            params: params_view(self.params),
            voices: self.voices@,
            held: self.held_notes@,
            rotate: self.rotate_index as int,
            sustain: self.sustain@,
            sustained: self.sustained_notes@,
            pitch_wheel: self.global_pitch_wheel,
            mod_wheel: self.global_mod_wheel,
            aftertouch: self.global_aftertouch,
            retrigger: self.retrigger_counters@,
            pulse: self.retrigger_samples,
        }
    }

    /// Sixteen voices, sixteen pedals, sixteen pulse counters.
    pub closed spec fn wf(&self) -> bool {
        &&& self.voices.len() == MAX_VOICES
        &&& self.sustain.len() == 16
        &&& self.retrigger_counters.len() == MAX_VOICES
        &&& self.rotate_index < voice_count(params_view(self.params))
    }

    /// A module with silent voices, no notes held, pedals up and controls
    /// centred. `retrigger_samples` is the length of the retrigger pulse
    /// (1 ms at the sample rate).
    pub fn new(params: MidiCvParams, retrigger_samples: u32) -> (r: Self)
        ensures
            r.wf(),
            r@ == initial_state(params_view(params), retrigger_samples),
    {
        let r = MidiCv {
            params,
            voices: vec![VoiceState { note: 0, velocity: 0, gate: false, aftertouch: 0, pitch_wheel: 0, mod_wheel: 0 }; MAX_VOICES],
            held_notes: Vec::new(),
            rotate_index: 0,
            sustain: vec![false; 16],
            sustained_notes: Vec::new(),
            global_pitch_wheel: 0,
            global_mod_wheel: 0,
            global_aftertouch: 0,
            retrigger_counters: vec![0u32; MAX_VOICES],
            retrigger_samples,
        };
        proof {
            assert(r@.voices =~= Seq::new(16, |i: int| silent_voice()));
            assert(r@.sustain =~= Seq::new(16, |i: int| false));
            assert(r@.retrigger =~= Seq::new(16, |i: int| 0u32));
        }
        r
    }

    /// Whether MIDI from `device` is used.
    pub fn should_process_device(&self, device: &Option<String>) -> (r: bool)
        ensures
            r == device_ok(self@.params, device_text(*device)),
    {
        match &self.params.device {
            None => true,
            Some(wanted) => match device {
                Some(got) => str_eq(wanted.as_str(), got.as_str()),
                None => false,
            },
        }
    }

    /// Whether MIDI on channel `midi_channel` (counting from 0) is used.
    pub fn should_process_channel(&self, midi_channel: u8) -> (r: bool)
        ensures
            r == channel_ok(self@.params, midi_channel),
    {
        match self.params.channel {
            None => true,
            Some(ch) => midi_channel == ch.saturating_sub(1),
        }
    }
}

impl MidiCv {
    /// The number of voices in use.
    fn num_voices(&self) -> (n: usize)
        ensures
            n == voice_count(self@.params),
            1 <= n <= MAX_VOICES,
    {
        let c = self.params.channels;
        if c < 1 {
            1
        } else if c > MAX_VOICES {
            MAX_VOICES
        } else {
            c
        }
    }

    /// The note and velocity a monophonic voice plays.
    fn get_mono_note(&self) -> (r: Option<(u8, u8)>)
        ensures
            r == mono_note(self@.held, self@.params.mono_mode),
    {
        let len = self.held_notes.len();
        if len == 0 {
            return None;
        }
        let i: usize = match self.params.mono_mode {
            MonoMode::Last => len - 1,
            MonoMode::First => 0,
            MonoMode::Lowest => {
                let mut best: usize = 0;
                let mut k: usize = 1;
                while k < len
                    invariant
                        len == self.held_notes.len(),
                        1 <= k <= len,
                        best == lowest_in(self@.held, k as int),
                        best < k,
                    decreases len - k,
                {
                    if self.held_notes[k].0 < self.held_notes[best].0 {
                        best = k;
                    }
                    k = k + 1;
                }
                best
            },
            MonoMode::Highest => {
                let mut best: usize = 0;
                let mut k: usize = 1;
                while k < len
                    invariant
                        len == self.held_notes.len(),
                        1 <= k <= len,
                        best == highest_in(self@.held, k as int),
                        best < k,
                    decreases len - k,
                {
                    if self.held_notes[k].0 >= self.held_notes[best].0 {
                        best = k;
                    }
                    k = k + 1;
                }
                best
            },
        };
        let e = self.held_notes[i];
        Some((e.0, e.1))
    }

    /// The voice playing `note`, if any.
    fn find_voice_for_note(&self, note: u8) -> (r: Option<usize>)
        requires
            self.wf(),
        ensures
            match r {
                Some(i) => playing(self@.voices, voice_count(self@.params), note) == Some(i as int)
                    && i < voice_count(self@.params),
                None => playing(self@.voices, voice_count(self@.params), note) == None::<int>,
            },
    {
        let n = self.num_voices();
        let mut i: usize = 0;
        while i < n
            invariant
                self.wf(),
                n == voice_count(self@.params),
                n <= MAX_VOICES,
                i <= n,
                playing(self@.voices, i as int, note) == None::<int>,
            decreases n - i,
        {
            let v = self.voices[i];
            assert(playing(self@.voices, i + 1, note) == (if v.gate && v.note == note { Some(i as int) } else { None }));
            if v.gate && v.note == note {
                proof {
                    lemma_playing_extends(self@.voices, i + 1, n as int, note);
                }
                return Some(i);
            }
            i = i + 1;
        }
        None
    }

    /// Round-robin allocation among the first `n` voices.
    fn allocate_voice_rotate(&mut self, n: usize) -> (r: usize)
        requires
            old(self).wf(),
            n == voice_count(old(self)@.params),
            1 <= n <= MAX_VOICES,
        ensures
            final(self).wf(),
            (r as int, final(self)@.rotate) == rotate_choice(old(self)@.voices, old(self)@.rotate, n as int),
            final(self)@ == (CvState { rotate: final(self)@.rotate, ..old(self)@ }),
            r < MAX_VOICES,
    {
        let mut i: usize = 0;
        while i < n
            invariant
                self.wf(),
                self == old(self),
                n == voice_count(self@.params),
                1 <= n <= MAX_VOICES,
                i <= n,
                free_from(self@.voices, self@.rotate, n as int, 0) == free_from(self@.voices, self@.rotate, n as int, i as int),
            decreases n - i,
        {
            let idx = (self.rotate_index + i) % n;
            if !self.voices[idx].gate {
                self.rotate_index = (idx + 1) % n;
                return idx;
            }
            i = i + 1;
        }
        let idx = self.rotate_index;
        self.rotate_index = (idx + 1) % n;
        idx
    }

    /// The voice a new note goes to; rotation moves past it where the mode rotates.
    fn allocate_voice(&mut self, note: u8, midi_channel: u8) -> (r: usize)
        requires
            old(self).wf(),
        ensures
            final(self).wf(),
            (r as int, final(self)@.rotate) == allocation(old(self)@, note, midi_channel),
            final(self)@ == (CvState { rotate: final(self)@.rotate, ..old(self)@ }),
            r < MAX_VOICES,
    {
        let n = self.num_voices();
        match self.params.poly_mode {
            PolyMode::Mpe => {
                if midi_channel == 0 {
                    0
                } else {
                    let c = (midi_channel - 1) as usize;
                    if c < n - 1 { c } else { n - 1 }
                }
            },
            PolyMode::Reuse => {
                match self.find_voice_for_note(note) {
                    Some(i) => i,
                    None => self.allocate_voice_rotate(n),
                }
            },
            PolyMode::Reset => {
                let mut i: usize = 0;
                while i < n
                    invariant
                        self.wf(),
                        self == old(self),
                        self.params.poly_mode == PolyMode::Reset,
                        n == voice_count(self@.params),
                        1 <= n <= MAX_VOICES,
                        i <= n,
                        first_free(self@.voices, i as int) == None::<int>,
                    decreases n - i,
                {
                    assert(first_free(self@.voices, i + 1) == (if !self@.voices[i as int].gate { Some(i as int) } else { None }));
                    if !self.voices[i].gate {
                        proof {
                            lemma_first_free_extends(self@.voices, i + 1, n as int);
                        }
                        return i;
                    }
                    i = i + 1;
                }
                n - 1
            },
            PolyMode::Rotate => self.allocate_voice_rotate(n),
        }
    }
}

/// Removes the entries for `note`, keeping the order of the others.
fn remove_note_from(v: &mut Vec<(u8, u8, u8)>, note: u8)
    ensures
        final(v)@ == without_note(old(v)@, note),
{
    let mut out: Vec<(u8, u8, u8)> = Vec::new();
    let mut i: usize = 0;
    while i < v.len()
        invariant
            v == old(v),
            i <= v.len(),
            out@ == without_note(v@.take(i as int), note),
        decreases v.len() - i,
    {
        let e = v[i];
        assert(v@.take(i + 1).drop_last() =~= v@.take(i as int));
        if e.0 != note {
            out.push(e);
        }
        i = i + 1;
    }
    assert(v@.take(v.len() as int) =~= v@);
    *v = out;
}

/// Removes the entries of MIDI channel `ch`, keeping the order of the others.
fn remove_channel_from(v: &mut Vec<(u8, u8, u8)>, ch: u8)
    ensures
        final(v)@ == without_channel(old(v)@, ch),
{
    let mut out: Vec<(u8, u8, u8)> = Vec::new();
    let mut i: usize = 0;
    while i < v.len()
        invariant
            v == old(v),
            i <= v.len(),
            out@ == without_channel(v@.take(i as int), ch),
        decreases v.len() - i,
    {
        let e = v[i];
        assert(v@.take(i + 1).drop_last() =~= v@.take(i as int));
        if e.2 != ch {
            out.push(e);
        }
        i = i + 1;
    }
    assert(v@.take(v.len() as int) =~= v@);
    *v = out;
}

/// The notes of MIDI channel `ch`, in order.
fn channel_notes(v: &Vec<(u8, u8, u8)>, ch: u8) -> (r: Vec<u8>)
    ensures
        r@ == notes_of_channel(v@, ch),
{
    let mut out: Vec<u8> = Vec::new();
    let mut i: usize = 0;
    while i < v.len()
        invariant
            i <= v.len(),
            out@ == notes_of_channel(v@.take(i as int), ch),
        decreases v.len() - i,
    {
        let e = v[i];
        assert(v@.take(i + 1).drop_last() =~= v@.take(i as int));
        if e.2 == ch {
            out.push(e.0);
        }
        i = i + 1;
    }
    assert(v@.take(v.len() as int) =~= v@);
    out
}

impl MidiCv {
    /// A note is pressed: it joins the held notes and a voice starts it.
    /// With one voice, the voice sounds the held note that the note
    /// priority selects, with a new pulse when that note differs or the
    /// gate was closed.
    pub fn on_midi_note_on(&mut self, msg: &MidiNoteOn)
        requires
            old(self).wf(),
        ensures
            final(self).wf(),
            final(self)@ == (if accepts(old(self)@.params, device_text(msg.device), msg.channel) {
                note_on_step(old(self)@, msg.note, msg.velocity, msg.channel)
            } else {
                old(self)@
            }),
    {
        if !self.should_process_device(&msg.device) || !self.should_process_channel(msg.channel) {
            return;
        }
        let note = msg.note;
        let velocity = msg.velocity;
        let ch = msg.channel;
        let ghost st = self@;
        remove_note_from(&mut self.held_notes, note);
        self.held_notes.push((note, velocity, ch));
        let n = self.num_voices();
        if n == 1 {
            if let Some((mn, mv)) = self.get_mono_note() {
                let v0 = self.voices[0];
                let retrig = !v0.gate || v0.note != mn;
                self.voices.set(0, VoiceState {
                    note: mn,
                    velocity: mv,
                    gate: true,
                    aftertouch: v0.aftertouch,
                    pitch_wheel: v0.pitch_wheel,
                    mod_wheel: v0.mod_wheel,
                });
                if retrig {
                    let p = self.retrigger_samples;
                    self.retrigger_counters.set(0, p);
                }
            }
            assert(self@ == note_on_step(st, note, velocity, ch));
        } else {
            let idx = self.allocate_voice(note, ch);
            let v = self.voices[idx];
            self.voices.set(idx, VoiceState {
                note,
                velocity,
                gate: true,
                aftertouch: v.aftertouch,
                pitch_wheel: v.pitch_wheel,
                mod_wheel: v.mod_wheel,
            });
            let p = self.retrigger_samples;
            self.retrigger_counters.set(idx, p);
            assert(self@ == note_on_step(st, note, velocity, ch));
        }
    }
}

/// The first place of `note` in a prefix is its first place in longer prefixes.
proof fn lemma_position_extends(s: Seq<(u8, u8, u8)>, k: int, m: int, note: u8)
    requires
        0 <= k <= m <= s.len(),
        note_position(s.take(k), note) is Some,
    ensures
        note_position(s.take(m), note) == note_position(s.take(k), note),
    decreases m - k,
{
    if k < m {
        lemma_position_extends(s, k, m - 1, note);
        assert(s.take(m).drop_last() =~= s.take(m - 1));
    }
}

/// The place of the first entry for `note`, if any.
fn find_note(v: &Vec<(u8, u8, u8)>, note: u8) -> (r: Option<usize>)
    ensures
        match r {
            Some(i) => note_position(v@, note) == Some(i as int) && i < v@.len(),
            None => note_position(v@, note) == None::<int>,
        },
{
    let mut i: usize = 0;
    while i < v.len()
        invariant
            i <= v.len(),
            note_position(v@.take(i as int), note) == None::<int>,
        decreases v.len() - i,
    {
        assert(v@.take(i + 1).drop_last() =~= v@.take(i as int));
        if v[i].0 == note {
            proof {
                lemma_position_extends(v@, i + 1, v@.len() as int, note);
                assert(v@.take(v@.len() as int) =~= v@);
            }
            return Some(i);
        }
        i = i + 1;
    }
    assert(v@.take(v.len() as int) =~= v@);
    None
}

impl MidiCv {
    /// A note is released. While the pedal of its MIDI channel is down it
    /// moves from the held to the sustained notes; otherwise its voice is
    /// released (monophonic: the voice moves to the note the priority now
    /// picks, or its gate closes when no note is held).
    pub fn on_midi_note_off(&mut self, msg: &MidiNoteOff)
        requires
            old(self).wf(),
        ensures
            final(self).wf(),
            final(self)@ == (if accepts(old(self)@.params, device_text(msg.device), msg.channel) {
                note_off_step(old(self)@, msg.note, msg.channel)
            } else {
                old(self)@
            }),
    {
        if !self.should_process_device(&msg.device) || !self.should_process_channel(msg.channel) {
            return;
        }
        let note = msg.note;
        let ch = msg.channel;
        let ghost st = self@;
        let ch_idx = ch as usize;
        if ch_idx < 16 && self.sustain[ch_idx] {
            match find_note(&self.held_notes, note) {
                Some(idx) => {
                    let e = self.held_notes.remove(idx);
                    self.sustained_notes.push(e);
                    assert(self@.held =~= st.held.remove(idx as int));
                    assert(self@.sustained =~= st.sustained.push(st.held[idx as int]));
                    assert(note_position(st.held, note) == Some(idx as int));
                    assert(self@ == (CvState { held: st.held.remove(idx as int), sustained: st.sustained.push(st.held[idx as int]), ..st }));
                },
                None => {
                    assert(note_position(st.held, note) == None::<int>);
                    assert(self@ == st);
                },
            }
            assert(ch < 16 && st.sustain[ch as int]);
            assert(self@ == note_off_step(st, note, ch));
            return;
        }
        remove_note_from(&mut self.held_notes, note);
        remove_note_from(&mut self.sustained_notes, note);
        let n = self.num_voices();
        if n == 1 {
            match self.get_mono_note() {
                Some((mn, mv)) => {
                    let v0 = self.voices[0];
                    if v0.note != mn {
                        self.voices.set(0, VoiceState {
                            note: mn,
                            velocity: mv,
                            gate: v0.gate,
                            aftertouch: v0.aftertouch,
                            pitch_wheel: v0.pitch_wheel,
                            mod_wheel: v0.mod_wheel,
                        });
                        let p = self.retrigger_samples;
                        self.retrigger_counters.set(0, p);
                    }
                },
                None => {
                    let v0 = self.voices[0];
                    self.voices.set(0, VoiceState { gate: false, ..v0 });
                },
            }
            assert(self@ == note_off_step(st, note, ch));
        } else {
            match self.find_voice_for_note(note) {
                Some(i) => {
                    let v = self.voices[i];
                    self.voices.set(i, VoiceState { gate: false, ..v });
                },
                None => {},
            }
            assert(self@ == note_off_step(st, note, ch));
        }
    }
}

impl MidiCv {
    /// The voice an MPE member channel controls.
    fn mpe_voice_index(&self, ch: u8) -> (r: usize)
        requires
            ch > 0,
        ensures
            r == mpe_voice(self@.params, ch),
    {
        let last = self.params.channels.saturating_sub(1);
        let c = (ch - 1) as usize;
        if c < last { c } else { last }
    }

    /// A control change. The mod wheel (1) is per voice under MPE and
    /// global otherwise; the sustain pedal (64) is down from value 64, and
    /// when it comes up the voices of the notes it held are released.
    pub fn on_midi_cc(&mut self, msg: &MidiControlChange)
        requires
            old(self).wf(),
            accepts(old(self)@.params, device_text(msg.device), msg.channel) && msg.cc == 1
                ==> mpe_in_range(old(self)@.params, msg.channel),
        ensures
            final(self).wf(),
            final(self)@ == (if accepts(old(self)@.params, device_text(msg.device), msg.channel) {
                cc_step(old(self)@, msg.cc, msg.value, msg.channel)
            } else {
                old(self)@
            }),
    {
        if !self.should_process_device(&msg.device) || !self.should_process_channel(msg.channel) {
            return;
        }
        let ch = msg.channel;
        let value = msg.value;
        let ghost st = self@;
        if msg.cc == 1 {
            if self.params.poly_mode == PolyMode::Mpe && ch > 0 {
                let i = self.mpe_voice_index(ch);
                let v = self.voices[i];
                self.voices.set(i, VoiceState { mod_wheel: value, ..v });
            } else {
                self.global_mod_wheel = value;
            }
            assert(self@ == cc_step(st, msg.cc, value, ch));
        } else if msg.cc == 64 {
            let ch_idx = ch as usize;
            if ch_idx < 16 {
                let down = value >= 64;
                let was = self.sustain[ch_idx];
                self.sustain.set(ch_idx, down);
                if was && !down {
                    let notes = channel_notes(&self.sustained_notes, ch);
                    remove_channel_from(&mut self.sustained_notes, ch);
                    let n = self.num_voices();
                    let mut k: usize = 0;
                    while k < notes.len()
                        invariant
                            self.wf(),
                            k <= notes.len(),
                            n == voice_count(st.params),
                            notes@ == notes_of_channel(st.sustained, ch),
                            self@ == (CvState {
                                sustain: st.sustain.update(ch as int, down),
                                sustained: without_channel(st.sustained, ch),
                                voices: release_notes(st.voices, n as int, notes@.take(k as int)),
                                ..st
                            }),
                        decreases notes.len() - k,
                    {
                        assert(notes@.take(k + 1).drop_last() =~= notes@.take(k as int));
                        match self.find_voice_for_note(notes[k]) {
                            Some(i) => {
                                let v = self.voices[i];
                                self.voices.set(i, VoiceState { gate: false, ..v });
                            },
                            None => {},
                        }
                        k = k + 1;
                    }
                    assert(notes@.take(notes.len() as int) =~= notes@);
                }
            }
            assert(self@ == cc_step(st, msg.cc, value, ch));
        }
    }

    /// Pitch bend: per voice under MPE, else for all voices.
    pub fn on_midi_pitch_bend(&mut self, msg: &MidiPitchBend)
        requires
            old(self).wf(),
            accepts(old(self)@.params, device_text(msg.device), msg.channel)
                ==> mpe_in_range(old(self)@.params, msg.channel),
        ensures
            final(self).wf(),
            final(self)@ == (if accepts(old(self)@.params, device_text(msg.device), msg.channel) {
                pitch_bend_step(old(self)@, msg.value, msg.channel)
            } else {
                old(self)@
            }),
    {
        if !self.should_process_device(&msg.device) || !self.should_process_channel(msg.channel) {
            return;
        }
        let ch = msg.channel;
        if self.params.poly_mode == PolyMode::Mpe && ch > 0 {
            let i = self.mpe_voice_index(ch);
            let v = self.voices[i];
            self.voices.set(i, VoiceState { pitch_wheel: msg.value, ..v });
        } else {
            self.global_pitch_wheel = msg.value;
        }
    }

    /// Channel pressure: per voice under MPE, else for all voices.
    pub fn on_midi_channel_pressure(&mut self, msg: &MidiChannelPressure)
        requires
            old(self).wf(),
            accepts(old(self)@.params, device_text(msg.device), msg.channel)
                ==> mpe_in_range(old(self)@.params, msg.channel),
        ensures
            final(self).wf(),
            final(self)@ == (if accepts(old(self)@.params, device_text(msg.device), msg.channel) {
                channel_pressure_step(old(self)@, msg.pressure, msg.channel)
            } else {
                old(self)@
            }),
    {
        if !self.should_process_device(&msg.device) || !self.should_process_channel(msg.channel) {
            return;
        }
        let ch = msg.channel;
        if self.params.poly_mode == PolyMode::Mpe && ch > 0 {
            let i = self.mpe_voice_index(ch);
            let v = self.voices[i];
            self.voices.set(i, VoiceState { aftertouch: msg.pressure, ..v });
        } else {
            self.global_aftertouch = msg.pressure;
        }
    }

    /// Polyphonic pressure: the aftertouch of the voice playing the note.
    pub fn on_midi_poly_pressure(&mut self, msg: &MidiPolyPressure)
        requires
            old(self).wf(),
        ensures
            final(self).wf(),
            final(self)@ == (if accepts(old(self)@.params, device_text(msg.device), msg.channel) {
                poly_pressure_step(old(self)@, msg.note, msg.pressure)
            } else {
                old(self)@
            }),
    {
        if !self.should_process_device(&msg.device) || !self.should_process_channel(msg.channel) {
            return;
        }
        match self.find_voice_for_note(msg.note) {
            Some(i) => {
                let v = self.voices[i];
                self.voices.set(i, VoiceState { aftertouch: msg.pressure, ..v });
            },
            None => {},
        }
    }

    /// MIDI panic: no notes held or sustained, every voice silent, every
    /// pedal up, the controls centred and the rotation back at the start.
    pub fn on_midi_panic(&mut self)
        requires
            old(self).wf(),
        ensures
            final(self).wf(),
            final(self)@ == initial_state(old(self)@.params, old(self)@.pulse),
    {
        self.held_notes.clear();
        self.sustained_notes.clear();
        self.rotate_index = 0;
        self.global_pitch_wheel = 0;
        self.global_mod_wheel = 0;
        self.global_aftertouch = 0;
        let ghost st = self@;
        let mut i: usize = 0;
        while i < MAX_VOICES
            invariant
                self.voices.len() == MAX_VOICES,
                self.retrigger_counters.len() == MAX_VOICES,
                self.sustain.len() == 16,
                i <= MAX_VOICES,
                self@ == (CvState { voices: self@.voices, retrigger: self@.retrigger, sustain: self@.sustain, ..st }),
                st.held.len() == 0,
                st.sustained.len() == 0,
                st.rotate == 0,
                st.pitch_wheel == 0,
                st.mod_wheel == 0,
                st.aftertouch == 0,
                st.params == old(self)@.params,
                st.pulse == old(self)@.pulse,
                forall|j: int| 0 <= j < i ==> self.voices@[j] == silent_voice(),
                forall|j: int| 0 <= j < i ==> self.retrigger_counters@[j] == 0,
                forall|j: int| 0 <= j < i ==> !self.sustain@[j],
            decreases MAX_VOICES - i,
        {
            self.voices.set(i, VoiceState { note: 0, velocity: 0, gate: false, aftertouch: 0, pitch_wheel: 0, mod_wheel: 0 });
            self.retrigger_counters.set(i, 0);
            self.sustain.set(i, false);
            i = i + 1;
        }
        assert(self@.voices =~= Seq::new(16, |i: int| silent_voice()));
        assert(self@.sustain =~= Seq::new(16, |i: int| false));
        assert(self@.retrigger =~= Seq::new(16, |i: int| 0u32));
    }
}

/// What a message does to the state.
pub open spec fn message_step(st: CvState, msg: Message) -> CvState {
    match msg {
        Message::MidiNoteOn(m) => if accepts(st.params, device_text(m.device), m.channel) {
            note_on_step(st, m.note, m.velocity, m.channel)
        } else {
            st
        },
        Message::MidiNoteOff(m) => if accepts(st.params, device_text(m.device), m.channel) {
            note_off_step(st, m.note, m.channel)
        } else {
            st
        },
        Message::MidiCC(m) => if accepts(st.params, device_text(m.device), m.channel) {
            cc_step(st, m.cc, m.value, m.channel)
        } else {
            st
        },
        Message::MidiCC14Bit(_) => st,
        Message::MidiPitchBend(m) => if accepts(st.params, device_text(m.device), m.channel) {
            pitch_bend_step(st, m.value, m.channel)
        } else {
            st
        },
        Message::MidiChannelPressure(m) => if accepts(st.params, device_text(m.device), m.channel) {
            channel_pressure_step(st, m.pressure, m.channel)
        } else {
            st
        },
        Message::MidiPolyPressure(m) => if accepts(st.params, device_text(m.device), m.channel) {
            poly_pressure_step(st, m.note, m.pressure)
        } else {
            st
        },
    }
}

/// A per-voice MPE message that is used names a voice that exists.
pub open spec fn message_in_range(st: CvState, msg: Message) -> bool {
    match msg {
        Message::MidiCC(m) => accepts(st.params, device_text(m.device), m.channel) && m.cc == 1
            ==> mpe_in_range(st.params, m.channel),
        Message::MidiPitchBend(m) => accepts(st.params, device_text(m.device), m.channel)
            ==> mpe_in_range(st.params, m.channel),
        Message::MidiChannelPressure(m) => accepts(st.params, device_text(m.device), m.channel)
            ==> mpe_in_range(st.params, m.channel),
        _ => true,
    }
}

/// What one voice sends out for one sample, before scaling to volts.
pub struct VoiceOutput {
    pub note: u8,
    pub gate: bool,
    pub velocity: u8,
    pub aftertouch: u8,
    pub pitch_wheel: i16,
    pub mod_wheel: u8,
    /// The retrigger pulse is high.
    pub retrigger: bool,
}

/// The output of voice `i`: under MPE its own controls, otherwise the
/// global pitch and mod wheels and the larger of the two aftertouches.
pub open spec fn voice_output(st: CvState, i: int) -> VoiceOutput {
    let v = st.voices[i];
    let mpe = st.params.poly_mode == PolyMode::Mpe;
    VoiceOutput {
        note: v.note,
        gate: v.gate,
        velocity: v.velocity,
        aftertouch: if mpe { v.aftertouch } else if st.aftertouch >= v.aftertouch { st.aftertouch } else { v.aftertouch },
        pitch_wheel: if mpe { v.pitch_wheel } else { st.pitch_wheel },
        mod_wheel: if mpe { v.mod_wheel } else { st.mod_wheel },
        retrigger: st.retrigger[i] > 0,
    }
}

/// The pulse counters after one sample: each running pulse of a voice in use counts down.
pub open spec fn counted_down(retrigger: Seq<u32>, n: int) -> Seq<u32> {
    Seq::new(retrigger.len(), |i: int| if i < n && retrigger[i] > 0 { (retrigger[i] - 1) as u32 } else { retrigger[i] })
}

impl MidiCv {
    /// Handles one MIDI message; 14-bit control changes are not used.
    pub fn handle_message(&mut self, msg: &Message)
        requires
            old(self).wf(),
            message_in_range(old(self)@, *msg),
        ensures
            final(self).wf(),
            final(self)@ == message_step(old(self)@, *msg),
    {
        match msg {
            Message::MidiNoteOn(m) => self.on_midi_note_on(m),
            Message::MidiNoteOff(m) => self.on_midi_note_off(m),
            Message::MidiCC(m) => self.on_midi_cc(m),
            Message::MidiCC14Bit(_) => {},
            Message::MidiPitchBend(m) => self.on_midi_pitch_bend(m),
            Message::MidiChannelPressure(m) => self.on_midi_channel_pressure(m),
            Message::MidiPolyPressure(m) => self.on_midi_poly_pressure(m),
        }
    }

    /// The outputs of the voices in use for one sample; each running
    /// retrigger pulse counts down by one sample.
    pub fn next_outputs(&mut self) -> (r: Vec<VoiceOutput>)
        requires
            old(self).wf(),
        ensures
            final(self).wf(),
            r.len() == voice_count(old(self)@.params),
            forall|i: int| 0 <= i < r.len() ==> r@[i] == voice_output(old(self)@, i),
            final(self)@ == (CvState {
                retrigger: counted_down(old(self)@.retrigger, voice_count(old(self)@.params)),
                ..old(self)@
            }),
    {
        let n = self.num_voices();
        let ghost st = self@;
        let mpe = self.params.poly_mode == PolyMode::Mpe;
        let mut out: Vec<VoiceOutput> = Vec::new();
        let mut i: usize = 0;
        while i < n
            invariant
                self.wf(),
                n == voice_count(st.params),
                1 <= n <= MAX_VOICES,
                i <= n,
                mpe == (st.params.poly_mode == PolyMode::Mpe),
                out.len() == i,
                forall|j: int| 0 <= j < i ==> out@[j] == voice_output(st, j),
                self@ == (CvState { retrigger: self@.retrigger, ..st }),
                self@.retrigger.len() == st.retrigger.len(),
                forall|j: int| 0 <= j < i ==> self@.retrigger[j] == counted_down(st.retrigger, n as int)[j],
                forall|j: int| i <= j < st.retrigger.len() ==> self@.retrigger[j] == st.retrigger[j],
            decreases n - i,
        {
            let v = self.voices[i];
            let at = if mpe {
                v.aftertouch
            } else if self.global_aftertouch >= v.aftertouch {
                self.global_aftertouch
            } else {
                v.aftertouch
            };
            let counter = self.retrigger_counters[i];
            let pulse = counter > 0;
            if pulse {
                self.retrigger_counters.set(i, counter - 1);
            }
            out.push(VoiceOutput {
                note: v.note,
                gate: v.gate,
                velocity: v.velocity,
                aftertouch: at,
                pitch_wheel: if mpe { v.pitch_wheel } else { self.global_pitch_wheel },
                mod_wheel: if mpe { v.mod_wheel } else { self.global_mod_wheel },
                retrigger: pulse,
            });
            i = i + 1;
        }
        assert(self@.retrigger =~= counted_down(st.retrigger, n as int));
        out
    }

    /// The pitch bend range in semitones; 0 means pitch bend is off.
    pub fn pitch_bend_range(&self) -> (r: u8)
        ensures
            r == self@.params.pitch_bend_range,
    {
        self.params.pitch_bend_range
    }
}

/// A voice found among the first `k` is still the one found among more.
proof fn lemma_playing_extends(voices: Seq<VoiceState>, k: int, m: int, note: u8)
    requires
        k <= m,
        playing(voices, k, note) is Some,
    ensures
        playing(voices, m, note) == playing(voices, k, note),
    decreases m - k,
{
    if k < m {
        lemma_playing_extends(voices, k, m - 1, note);
    }
}

/// The voice found among the first `n` is one of them.
proof fn lemma_playing_bounds(voices: Seq<VoiceState>, n: int, note: u8)
    ensures
        playing(voices, n, note) matches Some(i) ==> 0 <= i < n && voices[i].gate && voices[i].note == note,
    decreases n,
{
    if n > 0 {
        lemma_playing_bounds(voices, n - 1, note);
    }
}

/// A free voice found among the first `k` is still the one found among more.
proof fn lemma_first_free_extends(voices: Seq<VoiceState>, k: int, m: int)
    requires
        k <= m,
        first_free(voices, k) is Some,
    ensures
        first_free(voices, m) == first_free(voices, k),
    decreases m - k,
{
    if k < m {
        lemma_first_free_extends(voices, k, m - 1);
    }
}

/// The state of a new module.
pub open spec fn initial_state(params: CvParams, pulse: u32) -> CvState {
    CvState {
        params,
        voices: Seq::new(16, |i: int| silent_voice()),
        held: Seq::empty(),
        rotate: 0,
        sustain: Seq::new(16, |i: int| false),
        sustained: Seq::empty(),
        pitch_wheel: 0,
        mod_wheel: 0,
        aftertouch: 0,
        retrigger: Seq::new(16, |i: int| 0u32),
        pulse,
    }
}

} // verus!

verus! {

/// The shape every module state has: sixteen voices, pedals and pulse
/// counters, and a rotation among the voices in use.
pub open spec fn valid_state(st: CvState) -> bool {
    &&& st.voices.len() == MAX_VOICES
    &&& st.sustain.len() == 16
    &&& st.retrigger.len() == MAX_VOICES
    &&& 0 <= st.rotate < voice_count(st.params)
}

impl MidiCv {
    /// The state of a well-formed module is valid.
    pub proof fn lemma_wf_valid(&self)
        requires
            self.wf(),
        ensures
            valid_state(self@),
    {
    }
}

/// No note is listed twice.
pub open spec fn distinct_notes(s: Seq<(u8, u8, u8)>) -> bool {
    forall|i: int, j: int| 0 <= i < j < s.len() ==> s[i].0 != s[j].0
}

/// `without_note` keeps entries of `s` other than `note`, each at most once.
proof fn lemma_without_note_props(s: Seq<(u8, u8, u8)>, note: u8)
    ensures
        forall|k: int| 0 <= k < without_note(s, note).len() ==> #[trigger] without_note(s, note)[k].0 != note,
        forall|k: int| 0 <= k < without_note(s, note).len()
            ==> exists|j: int| 0 <= j < s.len() && s[j] == #[trigger] without_note(s, note)[k],
        distinct_notes(s) ==> distinct_notes(without_note(s, note)),
    decreases s.len(),
{
    if s.len() > 0 {
        let t = s.drop_last();
        lemma_without_note_props(t, note);
        let w = without_note(t, note);
        assert forall|k: int| 0 <= k < without_note(s, note).len()
            implies exists|j: int| 0 <= j < s.len() && s[j] == #[trigger] without_note(s, note)[k] by {
            if k < w.len() {
                let j = choose|j: int| 0 <= j < t.len() && t[j] == w[k];
                assert(s[j] == without_note(s, note)[k]);
            } else {
                assert(s[s.len() - 1] == without_note(s, note)[k]);
            }
        }
        if distinct_notes(s) {
            assert forall|i: int, j: int| 0 <= i < j < without_note(s, note).len()
                implies without_note(s, note)[i].0 != without_note(s, note)[j].0 by {
                if j >= w.len() {
                    let m = choose|m: int| 0 <= m < t.len() && t[m] == w[i];
                    assert(s[m] == t[m]);
                }
            }
        }
    }
}

/// The first place of a note is a place in the sequence.
proof fn lemma_position_bounds(s: Seq<(u8, u8, u8)>, note: u8)
    ensures
        note_position(s, note) matches Some(i) ==> 0 <= i < s.len(),
    decreases s.len(),
{
    if s.len() > 0 {
        lemma_position_bounds(s.drop_last(), note);
    }
}

/// `without_channel` keeps no entry of MIDI channel `ch`.
proof fn lemma_without_channel_clears(s: Seq<(u8, u8, u8)>, ch: u8)
    ensures
        forall|k: int| 0 <= k < without_channel(s, ch).len() ==> #[trigger] without_channel(s, ch)[k].2 != ch,
    decreases s.len(),
{
    if s.len() > 0 {
        let t = s.drop_last();
        lemma_without_channel_clears(t, ch);
        let w = without_channel(t, ch);
        assert forall|k: int| 0 <= k < without_channel(s, ch).len() implies #[trigger] without_channel(s, ch)[k].2 != ch by {
            if k < w.len() {
                assert(without_channel(s, ch)[k] == w[k]);
            }
        }
    }
}

/// The first entry survives when it is not the note removed.
proof fn lemma_without_note_first(s: Seq<(u8, u8, u8)>, note: u8)
    requires
        s.len() > 0,
        s[0].0 != note,
    ensures
        without_note(s, note).len() > 0,
        without_note(s, note)[0] == s[0],
    decreases s.len(),
{
    let t = s.drop_last();
    if s.len() > 1 {
        lemma_without_note_first(t, note);
        assert(t[0] == s[0]);
        assert(without_note(s, note)[0] == without_note(t, note)[0]);
    } else {
        assert(without_note(t, note) == t);
        assert(without_note(s, note) == t.push(s.last()));
    }
}

/// The lowest note among the first `k` is no higher than any of them.
proof fn lemma_lowest_in_min(s: Seq<(u8, u8, u8)>, k: int)
    requires
        1 <= k <= s.len(),
    ensures
        0 <= lowest_in(s, k) < k,
        forall|j: int| 0 <= j < k ==> s[lowest_in(s, k)].0 <= #[trigger] s[j].0,
    decreases k,
{
    if k > 1 {
        lemma_lowest_in_min(s, k - 1);
    }
}

/// The highest note among the first `k` is no lower than any of them.
proof fn lemma_highest_in_max(s: Seq<(u8, u8, u8)>, k: int)
    requires
        1 <= k <= s.len(),
    ensures
        0 <= highest_in(s, k) < k,
        forall|j: int| 0 <= j < k ==> s[highest_in(s, k)].0 >= #[trigger] s[j].0,
    decreases k,
{
    if k > 1 {
        lemma_highest_in_max(s, k - 1);
    }
}

/// The round-robin search finds a voice in use.
proof fn lemma_free_from_bounds(voices: Seq<VoiceState>, rotate: int, n: int, i: int)
    requires
        n > 0,
        0 <= i,
        0 <= rotate,
    ensures
        free_from(voices, rotate, n, i) matches Some(k) ==> 0 <= k < n,
    decreases n - i,
{
    if i < n {
        lemma_free_from_bounds(voices, rotate, n, i + 1);
    }
}

/// The first free voice is one of those in use.
proof fn lemma_first_free_bounds(voices: Seq<VoiceState>, n: int)
    ensures
        first_free(voices, n) matches Some(k) ==> 0 <= k < n,
    decreases n,
{
    if n > 0 {
        lemma_first_free_bounds(voices, n - 1);
    }
}

/// A new note always goes to one of the voices in use, and the rotation
/// stays among them.
pub proof fn lemma_allocation_in_range(st: CvState, note: u8, ch: u8)
    requires
        valid_state(st),
    ensures
        0 <= allocation(st, note, ch).0 < voice_count(st.params),
        0 <= allocation(st, note, ch).1 < voice_count(st.params),
{
    let n = voice_count(st.params);
    lemma_free_from_bounds(st.voices, st.rotate, n, 0);
    lemma_first_free_bounds(st.voices, n);
    lemma_playing_bounds(st.voices, n, note);
}

/// No note is ever held twice: every message keeps the held notes distinct.
pub proof fn lemma_held_notes_stay_distinct(st: CvState, msg: Message)
    requires
        valid_state(st),
        distinct_notes(st.held),
    ensures
        distinct_notes(message_step(st, msg).held),
{
    match msg {
        Message::MidiNoteOn(m) => {
            lemma_without_note_props(st.held, m.note);
        },
        Message::MidiNoteOff(m) => {
            lemma_without_note_props(st.held, m.note);
            if m.channel < 16 && st.sustain[m.channel as int] {
                lemma_position_bounds(st.held, m.note);
                match note_position(st.held, m.note) {
                    Some(i) => {
                        let r = st.held.remove(i);
                        assert forall|a: int, b: int| 0 <= a < b < r.len() implies r[a].0 != r[b].0 by {
                            let a2 = if a < i { a } else { a + 1 };
                            let b2 = if b < i { b } else { b + 1 };
                            assert(r[a] == st.held[a2]);
                            assert(r[b] == st.held[b2]);
                        }
                    },
                    None => {},
                }
            }
        },
        _ => {},
    }
}

/// Monophonic, last-note priority: the note just pressed sounds, gate on.
pub proof fn lemma_mono_last_plays_new_note(st: CvState, note: u8, velocity: u8, ch: u8)
    requires
        valid_state(st),
        voice_count(st.params) == 1,
        st.params.mono_mode == MonoMode::Last,
    ensures
        note_on_step(st, note, velocity, ch).voices[0].note == note,
        note_on_step(st, note, velocity, ch).voices[0].velocity == velocity,
        note_on_step(st, note, velocity, ch).voices[0].gate,
{
}

/// Monophonic, first-note priority: a new note does not take over from
/// the note held longest.
pub proof fn lemma_mono_first_ignores_new_notes(st: CvState, note: u8, velocity: u8, ch: u8)
    requires
        valid_state(st),
        voice_count(st.params) == 1,
        st.params.mono_mode == MonoMode::First,
        st.held.len() > 0,
        st.held[0].0 != note,
    ensures
        note_on_step(st, note, velocity, ch).voices[0].note == st.held[0].0,
        note_on_step(st, note, velocity, ch).voices[0].gate,
{
    lemma_without_note_first(st.held, note);
}

/// Monophonic, lowest-note priority: the sounding note is the lowest held.
pub proof fn lemma_mono_lowest_wins(st: CvState, note: u8, velocity: u8, ch: u8)
    requires
        valid_state(st),
        voice_count(st.params) == 1,
        st.params.mono_mode == MonoMode::Lowest,
    ensures
        forall|j: int| 0 <= j < note_on_step(st, note, velocity, ch).held.len()
            ==> note_on_step(st, note, velocity, ch).voices[0].note <= #[trigger] note_on_step(st, note, velocity, ch).held[j].0,
{
    let held = without_note(st.held, note).push((note, velocity, ch));
    lemma_lowest_in_min(held, held.len() as int);
}

/// Monophonic, highest-note priority: the sounding note is the highest held.
pub proof fn lemma_mono_highest_wins(st: CvState, note: u8, velocity: u8, ch: u8)
    requires
        valid_state(st),
        voice_count(st.params) == 1,
        st.params.mono_mode == MonoMode::Highest,
    ensures
        forall|j: int| 0 <= j < note_on_step(st, note, velocity, ch).held.len()
            ==> note_on_step(st, note, velocity, ch).voices[0].note >= #[trigger] note_on_step(st, note, velocity, ch).held[j].0,
{
    let held = without_note(st.held, note).push((note, velocity, ch));
    lemma_highest_in_max(held, held.len() as int);
}

/// Reuse mode: a note pressed again goes back to the voice already playing it.
pub proof fn lemma_reuse_same_voice(st: CvState, note: u8, velocity: u8, ch: u8, i: int)
    requires
        voice_count(st.params) > 1,
        st.params.poly_mode == PolyMode::Reuse,
        valid_state(st),
        playing(st.voices, voice_count(st.params), note) == Some(i),
    ensures
        allocation(st, note, ch).0 == i,
        note_on_step(st, note, velocity, ch).voices[i].note == note,
        note_on_step(st, note, velocity, ch).voices[i].gate,
{
    lemma_playing_bounds(st.voices, voice_count(st.params), note);
}

/// MPE: a note on member channel `ch` (1 up to the number of voices) sounds
/// on voice `ch - 1`.
pub proof fn lemma_mpe_channel_is_voice(st: CvState, note: u8, velocity: u8, ch: u8)
    requires
        voice_count(st.params) > 1,
        st.params.poly_mode == PolyMode::Mpe,
        1 <= ch <= voice_count(st.params),
        valid_state(st),
    ensures
        allocation(st, note, ch).0 == ch - 1,
        note_on_step(st, note, velocity, ch).voices[ch - 1].note == note,
        note_on_step(st, note, velocity, ch).voices[ch - 1].gate,
{
}

/// While the pedal of a MIDI channel is down, releasing a note there
/// leaves every voice sounding as it was.
pub proof fn lemma_sustain_keeps_voices(st: CvState, note: u8, ch: u8)
    requires
        valid_state(st),
        ch < 16,
        st.sustain[ch as int],
    ensures
        note_off_step(st, note, ch).voices == st.voices,
        note_off_step(st, note, ch).retrigger == st.retrigger,
{
}

/// When the pedal of a MIDI channel comes up, no note of that channel is
/// left sustained.
pub proof fn lemma_pedal_up_clears_channel(st: CvState, value: u8, ch: u8)
    requires
        valid_state(st),
        ch < 16,
        st.sustain[ch as int],
        value < 64,
    ensures
        forall|k: int| 0 <= k < cc_step(st, 64, value, ch).sustained.len()
            ==> #[trigger] cc_step(st, 64, value, ch).sustained[k].2 != ch,
        !cc_step(st, 64, value, ch).sustain[ch as int],
{
    lemma_without_channel_clears(st.sustained, ch);
}

} // verus!
