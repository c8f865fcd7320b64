//! The MIDI gate module: its output is high while any note in a range of
//! notes is held.

use vstd::prelude::*;
use crate::midi::{device_text, MidiNoteOff, MidiNoteOn};
use crate::text::str_eq;

verus! {

/// The params of the MIDI gate module.
pub struct MidiGateParams {
    /// Only MIDI from this device is used; all devices when absent.
    pub device: Option<String>,
    /// Lowest note of the range.
    pub min_note: u8,
    /// Highest note of the range.
    pub max_note: u8,
    /// Only this MIDI channel (1-16) is used; all channels when absent.
    pub channel: Option<u8>,
}

/// The default highest note of the range.
pub fn default_max_note() -> (r: u8)
    ensures
        r == 127,
{
    127
}

/// The MIDI gate module: how many notes of the range are held.
pub struct MidiGate {
    params: MidiGateParams,
    notes_held: u8,
}

/// A note message from `device` on `channel` for `note` counts.
pub open spec fn gate_accepts(p: MidiGateParams, device: Option<Seq<char>>, channel: u8, note: u8) -> bool {
    &&& match device_text(p.device) {
        None => true,
        Some(wanted) => device == Some(wanted),
    }
    &&& match p.channel {
        None => true,
        Some(c) => channel == if c == 0 { 0 } else { c - 1 },
    }
    &&& p.min_note <= note <= p.max_note
}

/// The count after a note of the range is pressed; it stops at 255.
pub open spec fn count_up(held: u8) -> u8 {
    if held < 255 { (held + 1) as u8 } else { 255 }
}

/// The count after a note of the range is released; it stops at 0.
pub open spec fn count_down(held: u8) -> u8 {
    if held > 0 { (held - 1) as u8 } else { 0 }
}

impl MidiGate {
    /// The number of held notes in the range, at most 255.
    pub closed spec fn held(&self) -> u8 {
        self.notes_held
    }

    /// The params the module was made with.
    pub closed spec fn config(&self) -> MidiGateParams {
        self.params
    }

    /// A module with no notes held.
    pub fn new(params: MidiGateParams) -> (r: Self)
        ensures
            r.held() == 0,
            r.config() == params,
    {
        MidiGate { params, notes_held: 0 }
    }

    /// Whether MIDI from `device` is used.
    pub fn should_process_device(&self, device: &Option<String>) -> (r: bool)
        ensures
            r == (match device_text(self.config().device) {
                None => true,
                Some(wanted) => device_text(*device) == Some(wanted),
            }),
    {
        match &self.params.device {
            None => true,
            Some(wanted) => match device {
                Some(got) => str_eq(wanted.as_str(), got.as_str()),
                None => false,
            },
        }
    }

    /// Whether MIDI on channel `midi_channel` (counting from 0) is used.
    pub fn should_process_channel(&self, midi_channel: u8) -> (r: bool)
        ensures
            r == (match self.config().channel {
                None => true,
                Some(c) => midi_channel == if c == 0 { 0 } else { c - 1 },
            }),
    {
        match self.params.channel {
            None => true,
            Some(ch) => midi_channel == ch.saturating_sub(1),
        }
    }

    /// Whether `note` lies in the range.
    pub fn is_in_range(&self, note: u8) -> (r: bool)
        ensures
            r == (self.config().min_note <= note <= self.config().max_note),
    {
        note >= self.params.min_note && note <= self.params.max_note
    }

    /// A note of the range is pressed: one more note is held (at most 255).
    pub fn on_midi_note_on(&mut self, msg: &MidiNoteOn)
        ensures
            final(self).config() == old(self).config(),
            final(self).held() == (if gate_accepts(old(self).config(), device_text(msg.device), msg.channel, msg.note) {
                count_up(old(self).held())
            } else {
                old(self).held()
            }),
    {
        if self.should_process_device(&msg.device) && self.should_process_channel(msg.channel)
            && self.is_in_range(msg.note) {
            self.notes_held = self.notes_held.saturating_add(1);
        }
    }

    /// A note of the range is released: one note fewer is held (not below 0).
    pub fn on_midi_note_off(&mut self, msg: &MidiNoteOff)
        ensures
            final(self).config() == old(self).config(),
            final(self).held() == (if gate_accepts(old(self).config(), device_text(msg.device), msg.channel, msg.note) {
                count_down(old(self).held())
            } else {
                old(self).held()
            }),
    {
        if self.should_process_device(&msg.device) && self.should_process_channel(msg.channel)
            && self.is_in_range(msg.note) {
            self.notes_held = self.notes_held.saturating_sub(1);
        }
    }

    /// MIDI panic: no notes held.
    pub fn on_midi_panic(&mut self)
        ensures
            final(self).config() == old(self).config(),
            final(self).held() == 0,
    {
        self.notes_held = 0;
    }

    /// The output is high while a note of the range is held.
    pub fn gate_open(&self) -> (r: bool)
        ensures
            r == (self.held() > 0),
    {
        self.notes_held > 0
    }

    /// The number of held notes in the range.
    pub fn note_count(&self) -> (r: u8)
        ensures
            r == self.held(),
    {
        self.notes_held
    }
}

/// Pressing and then releasing a note of the range leaves the count as it
/// was, unless the count had reached its top; while the pressed note is
/// held the output is high.
pub proof fn lemma_press_release_restores(held: u8)
    requires
        held < 255,
    ensures
        count_down(count_up(held)) == held,
        count_up(held) > 0,
{
}

} // verus!
