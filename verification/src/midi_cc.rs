//! The MIDI CC module: follows one controller, as a 7-bit value or, in
//! high-resolution mode, as the 14-bit value of a controller pair. The
//! value is kept as a fraction of the controller's full scale; turning it
//! into a voltage and smoothing it is the audio engine's work.

use vstd::prelude::*;
use crate::midi::{device_text, MidiControlChange, MidiControlChange14Bit};
use crate::text::str_eq;

verus! {

/// The full scale of a 7-bit controller.
pub const CC7_FULL_SCALE: u16 = 127;

/// The full scale of a 14-bit controller pair.
pub const CC14_FULL_SCALE: u16 = 16383;

/// The params of the MIDI CC module that decide which messages count.
pub struct MidiCcParams {
    /// Only MIDI from this device is used; all devices when absent.
    pub device: Option<String>,
    /// The controller followed (0-127; 0-31 in high-resolution mode).
    pub cc: u8,
    /// Only this MIDI channel (1-16) is used; all channels when absent.
    pub channel: Option<u8>,
    /// Follow 14-bit pairs (controller and controller + 32) instead of 7-bit values.
    pub high_resolution: bool,
}

/// The MIDI CC module: the last value of its controller.
pub struct MidiCc {
    params: MidiCcParams,
    value: u16,
    full_scale: u16,
}

/// A message from `device` on `channel` for controller `cc` is followed.
pub open spec fn cc_accepts(p: MidiCcParams, device: Option<Seq<char>>, channel: u8, cc: u8) -> bool {
    &&& cc == p.cc
    &&& match device_text(p.device) {
        None => true,
        Some(wanted) => device == Some(wanted),
    }
    &&& match p.channel {
        None => true,
        Some(c) => channel == if c == 0 { 0 } else { c - 1 },
    }
}

impl MidiCc {
    /// The value as (numerator, full scale): the level is their quotient.
    pub closed spec fn level(&self) -> (u16, u16) {
        (self.value, self.full_scale)
    }

    /// The params the module was made with.
    pub closed spec fn config(&self) -> MidiCcParams {
        self.params
    }

    /// A module at level 0.
    pub fn new(params: MidiCcParams) -> (r: Self)
        ensures
            r.config() == params,
            r.level() == (0u16, CC7_FULL_SCALE),
    {
        MidiCc { params, value: 0, full_scale: CC7_FULL_SCALE }
    }

    fn accepts(&self, device: &Option<String>, channel: u8, cc: u8) -> (r: bool)
        ensures
            r == cc_accepts(self.config(), device_text(*device), channel, cc),
    {
        if cc != self.params.cc {
            return false;
        }
        let device_ok = match &self.params.device {
            None => true,
            Some(wanted) => match device {
                Some(got) => str_eq(wanted.as_str(), got.as_str()),
                None => false,
            },
        };
        let channel_ok = match self.params.channel {
            None => true,
            Some(ch) => channel == ch.saturating_sub(1),
        };
        device_ok && channel_ok
    }

    /// A 7-bit control change; ignored in high-resolution mode.
    pub fn on_midi_cc(&mut self, msg: &MidiControlChange)
        ensures
            final(self).config() == old(self).config(),
            final(self).level() == (if !old(self).config().high_resolution
                && cc_accepts(old(self).config(), device_text(msg.device), msg.channel, msg.cc) {
                (msg.value as u16, CC7_FULL_SCALE)
            } else {
                old(self).level()
            }),
    {
        if self.params.high_resolution {
            return;
        }
        if self.accepts(&msg.device, msg.channel, msg.cc) {
            self.value = msg.value as u16;
            self.full_scale = CC7_FULL_SCALE;
        }
    }

    /// A 14-bit control change; used only in high-resolution mode.
    pub fn on_midi_cc_14bit(&mut self, msg: &MidiControlChange14Bit)
        ensures
            final(self).config() == old(self).config(),
            final(self).level() == (if old(self).config().high_resolution
                && cc_accepts(old(self).config(), device_text(msg.device), msg.channel, msg.cc) {
                (msg.value, CC14_FULL_SCALE)
            } else {
                old(self).level()
            }),
    {
        if !self.params.high_resolution {
            return;
        }
        if self.accepts(&msg.device, msg.channel, msg.cc) {
            self.value = msg.value;
            self.full_scale = CC14_FULL_SCALE;
        }
    }

    /// The value as (numerator, full scale).
    pub fn current_level(&self) -> (r: (u16, u16))
        ensures
            r == self.level(),
    {
        (self.value, self.full_scale)
    }
}

} // verus!
