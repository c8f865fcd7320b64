//! Engine-facing types: the system modules every patch has, when a queued
//! patch takes effect, errors reported by the audio thread, and the plain
//! records exchanged with the host application.

use vstd::prelude::*;
use crate::text::{decimal, decimal_string, join2, join3, str_eq};

verus! {

/// The modules the engine creates itself.
#[derive(Clone, Copy, Debug, PartialEq, Eq, Structural)]
pub enum WellKnownModule {
    /// The module whose output is sent to the audio device.
    RootOutput,
    /// The transport clock.
    RootClock,
    /// The module exposing the patch's audio input.
    RootInput,
    /// The hidden module that carries device input into the patch.
    HiddenAudioIn,
}

impl WellKnownModule {
    pub open spec fn spec_id(self) -> Seq<char> {
        match self {
            WellKnownModule::RootOutput => "ROOT_OUTPUT"@,
            WellKnownModule::RootClock => "ROOT_CLOCK"@,
            WellKnownModule::RootInput => "ROOT_INPUT"@,
            WellKnownModule::HiddenAudioIn => "HIDDEN_AUDIO_IN"@,
        }
    }

    /// The module id the engine gives this module.
    pub fn id(&self) -> (r: &'static str)
        ensures
            r@ == self.spec_id(),
    {
        proof {
            reveal_strlit("ROOT_OUTPUT");
            reveal_strlit("ROOT_CLOCK");
            reveal_strlit("ROOT_INPUT");
            reveal_strlit("HIDDEN_AUDIO_IN");
        }
        match self {
            WellKnownModule::RootOutput => "ROOT_OUTPUT",
            WellKnownModule::RootClock => "ROOT_CLOCK",
            WellKnownModule::RootInput => "ROOT_INPUT",
            WellKnownModule::HiddenAudioIn => "HIDDEN_AUDIO_IN",
        }
    }
}

/// The id belongs to a module the engine creates itself.
pub open spec fn reserved_id(id: Seq<char>) -> bool {
    ||| id == WellKnownModule::RootOutput.spec_id()
    ||| id == WellKnownModule::RootClock.spec_id()
    ||| id == WellKnownModule::RootInput.spec_id()
    ||| id == WellKnownModule::HiddenAudioIn.spec_id()
}

/// Whether a module id is reserved for a system module; such modules are
/// never removed as stale when a patch is applied.
pub fn is_reserved_module_id(id: &str) -> (r: bool)
    ensures
        r == reserved_id(id@),
{
    str_eq(id, WellKnownModule::RootOutput.id())
        || str_eq(id, WellKnownModule::RootClock.id())
        || str_eq(id, WellKnownModule::RootInput.id())
        || str_eq(id, WellKnownModule::HiddenAudioIn.id())
}

/// When a queued patch update takes effect.
#[derive(Clone, Copy, Debug, PartialEq, Eq, Structural)]
pub enum QueuedTrigger {
    /// At once.
    Immediate,
    /// At the start of the next bar of the root clock.
    NextBar,
    /// At the next beat of the root clock.
    NextBeat,
}

/// An error the audio thread reports back.
pub enum AudioError {
    ParamUpdateFailed { module_id: String, message: String },
    MessageDispatchFailed { message: String },
    ModuleNotFound { module_id: String },
    PatchProcessingError { message: String },
}

impl AudioError {
    pub open spec fn text(self) -> Seq<char> {
        match self {
            AudioError::ParamUpdateFailed { module_id, message } =>
                "Failed to update params for "@ + module_id@ + ": "@ + message@,
            AudioError::MessageDispatchFailed { message } => "Failed to dispatch message: "@ + message@,
            AudioError::ModuleNotFound { module_id } => "Module not found: "@ + module_id@,
            AudioError::PatchProcessingError { message } => "Patch processing error: "@ + message@,
        }
    }

    /// The error as a sentence for the user.
    pub fn to_string(&self) -> (r: String)
        ensures
            r@ == self.text(),
    {
        proof {
            reveal_strlit("Failed to update params for ");
            reveal_strlit(": ");
            reveal_strlit("Failed to dispatch message: ");
            reveal_strlit("Module not found: ");
            reveal_strlit("Patch processing error: ");
        }
        match self {
            AudioError::ParamUpdateFailed { module_id, message } => {
                let mut s = join3("Failed to update params for ", module_id.as_str(), ": ");
                s.append(message.as_str());
                s
            },
            AudioError::MessageDispatchFailed { message } => join2("Failed to dispatch message: ", message.as_str()),
            AudioError::ModuleNotFound { module_id } => join2("Module not found: ", module_id.as_str()),
            AudioError::PatchProcessingError { message } => join2("Patch processing error: ", message.as_str()),
        }
    }
}

/// A time signature read from a WAV file.
pub struct WavTimeSignature {
    pub num: u32,
    pub den: u32,
}

/// A MIDI input port offered to the user.
pub struct MidiInputInfo {
    pub name: String,
    pub index: u32,
}

/// The audio setup asked for when the synthesizer starts.
pub struct AudioConfigOptions {
    pub host_id: Option<String>,
    pub output_device_id: Option<String>,
    pub input_device_id: Option<String>,
    pub sample_rate: Option<u32>,
    pub buffer_size: Option<u32>,
}

impl Default for AudioConfigOptions {
    /// Nothing asked for: default host, devices, rate and buffer size.
    fn default() -> (r: Self)
        ensures
            r.host_id is None,
            r.output_device_id is None,
            r.input_device_id is None,
            r.sample_rate is None,
            r.buffer_size is None,
    {
        AudioConfigOptions {
            host_id: None,
            output_device_id: None,
            input_device_id: None,
            sample_rate: None,
            buffer_size: None,
        }
    }
}

/// A problem found while reading a module's params.
pub struct DeriveChannelCountError {
    pub message: String,
    /// The param at fault, when one is named.
    pub params: Vec<String>,
}

/// The channel count of a module derived from its params, or the problems
/// that prevented it.
pub struct DeriveChannelCountResult {
    pub channel_count: Option<u32>,
    pub errors: Option<Vec<DeriveChannelCountError>>,
}

/// A param problem as the params reader reports it: the field at fault
/// (empty when none) and the message.
pub struct ParamError {
    pub field: String,
    pub message: String,
}

pub open spec fn error_shape(e: DeriveChannelCountError) -> (Seq<char>, Seq<Seq<char>>) {
    (e.message@, e.params@.map_values(|p: String| p@))
}

pub open spec fn expected_shape(e: ParamError) -> (Seq<char>, Seq<Seq<char>>) {
    (e.message@, if e.field@.len() == 0 { Seq::empty() } else { seq![e.field@] })
}

/// The result reported for a module whose params were read as `outcome`:
/// its channel count, or each problem with the param it names (none when
/// the field is empty).
pub fn derive_channel_count_result(outcome: Result<usize, Vec<ParamError>>) -> (r: DeriveChannelCountResult)
    requires
        outcome matches Ok(n) ==> n <= u32::MAX,
    ensures
        match outcome {
            Ok(n) => r.channel_count == Some(n as u32) && r.errors is None,
            Err(es) => r.channel_count is None && (r.errors matches Some(v)
                && v@.map_values(|e: DeriveChannelCountError| error_shape(e))
                    == es@.map_values(|e: ParamError| expected_shape(e))),
        },
{
    match outcome {
        Ok(n) => DeriveChannelCountResult { channel_count: Some(n as u32), errors: None },
        Err(es) => {
            let mut out: Vec<DeriveChannelCountError> = Vec::new();
            let mut rest = es;
            let ghost all = rest@;
            while rest.len() > 0
                invariant
                    out@.len() + rest@.len() == all.len(),
                    rest@ == all.skip(out@.len() as int),
                    out@.map_values(|e: DeriveChannelCountError| error_shape(e))
                        == all.map_values(|e: ParamError| expected_shape(e)).take(out@.len() as int),
                decreases rest@.len(),
            {
                let e = rest.remove(0);
                proof {
                    assert(all.skip(out@.len() as int)[0] == e);
                }
                let params: Vec<String> = if e.field.as_str().is_empty() {
                    Vec::new()
                } else {
                    let mut v = Vec::new();
                    v.push(e.field);
                    v
                };
                let ghost before = out@;
                out.push(DeriveChannelCountError { message: e.message, params });
                proof {
                    assert(params@.map_values(|p: String| p@) =~= expected_shape(e).1);
                    assert(rest@ =~= all.skip(out@.len() as int));
                    assert(out@.map_values(|e: DeriveChannelCountError| error_shape(e))
                        =~= all.map_values(|e: ParamError| expected_shape(e)).take(out@.len() as int));
                }
            }
            proof {
                assert(all.map_values(|e: ParamError| expected_shape(e)).take(out@.len() as int)
                    =~= all.map_values(|e: ParamError| expected_shape(e)));
            }
            DeriveChannelCountResult { channel_count: None, errors: Some(out) }
        },
    }
}

/// Seconds since the Unix epoch by the system clock
/// (`SystemTime::now().duration_since(UNIX_EPOCH)`); `None` when the clock
/// reads before the epoch. Nothing is claimed of the value: it is the time.
#[verifier::external_body]
fn unix_time_secs() -> (r: Option<u64>) {
    match std::time::SystemTime::now().duration_since(std::time::UNIX_EPOCH) {
        Ok(d) => Some(d.as_secs()),
        Err(_) => None,
    }
}

/// A reading of the clock as text: the seconds since the Unix epoch in
/// decimal, or `None` for a clock that reads before the epoch.
pub fn timestamp_text(secs: Option<u64>) -> (r: Option<String>)
    ensures
        match secs {
            Some(n) => r matches Some(t) && t@ == decimal(n as nat),
            None => r is None,
        },
{
    match secs {
        Some(n) => Some(decimal_string(n)),
        None => None,
    }
}

/// The current time as decimal seconds since the Unix epoch; `None` when
/// the system clock reads before the epoch. Which time it is, and so
/// whether the clock reads before the epoch, is up to the clock: the result
/// is `timestamp_text` of what it read.
pub fn chrono_simple_timestamp() -> (r: Option<String>)
    ensures
        r matches Some(t) ==> exists|n: nat| t@ == decimal(n),
{
    let secs = unix_time_secs();
    timestamp_text(secs)
}

/// The file name a recording gets when none is given: `recording_<stamp>.wav`.
pub fn default_recording_name(stamp: &str) -> (r: String)
    ensures
        r@ == "recording_"@ + stamp@ + ".wav"@,
{
    join3("recording_", stamp, ".wav")
}

} // verus!
