//! The channel count of the mix module: how many channels its output has
//! for given inputs and gain.

use vstd::prelude::*;
use crate::buffer::PORT_MAX_CHANNELS;

verus! {

/// How the mix module combines its inputs at each channel.
#[derive(Clone, Copy, Debug, PartialEq, Eq, Structural)]
pub enum MixMode {
    /// Sum all inputs.
    Sum,
    /// Average all inputs.
    Average,
    /// The largest absolute value.
    Max,
    /// The smallest absolute value.
    Min,
}

impl Default for MixMode {
    /// Averaging.
    fn default() -> (r: Self)
        ensures
            r == MixMode::Average,
    {
        MixMode::Average
    }
}

/// A polyphonic signal, as far as channel counts go.
#[derive(Clone, Copy, Debug, PartialEq, Eq, Structural)]
pub struct PolySignal {
    pub channels: u8,
}

impl PolySignal {
    /// How many channels the signal carries.
    pub fn channels(&self) -> (r: u8)
        ensures
            r == self.channels,
    {
        self.channels
    }
}

/// The largest channel count among `s`, 0 when `s` is empty.
pub open spec fn max_channels(s: Seq<PolySignal>) -> nat
    decreases s.len(),
{
    if s.len() == 0 {
        0
    } else {
        let rest = max_channels(s.drop_last());
        if s.last().channels > rest { s.last().channels as nat } else { rest }
    }
}

/// The params of the mix module.
pub struct MixParams {
    /// Polyphonic inputs to mix together.
    pub inputs: Vec<PolySignal>,
    /// How inputs are combined at each channel.
    pub mode: MixMode,
    /// Output gain; its channels can extend the output.
    pub gain: PolySignal,
}

/// The number of output channels of the mix module: the larger of the
/// widest input and the gain, at least 1, and at most `PORT_MAX_CHANNELS`.
pub open spec fn mix_channels(inputs: Seq<PolySignal>, gain: PolySignal) -> nat {
    let widest = if inputs.len() == 0 { 0 } else { max_channels(inputs) };
    let wide = if widest > gain.channels { widest } else { gain.channels as nat };
    let floored = if wide > 1 { wide } else { 1 };
    if floored < PORT_MAX_CHANNELS { floored } else { PORT_MAX_CHANNELS as nat }
}

/// Derives the output channel count of the mix module from its params.
pub fn mix_derive_channel_count(params: &MixParams) -> (r: usize)
    ensures
        r == mix_channels(params.inputs@, params.gain),
{
    let mut widest: u8 = 0;
    let mut i: usize = 0;
    while i < params.inputs.len()
        invariant
            i <= params.inputs@.len(),
            widest == max_channels(params.inputs@.take(i as int)),
        decreases params.inputs@.len() - i,
    {
        proof {
            assert(params.inputs@.take(i + 1).drop_last() =~= params.inputs@.take(i as int));
        }
        let c = params.inputs[i].channels();
        if c > widest {
            widest = c;
        }
        i = i + 1;
    }
    proof {
        assert(params.inputs@.take(i as int) =~= params.inputs@);
    }
    let gain_channels = params.gain.channels() as usize;
    let wide: usize = if (widest as usize) > gain_channels { widest as usize } else { gain_channels };
    let floored: usize = if wide > 1 { wide } else { 1 };
    if floored < PORT_MAX_CHANNELS { floored } else { PORT_MAX_CHANNELS }
}

proof fn lemma_max_channels_bound(s: Seq<PolySignal>, i: int)
    requires
        0 <= i < s.len(),
    ensures
        s[i].channels <= max_channels(s),
    decreases s.len(),
{
    if i < s.len() - 1 {
        lemma_max_channels_bound(s.drop_last(), i);
        assert(s.drop_last()[i] == s[i]);
    }
}

/// The mix output never has more than `PORT_MAX_CHANNELS` channels, always
/// has at least one, and is as wide as the widest input and the gain, up to
/// that limit.
pub proof fn lemma_mix_channels_bounded(inputs: Seq<PolySignal>, gain: PolySignal)
    ensures
        mix_channels(inputs, gain) <= PORT_MAX_CHANNELS,
        mix_channels(inputs, gain) >= 1,
        mix_channels(inputs, gain) >= if gain.channels < PORT_MAX_CHANNELS { gain.channels as nat } else { PORT_MAX_CHANNELS as nat },
        forall|i: int| 0 <= i < inputs.len() ==> mix_channels(inputs, gain) >= if (#[trigger] inputs[i]).channels < PORT_MAX_CHANNELS {
            inputs[i].channels as nat
        } else {
            PORT_MAX_CHANNELS as nat
        },
{
    assert forall|i: int| 0 <= i < inputs.len() implies mix_channels(inputs, gain) >= if (#[trigger] inputs[i]).channels < PORT_MAX_CHANNELS {
        inputs[i].channels as nat
    } else {
        PORT_MAX_CHANNELS as nat
    } by {
        lemma_max_channels_bound(inputs, i);
    }
}

} // verus!
