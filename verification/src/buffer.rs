//! Runtime sample buffers shared between the patch and its modules.
//!
//! Samples are 32-bit floats; the library stores each one by its IEEE-754
//! bit pattern, so zeroed storage holds `0.0` everywhere.

use vstd::prelude::*;

verus! {

/// Largest channel count of a polyphonic port.
pub const PORT_MAX_CHANNELS: usize = 16;

/// Shape and name of a runtime buffer.
pub struct BufferSpec {
    pub name: String,
    pub channels: usize,
    pub frame_count: usize,
}

/// Why a buffer specification was refused.
#[derive(Debug, Clone, Copy, PartialEq, Eq)]
pub enum BufferSpecError {
    NoChannels,
    TooManyChannels,
    NoFrames,
}

impl BufferSpec {
    /// The shape rules of a buffer: between one and `PORT_MAX_CHANNELS`
    /// channels, and at least one frame.
    pub open spec fn valid_shape(channels: usize, frame_count: usize) -> bool {
        1 <= channels <= PORT_MAX_CHANNELS && frame_count >= 1
    }

    /// Builds a specification, refusing an empty or over-wide shape.
    pub fn new(name: String, channels: usize, frame_count: usize) -> (r: Result<BufferSpec, BufferSpecError>)
        ensures
            match r {
                Ok(s) => s.name@ == name@ && s.channels == channels && s.frame_count == frame_count,
                Err(e) => e == (if channels == 0 {
                    BufferSpecError::NoChannels
                } else if channels > PORT_MAX_CHANNELS {
                    BufferSpecError::TooManyChannels
                } else {
                    BufferSpecError::NoFrames
                }),
            },
            r is Ok <==> Self::valid_shape(channels, frame_count),
    {
        if channels == 0 {
            Err(BufferSpecError::NoChannels)
        } else if channels > PORT_MAX_CHANNELS {
            Err(BufferSpecError::TooManyChannels)
        } else if frame_count == 0 {
            Err(BufferSpecError::NoFrames)
        } else {
            Ok(BufferSpec { name, channels, frame_count })
        }
    }

    /// Two specifications have the same shape when channel and frame counts agree.
    pub fn same_shape(&self, other: &BufferSpec) -> (r: bool)
        ensures
            r == (self.channels == other.channels && self.frame_count == other.frame_count),
    {
        self.channels == other.channels && self.frame_count == other.frame_count
    }
}

/// Channel-major sample storage: `channels` rows of `frames` samples.
pub struct BufferData {
    samples: Vec<u32>,
    channels: usize,
    frames: usize,
}

impl BufferData {
    /// Storage is exactly `channels * frames` samples long.
    pub closed spec fn wf(&self) -> bool {
        self.samples@.len() == self.channels * self.frames
    }

    pub closed spec fn spec_channels(&self) -> nat {
        self.channels as nat
    }

    pub closed spec fn spec_frames(&self) -> nat {
        self.frames as nat
    }

    /// The bit pattern stored for channel `c`, frame `f`.
    pub closed spec fn sample(&self, c: int, f: int) -> u32 {
        self.samples@[c * self.frames + f]
    }

    proof fn lemma_index_in_range(channels: int, frames: int, c: int, f: int)
        requires
            0 <= c < channels,
            0 <= f < frames,
        ensures
            0 <= c * frames + f < channels * frames,
            c * frames + f >= c * frames,
    {
        assert(c * frames + f < channels * frames) by (nonlinear_arith)
            requires
                0 <= c < channels,
                0 <= f < frames,
        ;
        assert(c * frames >= 0) by (nonlinear_arith)
            requires
                0 <= c,
                0 <= frames,
        ;
    }

    proof fn lemma_index_injective(frames: int, c1: int, f1: int, c2: int, f2: int)
        requires
            0 <= f1 < frames,
            0 <= f2 < frames,
            0 <= c1,
            0 <= c2,
            c1 * frames + f1 == c2 * frames + f2,
        ensures
            c1 == c2 && f1 == f2,
    {
        if c1 < c2 {
            assert(c1 * frames + frames <= c2 * frames) by (nonlinear_arith)
                requires
                    c1 < c2,
                    0 <= frames,
            ;
        } else if c2 < c1 {
            assert(c2 * frames + frames <= c1 * frames) by (nonlinear_arith)
                requires
                    c2 < c1,
                    0 <= frames,
            ;
        }
    }

    /// Zero-filled storage of the given shape.
    pub fn new_zeroed(channels: usize, frames: usize) -> (r: BufferData)
        requires
            channels * frames <= usize::MAX,
        ensures
            r.wf(),
            r.spec_channels() == channels,
            r.spec_frames() == frames,
            forall|c: int, f: int| 0 <= c < channels && 0 <= f < frames ==> #[trigger] r.sample(c, f) == 0,
    {
        let total = channels * frames;
        let mut samples: Vec<u32> = Vec::with_capacity(total);
        let mut i: usize = 0;
        while i < total
            invariant
                i <= total,
                samples@.len() == i,
                forall|k: int| 0 <= k < i ==> samples@[k] == 0,
            decreases total - i,
        {
            samples.push(0);
            i = i + 1;
        }
        let r = BufferData { samples, channels, frames };
        proof {
            assert forall|c: int, f: int| 0 <= c < channels && 0 <= f < frames implies #[trigger] r.sample(c, f) == 0 by {
                Self::lemma_index_in_range(channels as int, frames as int, c, f);
            }
        }
        r
    }

    pub fn channel_count(&self) -> (r: usize)
        ensures
            r == self.spec_channels(),
    {
        self.channels
    }

    pub fn frame_count(&self) -> (r: usize)
        ensures
            r == self.spec_frames(),
    {
        self.frames
    }

    /// The stored bit pattern of one sample.
    pub fn read_bits(&self, channel: usize, frame: usize) -> (r: u32)
        requires
            self.wf(),
            channel < self.spec_channels(),
            frame < self.spec_frames(),
        ensures
            r == self.sample(channel as int, frame as int),
    {
        let _len = self.samples.len();
        proof {
            Self::lemma_index_in_range(self.channels as int, self.frames as int, channel as int, frame as int);
            assert((channel as int) * (self.frames as int) + (frame as int) < (self.channels as int) * (self.frames as int));
            assert(self.samples@.len() == (self.channels as int) * (self.frames as int));
        }
        self.samples[channel * self.frames + frame]
    }

    /// Overwrites one sample, leaving every other sample as it was.
    pub fn write_bits(&mut self, channel: usize, frame: usize, bits: u32)
        requires
            old(self).wf(),
            channel < old(self).spec_channels(),
            frame < old(self).spec_frames(),
        ensures
            final(self).wf(),
            final(self).spec_channels() == old(self).spec_channels(),
            final(self).spec_frames() == old(self).spec_frames(),
            final(self).sample(channel as int, frame as int) == bits,
            forall|c: int, f: int|
                0 <= c < old(self).spec_channels() && 0 <= f < old(self).spec_frames() && !(c == channel && f == frame)
                    ==> #[trigger] final(self).sample(c, f) == old(self).sample(c, f),
    {
        let _len = self.samples.len();
        proof {
            Self::lemma_index_in_range(self.channels as int, self.frames as int, channel as int, frame as int);
            assert((channel as int) * (self.frames as int) + (frame as int) < (self.channels as int) * (self.frames as int));
            assert(self.samples@.len() == (self.channels as int) * (self.frames as int));
        }
        let idx = channel * self.frames + frame;
        self.samples.set(idx, bits);
        proof {
            assert forall|c: int, f: int|
                0 <= c < old(self).spec_channels() && 0 <= f < old(self).spec_frames() && !(c == channel && f == frame)
                    implies #[trigger] self.sample(c, f) == old(self).sample(c, f) by {
                Self::lemma_index_in_range(self.channels as int, self.frames as int, c, f);
                if c * self.frames + f == idx {
                    Self::lemma_index_injective(self.frames as int, c, f, channel as int, frame as int);
                }
            }
        }
    }

    /// Copies the region both buffers share (the smaller channel count by the
    /// smaller frame count) from `other`; samples outside it keep their values.
    pub fn copy_overlap_from(&mut self, other: &BufferData)
        requires
            old(self).wf(),
            other.wf(),
        ensures
            final(self).wf(),
            final(self).spec_channels() == old(self).spec_channels(),
            final(self).spec_frames() == old(self).spec_frames(),
            forall|c: int, f: int| 0 <= c < old(self).spec_channels() && 0 <= f < old(self).spec_frames() ==>
                #[trigger] final(self).sample(c, f) == if c < other.spec_channels() && f < other.spec_frames() {
                    other.sample(c, f)
                } else {
                    old(self).sample(c, f)
                },
    {
        let ch = if self.channels < other.channels { self.channels } else { other.channels };
        let fr = if self.frames < other.frames { self.frames } else { other.frames };
        let ghost orig = *self;
        let mut c: usize = 0;
        while c < ch
            invariant
                ch <= self.channels,
                ch <= other.channels,
                fr <= self.frames,
                fr <= other.frames,
                c <= ch,
                other.wf(),
                self.wf(),
                orig.wf(),
                self.channels == orig.channels,
                self.frames == orig.frames,
                ch == if orig.channels < other.channels { orig.channels } else { other.channels },
                fr == if orig.frames < other.frames { orig.frames } else { other.frames },
                forall|cc: int, f: int| 0 <= cc < orig.channels && 0 <= f < orig.frames ==>
                    #[trigger] self.sample(cc, f) == if cc < c && f < fr {
                        other.sample(cc, f)
                    } else {
                        orig.sample(cc, f)
                    },
            decreases ch - c,
        {
            let mut f: usize = 0;
            while f < fr
                invariant
                    ch <= self.channels,
                    ch <= other.channels,
                    fr <= self.frames,
                    fr <= other.frames,
                    c < ch,
                    f <= fr,
                    other.wf(),
                    self.wf(),
                    orig.wf(),
                    self.channels == orig.channels,
                    self.frames == orig.frames,
                    forall|cc: int, ff: int| 0 <= cc < orig.channels && 0 <= ff < orig.frames ==>
                        #[trigger] self.sample(cc, ff) == if (cc < c && ff < fr) || (cc == c && ff < f) {
                            other.sample(cc, ff)
                        } else {
                            orig.sample(cc, ff)
                        },
                decreases fr - f,
            {
                let v = other.read_bits(c, f);
                self.write_bits(c, f, v);
                f = f + 1;
            }
            c = c + 1;
        }
    }

    /// A copy of every sample, one vector per channel.
    pub fn snapshot(&self) -> (r: Vec<Vec<u32>>)
        requires
            self.wf(),
        ensures
            r@.len() == self.spec_channels(),
            forall|c: int| 0 <= c < self.spec_channels() ==> (#[trigger] r@[c])@.len() == self.spec_frames(),
            forall|c: int, f: int| 0 <= c < self.spec_channels() && 0 <= f < self.spec_frames() ==>
                #[trigger] r@[c]@[f] == self.sample(c, f),
    {
        let mut out: Vec<Vec<u32>> = Vec::new();
        let mut c: usize = 0;
        while c < self.channels
            invariant
                self.wf(),
                c <= self.channels,
                out@.len() == c,
                forall|cc: int| 0 <= cc < c ==> (#[trigger] out@[cc])@.len() == self.frames,
                forall|cc: int, f: int| 0 <= cc < c && 0 <= f < self.frames ==> #[trigger] out@[cc]@[f] == self.sample(cc, f),
            decreases self.channels - c,
        {
            let mut row: Vec<u32> = Vec::new();
            let mut f: usize = 0;
            while f < self.frames
                invariant
                    self.wf(),
                    c < self.channels,
                    f <= self.frames,
                    row@.len() == f,
                    forall|ff: int| 0 <= ff < f ==> #[trigger] row@[ff] == self.sample(c as int, ff),
                decreases self.frames - f,
            {
                row.push(self.read_bits(c, f));
                f = f + 1;
            }
            out.push(row);
            c = c + 1;
        }
        out
    }
}

/// A named buffer owned by the runtime, with storage matching its specification.
pub struct RuntimeBuffer {
    spec: BufferSpec,
    shared: BufferData,
}

impl RuntimeBuffer {
    /// The storage has the shape the specification names.
    pub closed spec fn wf(&self) -> bool {
        &&& self.shared.wf()
        &&& self.shared.spec_channels() == self.spec.channels
        &&& self.shared.spec_frames() == self.spec.frame_count
    }

    pub closed spec fn spec_buffer_spec(&self) -> &BufferSpec {
        &self.spec
    }

    pub closed spec fn spec_data(&self) -> &BufferData {
        &self.shared
    }

    /// A zero-filled buffer of the specification's shape.
    pub fn zeroed(spec: BufferSpec) -> (r: RuntimeBuffer)
        requires
            spec.channels * spec.frame_count <= usize::MAX,
        ensures
            r.wf(),
            r.spec_buffer_spec() == spec,
            r.spec_data().spec_channels() == spec.channels,
            r.spec_data().spec_frames() == spec.frame_count,
            forall|c: int, f: int| 0 <= c < spec.channels && 0 <= f < spec.frame_count ==>
                #[trigger] r.spec_data().sample(c, f) == 0,
    {
        let shared = BufferData::new_zeroed(spec.channels, spec.frame_count);
        RuntimeBuffer { spec, shared }
    }

    pub fn spec(&self) -> (r: &BufferSpec)
        ensures
            r == self.spec_buffer_spec(),
    {
        &self.spec
    }

    pub fn name(&self) -> (r: &str)
        ensures
            r@ == self.spec_buffer_spec().name@,
    {
        self.spec.name.as_str()
    }

    /// The sample storage of this buffer.
    pub fn shared(&self) -> (r: &BufferData)
        ensures
            r == self.spec_data(),
            self.wf() ==> r.wf(),
            self.wf() ==> r.spec_channels() == self.spec_buffer_spec().channels,
            self.wf() ==> r.spec_frames() == self.spec_buffer_spec().frame_count,
    {
        &self.shared
    }

    /// Writes one sample of this buffer.
    pub fn write_bits(&mut self, channel: usize, frame: usize, bits: u32)
        requires
            old(self).wf(),
            channel < old(self).spec_buffer_spec().channels,
            frame < old(self).spec_buffer_spec().frame_count,
        ensures
            final(self).wf(),
            final(self).spec_buffer_spec() == old(self).spec_buffer_spec(),
            final(self).spec_data().sample(channel as int, frame as int) == bits,
            forall|c: int, f: int|
                0 <= c < old(self).spec_buffer_spec().channels && 0 <= f < old(self).spec_buffer_spec().frame_count
                    && !(c == channel && f == frame)
                    ==> #[trigger] final(self).spec_data().sample(c, f) == old(self).spec_data().sample(c, f),
    {
        self.shared.write_bits(channel, frame, bits);
    }

    /// Channel and frame counts agree.
    pub fn same_shape(&self, other: &RuntimeBuffer) -> (r: bool)
        ensures
            r == (self.spec_buffer_spec().channels == other.spec_buffer_spec().channels
                && self.spec_buffer_spec().frame_count == other.spec_buffer_spec().frame_count),
    {
        self.spec.same_shape(&other.spec)
    }

    /// Carries over the samples of `other` in the region both buffers share;
    /// every other sample keeps its value.
    pub fn copy_overlap_from(&mut self, other: &RuntimeBuffer)
        requires
            old(self).wf(),
            other.wf(),
        ensures
            final(self).wf(),
            copied_overlap(*old(self), *other, *final(self)),
    {
        self.shared.copy_overlap_from(&other.shared);
    }
}

/// `after` is `before` with the region it shares with `src` (the smaller
/// channel count by the smaller frame count) copied from `src`.
pub open spec fn copied_overlap(before: RuntimeBuffer, src: RuntimeBuffer, after: RuntimeBuffer) -> bool {
    &&& after.spec_buffer_spec() == before.spec_buffer_spec()
    &&& forall|c: int, f: int| 0 <= c < before.spec_buffer_spec().channels && 0 <= f < before.spec_buffer_spec().frame_count ==>
        #[trigger] after.spec_data().sample(c, f) == if c < src.spec_buffer_spec().channels && f < src.spec_buffer_spec().frame_count {
            src.spec_data().sample(c, f)
        } else {
            before.spec_data().sample(c, f)
        }
}

/// Copying the overlap from the same source a second time changes nothing.
pub proof fn lemma_copy_overlap_idempotent(before: RuntimeBuffer, src: RuntimeBuffer, once: RuntimeBuffer, twice: RuntimeBuffer)
    requires
        copied_overlap(before, src, once),
        copied_overlap(once, src, twice),
    ensures
        twice.spec_buffer_spec() == once.spec_buffer_spec(),
        forall|c: int, f: int| 0 <= c < once.spec_buffer_spec().channels && 0 <= f < once.spec_buffer_spec().frame_count ==>
            #[trigger] twice.spec_data().sample(c, f) == once.spec_data().sample(c, f),
{
}

/// Between buffers of the same shape, copying the overlap copies every sample.
pub proof fn lemma_copy_same_shape(before: RuntimeBuffer, src: RuntimeBuffer, after: RuntimeBuffer)
    requires
        copied_overlap(before, src, after),
        before.spec_buffer_spec().channels == src.spec_buffer_spec().channels,
        before.spec_buffer_spec().frame_count == src.spec_buffer_spec().frame_count,
    ensures
        forall|c: int, f: int| 0 <= c < src.spec_buffer_spec().channels && 0 <= f < src.spec_buffer_spec().frame_count ==>
            #[trigger] after.spec_data().sample(c, f) == src.spec_data().sample(c, f),
{
}

} // verus!
