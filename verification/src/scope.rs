//! Oscilloscope capture: each channel records every `skip_rate + 1`-th
//! sample into one of two buffers of `SCOPE_CAPACITY` samples. Without a
//! trigger a channel records continuously; with one it starts on a
//! trigger, and in `Wait` mode the full buffer is handed to the reader
//! while the other buffer fills. The samples are of any copyable type and
//! the trigger detector runs outside: it reports which channels fired and
//! is told which to reset.

use vstd::prelude::*;

verus! {

/// Samples per capture buffer.
pub const SCOPE_CAPACITY: usize = 1024;

/// Channels a scope can show.
pub const SCOPE_MAX_CHANNELS: usize = 16;

/// The stride that spreads `total_samples` over one capture buffer.
pub fn calculate_skip_rate(total_samples: u32) -> (r: u32)
    ensures
        r == total_samples / 1024,
{
    total_samples / 1024
}

/// What a triggered scope does when its buffer is full.
#[derive(Clone, Copy, Debug, PartialEq, Eq, Structural)]
pub enum ScopeMode {
    /// Hand the full buffer to the reader and wait for the next trigger.
    Wait,
    /// Stop until the next trigger, reading from the same buffer.
    Roll,
}

/// The capture state of one channel.
#[derive(Clone, Copy, Debug, PartialEq, Eq, Structural)]
pub struct ChannelCapture {
    /// Samples since the last one stored.
    pub sample_counter: u32,
    /// Next place written.
    pub buffer_idx: usize,
    /// Where reading starts.
    pub read_idx: usize,
    /// Which of the two buffers is written.
    pub buffer_select: bool,
    pub recording: bool,
}

pub open spec fn idle_channel() -> ChannelCapture {
    ChannelCapture { sample_counter: 0, buffer_idx: 0, read_idx: 0, buffer_select: false, recording: false }
}

/// One channel's step for one sample: its new state, whether its trigger
/// detector is reset, and the buffer (`true` for the second) and place
/// written, if a sample is stored.
pub open spec fn capture_step(c: ChannelCapture, mode: Option<ScopeMode>, fired: bool, skip: u32)
    -> (ChannelCapture, bool, Option<(bool, int)>)
{
    let (c1, reset) = if mode is None {
        (ChannelCapture { recording: true, read_idx: c.buffer_idx, ..c }, true)
    } else if fired && !c.recording {
        (ChannelCapture { recording: true, buffer_idx: 0, read_idx: 0, sample_counter: 0, ..c }, true)
    } else {
        (c, false)
    };
    let c2 = ChannelCapture {
        buffer_idx: (c1.buffer_idx % SCOPE_CAPACITY) as usize,
        read_idx: (c1.read_idx % SCOPE_CAPACITY) as usize,
        ..c1
    };
    if c2.recording {
        let (c3, write) = if c2.sample_counter == 0 {
            let next = (c2.buffer_idx + 1) as usize;
            let stored = ChannelCapture { buffer_idx: next, ..c2 };
            let c3 = if next >= SCOPE_CAPACITY {
                match mode {
                    Some(ScopeMode::Wait) => ChannelCapture { recording: false, buffer_select: !c2.buffer_select, ..stored },
                    Some(ScopeMode::Roll) => ChannelCapture { recording: false, ..stored },
                    None => stored,
                }
            } else {
                stored
            };
            (c3, Some((c2.buffer_select, c2.buffer_idx as int)))
        } else {
            (c2, None)
        };
        let count = c3.sample_counter + 1;
        (ChannelCapture { sample_counter: if count > skip { 0 } else { count as u32 }, ..c3 }, reset, write)
    } else {
        (c2, reset, None)
    }
}

/// Where sample `idx` of buffer `sel` of channel `ch` is kept.
pub open spec fn slot(ch: int, sel: bool, idx: int) -> int {
    (2 * ch + if sel { 1int } else { 0int }) * SCOPE_CAPACITY + idx
}

/// The buffer a channel is read from: the one not being written in
/// `Wait` mode, the one being written otherwise.
pub open spec fn read_select(c: ChannelCapture, mode: Option<ScopeMode>) -> bool {
    match mode {
        Some(ScopeMode::Wait) => !c.buffer_select,
        _ => c.buffer_select,
    }
}

/// One channel's step for one sample (see `capture_step`).
fn step_channel(c: ChannelCapture, mode: Option<ScopeMode>, fired: bool, skip: u32) -> (r: (ChannelCapture, bool, Option<(bool, usize)>))
    requires
        c.buffer_idx <= SCOPE_CAPACITY,
        c.sample_counter < u32::MAX,
        skip < u32::MAX,
    ensures
        r.0 == capture_step(c, mode, fired, skip).0,
        r.1 == capture_step(c, mode, fired, skip).1,
        match capture_step(c, mode, fired, skip).2 {
            Some((sel, idx)) => r.2 == Some((sel, idx as usize)) && 0 <= idx < SCOPE_CAPACITY,
            None => r.2 is None,
        },
        r.0.buffer_idx <= SCOPE_CAPACITY,
        r.0.sample_counter < u32::MAX,
{
    let mut c1 = c;
    let mut reset = false;
    if mode.is_none() {
        c1.recording = true;
        c1.read_idx = c.buffer_idx;
        reset = true;
    } else if fired && !c.recording {
        c1.recording = true;
        c1.buffer_idx = 0;
        c1.read_idx = 0;
        c1.sample_counter = 0;
        reset = true;
    }
    c1.buffer_idx = c1.buffer_idx % SCOPE_CAPACITY;
    c1.read_idx = c1.read_idx % SCOPE_CAPACITY;
    if !c1.recording {
        return (c1, reset, None);
    }
    let mut write: Option<(bool, usize)> = None;
    if c1.sample_counter == 0 {
        write = Some((c1.buffer_select, c1.buffer_idx));
        c1.buffer_idx = c1.buffer_idx + 1;
        if c1.buffer_idx >= SCOPE_CAPACITY {
            match mode {
                Some(ScopeMode::Wait) => {
                    c1.recording = false;
                    c1.buffer_select = !c1.buffer_select;
                },
                Some(ScopeMode::Roll) => {
                    c1.recording = false;
                },
                None => {},
            }
        }
    }
    let count = c1.sample_counter + 1;
    c1.sample_counter = if count > skip { 0 } else { count };
    (c1, reset, write)
}

/// Appends `n` copies of `zero`.
fn push_copies<T: Copy>(v: &mut Vec<T>, zero: T, n: usize)
    ensures
        final(v)@ == old(v)@ + Seq::new(n as nat, |i: int| zero),
{
    let mut k: usize = 0;
    while k < n
        invariant
            k <= n,
            v@ == old(v)@ + Seq::new(k as nat, |i: int| zero),
        decreases n - k,
    {
        v.push(zero);
        k = k + 1;
        assert(v@ =~= old(v)@ + Seq::new(k as nat, |i: int| zero));
    }
}

/// The oscilloscope capture buffers.
pub struct ScopeBuffer<T> {
    channels: Vec<ChannelCapture>,
    skip_rate: u32,
    mode: Option<ScopeMode>,
    /// Two buffers per allocated channel, one after the other.
    data: Vec<T>,
    allocated: usize,
    num_channels: usize,
}

impl<T: Copy> ScopeBuffer<T> {
    pub closed spec fn wf(&self) -> bool {
        &&& self.channels.len() == SCOPE_MAX_CHANNELS
        &&& 1 <= self.allocated <= SCOPE_MAX_CHANNELS
        &&& self.num_channels <= self.allocated
        &&& self.data.len() == self.allocated * 2 * SCOPE_CAPACITY
        &&& self.skip_rate < u32::MAX
        &&& forall|i: int| 0 <= i < SCOPE_MAX_CHANNELS ==> #[trigger] self.channels@[i].buffer_idx <= SCOPE_CAPACITY
        &&& forall|i: int| 0 <= i < SCOPE_MAX_CHANNELS ==> #[trigger] self.channels@[i].sample_counter < u32::MAX
    }

    pub closed spec fn channel_states(&self) -> Seq<ChannelCapture> {
        self.channels@
    }

    pub closed spec fn samples(&self) -> Seq<T> {
        self.data@
    }

    pub closed spec fn channel_count(&self) -> nat {
        self.num_channels as nat
    }

    pub closed spec fn allocated_channels(&self) -> nat {
        self.allocated as nat
    }

    pub closed spec fn skip(&self) -> u32 {
        self.skip_rate
    }

    pub closed spec fn trigger_mode(&self) -> Option<ScopeMode> {
        self.mode
    }

    /// A scope showing one channel, with buffers filled with `zero`, no
    /// trigger and no skipping.
    pub fn new(zero: T) -> (r: Self)
        ensures
            r.wf(),
            r.channel_count() == 1,
            r.allocated_channels() == 1,
            r.skip() == 0,
            r.trigger_mode() is None,
            r.channel_states() == Seq::new(16, |i: int| idle_channel()),
            r.samples() == Seq::new(2 * 1024, |i: int| zero),
    {
        let mut data: Vec<T> = Vec::new();
        push_copies(&mut data, zero, 2 * SCOPE_CAPACITY);
        let channels = vec![ChannelCapture {
            sample_counter: 0, buffer_idx: 0, read_idx: 0, buffer_select: false, recording: false,
        }; SCOPE_MAX_CHANNELS];
        let r = ScopeBuffer { channels, skip_rate: 0, mode: None, data, allocated: 1, num_channels: 1 };
        assert(r.channel_states() =~= Seq::new(16, |i: int| idle_channel()));
        assert(r.samples() =~= Seq::new(2 * 1024, |i: int| zero));
        r
    }

    /// Sets the trigger mode; no trigger means continuous recording.
    pub fn set_trigger_mode(&mut self, mode: Option<ScopeMode>)
        requires
            old(self).wf(),
        ensures
            final(self).wf(),
            final(self).trigger_mode() == mode,
            final(self).channel_states() == old(self).channel_states(),
            final(self).samples() == old(self).samples(),
            final(self).channel_count() == old(self).channel_count(),
            final(self).allocated_channels() == old(self).allocated_channels(),
            final(self).skip() == old(self).skip(),
    {
        self.mode = mode;
    }

    /// Sets the stride: `skip_rate` samples are passed over after each one stored.
    pub fn set_skip_rate(&mut self, skip_rate: u32)
        requires
            old(self).wf(),
            skip_rate < u32::MAX,
        ensures
            final(self).wf(),
            final(self).skip() == skip_rate,
            final(self).trigger_mode() == old(self).trigger_mode(),
            final(self).channel_states() == old(self).channel_states(),
            final(self).samples() == old(self).samples(),
            final(self).channel_count() == old(self).channel_count(),
            final(self).allocated_channels() == old(self).allocated_channels(),
    {
        self.skip_rate = skip_rate;
    }

    /// The buffer (`true` for the second) channel `ch` is written to.
    pub fn write_buffer_idx(&self, ch: usize) -> (r: bool)
        requires
            self.wf(),
            ch < SCOPE_MAX_CHANNELS,
        ensures
            r == self.channel_states()[ch as int].buffer_select,
    {
        self.channels[ch].buffer_select
    }

    /// The buffer (`true` for the second) channel `ch` is read from.
    pub fn read_buffer_idx(&self, ch: usize) -> (r: bool)
        requires
            self.wf(),
            ch < SCOPE_MAX_CHANNELS,
        ensures
            r == read_select(self.channel_states()[ch as int], self.trigger_mode()),
    {
        let w = self.write_buffer_idx(ch);
        match self.mode {
            Some(ScopeMode::Wait) => !w,
            _ => w,
        }
    }
}

/// The samples after channels `0..k` stored theirs.
pub open spec fn stored_samples<T>(
    data: Seq<T>,
    channels: Seq<ChannelCapture>,
    mode: Option<ScopeMode>,
    fired: Seq<bool>,
    skip: u32,
    values: Seq<T>,
    zero: T,
    k: int,
) -> Seq<T>
    decreases k,
{
    if k <= 0 {
        data
    } else {
        let before = stored_samples(data, channels, mode, fired, skip, values, zero, k - 1);
        match capture_step(channels[k - 1], mode, fired[k - 1], skip).2 {
            Some((sel, idx)) => before.update(slot(k - 1, sel, idx), sample_of(values, zero, k - 1)),
            None => before,
        }
    }
}

/// The sample for channel `ch`: the value given, or `zero` past the values.
pub open spec fn sample_of<T>(values: Seq<T>, zero: T, ch: int) -> T {
    if ch < values.len() { values[ch] } else { zero }
}

impl<T: Copy> ScopeBuffer<T> {
    /// Takes one sample for each of the first `num_channels` channels
    /// (`zero` where `values` has none); `fired` says whose trigger fired.
    /// Buffers are added, filled with `zero`, when more channels are shown
    /// than ever before. Returns, per channel, whether its trigger
    /// detector is to be reset.
    pub fn push_poly(&mut self, values: &[T], num_channels: usize, fired: &[bool], zero: T) -> (resets: Vec<bool>)
        requires
            old(self).wf(),
            num_channels <= SCOPE_MAX_CHANNELS,
            fired@.len() >= num_channels,
        ensures
            final(self).wf(),
            final(self).channel_count() == num_channels,
            final(self).allocated_channels() == (if num_channels > old(self).allocated_channels() {
                num_channels as nat
            } else {
                old(self).allocated_channels()
            }),
            final(self).skip() == old(self).skip(),
            final(self).trigger_mode() == old(self).trigger_mode(),
            resets@.len() == num_channels,
            forall|ch: int| 0 <= ch < num_channels ==> {
                let step = #[trigger] capture_step(old(self).channel_states()[ch], old(self).trigger_mode(), fired@[ch], old(self).skip());
                &&& final(self).channel_states()[ch] == step.0
                &&& resets@[ch] == step.1
            },
            forall|ch: int| num_channels <= ch < SCOPE_MAX_CHANNELS ==> #[trigger] final(self).channel_states()[ch] == old(self).channel_states()[ch],
            final(self).samples() == stored_samples(
                old(self).samples() + Seq::new(
                    ((final(self).allocated_channels() - old(self).allocated_channels()) * 2 * SCOPE_CAPACITY) as nat,
                    |i: int| zero,
                ),
                old(self).channel_states(),
                old(self).trigger_mode(),
                fired@,
                old(self).skip(),
                values@,
                zero,
                num_channels as int,
            ),
    {
        let ghost old_channels = self.channels@;
        if num_channels > self.allocated {
            let extra = (num_channels - self.allocated) * 2 * SCOPE_CAPACITY;
            push_copies(&mut self.data, zero, extra);
            self.allocated = num_channels;
        }
        self.num_channels = num_channels;
        let ghost grown = self.data@;
        let mut resets: Vec<bool> = Vec::new();
        let mut ch: usize = 0;
        while ch < num_channels
            invariant
                self.channels.len() == SCOPE_MAX_CHANNELS,
                1 <= self.allocated <= SCOPE_MAX_CHANNELS,
                num_channels <= self.allocated,
                self.num_channels == num_channels,
                self.data.len() == self.allocated * 2 * SCOPE_CAPACITY,
                self.skip_rate < u32::MAX,
                self.skip_rate == old(self).skip_rate,
                self.mode == old(self).mode,
                fired@.len() >= num_channels,
                old_channels.len() == SCOPE_MAX_CHANNELS,
                ch <= num_channels,
                resets@.len() == ch,
                forall|i: int| 0 <= i < SCOPE_MAX_CHANNELS ==> #[trigger] self.channels@[i].buffer_idx <= SCOPE_CAPACITY,
                forall|i: int| 0 <= i < SCOPE_MAX_CHANNELS ==> #[trigger] self.channels@[i].sample_counter < u32::MAX,
                forall|i: int| ch <= i < SCOPE_MAX_CHANNELS ==> #[trigger] self.channels@[i] == old_channels[i],
                forall|i: int| 0 <= i < ch ==> {
                    let step = #[trigger] capture_step(old_channels[i], self.mode, fired@[i], self.skip_rate);
                    &&& self.channels@[i] == step.0
                    &&& resets@[i] == step.1
                },
                grown.len() == self.data.len(),
                self.data@ == stored_samples(grown, old_channels, self.mode, fired@, self.skip_rate, values@, zero, ch as int),
            decreases num_channels - ch,
        {
            let value: T = if ch < values.len() { values[ch] } else { zero };
            let (c, reset, write) = step_channel(self.channels[ch], self.mode, fired[ch], self.skip_rate);
            self.channels.set(ch, c);
            resets.push(reset);
            match write {
                Some((sel, idx)) => {
                    let base: usize = 2 * ch + if sel { 1 } else { 0 };
                    let k = base * SCOPE_CAPACITY + idx;
                    assert(k == slot(ch as int, sel, idx as int));
                    self.data.set(k, value);
                },
                None => {},
            }
            ch = ch + 1;
        }
        resets
    }

    /// The buffer each shown channel is read from.
    pub fn get_channel_buffers(&self) -> (r: Vec<Vec<T>>)
        requires
            self.wf(),
        ensures
            r@.len() == self.channel_count(),
            forall|ch: int| 0 <= ch < r@.len() ==> {
                let base = #[trigger] slot(ch, read_select(self.channel_states()[ch], self.trigger_mode()), 0);
                r@[ch]@ == self.samples().subrange(base, base + SCOPE_CAPACITY)
            },
    {
        let mut out: Vec<Vec<T>> = Vec::new();
        let mut ch: usize = 0;
        while ch < self.num_channels
            invariant
                self.wf(),
                ch <= self.num_channels,
                out@.len() == ch,
                forall|j: int| 0 <= j < ch ==> {
                    let base = #[trigger] slot(j, read_select(self.channel_states()[j], self.trigger_mode()), 0);
                    out@[j]@ == self.samples().subrange(base, base + SCOPE_CAPACITY)
                },
            decreases self.num_channels - ch,
        {
            let sel = self.read_buffer_idx(ch);
            let base: usize = (2 * ch + if sel { 1 } else { 0 }) * SCOPE_CAPACITY;
            assert(base == slot(ch as int, sel, 0));
            let mut buf: Vec<T> = Vec::new();
            let mut i: usize = 0;
            while i < SCOPE_CAPACITY
                invariant
                    self.wf(),
                    ch < self.num_channels,
                    base + SCOPE_CAPACITY <= self.data.len(),
                    i <= SCOPE_CAPACITY,
                    buf@ == self.samples().subrange(base as int, base + i),
                decreases SCOPE_CAPACITY - i,
            {
                buf.push(self.data[base + i]);
                i = i + 1;
                assert(buf@ =~= self.samples().subrange(base as int, base + i));
            }
            out.push(buf);
            ch = ch + 1;
        }
        out
    }

    /// Where reading starts in each channel's buffer.
    pub fn read_offsets(&self) -> (r: Vec<usize>)
        requires
            self.wf(),
        ensures
            r@.len() == SCOPE_MAX_CHANNELS,
            forall|ch: int| 0 <= ch < SCOPE_MAX_CHANNELS ==> r@[ch] == #[trigger] self.channel_states()[ch].read_idx,
    {
        let mut r: Vec<usize> = Vec::new();
        let mut ch: usize = 0;
        while ch < SCOPE_MAX_CHANNELS
            invariant
                self.wf(),
                ch <= SCOPE_MAX_CHANNELS,
                r@.len() == ch,
                forall|j: int| 0 <= j < ch ==> r@[j] == #[trigger] self.channel_states()[j].read_idx,
            decreases SCOPE_MAX_CHANNELS - ch,
        {
            r.push(self.channels[ch].read_idx);
            ch = ch + 1;
        }
        r
    }
}

/// Without a trigger a channel records on every sample, reading from where
/// it writes.
pub proof fn lemma_free_running_records(c: ChannelCapture, fired: bool, skip: u32)
    ensures
        capture_step(c, None, fired, skip).1,
        capture_step(c, None, fired, skip).0.read_idx == c.buffer_idx % SCOPE_CAPACITY,
        c.sample_counter == 0 ==> capture_step(c, None, fired, skip).2 == Some((c.buffer_select, (c.buffer_idx % SCOPE_CAPACITY) as int)),
        capture_step(c, None, fired, skip).0.recording,
{
}

/// In `Wait` mode, storing the last sample of a buffer stops recording and
/// switches buffers, so the reader gets the buffer just filled.
pub proof fn lemma_wait_hands_over_full_buffer(c: ChannelCapture, fired: bool, skip: u32)
    requires
        c.recording,
        c.sample_counter == 0,
        c.buffer_idx == SCOPE_CAPACITY - 1,
    ensures
        !capture_step(c, Some(ScopeMode::Wait), fired, skip).0.recording,
        capture_step(c, Some(ScopeMode::Wait), fired, skip).2 == Some((c.buffer_select, (SCOPE_CAPACITY - 1) as int)),
        read_select(capture_step(c, Some(ScopeMode::Wait), fired, skip).0, Some(ScopeMode::Wait)) == c.buffer_select,
{
}

/// A triggered channel that is not recording stores nothing until its
/// trigger fires; when it fires, writing restarts at the start of the buffer.
pub proof fn lemma_trigger_restarts(c: ChannelCapture, mode: ScopeMode, skip: u32)
    requires
        !c.recording,
    ensures
        capture_step(c, Some(mode), false, skip).2 is None,
        !capture_step(c, Some(mode), false, skip).1,
        capture_step(c, Some(mode), true, skip).1,
        capture_step(c, Some(mode), true, skip).2 == Some((c.buffer_select, 0int)),
        capture_step(c, Some(mode), true, skip).0.read_idx == 0,
{
}

} // verus!
