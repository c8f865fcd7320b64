//! Audio host and device bookkeeping: the cached device lists, the choice
//! of a default sample rate, device capability summaries and the audio
//! callback budget meter.

use vstd::prelude::*;
use crate::text::str_eq;

verus! {

/// An audio host (driver API) as reported by the platform.
pub struct HostInfo {
    /// Host identifier, such as `CoreAudio`, `WASAPI` or `ALSA`.
    pub id: String,
    /// Human-readable host name.
    pub name: String,
}

/// Buffer size range of an audio device, in frames.
#[derive(Clone, Copy)]
pub struct BufferSizeRange {
    pub min: u32,
    pub max: u32,
}

/// Information about one audio device.
pub struct AudioDeviceInfo {
    /// Stable device id.
    pub id: String,
    /// Id of the host the device belongs to.
    pub host_id: String,
    /// Device name.
    pub name: String,
    /// Number of input channels (0 when output-only).
    pub input_channels: u16,
    /// Number of output channels (0 when input-only).
    pub output_channels: u16,
    /// Whether this is the host's default device.
    pub is_default: bool,
    /// Default sample rate in Hz.
    pub sample_rate: u32,
    /// Common sample rates the device supports, ascending.
    pub supported_sample_rates: Vec<u32>,
    /// Buffer size range, when known.
    pub buffer_size_range: Option<BufferSizeRange>,
}

/// A device held in the cache.
pub struct CachedDevice {
    pub info: AudioDeviceInfo,
}

/// Devices of one host, as a (host id, devices) entry of a cache table.
pub type HostDevices = (String, Vec<AudioDeviceInfo>);

/// Cache of all audio hosts and their devices.
pub struct AudioDeviceCache {
    /// All available hosts, in enumeration order.
    pub hosts: Vec<HostInfo>,
    /// Output devices per host id.
    pub output_devices: Vec<HostDevices>,
    /// Input devices per host id.
    pub input_devices: Vec<HostDevices>,
}

/// One host with its devices, as handed to the user interface.
pub struct HostDeviceInfo {
    pub host_id: String,
    pub host_name: String,
    pub output_devices: Vec<AudioDeviceInfo>,
    pub input_devices: Vec<AudioDeviceInfo>,
}

/// The whole device cache, grouped by host.
pub struct DeviceCacheSnapshot {
    pub hosts: Vec<HostDeviceInfo>,
}

/// The configuration the engine currently runs with.
pub struct CurrentAudioState {
    pub host_id: String,
    pub output_device_id: Option<String>,
    pub output_device_name: Option<String>,
    pub input_device_id: Option<String>,
    pub input_device_name: Option<String>,
    pub sample_rate: u32,
    pub buffer_size: Option<u32>,
    pub output_channels: u16,
    pub input_channels: u16,
    pub fallback_warning: Option<String>,
}

/// A supported stream configuration range of a device: its sample rate
/// bounds and, when the driver reports one, its buffer size range.
#[derive(Clone, Copy)]
pub struct ConfigRange {
    pub min_sample_rate: u32,
    pub max_sample_rate: u32,
    pub buffer_size: Option<BufferSizeRange>,
}

/// Sample rates checked for support, ascending.
pub open spec fn common_sample_rates() -> Seq<u32> {
    seq![44100u32, 48000, 88200, 96000, 176400, 192000]
}

/// Highest sample rate chosen as a default.
pub const PREFERRED_MAX_DEFAULT_SAMPLE_RATE: u32 = 48_000;

/// The largest entry of `rates` that is at most `cap`, if any.
pub open spec fn max_at_most(rates: Seq<u32>, cap: u32) -> Option<u32>
    decreases rates.len(),
{
    if rates.len() == 0 {
        None
    } else {
        let rest = max_at_most(rates.drop_last(), cap);
        let x = rates.last();
        if x <= cap {
            match rest {
                Some(m) => Some(if m >= x { m } else { x }),
                None => Some(x),
            }
        } else {
            rest
        }
    }
}

proof fn lemma_max_at_most_props(rates: Seq<u32>, cap: u32)
    ensures
        max_at_most(rates, cap) is None <==> (forall|i: int| 0 <= i < rates.len() ==> rates[i] > cap),
        max_at_most(rates, cap) matches Some(m) ==> m <= cap && rates.contains(m)
            && (forall|i: int| 0 <= i < rates.len() && rates[i] <= cap ==> rates[i] <= m),
    decreases rates.len(),
{
    if rates.len() > 0 {
        lemma_max_at_most_props(rates.drop_last(), cap);
        let rest = rates.drop_last();
        assert forall|i: int| 0 <= i < rest.len() implies rest[i] == rates[i] by {}
        if max_at_most(rest, cap) is Some {
            let m = max_at_most(rest, cap)->Some_0;
            let k = choose|k: int| 0 <= k < rest.len() && rest[k] == m;
            assert(rates[k] == m);
        }
        assert(rates[rates.len() - 1] == rates.last());
    }
}

/// The default sample rate for a device: its own default when that is at
/// most 48 kHz, else the highest supported rate at or below 48 kHz, else
/// the device default.
pub open spec fn spec_preferred_default_sample_rate(device_default: u32, supported: Seq<u32>) -> u32 {
    if device_default <= PREFERRED_MAX_DEFAULT_SAMPLE_RATE {
        device_default
    } else {
        match max_at_most(supported, PREFERRED_MAX_DEFAULT_SAMPLE_RATE) {
            Some(m) => m,
            None => device_default,
        }
    }
}

/// Chooses a sensible default sample rate for a device: `device_default`
/// when it is at most 48 kHz; otherwise the highest supported rate at or
/// below 48 kHz; otherwise `device_default`.
pub fn preferred_default_sample_rate(device_default: u32, supported_rates: &[u32]) -> (r: u32)
    ensures
        r == spec_preferred_default_sample_rate(device_default, supported_rates@),
        device_default <= PREFERRED_MAX_DEFAULT_SAMPLE_RATE ==> r == device_default,
        device_default > PREFERRED_MAX_DEFAULT_SAMPLE_RATE && r != device_default ==>
            r <= PREFERRED_MAX_DEFAULT_SAMPLE_RATE && supported_rates@.contains(r)
            && (forall|i: int| 0 <= i < supported_rates@.len() && supported_rates@[i] <= PREFERRED_MAX_DEFAULT_SAMPLE_RATE
                ==> supported_rates@[i] <= r),
{
    proof {
        lemma_max_at_most_props(supported_rates@, PREFERRED_MAX_DEFAULT_SAMPLE_RATE);
    }
    if device_default <= PREFERRED_MAX_DEFAULT_SAMPLE_RATE {
        return device_default;
    }
    let mut best: Option<u32> = None;
    let mut i: usize = 0;
    while i < supported_rates.len()
        invariant
            i <= supported_rates@.len(),
            best == max_at_most(supported_rates@.take(i as int), PREFERRED_MAX_DEFAULT_SAMPLE_RATE),
        decreases supported_rates@.len() - i,
    {
        proof {
            assert(supported_rates@.take(i + 1).drop_last() =~= supported_rates@.take(i as int));
        }
        let x = supported_rates[i];
        if x <= PREFERRED_MAX_DEFAULT_SAMPLE_RATE {
            best = match best {
                Some(m) => Some(if m >= x { m } else { x }),
                None => Some(x),
            };
        }
        i = i + 1;
    }
    proof {
        assert(supported_rates@.take(supported_rates@.len() as int) =~= supported_rates@);
    }
    match best {
        Some(m) => m,
        None => device_default,
    }
}

/// Whether some configuration range covers `rate`.
pub open spec fn rate_supported(configs: Seq<ConfigRange>, rate: u32) -> bool {
    exists|i: int| 0 <= i < configs.len() && (#[trigger] configs[i]).min_sample_rate <= rate <= configs[i].max_sample_rate
}

/// Smallest buffer minimum and largest buffer maximum over the ranges that
/// report a buffer size, starting from (`u32::MAX`, 0).
pub open spec fn buffer_bounds(configs: Seq<ConfigRange>) -> (u32, u32)
    decreases configs.len(),
{
    if configs.len() == 0 {
        (u32::MAX, 0)
    } else {
        let (lo, hi) = buffer_bounds(configs.drop_last());
        match configs.last().buffer_size {
            Some(b) => (if b.min < lo { b.min } else { lo }, if b.max > hi { b.max } else { hi }),
            None => (lo, hi),
        }
    }
}

/// Summarises the configuration ranges of a device: the common sample
/// rates that some range covers (ascending, each once), and the overall
/// buffer size range when one was reported with a nonzero maximum.
pub fn device_capabilities(configs: &[ConfigRange]) -> (r: (Vec<u32>, Option<BufferSizeRange>))
    ensures
        r.0@ == common_sample_rates().filter(|rate: u32| rate_supported(configs@, rate)),
        ({
            let (lo, hi) = buffer_bounds(configs@);
            match r.1 {
                Some(b) => lo <= hi && hi > 0 && b.min == lo && b.max == hi,
                None => !(lo <= hi && hi > 0),
            }
        }),
{
    let common: [u32; 6] = [44100, 48000, 88200, 96000, 176400, 192000];
    assert(common@ =~= common_sample_rates());
    let ghost pred = |rate: u32| rate_supported(configs@, rate);
    let mut rates: Vec<u32> = Vec::new();
    let mut i: usize = 0;
    while i < 6
        invariant
            i <= 6,
            common@ == common_sample_rates(),
            pred == (|rate: u32| rate_supported(configs@, rate)),
            rates@ == common@.take(i as int).filter(pred),
        decreases 6 - i,
    {
        let rate = common[i];
        let mut covered = false;
        let mut j: usize = 0;
        while j < configs.len()
            invariant
                j <= configs@.len(),
                covered == exists|k: int| 0 <= k < j && (#[trigger] configs@[k]).min_sample_rate <= rate <= configs@[k].max_sample_rate,
            decreases configs@.len() - j,
        {
            if configs[j].min_sample_rate <= rate && rate <= configs[j].max_sample_rate {
                covered = true;
            }
            j = j + 1;
        }
        proof {
            reveal_with_fuel(Seq::<_>::filter, 1);
            assert(common@.take(i + 1).drop_last() =~= common@.take(i as int));
            assert(common@.take(i + 1).last() == rate);
        }
        if covered {
            rates.push(rate);
        }
        i = i + 1;
    }
    proof {
        assert(common@.take(6) =~= common@);
    }
    let mut lo: u32 = u32::MAX;
    let mut hi: u32 = 0;
    let mut j: usize = 0;
    while j < configs.len()
        invariant
            j <= configs@.len(),
            (lo, hi) == buffer_bounds(configs@.take(j as int)),
        decreases configs@.len() - j,
    {
        proof {
            assert(configs@.take(j + 1).drop_last() =~= configs@.take(j as int));
        }
        match configs[j].buffer_size {
            Some(b) => {
                if b.min < lo {
                    lo = b.min;
                }
                if b.max > hi {
                    hi = b.max;
                }
            },
            None => {},
        }
        j = j + 1;
    }
    proof {
        assert(configs@.take(configs@.len() as int) =~= configs@);
    }
    let range = if lo <= hi && hi > 0 {
        Some(BufferSizeRange { min: lo, max: hi })
    } else {
        None
    };
    (rates, range)
}

impl AudioDeviceInfo {
    /// Field-wise equality, strings and lists compared by content.
    pub open spec fn same_as(&self, other: &AudioDeviceInfo) -> bool {
        &&& self.id@ == other.id@
        &&& self.host_id@ == other.host_id@
        &&& self.name@ == other.name@
        &&& self.input_channels == other.input_channels
        &&& self.output_channels == other.output_channels
        &&& self.is_default == other.is_default
        &&& self.sample_rate == other.sample_rate
        &&& self.supported_sample_rates@ == other.supported_sample_rates@
        &&& self.buffer_size_range == other.buffer_size_range
    }

    /// A copy of this device description.
    pub fn duplicate(&self) -> (r: AudioDeviceInfo)
        ensures
            r.same_as(self),
    {
        let mut rates: Vec<u32> = Vec::new();
        let mut i: usize = 0;
        while i < self.supported_sample_rates.len()
            invariant
                i <= self.supported_sample_rates@.len(),
                rates@ == self.supported_sample_rates@.take(i as int),
            decreases self.supported_sample_rates@.len() - i,
        {
            rates.push(self.supported_sample_rates[i]);
            i = i + 1;
            proof {
                assert(rates@ =~= self.supported_sample_rates@.take(i as int));
            }
        }
        proof {
            assert(rates@ =~= self.supported_sample_rates@);
        }
        AudioDeviceInfo {
            id: self.id.clone(),
            host_id: self.host_id.clone(),
            name: self.name.clone(),
            input_channels: self.input_channels,
            output_channels: self.output_channels,
            is_default: self.is_default,
            sample_rate: self.sample_rate,
            supported_sample_rates: rates,
            buffer_size_range: self.buffer_size_range,
        }
    }
}

/// Every device of a table, entry after entry.
pub open spec fn flatten_devices(entries: Seq<HostDevices>) -> Seq<AudioDeviceInfo>
    decreases entries.len(),
{
    if entries.len() == 0 {
        Seq::empty()
    } else {
        flatten_devices(entries.drop_last()) + entries.last().1@
    }
}

/// Index of the first table entry whose host id is `key`.
pub open spec fn first_entry(entries: Seq<HostDevices>, key: Seq<char>) -> Option<int> {
    if exists|k: int| 0 <= k < entries.len() && entries[k].0@ == key {
        Some(choose|k: int| 0 <= k < entries.len() && entries[k].0@ == key
            && forall|j: int| 0 <= j < k ==> entries[j].0@ != key)
    } else {
        None
    }
}

/// The devices the table lists under `key` (its first such entry), or none.
pub open spec fn devices_for(entries: Seq<HostDevices>, key: Seq<char>) -> Seq<AudioDeviceInfo> {
    match first_entry(entries, key) {
        Some(k) => entries[k].1@,
        None => Seq::empty(),
    }
}

/// The table after storing `devices` under `key`: the first entry with
/// that key is replaced, or a new entry is appended.
pub open spec fn table_insert(entries: Seq<HostDevices>, key: String, devices: Vec<AudioDeviceInfo>) -> Seq<HostDevices> {
    match first_entry(entries, key@) {
        Some(k) => entries.update(k, (key, devices)),
        None => entries.push((key, devices)),
    }
}

/// Every element of `r` is a copy of the element of `s` at the same index.
pub open spec fn copies_of(r: Seq<AudioDeviceInfo>, s: Seq<AudioDeviceInfo>) -> bool {
    r.len() == s.len() && forall|i: int| 0 <= i < s.len() ==> (#[trigger] r[i]).same_as(&s[i])
}

/// The index of the first device of `devices` whose id is `id`.
pub open spec fn first_device_with_id(devices: Seq<AudioDeviceInfo>, id: Seq<char>) -> Option<int> {
    if exists|k: int| 0 <= k < devices.len() && devices[k].id@ == id {
        Some(choose|k: int| 0 <= k < devices.len() && devices[k].id@ == id
            && forall|j: int| 0 <= j < k ==> devices[j].id@ != id)
    } else {
        None
    }
}

proof fn lemma_first_entry_unique(entries: Seq<HostDevices>, key: Seq<char>, k: int)
    requires
        0 <= k < entries.len(),
        entries[k].0@ == key,
        forall|j: int| 0 <= j < k ==> entries[j].0@ != key,
    ensures
        first_entry(entries, key) == Some(k),
{
    let c = choose|c: int| 0 <= c < entries.len() && entries[c].0@ == key
        && forall|j: int| 0 <= j < c ==> entries[j].0@ != key;
    assert(c == k) by {
        if c < k {} else if k < c { assert(entries[k].0@ != key); }
    }
}

proof fn lemma_first_device_unique(devices: Seq<AudioDeviceInfo>, id: Seq<char>, k: int)
    requires
        0 <= k < devices.len(),
        devices[k].id@ == id,
        forall|j: int| 0 <= j < k ==> devices[j].id@ != id,
    ensures
        first_device_with_id(devices, id) == Some(k),
{
    let c = choose|c: int| 0 <= c < devices.len() && devices[c].id@ == id
        && forall|j: int| 0 <= j < c ==> devices[j].id@ != id;
    assert(c == k) by {
        if c < k {} else if k < c { assert(devices[k].id@ != id); }
    }
}

proof fn lemma_has_first(entries: Seq<HostDevices>, key: Seq<char>, k0: int)
    requires
        0 <= k0 < entries.len(),
        entries[k0].0@ == key,
    ensures
        exists|m: int| 0 <= m < entries.len() && entries[m].0@ == key
            && forall|j: int| 0 <= j < m ==> entries[j].0@ != key,
    decreases k0,
{
    if exists|j: int| 0 <= j < k0 && entries[j].0@ == key {
        let j = choose|j: int| 0 <= j < k0 && entries[j].0@ == key;
        lemma_has_first(entries, key, j);
    } else {
        assert(forall|j: int| 0 <= j < k0 ==> entries[j].0@ != key);
    }
}

proof fn lemma_first_entry_props(entries: Seq<HostDevices>, key: Seq<char>)
    ensures
        match first_entry(entries, key) {
            Some(k) => 0 <= k < entries.len() && entries[k].0@ == key
                && forall|j: int| 0 <= j < k ==> entries[j].0@ != key,
            None => forall|j: int| 0 <= j < entries.len() ==> entries[j].0@ != key,
        },
{
    if exists|k: int| 0 <= k < entries.len() && entries[k].0@ == key {
        let k0 = choose|k: int| 0 <= k < entries.len() && entries[k].0@ == key;
        lemma_has_first(entries, key, k0);
    }
}

/// How many devices the table lists in all, entry after entry.
pub open spec fn device_total(entries: Seq<HostDevices>) -> nat
    decreases entries.len(),
{
    if entries.len() == 0 {
        0
    } else {
        device_total(entries.drop_last()) + entries.last().1@.len()
    }
}

/// All devices of a table are every host's devices, each once: host after
/// host, the devices of entry `i` in their order, starting after those of
/// the entries before it.
pub proof fn lemma_all_devices_listed(entries: Seq<HostDevices>)
    ensures
        flatten_devices(entries).len() == device_total(entries),
        forall|i: int, j: int| 0 <= i < entries.len() && 0 <= j < entries[i].1@.len() ==>
            flatten_devices(entries)[device_total(entries.take(i)) + j] == #[trigger] entries[i].1@[j],
    decreases entries.len(),
{
    if entries.len() > 0 {
        let front = entries.drop_last();
        lemma_all_devices_listed(front);
        let n = entries.len() - 1;
        assert(entries.take(n) =~= front);
        assert forall|i: int, j: int| 0 <= i < entries.len() && 0 <= j < entries[i].1@.len() implies
            flatten_devices(entries)[device_total(entries.take(i)) + j] == #[trigger] entries[i].1@[j] by {
            if i < n {
                assert(front.take(i) =~= entries.take(i));
                assert(front[i] == entries[i]);
                assert(device_total(front.take(i)) + j < device_total(front)) by {
                    lemma_total_prefix(front, i);
                }
            }
        }
    }
}

/// The devices of the entries before `i`, and those of entry `i`, come
/// before the end of the list.
proof fn lemma_total_prefix(entries: Seq<HostDevices>, i: int)
    requires
        0 <= i < entries.len(),
    ensures
        device_total(entries.take(i)) + entries[i].1@.len() <= device_total(entries),
    decreases entries.len(),
{
    let n = entries.len() - 1;
    if i < n {
        let front = entries.drop_last();
        lemma_total_prefix(front, i);
        assert(front.take(i) =~= entries.take(i));
        assert(front[i] == entries[i]);
    } else {
        assert(entries.take(i) =~= entries.drop_last());
    }
}

/// Storing devices under a host id and then looking that id up gives back
/// exactly those devices; every other host id keeps what it had.
pub proof fn lemma_lookup_after_store(entries: Seq<HostDevices>, key: String, devices: Vec<AudioDeviceInfo>, other: Seq<char>)
    ensures
        devices_for(table_insert(entries, key, devices), key@) == devices@,
        other != key@ ==> devices_for(table_insert(entries, key, devices), other) == devices_for(entries, other),
{
    let t = table_insert(entries, key, devices);
    lemma_first_entry_props(entries, key@);
    lemma_first_entry_props(entries, other);
    match first_entry(entries, key@) {
        Some(k) => {
            assert(0 <= k < entries.len() && entries[k].0@ == key@ && forall|j: int| 0 <= j < k ==> entries[j].0@ != key@);
            assert(t[k] == (key, devices));
            assert forall|j: int| 0 <= j < k implies t[j].0@ != key@ by {
                assert(t[j] == entries[j]);
            }
            lemma_first_entry_unique(t, key@, k);
            if other != key@ {
                match first_entry(entries, other) {
                    Some(m) => {
                        assert(0 <= m < entries.len() && entries[m].0@ == other && forall|j: int| 0 <= j < m ==> entries[j].0@ != other);
                        assert(m != k);
                        assert(t[m] == entries[m]);
                        assert forall|j: int| 0 <= j < m implies t[j].0@ != other by {
                            if j != k {
                                assert(t[j] == entries[j]);
                            }
                        }
                        lemma_first_entry_unique(t, other, m);
                    },
                    None => {
                        assert forall|j: int| 0 <= j < t.len() implies t[j].0@ != other by {
                            if j != k {
                                assert(t[j] == entries[j]);
                            }
                        }
                    },
                }
            }
        },
        None => {
            assert forall|j: int| 0 <= j < entries.len() implies entries[j].0@ != key@ by {
                if entries[j].0@ == key@ {
                    assert(exists|k: int| 0 <= k < entries.len() && entries[k].0@ == key@);
                }
            }
            assert(t[entries.len() as int] == (key, devices));
            assert forall|j: int| 0 <= j < entries.len() implies t[j].0@ != key@ by {
                assert(t[j] == entries[j]);
            }
            lemma_first_entry_unique(t, key@, entries.len() as int);
            if other != key@ {
                match first_entry(entries, other) {
                    Some(m) => {
                        assert(0 <= m < entries.len() && entries[m].0@ == other && forall|j: int| 0 <= j < m ==> entries[j].0@ != other);
                        assert(t[m] == entries[m]);
                        assert forall|j: int| 0 <= j < m implies t[j].0@ != other by {
                            assert(t[j] == entries[j]);
                        }
                        lemma_first_entry_unique(t, other, m);
                    },
                    None => {
                        assert forall|j: int| 0 <= j < t.len() implies t[j].0@ != other by {
                            if j < entries.len() {
                                assert(t[j] == entries[j]);
                                if entries[j].0@ == other {
                                    assert(exists|k: int| 0 <= k < entries.len() && entries[k].0@ == other);
                                }
                            }
                        }
                    },
                }
            }
        },
    }
}

/// Finds the first table entry stored under `key`.
fn find_entry(entries: &Vec<HostDevices>, key: &str) -> (r: Option<usize>)
    ensures
        match r {
            Some(k) => k < entries@.len() && first_entry(entries@, key@) == Some(k as int),
            None => first_entry(entries@, key@) is None,
        },
{
    let mut i: usize = 0;
    while i < entries.len()
        invariant
            i <= entries@.len(),
            forall|j: int| 0 <= j < i ==> entries@[j].0@ != key@,
        decreases entries@.len() - i,
    {
        if str_eq(entries[i].0.as_str(), key) {
            proof {
                lemma_first_entry_unique(entries@, key@, i as int);
            }
            return Some(i);
        }
        i = i + 1;
    }
    None
}

/// Copies of a list of devices.
fn copy_devices(devices: &Vec<AudioDeviceInfo>) -> (r: Vec<AudioDeviceInfo>)
    ensures
        copies_of(r@, devices@),
{
    let mut out: Vec<AudioDeviceInfo> = Vec::new();
    let mut i: usize = 0;
    while i < devices.len()
        invariant
            i <= devices@.len(),
            out@.len() == i,
            forall|j: int| 0 <= j < i ==> (#[trigger] out@[j]).same_as(&devices@[j]),
        decreases devices@.len() - i,
    {
        out.push(devices[i].duplicate());
        i = i + 1;
    }
    out
}

/// Copies of every device of a table, entry after entry.
fn copy_all_devices(entries: &Vec<HostDevices>) -> (r: Vec<AudioDeviceInfo>)
    ensures
        copies_of(r@, flatten_devices(entries@)),
{
    let mut out: Vec<AudioDeviceInfo> = Vec::new();
    let mut i: usize = 0;
    while i < entries.len()
        invariant
            i <= entries@.len(),
            copies_of(out@, flatten_devices(entries@.take(i as int))),
        decreases entries@.len() - i,
    {
        proof {
            assert(entries@.take(i + 1).drop_last() =~= entries@.take(i as int));
        }
        let ghost before = out@;
        let list = &entries[i].1;
        let mut j: usize = 0;
        while j < list.len()
            invariant
                j <= list@.len(),
                list == entries@[i as int].1,
                i < entries@.len(),
                out@.len() == before.len() + j,
                copies_of(before, flatten_devices(entries@.take(i as int))),
                forall|k: int| 0 <= k < before.len() ==> out@[k] == before[k],
                forall|k: int| 0 <= k < j ==> (#[trigger] out@[before.len() + k]).same_as(&list@[k]),
            decreases list@.len() - j,
        {
            out.push(list[j].duplicate());
            j = j + 1;
        }
        proof {
            let flat = flatten_devices(entries@.take(i + 1));
            assert(entries@.take(i + 1).last() == entries@[i as int]);
            assert(flat =~= flatten_devices(entries@.take(i as int)) + list@);
            let pre = flatten_devices(entries@.take(i as int));
            assert forall|k: int| 0 <= k < flat.len() implies (#[trigger] out@[k]).same_as(&flat[k]) by {
                if k < before.len() {
                    assert(out@[k] == before[k]);
                    assert(before[k].same_as(&pre[k]));
                    assert(flat[k] == pre[k]);
                } else {
                    let t = k - before.len();
                    assert(out@[before.len() + t].same_as(&list@[t]));
                }
            }
        }
        i = i + 1;
    }
    proof {
        assert(entries@.take(entries@.len() as int) =~= entries@);
    }
    out
}

/// Finds the first device of a table whose id is `id`.
fn find_device<'a>(entries: &'a Vec<HostDevices>, id: &str) -> (r: Option<&'a AudioDeviceInfo>)
    ensures
        match first_device_with_id(flatten_devices(entries@), id@) {
            Some(k) => r == Some(&flatten_devices(entries@)[k]),
            None => r is None,
        },
{
    let mut i: usize = 0;
    while i < entries.len()
        invariant
            i <= entries@.len(),
            forall|k: int| 0 <= k < flatten_devices(entries@.take(i as int)).len()
                ==> (#[trigger] flatten_devices(entries@.take(i as int))[k]).id@ != id@,
        decreases entries@.len() - i,
    {
        let ghost prefix = flatten_devices(entries@.take(i as int));
        proof {
            assert(entries@.take(i + 1).drop_last() =~= entries@.take(i as int));
            assert(entries@.take(i + 1).last() == entries@[i as int]);
            assert(flatten_devices(entries@.take(i + 1)) =~= prefix + entries@[i as int].1@);
        }
        let list = &entries[i].1;
        let mut j: usize = 0;
        while j < list.len()
            invariant
                j <= list@.len(),
                i < entries@.len(),
                list == entries@[i as int].1,
                prefix == flatten_devices(entries@.take(i as int)),
                flatten_devices(entries@.take(i + 1)) == prefix + list@,
                forall|k: int| 0 <= k < prefix.len() ==> (#[trigger] prefix[k]).id@ != id@,
                forall|k: int| 0 <= k < j ==> (#[trigger] list@[k]).id@ != id@,
            decreases list@.len() - j,
        {
            if str_eq(list[j].id.as_str(), id) {
                proof {
                    let whole = flatten_devices(entries@);
                    let upto = flatten_devices(entries@.take(i + 1));
                    let pos = prefix.len() + j;
                    lemma_flatten_prefix(entries@, i + 1);
                    assert(upto[pos] == list@[j as int]);
                    assert(whole[pos] == upto[pos]);
                    assert forall|k: int| 0 <= k < pos implies whole[k].id@ != id@ by {
                        assert(whole[k] == upto[k]);
                        if k < prefix.len() {
                            assert(upto[k] == prefix[k]);
                        } else {
                            assert(upto[k] == list@[k - prefix.len()]);
                        }
                    }
                    lemma_first_device_unique(whole, id@, pos);
                }
                return Some(&list[j]);
            }
            j = j + 1;
        }
        proof {
            let upto = flatten_devices(entries@.take(i + 1));
            assert forall|k: int| 0 <= k < upto.len() implies (#[trigger] upto[k]).id@ != id@ by {
                if k < prefix.len() {
                    assert(upto[k] == prefix[k]);
                } else {
                    assert(upto[k] == list@[k - prefix.len()]);
                }
            }
        }
        i = i + 1;
    }
    proof {
        assert(entries@.take(entries@.len() as int) =~= entries@);
    }
    None
}

/// The devices of the first `n` entries are a prefix of all devices.
proof fn lemma_flatten_prefix(entries: Seq<HostDevices>, n: int)
    requires
        0 <= n <= entries.len(),
    ensures
        flatten_devices(entries.take(n)).len() <= flatten_devices(entries).len(),
        forall|k: int| 0 <= k < flatten_devices(entries.take(n)).len() ==>
            #[trigger] flatten_devices(entries.take(n))[k] == flatten_devices(entries)[k],
    decreases entries.len() - n,
{
    if n < entries.len() {
        lemma_flatten_prefix(entries, n + 1);
        assert(entries.take(n + 1).drop_last() =~= entries.take(n));
        let a = flatten_devices(entries.take(n));
        let b = flatten_devices(entries.take(n + 1));
        assert(b =~= a + entries.take(n + 1).last().1@);
        assert forall|k: int| 0 <= k < a.len() implies #[trigger] a[k] == flatten_devices(entries)[k] by {
            assert(b[k] == a[k]);
        }
    } else {
        assert(entries.take(n) =~= entries);
    }
}

/// Stores `devices` under `key`, replacing the first entry with that key.
fn table_store(entries: &mut Vec<HostDevices>, key: String, devices: Vec<AudioDeviceInfo>)
    ensures
        final(entries)@ == table_insert(old(entries)@, key, devices),
{
    match find_entry(entries, key.as_str()) {
        Some(k) => {
            entries.set(k, (key, devices));
        },
        None => {
            entries.push((key, devices));
        },
    }
}

impl AudioDeviceCache {
    /// An empty cache: no hosts and no devices.
    pub fn new() -> (r: AudioDeviceCache)
        ensures
            r.hosts@.len() == 0,
            r.output_devices@.len() == 0,
            r.input_devices@.len() == 0,
    {
        AudioDeviceCache { hosts: Vec::new(), output_devices: Vec::new(), input_devices: Vec::new() }
    }

    /// Forgets every host and device.
    pub fn clear(&mut self)
        ensures
            final(self).hosts@.len() == 0,
            final(self).output_devices@.len() == 0,
            final(self).input_devices@.len() == 0,
    {
        self.hosts.clear();
        self.output_devices.clear();
        self.input_devices.clear();
    }

    /// Records one enumerated host. When the host could be opened, its
    /// output and input devices are stored under its id, replacing any
    /// earlier lists for that id.
    pub fn add_host(&mut self, host: HostInfo, devices: Option<(Vec<AudioDeviceInfo>, Vec<AudioDeviceInfo>)>)
        ensures
            final(self).hosts@ == old(self).hosts@.push(host),
            match devices {
                Some((outs, ins)) => {
                    &&& final(self).output_devices@ == table_insert(old(self).output_devices@, host.id, outs)
                    &&& final(self).input_devices@ == table_insert(old(self).input_devices@, host.id, ins)
                },
                None => {
                    &&& final(self).output_devices@ == old(self).output_devices@
                    &&& final(self).input_devices@ == old(self).input_devices@
                },
            },
    {
        let id_out = host.id.clone();
        let id_in = host.id.clone();
        self.hosts.push(host);
        match devices {
            Some((outs, ins)) => {
                table_store(&mut self.output_devices, id_out, outs);
                table_store(&mut self.input_devices, id_in, ins);
            },
            None => {},
        }
    }

    /// Copies of all output devices across all hosts.
    pub fn all_output_devices(&self) -> (r: Vec<AudioDeviceInfo>)
        ensures
            copies_of(r@, flatten_devices(self.output_devices@)),
    {
        copy_all_devices(&self.output_devices)
    }

    /// Copies of all input devices across all hosts.
    pub fn all_input_devices(&self) -> (r: Vec<AudioDeviceInfo>)
        ensures
            copies_of(r@, flatten_devices(self.input_devices@)),
    {
        copy_all_devices(&self.input_devices)
    }

    /// The first output device whose id is `device_id`.
    pub fn find_output_device(&self, device_id: &str) -> (r: Option<&AudioDeviceInfo>)
        ensures
            match first_device_with_id(flatten_devices(self.output_devices@), device_id@) {
                Some(k) => r == Some(&flatten_devices(self.output_devices@)[k]),
                None => r is None,
            },
    {
        find_device(&self.output_devices, device_id)
    }

    /// The first input device whose id is `device_id`.
    pub fn find_input_device(&self, device_id: &str) -> (r: Option<&AudioDeviceInfo>)
        ensures
            match first_device_with_id(flatten_devices(self.input_devices@), device_id@) {
                Some(k) => r == Some(&flatten_devices(self.input_devices@)[k]),
                None => r is None,
            },
    {
        find_device(&self.input_devices, device_id)
    }

    /// Copies of the output devices of one host (none for an unknown host).
    pub fn output_devices_for_host(&self, host_id: &str) -> (r: Vec<AudioDeviceInfo>)
        ensures
            copies_of(r@, devices_for(self.output_devices@, host_id@)),
    {
        match find_entry(&self.output_devices, host_id) {
            Some(k) => copy_devices(&self.output_devices[k].1),
            None => Vec::new(),
        }
    }

    /// Copies of the input devices of one host (none for an unknown host).
    pub fn input_devices_for_host(&self, host_id: &str) -> (r: Vec<AudioDeviceInfo>)
        ensures
            copies_of(r@, devices_for(self.input_devices@, host_id@)),
    {
        match find_entry(&self.input_devices, host_id) {
            Some(k) => copy_devices(&self.input_devices[k].1),
            None => Vec::new(),
        }
    }

    /// The ids of all hosts, in order.
    pub fn host_ids(&self) -> (r: Vec<String>)
        ensures
            r@.len() == self.hosts@.len(),
            forall|i: int| 0 <= i < self.hosts@.len() ==> (#[trigger] r@[i])@ == self.hosts@[i].id@,
    {
        let mut out: Vec<String> = Vec::new();
        let mut i: usize = 0;
        while i < self.hosts.len()
            invariant
                i <= self.hosts@.len(),
                out@.len() == i,
                forall|j: int| 0 <= j < i ==> (#[trigger] out@[j])@ == self.hosts@[j].id@,
            decreases self.hosts@.len() - i,
        {
            out.push(self.hosts[i].id.clone());
            i = i + 1;
        }
        out
    }

    /// Every host with its output and input devices.
    pub fn snapshot(&self) -> (r: DeviceCacheSnapshot)
        ensures
            r.hosts@.len() == self.hosts@.len(),
            forall|i: int| 0 <= i < self.hosts@.len() ==> {
                let h = #[trigger] r.hosts@[i];
                &&& h.host_id@ == self.hosts@[i].id@
                &&& h.host_name@ == self.hosts@[i].name@
                &&& copies_of(h.output_devices@, devices_for(self.output_devices@, self.hosts@[i].id@))
                &&& copies_of(h.input_devices@, devices_for(self.input_devices@, self.hosts@[i].id@))
            },
    {
        let mut out: Vec<HostDeviceInfo> = Vec::new();
        let mut i: usize = 0;
        while i < self.hosts.len()
            invariant
                i <= self.hosts@.len(),
                out@.len() == i,
                forall|j: int| 0 <= j < i ==> {
                    let h = #[trigger] out@[j];
                    &&& h.host_id@ == self.hosts@[j].id@
                    &&& h.host_name@ == self.hosts@[j].name@
                    &&& copies_of(h.output_devices@, devices_for(self.output_devices@, self.hosts@[j].id@))
                    &&& copies_of(h.input_devices@, devices_for(self.input_devices@, self.hosts@[j].id@))
                },
            decreases self.hosts@.len() - i,
        {
            let h = &self.hosts[i];
            out.push(HostDeviceInfo {
                host_id: h.id.clone(),
                host_name: h.name.clone(),
                output_devices: self.output_devices_for_host(h.id.as_str()),
                input_devices: self.input_devices_for_host(h.id.as_str()),
            });
            i = i + 1;
        }
        DeviceCacheSnapshot { hosts: out }
    }
}

/// Accumulated timing of the audio callback: total samples, total time and
/// the worst time per sample seen, as a Q32 fixed-point number of
/// nanoseconds per sample.
pub struct AudioBudgetMeter {
    total_samples: u64,
    total_time_ns: u64,
    max_ns_per_sample_q32: u64,
}

/// `x + y` wrapped to 64 bits.
pub open spec fn wrap_add_u64(x: u64, y: u64) -> u64 {
    ((x + y) % 0x1_0000_0000_0000_0000) as u64
}

/// Nanoseconds per sample in Q32 fixed point: the low 32 bits of
/// `time_ns` shifted up by 32 bits, divided by `samples`.
pub open spec fn ns_per_sample_q32(samples: u64, time_ns: u64) -> u64 {
    (((time_ns % 0x1_0000_0000) * 0x1_0000_0000) / (samples as int)) as u64
}

impl AudioBudgetMeter {
    pub closed spec fn spec_total_samples(&self) -> u64 {
        self.total_samples
    }

    pub closed spec fn spec_total_time_ns(&self) -> u64 {
        self.total_time_ns
    }

    pub closed spec fn spec_max_q32(&self) -> u64 {
        self.max_ns_per_sample_q32
    }

    /// A meter with nothing recorded.
    pub fn new() -> (r: AudioBudgetMeter)
        ensures
            r.spec_total_samples() == 0,
            r.spec_total_time_ns() == 0,
            r.spec_max_q32() == 0,
    {
        AudioBudgetMeter { total_samples: 0, total_time_ns: 0, max_ns_per_sample_q32: 0 }
    }

    /// Records one audio callback chunk of `samples` samples that took
    /// `time_ns` nanoseconds. An empty chunk is ignored; totals wrap at 64 bits.
    pub fn record_chunk(&mut self, samples: u64, time_ns: u64)
        ensures
            samples == 0 ==> *final(self) == *old(self),
            samples != 0 ==> {
                &&& final(self).spec_total_samples() == wrap_add_u64(old(self).spec_total_samples(), samples)
                &&& final(self).spec_total_time_ns() == wrap_add_u64(old(self).spec_total_time_ns(), time_ns)
                &&& final(self).spec_max_q32() == if ns_per_sample_q32(samples, time_ns) > old(self).spec_max_q32() {
                    ns_per_sample_q32(samples, time_ns)
                } else {
                    old(self).spec_max_q32()
                }
            },
    {
        if samples == 0 {
            return;
        }
        self.total_samples = self.total_samples.wrapping_add(samples);
        self.total_time_ns = self.total_time_ns.wrapping_add(time_ns);
        let shifted = time_ns << 32u64;
        proof {
            assert(shifted == (time_ns & 0xffff_ffffu64) * 0x1_0000_0000u64) by (bit_vector)
                requires
                    shifted == time_ns << 32u64,
            ;
            assert((time_ns & 0xffff_ffffu64) == time_ns % 0x1_0000_0000u64) by (bit_vector);
        }
        let q = shifted / samples;
        if q > self.max_ns_per_sample_q32 {
            self.max_ns_per_sample_q32 = q;
        }
    }

    /// Reads the three counters and resets them to zero:
    /// (total samples, total nanoseconds, worst Q32 nanoseconds per sample).
    pub fn take_totals(&mut self) -> (r: (u64, u64, u64))
        ensures
            r == (old(self).spec_total_samples(), old(self).spec_total_time_ns(), old(self).spec_max_q32()),
            final(self).spec_total_samples() == 0,
            final(self).spec_total_time_ns() == 0,
            final(self).spec_max_q32() == 0,
    {
        let r = (self.total_samples, self.total_time_ns, self.max_ns_per_sample_q32);
        self.total_samples = 0;
        self.total_time_ns = 0;
        self.max_ns_per_sample_q32 = 0;
        r
    }
}

// ---------------------------------------------------------------------------
// Device enumeration
// ---------------------------------------------------------------------------

/// What probing one device of a host found: its id, its name, the channel
/// count and sample rate of its default configuration, and its supported
/// configuration ranges.
pub struct ProbedDevice {
    pub id: String,
    pub name: String,
    pub channels: u16,
    pub sample_rate: u32,
    pub configs: Vec<ConfigRange>,
}

/// What probing one host found: its id, whether it has default devices
/// and their ids (absent where the device reports none), and its output
/// and input devices.
pub struct HostProbe {
    pub host_id: String,
    pub has_default_output: bool,
    pub default_output_id: Option<String>,
    pub has_default_input: bool,
    pub default_input_id: Option<String>,
    pub output_devices: Vec<ProbedDevice>,
    pub input_devices: Vec<ProbedDevice>,
}

pub open spec fn opt_text(o: Option<String>) -> Option<Seq<char>> {
    match o {
        Some(s) => Some(s@),
        None => None,
    }
}

/// `info` describes the probed device `p` of host `host_id` as an output
/// device (`output`) or an input device.
pub open spec fn describes_probe(info: AudioDeviceInfo, p: ProbedDevice, host_id: Seq<char>, default_id: Option<Seq<char>>, output: bool) -> bool {
    &&& info.id@ == p.id@
    &&& info.host_id@ == host_id
    &&& info.name@ == p.name@
    &&& info.input_channels == (if output { 0 } else { p.channels })
    &&& info.output_channels == (if output { p.channels } else { 0 })
    &&& info.is_default == (default_id == Some(p.id@))
    &&& info.sample_rate == p.sample_rate
    &&& info.supported_sample_rates@ == common_sample_rates().filter(|rate: u32| rate_supported(p.configs@, rate))
    &&& ({
        let (lo, hi) = buffer_bounds(p.configs@);
        match info.buffer_size_range {
            Some(b) => lo <= hi && hi > 0 && b.min == lo && b.max == hi,
            None => !(lo <= hi && hi > 0),
        }
    })
}

pub open spec fn describes_all(r: Seq<AudioDeviceInfo>, ps: Seq<ProbedDevice>, host_id: Seq<char>, default_id: Option<Seq<char>>, output: bool) -> bool {
    &&& r.len() == ps.len()
    &&& forall|i: int| 0 <= i < r.len() ==> describes_probe(#[trigger] r[i], ps[i], host_id, default_id, output)
}

fn describe_devices(devices: &Vec<ProbedDevice>, host_id: &str, default_id: &Option<String>, output: bool) -> (r: Vec<AudioDeviceInfo>)
    ensures
        describes_all(r@, devices@, host_id@, opt_text(*default_id), output),
{
    let mut out: Vec<AudioDeviceInfo> = Vec::new();
    let mut i: usize = 0;
    while i < devices.len()
        invariant
            i <= devices@.len(),
            out@.len() == i,
            forall|k: int| 0 <= k < i ==> describes_probe(#[trigger] out@[k], devices@[k], host_id@, opt_text(*default_id), output),
        decreases devices@.len() - i,
    {
        let d = &devices[i];
        let (rates, range) = device_capabilities(d.configs.as_slice());
        let is_default = match default_id {
            Some(id) => str_eq(id.as_str(), d.id.as_str()),
            None => false,
        };
        let info = AudioDeviceInfo {
            id: d.id.clone(),
            host_id: String::from_str(host_id),
            name: d.name.clone(),
            input_channels: if output { 0 } else { d.channels },
            output_channels: if output { d.channels } else { 0 },
            is_default,
            sample_rate: d.sample_rate,
            supported_sample_rates: rates,
            buffer_size_range: range,
        };
        out.push(info);
        i = i + 1;
    }
    out
}

/// Describes the output devices probed on a host.
pub fn enumerate_output_devices(devices: &Vec<ProbedDevice>, host_id: &str, default_id: &Option<String>) -> (r: Vec<AudioDeviceInfo>)
    ensures
        describes_all(r@, devices@, host_id@, opt_text(*default_id), true),
{
    describe_devices(devices, host_id, default_id, true)
}

/// Describes the input devices probed on a host.
pub fn enumerate_input_devices(devices: &Vec<ProbedDevice>, host_id: &str, default_id: &Option<String>) -> (r: Vec<AudioDeviceInfo>)
    ensures
        describes_all(r@, devices@, host_id@, opt_text(*default_id), false),
{
    describe_devices(devices, host_id, default_id, false)
}

/// The output devices of the preferred host, from what probing it found.
pub fn list_output_devices(probe: &HostProbe) -> (r: Vec<AudioDeviceInfo>)
    ensures
        describes_all(r@, probe.output_devices@, probe.host_id@, opt_text(probe.default_output_id), true),
{
    enumerate_output_devices(&probe.output_devices, probe.host_id.as_str(), &probe.default_output_id)
}

/// The input devices of the preferred host, from what probing it found.
pub fn list_input_devices(probe: &HostProbe) -> (r: Vec<AudioDeviceInfo>)
    ensures
        describes_all(r@, probe.input_devices@, probe.host_id@, opt_text(probe.default_input_id), false),
{
    enumerate_input_devices(&probe.input_devices, probe.host_id.as_str(), &probe.default_input_id)
}


// ---------------------------------------------------------------------------
// The running configuration
// ---------------------------------------------------------------------------

/// The audio configuration the engine runs with, as the synthesizer keeps it.
pub struct AudioSettings {
    pub host_id: String,
    pub output_device_id: Option<String>,
    pub input_device_id: Option<String>,
    pub sample_rate: u32,
    pub buffer_size: Option<u32>,
    pub channels: u16,
    pub input_channels: u16,
    pub fallback_warning: Option<String>,
}

/// The name the cache lists for the device `id` among `devices`.
pub open spec fn device_name(devices: Seq<HostDevices>, id: Option<String>) -> Option<Seq<char>> {
    match id {
        Some(i) => match first_device_with_id(flatten_devices(devices), i@) {
            Some(k) => Some(flatten_devices(devices)[k].name@),
            None => None,
        },
        None => None,
    }
}

fn name_of(d: Option<&AudioDeviceInfo>) -> (r: Option<String>)
    ensures
        match d {
            Some(x) => r matches Some(n) && n@ == x.name@,
            None => r is None,
        },
{
    match d {
        Some(x) => Some(x.name.clone()),
        None => None,
    }
}

/// The configuration the engine runs with, with the device names the
/// cache lists for the devices in use.
pub fn get_current_audio_state(settings: &AudioSettings, cache: &AudioDeviceCache) -> (r: CurrentAudioState)
    ensures
        r.host_id@ == settings.host_id@,
        opt_text(r.output_device_id) == opt_text(settings.output_device_id),
        opt_text(r.output_device_name) == device_name(cache.output_devices@, settings.output_device_id),
        opt_text(r.input_device_id) == opt_text(settings.input_device_id),
        opt_text(r.input_device_name) == device_name(cache.input_devices@, settings.input_device_id),
        r.sample_rate == settings.sample_rate,
        r.buffer_size == settings.buffer_size,
        r.output_channels == settings.channels,
        r.input_channels == settings.input_channels,
        opt_text(r.fallback_warning) == opt_text(settings.fallback_warning),
{
    let output_device_name = match &settings.output_device_id {
        Some(id) => name_of(cache.find_output_device(id.as_str())),
        None => None,
    };
    let input_device_name = match &settings.input_device_id {
        Some(id) => name_of(cache.find_input_device(id.as_str())),
        None => None,
    };
    CurrentAudioState {
        host_id: settings.host_id.clone(),
        output_device_id: settings.output_device_id.clone(),
        output_device_name,
        input_device_id: settings.input_device_id.clone(),
        input_device_name,
        sample_rate: settings.sample_rate,
        buffer_size: settings.buffer_size,
        output_channels: settings.channels,
        input_channels: settings.input_channels,
        fallback_warning: settings.fallback_warning.clone(),
    }
}
} // verus!
