//! Decisions of the synthesizer front end that need no audio hardware:
//! which MIDI devices a patch asks for, the time signature of the root
//! clock, and which stream requests the device cache allows.

use vstd::prelude::*;
use crate::devices::{flatten_devices, first_device_with_id, AudioDeviceCache, AudioDeviceInfo};
use crate::graph::{ModuleState, PatchGraph};
use crate::json::{member, member_str, JsonValue};
use crate::text::{decimal, push_decimal, str_eq};

verus! {

/// The module types that read MIDI from a named device.
pub open spec fn reads_midi_device(module_type: Seq<char>) -> bool {
    module_type == "$midiCV"@ || module_type == "$midiCC"@
}

/// The device a module asks for: the non-empty `device` text of a MIDI module's params.
pub open spec fn device_of(m: ModuleState) -> Option<Seq<char>> {
    if !reads_midi_device(m.module_type@) {
        None
    } else {
        match m.params {
            JsonValue::Object(entries) => match member_str(entries@, "device"@) {
                Some(d) => if d.len() > 0 { Some(d) } else { None },
                None => None,
            },
            _ => None,
        }
    }
}

/// The devices asked for by the first `k` modules.
pub open spec fn devices_asked(modules: Seq<ModuleState>, k: int) -> Set<Seq<char>>
    decreases k,
{
    if k <= 0 {
        Set::empty()
    } else {
        match device_of(modules[k - 1]) {
            Some(d) => devices_asked(modules, k - 1).insert(d),
            None => devices_asked(modules, k - 1),
        }
    }
}

/// No name twice.
pub open spec fn distinct_texts(s: Seq<String>) -> bool {
    forall|i: int, j: int| 0 <= i < j < s.len() ==> #[trigger] s[i]@ != #[trigger] s[j]@
}

pub open spec fn text_set(s: Seq<String>) -> Set<Seq<char>> {
    Set::new(|t: Seq<char>| exists|i: int| 0 <= i < s.len() && #[trigger] s[i]@ == t)
}

/// The MIDI devices a patch's MIDI modules ask for, each once.
pub fn midi_devices_in_patch(patch: &PatchGraph) -> (r: Vec<String>)
    ensures
        distinct_texts(r@),
        text_set(r@) == devices_asked(patch.modules@, patch.modules@.len() as int),
{
    let mut out: Vec<String> = Vec::new();
    let mut i: usize = 0;
    while i < patch.modules.len()
        invariant
            i <= patch.modules@.len(),
            distinct_texts(out@),
            text_set(out@) == devices_asked(patch.modules@, i as int),
        decreases patch.modules@.len() - i,
    {
        let m = &patch.modules[i];
        let t = m.module_type.as_str();
        if str_eq(t, "$midiCV") || str_eq(t, "$midiCC") {
            match &m.params {
                JsonValue::Object(entries) => {
                    match crate::json::get_member_str(entries, "device") {
                        Some(d) => {
                            if d.unicode_len() > 0 {
                                let ghost before = out@;
                                let mut seen = false;
                                let mut k: usize = 0;
                                while k < out.len()
                                    invariant
                                        k <= out@.len(),
                                        seen == exists|j: int| 0 <= j < k && #[trigger] out@[j]@ == d@,
                                    decreases out@.len() - k,
                                {
                                    if str_eq(out[k].as_str(), d.as_str()) {
                                        seen = true;
                                    }
                                    k = k + 1;
                                }
                                if !seen {
                                    out.push(d.clone());
                                }
                                proof {
                                    let now = out@;
                                    assert(text_set(now) =~= text_set(before).insert(d@)) by {
                                        assert forall|x: Seq<char>| text_set(now).contains(x) == text_set(before).insert(d@).contains(x) by {
                                            if text_set(now).contains(x) {
                                                let j = choose|j: int| 0 <= j < now.len() && #[trigger] now[j]@ == x;
                                                if j < before.len() {
                                                    assert(before[j] == now[j]);
                                                }
                                            }
                                            if text_set(before).contains(x) {
                                                let j = choose|j: int| 0 <= j < before.len() && #[trigger] before[j]@ == x;
                                                assert(now[j] == before[j]);
                                            }
                                            if x == d@ && !seen {
                                                assert(now[before.len() as int]@ == x);
                                            }
                                        }
                                    }
                                    assert forall|a: int, b: int| 0 <= a < b < now.len() implies #[trigger] now[a]@ != #[trigger] now[b]@ by {
                                        assert(now[a] == before[a]);
                                        if b < before.len() {
                                            assert(now[b] == before[b]);
                                        }
                                    }
                                }
                            }
                        },
                        None => {},
                    }
                },
                _ => {},
            }
        }
        i = i + 1;
    }
    out
}

/// A JSON number text that reads as an unsigned 64-bit integer: decimal
/// digits only, at most `u64::MAX`.
pub open spec fn digits_value(t: Seq<char>) -> int
    decreases t.len(),
{
    if t.len() == 0 {
        0
    } else {
        digits_value(t.drop_last()) * 10 + (t.last() as int - '0' as int)
    }
}

pub open spec fn all_digits(t: Seq<char>) -> bool {
    forall|i: int| 0 <= i < t.len() ==> '0' <= #[trigger] t[i] <= '9'
}

/// The unsigned integer a JSON number holds, if it is one that fits.
pub open spec fn number_u64(t: Seq<char>) -> Option<u64> {
    if t.len() > 0 && all_digits(t) && digits_value(t) <= u64::MAX {
        Some(digits_value(t) as u64)
    } else {
        None
    }
}

/// Reads a JSON number text as an unsigned 64-bit integer, where it is one.
pub fn number_as_u64(t: &str) -> (r: Option<u64>)
    ensures
        r == number_u64(t@),
{
    let n = t.unicode_len();
    if n == 0 {
        return None;
    }
    let mut v: u64 = 0;
    let mut i: usize = 0;
    while i < n
        invariant
            n == t@.len(),
            i <= n,
            all_digits(t@.take(i as int)),
            v == digits_value(t@.take(i as int)),
        decreases n - i,
    {
        let c = t.get_char(i);
        assert(t@.take(i + 1).drop_last() =~= t@.take(i as int));
        if !('0' <= c && c <= '9') {
            proof {
                assert(!all_digits(t@)) by {
                    assert(t@[i as int] == c);
                }
            }
            return None;
        }
        let d: u64 = (c as u32 - '0' as u32) as u64;
        if v > (u64::MAX - d) / 10 {
            proof {
                lemma_digits_grow(t@, i + 1);
                assert(digits_value(t@.take(i + 1)) > u64::MAX) by (nonlinear_arith)
                    requires
                        v > (u64::MAX - d) / 10,
                        digits_value(t@.take(i + 1)) == v * 10 + d,
                        d <= 9;
                assert(t@.take(n as int) =~= t@);
            }
            return None;
        }
        assert(v * 10 + d <= u64::MAX) by (nonlinear_arith)
            requires
                v <= (u64::MAX - d) / 10,
                d <= 9;
        v = v * 10 + d;
        i = i + 1;
    }
    assert(t@.take(n as int) =~= t@);
    Some(v)
}

/// The value of a prefix never exceeds the value of the whole (digits only).
proof fn lemma_digits_grow(t: Seq<char>, k: int)
    requires
        0 <= k <= t.len(),
        all_digits(t.take(k)),
    ensures
        all_digits(t) ==> digits_value(t.take(k)) <= digits_value(t),
    decreases t.len() - k,
{
    if k < t.len() && all_digits(t) {
        assert(all_digits(t.take(k + 1)));
        lemma_digits_grow(t, k + 1);
        assert(t.take(k + 1).drop_last() =~= t.take(k));
        assert(digits_value(t.take(k)) >= 0) by {
            lemma_digits_nonneg(t.take(k));
        }
    } else if k == t.len() {
        assert(t.take(k) =~= t);
    }
}

proof fn lemma_digits_nonneg(t: Seq<char>)
    requires
        all_digits(t),
    ensures
        digits_value(t) >= 0,
    decreases t.len(),
{
    if t.len() > 0 {
        assert(all_digits(t.drop_last()));
        lemma_digits_nonneg(t.drop_last());
    }
}

/// A count of the time signature: the member's unsigned integer, else 4,
/// kept to 32 bits.
pub open spec fn signature_part(entries: Seq<(String, JsonValue)>, key: Seq<char>) -> u32 {
    let v: u64 = match member(entries, key) {
        Some(JsonValue::Number(t)) => match number_u64(t@) {
            Some(n) => n,
            None => 4,
        },
        _ => 4,
    };
    v as u32
}

/// The time signature the root clock's params give: (numerator, denominator).
pub open spec fn time_signature_of(params: JsonValue) -> (u32, u32) {
    match params {
        JsonValue::Object(entries) => (signature_part(entries@, "numerator"@), signature_part(entries@, "denominator"@)),
        _ => (4, 4),
    }
}

fn signature_part_of(entries: &Vec<(String, JsonValue)>, key: &str) -> (r: u32)
    ensures
        r == signature_part(entries@, key@),
{
    let v: u64 = match crate::json::get_member(entries, key) {
        Some(JsonValue::Number(t)) => match number_as_u64(t.as_str()) {
            Some(n) => n,
            None => 4,
        },
        _ => 4,
    };
    #[verifier::truncate]
    (v as u32)
}

/// The root clock's time signature: unsigned integer `numerator` and
/// `denominator` members, 4 where absent or not such numbers.
pub fn time_signature(params: &JsonValue) -> (r: (u32, u32))
    ensures
        r == time_signature_of(*params),
{
    match params {
        JsonValue::Object(entries) => (signature_part_of(entries, "numerator"), signature_part_of(entries, "denominator")),
        _ => (4, 4),
    }
}

/// The members other than `key`, in order.
pub open spec fn without_key(entries: Seq<(String, JsonValue)>, key: Seq<char>) -> Seq<(String, JsonValue)>
    decreases entries.len(),
{
    if entries.len() == 0 {
        entries
    } else if entries.last().0@ == key {
        without_key(entries.drop_last(), key)
    } else {
        without_key(entries.drop_last(), key).push(entries.last())
    }
}

/// Whether the params say `tempoSet: true`.
pub open spec fn tempo_set_flag(params: JsonValue) -> bool {
    match params {
        JsonValue::Object(entries) => member(entries@, "tempoSet"@) == Some(JsonValue::Bool(true)),
        _ => false,
    }
}

/// Takes the editor-only `tempoSet` flag out of the root clock's params and
/// says whether it was `true`.
pub fn take_tempo_set(params: &mut JsonValue) -> (r: bool)
    ensures
        r == tempo_set_flag(*old(params)),
        match *old(params) {
            JsonValue::Object(entries) => (*final(params) matches JsonValue::Object(e2) && e2@ == without_key(entries@, "tempoSet"@)),
            _ => *final(params) == *old(params),
        },
{
    let flag = match params {
        JsonValue::Object(entries) => match crate::json::get_member(entries, "tempoSet") {
            Some(JsonValue::Bool(b)) => *b,
            _ => false,
        },
        _ => false,
    };
    match params {
        JsonValue::Object(entries) => {
            let ghost before = entries@;
            let mut kept: Vec<(String, JsonValue)> = Vec::new();
            let mut rest: Vec<(String, JsonValue)> = Vec::new();
            std::mem::swap(&mut rest, entries);
            assert(rest@ == before);
            assert(before.len() == rest.len());
            let mut k: usize = 0;
            while rest.len() > 0
                invariant
                    before.len() <= usize::MAX,
                    k + rest@.len() == before.len(),
                    rest@ == before.skip(k as int),
                    kept@ == without_key(before.take(k as int), "tempoSet"@),
                decreases rest@.len(),
            {
                let e = rest.remove(0);
                assert(e == before[k as int]);
                assert(rest@ =~= before.skip(k + 1));
                assert(before.take(k + 1).drop_last() =~= before.take(k as int));
                if !str_eq(e.0.as_str(), "tempoSet") {
                    kept.push(e);
                }
                k = k + 1;
            }
            assert(before.take(k as int) =~= before);
            *entries = kept;
        },
        _ => {},
    }
    flag
}

/// The place of the first module with id `id`.
pub fn find_module_index(patch: &PatchGraph, id: &str) -> (r: Option<usize>)
    ensures
        match r {
            Some(i) => i < patch.modules@.len() && patch.modules@[i as int].id@ == id@
                && forall|j: int| 0 <= j < i ==> #[trigger] patch.modules@[j].id@ != id@,
            None => forall|j: int| 0 <= j < patch.modules@.len() ==> #[trigger] patch.modules@[j].id@ != id@,
        },
{
    let mut i: usize = 0;
    while i < patch.modules.len()
        invariant
            i <= patch.modules@.len(),
            forall|j: int| 0 <= j < i ==> #[trigger] patch.modules@[j].id@ != id@,
        decreases patch.modules@.len() - i,
    {
        if str_eq(patch.modules[i].id.as_str(), id) {
            return Some(i);
        }
        i = i + 1;
    }
    None
}

/// The cached device with id `id` among `entries`, by its place in the flattened list.
pub open spec fn cached_device(devices: Seq<crate::devices::HostDevices>, id: Seq<char>) -> Option<AudioDeviceInfo> {
    match first_device_with_id(flatten_devices(devices), id) {
        Some(k) => Some(flatten_devices(devices)[k]),
        None => None,
    }
}

/// The cached output device a stream request names.
pub fn stream_output_device<'a>(cache: &'a AudioDeviceCache, output_device_id: &str) -> (r: Result<&'a AudioDeviceInfo, String>)
    ensures
        match cached_device(cache.output_devices@, output_device_id@) {
            Some(d) => r == Ok::<&AudioDeviceInfo, String>(&d),
            None => r matches Err(e) && e@ == "Output device '"@ + output_device_id@
                + "' not found in cache. Try refreshing the device cache."@,
        },
{
    match cache.find_output_device(output_device_id) {
        Some(d) => Ok(d),
        None => Err(crate::text::join3("Output device '", output_device_id, "' not found in cache. Try refreshing the device cache.")),
    }
}

fn supports_rate(rates: &Vec<u32>, rate: u32) -> (r: bool)
    ensures
        r == rates@.contains(rate),
{
    let mut i: usize = 0;
    while i < rates.len()
        invariant
            i <= rates@.len(),
            forall|j: int| 0 <= j < i ==> rates@[j] != rate,
        decreases rates@.len() - i,
    {
        if rates[i] == rate {
            assert(rates@[i as int] == rate);
            return true;
        }
        i = i + 1;
    }
    false
}

fn rate_message(rate: u32, what: &str) -> (r: String)
    ensures
        r@ == "Sample rate "@ + decimal(rate as nat) + "Hz not supported by "@ + what@,
{
    let mut m = String::from_str("Sample rate ");
    push_decimal(&mut m, rate as u64);
    m.append("Hz not supported by ");
    m.append(what);
    m
}

/// A sample rate the device does not list is refused.
pub fn check_sample_rate(device: &AudioDeviceInfo, sample_rate: u32, what: &str) -> (r: Result<(), String>)
    ensures
        device.supported_sample_rates@.contains(sample_rate) ==> r is Ok,
        !device.supported_sample_rates@.contains(sample_rate) ==> (r matches Err(e)
            && e@ == "Sample rate "@ + decimal(sample_rate as nat) + "Hz not supported by "@ + what@),
{
    if supports_rate(&device.supported_sample_rates, sample_rate) {
        Ok(())
    } else {
        Err(rate_message(sample_rate, what))
    }
}

/// The input device of a stream request: none for no id, `none` or an
/// empty id; otherwise a cached input device on the output's host that
/// lists the sample rate, or the error saying which of these fails.
pub fn stream_input_request(
    cache: &AudioDeviceCache,
    input_device_id: &Option<String>,
    host_id: &str,
    sample_rate: u32,
) -> (r: Result<Option<String>, String>)
    ensures
        match input_device_id {
            None => r == Ok::<Option<String>, String>(None),
            Some(id) => if id@ == "none"@ || id@.len() == 0 {
                r == Ok::<Option<String>, String>(None)
            } else {
                match cached_device(cache.input_devices@, id@) {
                    None => r matches Err(e) && e@ == "Input device '"@ + id@ + "' not found in cache"@,
                    Some(d) => if d.host_id@ != host_id@ {
                        r matches Err(e) && e@ == "Input device '"@ + id@ + "' is on host '"@ + d.host_id@
                            + "' but output device is on host '"@ + host_id@ + "'. Both must be on the same host."@
                    } else if !d.supported_sample_rates@.contains(sample_rate) {
                        r matches Err(e) && e@ == "Sample rate "@ + decimal(sample_rate as nat)
                            + "Hz not supported by "@ + "input device"@
                    } else {
                        r matches Ok(Some(x)) && x@ == id@
                    },
                }
            },
        },
{
    match input_device_id {
        None => Ok(None),
        Some(id) => {
            if str_eq(id.as_str(), "none") || id.unicode_len() == 0 {
                return Ok(None);
            }
            match cache.find_input_device(id.as_str()) {
                None => Err(crate::text::join3("Input device '", id.as_str(), "' not found in cache")),
                Some(d) => {
                    if !str_eq(d.host_id.as_str(), host_id) {
                        let mut m = crate::text::join5("Input device '", id.as_str(), "' is on host '", d.host_id.as_str(), "' but output device is on host '");
                        m.append(host_id);
                        m.append("'. Both must be on the same host.");
                        return Err(m);
                    }
                    match check_sample_rate(d, sample_rate, "input device") {
                        Ok(()) => Ok(Some(id.clone())),
                        Err(e) => Err(e),
                    }
                },
            }
        },
    }
}

/// The default sample rate of the output device a user picks.
pub fn output_device_default_rate(cache: &AudioDeviceCache, device_id: &str) -> (r: Result<u32, String>)
    ensures
        match cached_device(cache.output_devices@, device_id@) {
            Some(d) => r == Ok::<u32, String>(d.sample_rate),
            None => r matches Err(e) && e@ == "Output device '"@ + device_id@ + "' not found"@,
        },
{
    match cache.find_output_device(device_id) {
        Some(d) => Ok(d.sample_rate),
        None => Err(crate::text::join3("Output device '", device_id, "' not found")),
    }
}

/// The output device a new input device is paired with.
pub fn configured_output(output_device_id: &Option<String>) -> (r: Result<String, String>)
    ensures
        match output_device_id {
            Some(id) => r matches Ok(x) && x@ == id@,
            None => r matches Err(e) && e@ == "No output device configured"@,
        },
{
    match output_device_id {
        Some(id) => Ok(id.clone()),
        None => Err(String::from_str("No output device configured")),
    }
}

} // verus!
