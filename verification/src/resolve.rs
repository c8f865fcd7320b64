//! Choosing the audio host and devices the synthesizer starts with: the
//! ones the configuration asks for where they exist, the defaults
//! otherwise, with a warning that says what was replaced.

use vstd::prelude::*;
use crate::devices::{HostProbe, ProbedDevice};
use crate::engine::AudioConfigOptions;
use crate::text::{join2, join3, str_eq};

verus! {

/// The operating system the engine runs on; it decides which audio hosts
/// can be named.
#[derive(Clone, Copy, Debug, PartialEq, Eq, Structural)]
pub enum Platform {
    MacOs,
    Windows,
    Linux,
    Other,
}

/// An audio host that can be asked for by name.
#[derive(Clone, Copy, Debug, PartialEq, Eq, Structural)]
pub enum HostKind {
    CoreAudio,
    Wasapi,
    Alsa,
    Jack,
}

/// The host a name stands for on a platform: `CoreAudio` on macOS,
/// `Wasapi`/`WASAPI` on Windows, `Alsa`/`ALSA` and `Jack`/`JACK` on Linux.
pub open spec fn host_kind_of(id: Seq<char>, platform: Platform) -> Option<HostKind> {
    match platform {
        Platform::MacOs => if id == "CoreAudio"@ { Some(HostKind::CoreAudio) } else { None },
        Platform::Windows => if id == "Wasapi"@ || id == "WASAPI"@ { Some(HostKind::Wasapi) } else { None },
        Platform::Linux => if id == "Alsa"@ || id == "ALSA"@ {
            Some(HostKind::Alsa)
        } else if id == "Jack"@ || id == "JACK"@ {
            Some(HostKind::Jack)
        } else {
            None
        },
        Platform::Other => None,
    }
}

/// The id a host reports for itself.
pub open spec fn kind_text(k: HostKind) -> Seq<char> {
    match k {
        HostKind::CoreAudio => "CoreAudio"@,
        HostKind::Wasapi => "Wasapi"@,
        HostKind::Alsa => "Alsa"@,
        HostKind::Jack => "Jack"@,
    }
}

/// Reads a host name given in the configuration.
pub fn parse_host_id(id: &str, platform: Platform) -> (r: Option<HostKind>)
    ensures
        r == host_kind_of(id@, platform),
{
    match platform {
        Platform::MacOs => if str_eq(id, "CoreAudio") { Some(HostKind::CoreAudio) } else { None },
        Platform::Windows => if str_eq(id, "Wasapi") || str_eq(id, "WASAPI") {
            Some(HostKind::Wasapi)
        } else {
            None
        },
        Platform::Linux => if str_eq(id, "Alsa") || str_eq(id, "ALSA") {
            Some(HostKind::Alsa)
        } else if str_eq(id, "Jack") || str_eq(id, "JACK") {
            Some(HostKind::Jack)
        } else {
            None
        },
        Platform::Other => None,
    }
}

/// The id a host of this kind reports for itself.
pub fn host_kind_name(k: HostKind) -> (r: &'static str)
    ensures
        r@ == kind_text(k),
{
    match k {
        HostKind::CoreAudio => "CoreAudio",
        HostKind::Wasapi => "Wasapi",
        HostKind::Alsa => "Alsa",
        HostKind::Jack => "Jack",
    }
}

/// The first available host with this id.
pub open spec fn host_index(hosts: Seq<HostProbe>, id: Seq<char>) -> Option<int>
    decreases hosts.len(),
{
    if hosts.len() == 0 {
        None
    } else {
        match host_index(hosts.drop_last(), id) {
            Some(i) => Some(i),
            None => if hosts.last().host_id@ == id { Some(hosts.len() - 1) } else { None },
        }
    }
}

/// The first device with this id.
pub open spec fn device_index(devices: Seq<ProbedDevice>, id: Seq<char>) -> Option<int>
    decreases devices.len(),
{
    if devices.len() == 0 {
        None
    } else {
        match device_index(devices.drop_last(), id) {
            Some(i) => Some(i),
            None => if devices.last().id@ == id { Some(devices.len() - 1) } else { None },
        }
    }
}

proof fn lemma_host_index_props(hosts: Seq<HostProbe>, id: Seq<char>, k: int)
    requires
        0 <= k <= hosts.len(),
    ensures
        host_index(hosts.take(k), id) is Some ==> host_index(hosts, id) == host_index(hosts.take(k), id),
        host_index(hosts, id) matches Some(i) ==> 0 <= i < hosts.len() && hosts[i].host_id@ == id,
    decreases hosts.len() - k,
{
    if k < hosts.len() {
        lemma_host_index_props(hosts, id, k + 1);
        assert(hosts.take(k + 1).drop_last() =~= hosts.take(k));
    } else {
        assert(hosts.take(k) =~= hosts);
        lemma_host_index_bounds(hosts, id);
    }
}

proof fn lemma_host_index_bounds(hosts: Seq<HostProbe>, id: Seq<char>)
    ensures
        host_index(hosts, id) matches Some(i) ==> 0 <= i < hosts.len() && hosts[i].host_id@ == id,
    decreases hosts.len(),
{
    if hosts.len() > 0 {
        lemma_host_index_bounds(hosts.drop_last(), id);
    }
}

proof fn lemma_device_index_props(devices: Seq<ProbedDevice>, id: Seq<char>, k: int)
    requires
        0 <= k <= devices.len(),
    ensures
        device_index(devices.take(k), id) is Some ==> device_index(devices, id) == device_index(devices.take(k), id),
        device_index(devices, id) matches Some(i) ==> 0 <= i < devices.len() && devices[i].id@ == id,
    decreases devices.len() - k,
{
    if k < devices.len() {
        lemma_device_index_props(devices, id, k + 1);
        assert(devices.take(k + 1).drop_last() =~= devices.take(k));
    } else {
        assert(devices.take(k) =~= devices);
        lemma_device_index_bounds(devices, id);
    }
}

proof fn lemma_device_index_bounds(devices: Seq<ProbedDevice>, id: Seq<char>)
    ensures
        device_index(devices, id) matches Some(i) ==> 0 <= i < devices.len() && devices[i].id@ == id,
    decreases devices.len(),
{
    if devices.len() > 0 {
        lemma_device_index_bounds(devices.drop_last(), id);
    }
}

/// The first available host with id `id`.
pub fn find_host(hosts: &Vec<HostProbe>, id: &str) -> (r: Option<usize>)
    ensures
        match r {
            Some(i) => host_index(hosts@, id@) == Some(i as int) && i < hosts@.len(),
            None => host_index(hosts@, id@) == None::<int>,
        },
{
    let mut i: usize = 0;
    while i < hosts.len()
        invariant
            i <= hosts@.len(),
            host_index(hosts@.take(i as int), id@) == None::<int>,
        decreases hosts@.len() - i,
    {
        assert(hosts@.take(i + 1).drop_last() =~= hosts@.take(i as int));
        if str_eq(hosts[i].host_id.as_str(), id) {
            proof {
                lemma_host_index_props(hosts@, id@, i + 1);
            }
            return Some(i);
        }
        i = i + 1;
    }
    assert(hosts@.take(i as int) =~= hosts@);
    None
}

/// The first device with id `id`.
pub fn find_device(devices: &Vec<ProbedDevice>, id: &str) -> (r: Option<usize>)
    ensures
        match r {
            Some(i) => device_index(devices@, id@) == Some(i as int) && i < devices@.len(),
            None => device_index(devices@, id@) == None::<int>,
        },
{
    let mut i: usize = 0;
    while i < devices.len()
        invariant
            i <= devices@.len(),
            device_index(devices@.take(i as int), id@) == None::<int>,
        decreases devices@.len() - i,
    {
        assert(devices@.take(i + 1).drop_last() =~= devices@.take(i as int));
        if str_eq(devices[i].id.as_str(), id) {
            proof {
                lemma_device_index_props(devices@, id@, i + 1);
            }
            return Some(i);
        }
        i = i + 1;
    }
    assert(devices@.take(i as int) =~= devices@);
    None
}

/// The output device of a host with id `id`, by its place among the host's output devices.
pub fn find_output_device_in_host(host: &HostProbe, id: &str) -> (r: Option<usize>)
    ensures
        match r {
            Some(i) => device_index(host.output_devices@, id@) == Some(i as int) && i < host.output_devices@.len(),
            None => device_index(host.output_devices@, id@) == None::<int>,
        },
{
    find_device(&host.output_devices, id)
}

/// The input device of a host with id `id`, by its place among the host's input devices.
pub fn find_input_device_in_host(host: &HostProbe, id: &str) -> (r: Option<usize>)
    ensures
        match r {
            Some(i) => device_index(host.input_devices@, id@) == Some(i as int) && i < host.input_devices@.len(),
            None => device_index(host.input_devices@, id@) == None::<int>,
        },
{
    find_device(&host.input_devices, id)
}

/// The host the platform prefers among those available: WASAPI on
/// Windows, CoreAudio on macOS, JACK and then ALSA on Linux; otherwise
/// the system default host.
pub open spec fn preferred_host(hosts: Seq<HostProbe>, platform: Platform, default_host: int) -> int {
    match platform {
        Platform::Windows => match host_index(hosts, "Wasapi"@) { Some(i) => i, None => default_host },
        Platform::MacOs => match host_index(hosts, "CoreAudio"@) { Some(i) => i, None => default_host },
        Platform::Linux => match host_index(hosts, "Jack"@) {
            Some(i) => i,
            None => match host_index(hosts, "Alsa"@) { Some(i) => i, None => default_host },
        },
        Platform::Other => default_host,
    }
}

/// Picks the preferred host among the available ones; `default_host` is
/// the place of the system default host.
pub fn get_host_by_preference(hosts: &Vec<HostProbe>, platform: Platform, default_host: usize) -> (r: usize)
    requires
        default_host < hosts@.len(),
    ensures
        r == preferred_host(hosts@, platform, default_host as int),
        r < hosts@.len(),
{
    let pick = match platform {
        Platform::Windows => find_host(hosts, "Wasapi"),
        Platform::MacOs => find_host(hosts, "CoreAudio"),
        Platform::Linux => match find_host(hosts, "Jack") {
            Some(i) => Some(i),
            None => find_host(hosts, "Alsa"),
        },
        Platform::Other => None,
    };
    match pick {
        Some(i) => i,
        None => default_host,
    }
}

/// Where a chosen device comes from.
#[derive(Clone, Copy, Debug, PartialEq, Eq, Structural)]
pub enum DevicePick {
    /// The device at this place among the host's devices.
    Listed(usize),
    /// The host's default device.
    Default,
    /// No device.
    Absent,
}

/// The host and devices the synthesizer starts with.
pub struct ResolvedDevices {
    /// Place of the host among the available hosts.
    pub host: usize,
    pub host_id: String,
    pub output: DevicePick,
    pub output_device_id: String,
    pub input: DevicePick,
    pub input_device_id: Option<String>,
}

pub open spec fn text_or_empty(w: Option<Seq<char>>) -> Seq<char> {
    match w {
        Some(s) => s,
        None => Seq::empty(),
    }
}

pub open spec fn opt_view(o: Option<String>) -> Option<Seq<char>> {
    match o {
        Some(s) => Some(s@),
        None => None,
    }
}

/// The host chosen, its id, and the warning afterwards.
pub open spec fn host_choice(
    config: AudioConfigOptions,
    hosts: Seq<HostProbe>,
    preferred: int,
    platform: Platform,
    w: Option<Seq<char>>,
) -> (int, Seq<char>, Option<Seq<char>>) {
    match config.host_id {
        None => (preferred, hosts[preferred].host_id@, w),
        Some(req) => match host_kind_of(req@, platform) {
            Some(k) => match host_index(hosts, kind_text(k)) {
                Some(i) => (i, req@, w),
                None => (preferred, hosts[preferred].host_id@,
                    Some("Requested host '"@ + req@ + "' not available, using default. "@)),
            },
            None => (preferred, hosts[preferred].host_id@, Some("Unknown host '"@ + req@ + "', using default. "@)),
        },
    }
}

/// The output device chosen on `host`, its id, and the warning afterwards.
pub open spec fn output_choice(config: AudioConfigOptions, host: HostProbe, w: Option<Seq<char>>)
    -> (DevicePick, Seq<char>, Option<Seq<char>>)
{
    let default_id = text_or_empty(opt_view(host.default_output_id));
    match config.output_device_id {
        None => (DevicePick::Default, default_id, w),
        Some(req) => match device_index(host.output_devices@, req@) {
            Some(i) => (DevicePick::Listed(i as usize), host.output_devices@[i].id@, w),
            None => (DevicePick::Default, default_id,
                Some(text_or_empty(w) + "Output device '"@ + req@ + "' not found, using default. "@)),
        },
    }
}

/// The default input device of `host`, if it has one.
pub open spec fn default_input(host: HostProbe) -> (DevicePick, Option<Seq<char>>) {
    if host.has_default_input {
        (DevicePick::Default, opt_view(host.default_input_id))
    } else {
        (DevicePick::Absent, None)
    }
}

/// The input device chosen on `host`, its id, and the warning afterwards.
/// `none` or an empty name asks for no input.
pub open spec fn input_choice(config: AudioConfigOptions, host: HostProbe, w: Option<Seq<char>>)
    -> (DevicePick, Option<Seq<char>>, Option<Seq<char>>)
{
    match config.input_device_id {
        None => (default_input(host).0, default_input(host).1, w),
        Some(req) => if req@ == "none"@ || req@.len() == 0 {
            (DevicePick::Absent, None, w)
        } else {
            match device_index(host.input_devices@, req@) {
                Some(i) => (DevicePick::Listed(i as usize), Some(host.input_devices@[i].id@), w),
                None => (default_input(host).0, default_input(host).1,
                    Some(text_or_empty(w) + "Input device '"@ + req@ + "' not found, using default. "@)),
            }
        },
    }
}

/// The output device falls back to the host's default.
pub open spec fn needs_default_output(config: AudioConfigOptions, host: HostProbe) -> bool {
    match config.output_device_id {
        None => true,
        Some(req) => device_index(host.output_devices@, req@) is None,
    }
}

fn text_or_empty_of(w: &Option<String>) -> (r: String)
    ensures
        r@ == text_or_empty(opt_view(*w)),
{
    match w {
        Some(s) => s.clone(),
        None => String::new(),
    }
}

fn choose_host(
    config: &AudioConfigOptions,
    hosts: &Vec<HostProbe>,
    preferred: usize,
    platform: Platform,
    fallback_warning: &mut Option<String>,
) -> (r: (usize, String))
    requires
        preferred < hosts@.len(),
    ensures
        ({
            let (h, hid, w1) = host_choice(*config, hosts@, preferred as int, platform, opt_view(*old(fallback_warning)));
            &&& r.0 == h
            &&& r.1@ == hid
            &&& opt_view(*final(fallback_warning)) == w1
        }),
        r.0 < hosts@.len(),
{
    match &config.host_id {
        None => (preferred, hosts[preferred].host_id.clone()),
        Some(req) => match parse_host_id(req.as_str(), platform) {
            Some(k) => match find_host(hosts, host_kind_name(k)) {
                Some(i) => (i, req.clone()),
                None => {
                    *fallback_warning = Some(join3("Requested host '", req.as_str(), "' not available, using default. "));
                    (preferred, hosts[preferred].host_id.clone())
                },
            },
            None => {
                *fallback_warning = Some(join3("Unknown host '", req.as_str(), "', using default. "));
                (preferred, hosts[preferred].host_id.clone())
            },
        },
    }
}

fn choose_output(config: &AudioConfigOptions, host: &HostProbe, fallback_warning: &mut Option<String>) -> (r: (
    DevicePick,
    String,
))
    ensures
        ({
            let (o, oid, w2) = output_choice(*config, *host, opt_view(*old(fallback_warning)));
            &&& r.0 == o
            &&& r.1@ == oid
            &&& opt_view(*final(fallback_warning)) == w2
        }),
{
    let default_output_id = text_or_empty_of(&host.default_output_id);
    match &config.output_device_id {
        None => (DevicePick::Default, default_output_id),
        Some(req) => match find_output_device_in_host(host, req.as_str()) {
            Some(i) => (DevicePick::Listed(i), host.output_devices[i].id.clone()),
            None => {
                let before = text_or_empty_of(fallback_warning);
                let msg = join3("Output device '", req.as_str(), "' not found, using default. ");
                *fallback_warning = Some(join2(before.as_str(), msg.as_str()));
                (DevicePick::Default, default_output_id)
            },
        },
    }
}

fn default_input_of(host: &HostProbe) -> (r: (DevicePick, Option<String>))
    ensures
        r.0 == default_input(*host).0,
        opt_view(r.1) == default_input(*host).1,
{
    if host.has_default_input {
        (DevicePick::Default, host.default_input_id.clone())
    } else {
        (DevicePick::Absent, None)
    }
}

fn choose_input(config: &AudioConfigOptions, host: &HostProbe, fallback_warning: &mut Option<String>) -> (r: (
    DevicePick,
    Option<String>,
))
    ensures
        ({
            let (i, iid, w3) = input_choice(*config, *host, opt_view(*old(fallback_warning)));
            &&& r.0 == i
            &&& opt_view(r.1) == iid
            &&& opt_view(*final(fallback_warning)) == w3
        }),
{
    match &config.input_device_id {
        None => default_input_of(host),
        Some(req) => if str_eq(req.as_str(), "none") || req.unicode_len() == 0 {
            (DevicePick::Absent, None)
        } else {
            match find_input_device_in_host(host, req.as_str()) {
                Some(i) => (DevicePick::Listed(i), Some(host.input_devices[i].id.clone())),
                None => {
                    let before = text_or_empty_of(fallback_warning);
                    let msg = join3("Input device '", req.as_str(), "' not found, using default. ");
                    *fallback_warning = Some(join2(before.as_str(), msg.as_str()));
                    default_input_of(host)
                },
            }
        },
    }
}

/// Chooses the host and devices from the configuration. `hosts` are the
/// available hosts as probed, `preferred` the place of the host the
/// platform prefers. Where a requested host or device cannot be had the
/// preferred host or the default device is taken, and `fallback_warning`
/// says so: a host warning replaces what it held, device warnings are
/// appended.
pub fn resolve_devices(
    config: &AudioConfigOptions,
    hosts: &Vec<HostProbe>,
    preferred: usize,
    platform: Platform,
    fallback_warning: &mut Option<String>,
) -> (r: ResolvedDevices)
    requires
        preferred < hosts@.len(),
        ({
            let (h, _, _) = host_choice(*config, hosts@, preferred as int, platform, opt_view(*old(fallback_warning)));
            needs_default_output(*config, hosts@[h]) ==> hosts@[h].has_default_output
        }),
    ensures
        ({
            let (h, hid, w1) = host_choice(*config, hosts@, preferred as int, platform, opt_view(*old(fallback_warning)));
            let (o, oid, w2) = output_choice(*config, hosts@[h], w1);
            let (i, iid, w3) = input_choice(*config, hosts@[h], w2);
            &&& r.host == h
            &&& r.host_id@ == hid
            &&& r.output == o
            &&& r.output_device_id@ == oid
            &&& r.input == i
            &&& opt_view(r.input_device_id) == iid
            &&& opt_view(*final(fallback_warning)) == w3
        }),
        r.host < hosts@.len(),
{
    let (h, host_id) = choose_host(config, hosts, preferred, platform, fallback_warning);
    let host = &hosts[h];
    let (output, output_device_id) = choose_output(config, host, fallback_warning);
    let (input, input_device_id) = choose_input(config, host, fallback_warning);
    ResolvedDevices { host: h, host_id, output, output_device_id, input, input_device_id }
}

} // verus!
