//! Playback bookkeeping that is integer logic: where the end-of-track fade starts, the
//! pause-fade state codes, and the output-device list comparisons the device watcher
//! makes. The sample scaling itself is floating point and happens outside this crate.
use vstd::prelude::*;
use crate::text::{contains_str, contains_text, has_prefix, str_eq};

verus! {

/// Length of the fade-out ramp at the end of a track, in milliseconds.
pub const FADE_OUT_DURATION_MS: u64 = 5;

/// The end-of-track fade of a source: all samples pass through unchanged until the last
/// [`FADE_OUT_DURATION_MS`] milliseconds, which ramp to silence.
pub struct FadeOutEnding<S> {
    inner: S,
    /// Samples yielded so far (one per channel per frame).
    samples_yielded: u64,
    /// Samples per millisecond (`sample_rate * channels / 1000`).
    samples_per_ms: u64,
    /// Index of the first faded sample.
    fade_start_sample: u64,
    /// Number of faded samples.
    fade_length: u64,
}

/// Samples per millisecond of a stream.
pub open spec fn spm(sample_rate: u32, channels: u16) -> nat {
    (sample_rate * channels / 1000) as nat
}

impl<S> FadeOutEnding<S> {
    pub closed spec fn yielded(&self) -> nat {
        self.samples_yielded as nat
    }

    pub closed spec fn per_ms(&self) -> nat {
        self.samples_per_ms as nat
    }

    pub closed spec fn fade_start(&self) -> nat {
        self.fade_start_sample as nat
    }

    pub closed spec fn fade_len(&self) -> nat {
        self.fade_length as nat
    }

    pub closed spec fn source(&self) -> S {
        self.inner
    }

    /// Wrap `inner` (of the given sample rate and channel count) so that the last
    /// [`FADE_OUT_DURATION_MS`] ms of a `duration_ms` track fade to silence. With a zero
    /// duration the wrapper passes everything through.
    pub fn new(inner: S, sample_rate: u32, channels: u16, duration_ms: u64) -> (f: FadeOutEnding<S>)
        requires
            duration_ms * spm(sample_rate, channels) <= u64::MAX,
        ensures
            f.source() == inner,
            f.yielded() == 0,
            f.per_ms() == spm(sample_rate, channels),
            f.fade_len() == (if duration_ms < FADE_OUT_DURATION_MS { duration_ms } else { FADE_OUT_DURATION_MS }) * spm(sample_rate, channels),
            f.fade_start() == (if duration_ms * spm(sample_rate, channels) >= f.fade_len() {
                duration_ms * spm(sample_rate, channels) - f.fade_len()
            } else {
                0
            }),
    {
        assert((sample_rate as u64) * (channels as u64) <= 0xffff_ffff * 0xffff) by (nonlinear_arith)
            requires
                sample_rate <= 0xffff_ffff,
                channels <= 0xffff,
        ;
        let samples_per_ms = (sample_rate as u64) * (channels as u64) / 1000;
        let total_samples = duration_ms * samples_per_ms;
        let fade_ms = if duration_ms < FADE_OUT_DURATION_MS { duration_ms } else { FADE_OUT_DURATION_MS };
        assert(fade_ms * samples_per_ms <= duration_ms * samples_per_ms) by (nonlinear_arith)
            requires
                fade_ms <= duration_ms,
        ;
        let fade_length = fade_ms * samples_per_ms;
        let fade_start_sample = total_samples.saturating_sub(fade_length);
        FadeOutEnding { inner, samples_yielded: 0, samples_per_ms, fade_start_sample, fade_length }
    }

    /// How many samples have been counted so far.
    pub fn samples_yielded(&self) -> (n: u64)
        ensures
            n == self.yielded(),
    {
        self.samples_yielded
    }

    /// Samples per millisecond of the wrapped stream.
    pub fn samples_per_ms(&self) -> (n: u64)
        ensures
            n == self.per_ms(),
    {
        self.samples_per_ms
    }

    /// The wrapped source.
    pub fn inner_mut(&mut self) -> (r: &mut S)
        ensures
            *r == old(self).source(),
            final(self).source() == *final(r),
            final(self).yielded() == old(self).yielded(),
            final(self).per_ms() == old(self).per_ms(),
            final(self).fade_start() == old(self).fade_start(),
            final(self).fade_len() == old(self).fade_len(),
    {
        &mut self.inner
    }

    /// Count one more sample out of the source and say where it falls: `None` while it
    /// passes through unchanged, or `Some((position, length))` inside the fade, whose
    /// gain is `1 - position / length`.
    pub fn next_position(&mut self) -> (r: Option<(u64, u64)>)
        requires
            old(self).yielded() < u64::MAX,
        ensures
            final(self).yielded() == old(self).yielded() + 1,
            final(self).source() == old(self).source(),
            final(self).per_ms() == old(self).per_ms(),
            final(self).fade_start() == old(self).fade_start(),
            final(self).fade_len() == old(self).fade_len(),
            r == (if old(self).fade_len() == 0 || old(self).yielded() < old(self).fade_start() {
                None::<(u64, u64)>
            } else {
                Some(((old(self).yielded() - old(self).fade_start()) as u64, old(self).fade_len() as u64))
            }),
    {
        let idx = self.samples_yielded;
        self.samples_yielded = self.samples_yielded + 1;
        if self.fade_length == 0 || idx < self.fade_start_sample {
            None
        } else {
            Some((idx - self.fade_start_sample, self.fade_length))
        }
    }

    /// After a successful seek of the source to `pos_ms`, resume counting there.
    pub fn seeked_to(&mut self, pos_ms: u64)
        requires
            pos_ms * old(self).per_ms() <= u64::MAX,
        ensures
            final(self).yielded() == pos_ms * old(self).per_ms(),
            final(self).source() == old(self).source(),
            final(self).per_ms() == old(self).per_ms(),
            final(self).fade_start() == old(self).fade_start(),
            final(self).fade_len() == old(self).fade_len(),
    {
        self.samples_yielded = pos_ms * self.samples_per_ms;
    }
}

/// The pause/resume fade state shared between the audio source and the command handler.
#[derive(Debug, Clone, Copy, PartialEq, Eq, Structural)]
pub enum FadeState {
    /// Samples pass through at full amplitude.
    Playing,
    /// Ramping down to silence.
    FadingOut,
    /// Silent, waiting for the sink to pause.
    Silent,
    /// Ramping back up.
    FadingIn,
}

/// The code a state is stored under.
pub open spec fn fade_code(s: FadeState) -> u8 {
    match s {
        FadeState::Playing => 0,
        FadeState::FadingOut => 1,
        FadeState::Silent => 2,
        FadeState::FadingIn => 3,
    }
}

impl FadeState {
    /// The state stored under `v`; an unknown code reads as `Playing`.
    pub fn from_u8(v: u8) -> (s: FadeState)
        ensures
            v <= 3 ==> fade_code(s) == v,
            v > 3 ==> s == FadeState::Playing,
    {
        match v {
            0 => FadeState::Playing,
            1 => FadeState::FadingOut,
            2 => FadeState::Silent,
            3 => FadeState::FadingIn,
            _ => FadeState::Playing,
        }
    }

    /// The code this state is stored under.
    pub fn to_u8(self) -> (v: u8)
        ensures
            v == fade_code(self),
    {
        match self {
            FadeState::Playing => 0,
            FadeState::FadingOut => 1,
            FadeState::Silent => 2,
            FadeState::FadingIn => 3,
        }
    }
}

/// An audio output device as enumerated.
#[derive(Clone, Debug, PartialEq, Eq)]
pub struct AudioDevice {
    pub name: String,
    pub is_default: bool,
    /// Whether the name looks like the machine's own output (see [`is_built_in_device`]).
    pub is_built_in: bool,
}

/// The names of the devices, in order.
pub fn device_names(devices: &[AudioDevice]) -> (names: Vec<&str>)
    ensures
        names@.len() == devices@.len(),
        forall|i: int| 0 <= i < devices@.len() ==> (#[trigger] names@[i])@ == devices@[i].name@,
{
    let mut names: Vec<&str> = Vec::new();
    let mut i: usize = 0;
    while i < devices.len()
        invariant
            i <= devices@.len(),
            names@.len() == i,
            forall|k: int| 0 <= k < i ==> (#[trigger] names@[k])@ == devices@[k].name@,
        decreases devices@.len() - i,
    {
        names.push(devices[i].name.as_str());
        i = i + 1;
    }
    names
}

/// The name of the first device marked default.
pub fn default_name(devices: &[AudioDevice]) -> (name: Option<&str>)
    ensures
        match name {
            Some(n) => exists|i: int| 0 <= i < devices@.len() && devices@[i].is_default
                && n@ == devices@[i].name@
                && forall|j: int| 0 <= j < i ==> !(#[trigger] devices@[j]).is_default,
            None => forall|i: int| 0 <= i < devices@.len() ==> !(#[trigger] devices@[i]).is_default,
        },
{
    let mut i: usize = 0;
    while i < devices.len()
        invariant
            i <= devices@.len(),
            forall|j: int| 0 <= j < i ==> !(#[trigger] devices@[j]).is_default,
        decreases devices@.len() - i,
    {
        if devices[i].is_default {
            return Some(devices[i].name.as_str());
        }
        i = i + 1;
    }
    None
}

/// The desktop system a build targets, as the device-name heuristics see it.
#[derive(Clone, Copy, Debug, PartialEq, Eq)]
pub enum HostOs {
    MacOs,
    Windows,
    Linux,
    Other,
}

/// What `str::to_lowercase` makes of `s` (Unicode lowercase mapping).
pub uninterp spec fn lowercase(s: Seq<char>) -> Seq<char>;

/// `str::to_lowercase`. Trusted: the result is [`lowercase`] of the input.
#[verifier::external_body]
pub(crate) fn to_lowercase(s: &str) -> (r: String)
    ensures
        r@ == lowercase(s@),
{
    s.to_lowercase()
}

/// Whether a lowercased device name looks built in on `os`.
pub open spec fn built_in_name(os: HostOs, n: Seq<char>) -> bool {
    match os {
        HostOs::MacOs => contains_text(n, "built-in"@) || contains_text(n, "macbook"@) || contains_text(n, "internal"@)
            || (contains_text(n, "speakers"@) && !contains_text(n, "bluetooth"@)) || has_prefix(n, "mac"@),
        HostOs::Windows => contains_text(n, "speakers"@) || contains_text(n, "realtek"@) || contains_text(n, "intel"@)
            || contains_text(n, "high definition audio"@) || contains_text(n, "built-in"@)
            || contains_text(n, "internal"@) || contains_text(n, "conexant"@) || contains_text(n, "synaptics"@),
        HostOs::Linux => contains_text(n, "built-in"@) || contains_text(n, "internal"@) || contains_text(n, "hda intel"@)
            || (contains_text(n, "analog stereo"@) && !contains_text(n, "usb"@)) || contains_text(n, "pch"@),
        HostOs::Other => contains_text(n, "built-in"@) || contains_text(n, "internal"@),
    }
}

fn starts_with(s: &str, prefix: &str) -> (r: bool)
    ensures
        r == has_prefix(s@, prefix@),
{
    let n = s.unicode_len();
    let m = prefix.unicode_len();
    if m > n {
        return false;
    }
    let mut i: usize = 0;
    while i < m
        invariant
            m <= n,
            n == s@.len(),
            m == prefix@.len(),
            i <= m,
            forall|k: int| 0 <= k < i ==> s@[k] == prefix@[k],
        decreases m - i,
    {
        if s.get_char(i) != prefix.get_char(i) {
            assert(s@.subrange(0, m as int)[i as int] != prefix@[i as int]);
            return false;
        }
        i = i + 1;
    }
    assert(s@.subrange(0, m as int) =~= prefix@);
    true
}

/// Whether an output device is the machine's own, judged by its name on `os` (see
/// [`built_in_name`]), case-insensitively.
pub fn is_built_in_device(os: HostOs, name: &str) -> (r: bool)
    ensures
        r == built_in_name(os, lowercase(name@)),
{
    let lower = to_lowercase(name);
    let n = lower.as_str();
    match os {
        HostOs::MacOs => contains_str(n, "built-in") || contains_str(n, "macbook") || contains_str(n, "internal")
            || (contains_str(n, "speakers") && !contains_str(n, "bluetooth")) || starts_with(n, "mac"),
        HostOs::Windows => contains_str(n, "speakers") || contains_str(n, "realtek") || contains_str(n, "intel")
            || contains_str(n, "high definition audio") || contains_str(n, "built-in")
            || contains_str(n, "internal") || contains_str(n, "conexant") || contains_str(n, "synaptics"),
        HostOs::Linux => contains_str(n, "built-in") || contains_str(n, "internal") || contains_str(n, "hda intel")
            || (contains_str(n, "analog stereo") && !contains_str(n, "usb")) || contains_str(n, "pch"),
        HostOs::Other => contains_str(n, "built-in") || contains_str(n, "internal"),
    }
}

/// The device list the host reports: each name, whether it is the host's default
/// output, and whether it looks built in.
pub fn describe_devices(os: HostOs, names: Vec<String>, default_device: Option<String>) -> (devices: Vec<AudioDevice>)
    ensures
        devices@.len() == names@.len(),
        forall|i: int| 0 <= i < names@.len() ==> {
            let d = #[trigger] devices@[i];
            &&& d.name@ == names@[i]@
            &&& d.is_default == (default_device matches Some(n) && n@ == names@[i]@)
            &&& d.is_built_in == built_in_name(os, lowercase(names@[i]@))
        },
{
    let mut devices: Vec<AudioDevice> = Vec::new();
    let mut i: usize = 0;
    while i < names.len()
        invariant
            i <= names@.len(),
            devices@.len() == i,
            forall|k: int| 0 <= k < i ==> {
                let d = #[trigger] devices@[k];
                &&& d.name@ == names@[k]@
                &&& d.is_default == (default_device matches Some(n) && n@ == names@[k]@)
                &&& d.is_built_in == built_in_name(os, lowercase(names@[k]@))
            },
        decreases names@.len() - i,
    {
        let name = names[i].clone();
        let is_default = match &default_device {
            Some(d) => str_eq(d.as_str(), name.as_str()),
            None => false,
        };
        let is_built_in = is_built_in_device(os, name.as_str());
        devices.push(AudioDevice { name, is_default, is_built_in });
        i = i + 1;
    }
    devices
}

/// The device names, in order.
pub open spec fn names_of(d: Seq<AudioDevice>) -> Seq<Seq<char>> {
    Seq::new(d.len(), |i: int| d[i].name@)
}

/// The name of the first device marked default, if any.
pub open spec fn first_default(d: Seq<AudioDevice>) -> Option<Seq<char>>
    decreases d.len(),
{
    if d.len() == 0 {
        None
    } else if d[0].is_default {
        Some(d[0].name@)
    } else {
        first_default(d.drop_first())
    }
}

fn first_default_name(d: &[AudioDevice]) -> (r: Option<&str>)
    ensures
        match r {
            Some(n) => first_default(d@) == Some(n@),
            None => first_default(d@) is None,
        },
{
    let n = d.len();
    let mut i: usize = 0;
    assert(d@.subrange(0, n as int) =~= d@);
    while i < n
        invariant
            n == d@.len(),
            i <= n,
            first_default(d@) == first_default(d@.subrange(i as int, n as int)),
        decreases n - i,
    {
        let ghost rest = d@.subrange(i as int, n as int);
        assert(rest[0] == d@[i as int]);
        if d[i].is_default {
            return Some(d[i].name.as_str());
        }
        assert(rest.drop_first() =~= d@.subrange(i + 1, n as int));
        i = i + 1;
    }
    assert(d@.subrange(n as int, n as int).len() == 0);
    None
}

/// What one poll of the output devices found, compared with the list last seen.
#[derive(Clone, Copy, Debug, PartialEq, Eq)]
pub struct DeviceListChange {
    /// The names, in order, differ: the frontend gets the new list.
    pub list_changed: bool,
    /// The system default moved: the new list is sent, and playback that follows the
    /// default moves with it.
    pub default_moved: bool,
}

/// Compare a fresh device list with the one last seen.
pub fn compare_device_lists(known: &[AudioDevice], current: &[AudioDevice]) -> (c: DeviceListChange)
    ensures
        c.list_changed == (names_of(current@) != names_of(known@)),
        c.default_moved == (first_default(current@) != first_default(known@)),
{
    let default_moved = match (first_default_name(current), first_default_name(known)) {
        (Some(a), Some(b)) => !str_eq(a, b),
        (None, None) => false,
        _ => true,
    };
    let mut list_changed = current.len() != known.len();
    if !list_changed {
        let mut i: usize = 0;
        while i < current.len()
            invariant
                current@.len() == known@.len(),
                i <= current@.len(),
                default_moved == (first_default(current@) != first_default(known@)),
                forall|k: int| 0 <= k < i ==> current@[k].name@ == known@[k].name@,
            decreases current@.len() - i,
        {
            if !str_eq(current[i].name.as_str(), known[i].name.as_str()) {
                assert(names_of(current@)[i as int] != names_of(known@)[i as int]);
                return DeviceListChange { list_changed: true, default_moved };
            }
            i = i + 1;
        }
        assert(names_of(current@) =~= names_of(known@));
    } else {
        assert(names_of(current@).len() != names_of(known@).len());
    }
    DeviceListChange { list_changed, default_moved }
}

/// How long after a rebuild a fresh device loss is ignored, so a flapping Bluetooth link
/// cannot drive a rebuild storm.
pub const REBUILD_COOLDOWN_MS: u64 = 1000;

/// Whether a device loss may rebuild the player: no rebuild happened yet, or the last
/// one is at least [`REBUILD_COOLDOWN_MS`] old.
pub fn loss_rebuild_allowed(ms_since_last_rebuild: Option<u64>) -> (r: bool)
    ensures
        r == (ms_since_last_rebuild matches Some(ms) ==> ms >= REBUILD_COOLDOWN_MS),
{
    match ms_since_last_rebuild {
        Some(ms) => ms >= REBUILD_COOLDOWN_MS,
        None => true,
    }
}

/// The stream generation a burst of loss events is about: the newest one.
pub fn newest_epoch(first: u64, later: &[u64]) -> (e: u64)
    ensures
        e >= first,
        forall|i: int| 0 <= i < later@.len() ==> e >= #[trigger] later@[i],
        e == first || exists|i: int| 0 <= i < later@.len() && e == #[trigger] later@[i],
{
    let mut e = first;
    let mut i: usize = 0;
    while i < later.len()
        invariant
            i <= later@.len(),
            e >= first,
            forall|k: int| 0 <= k < i ==> e >= #[trigger] later@[k],
            e == first || exists|k: int| 0 <= k < i && e == #[trigger] later@[k],
        decreases later@.len() - i,
    {
        if later[i] > e {
            e = later[i];
        }
        i = i + 1;
    }
    e
}

/// Whether a device-loss event for stream generation `epoch` concerns the current
/// player: there is one and its stream is that generation. A loss reported by a stream
/// already replaced is ignored, so a healthy stream is never paused for it.
pub fn loss_applies(player_epoch: Option<u64>, epoch: u64) -> (r: bool)
    ensures
        r == (player_epoch == Some(epoch)),
{
    match player_epoch {
        Some(e) => e == epoch,
        None => false,
    }
}

} // verus!
