//! The sync status surfaced to the UI, and the decisions that move it: how a failure is
//! categorized and which phase it shows, what a successful sync or a sign-out leaves
//! behind, and the small bookkeeping around override notices, merged buckets and the
//! device list.
use vstd::prelude::*;
use crate::error::{spec_is_transient, SyncError};
use crate::assoc::{has_key, insert_sorted, keys_sorted};
use crate::manifest::{names_of, strictly_sorted};
use crate::merge::OverrideEvent;
use crate::text::{contains_str, contains_text, push_str, str_eq, to_owned_string};
use crate::types::DeviceRecord;

verus! {

/// Coarse sync state shown in the status indicator.
#[derive(Clone, Copy, Debug, PartialEq, Eq, Structural)]
pub enum SyncPhase {
    /// No config / backend on this build: sync unavailable.
    Disabled,
    /// Configured but not signed in.
    SignedOut,
    /// Signed in, nothing in flight.
    Idle,
    /// A push is running.
    Syncing,
    /// A transient connectivity failure: paused, retried automatically.
    Offline,
    /// The last operation failed (see `last_error`).
    Error,
}

/// The phase a failed operation surfaces: a transient failure is `Offline`, anything
/// else a hard `Error`.
pub open spec fn phase_for_error_spec(e: SyncError) -> SyncPhase {
    if spec_is_transient(e) { SyncPhase::Offline } else { SyncPhase::Error }
}

/// Which phase a failed sync operation should surface.
pub fn phase_for_error(e: &SyncError) -> (p: SyncPhase)
    ensures
        p == phase_for_error_spec(*e),
{
    if e.is_transient() {
        SyncPhase::Offline
    } else {
        SyncPhase::Error
    }
}

/// A coarse category of the last failure, for an actionable message.
#[derive(Clone, Copy, Debug, PartialEq, Eq, Structural)]
pub enum SyncErrorKind {
    /// Transport-level connectivity failure.
    Network,
    /// The session is invalid: sign in again.
    Auth,
    /// The backend refused the request (security rules / App Check).
    Permission,
    /// Rate-limited or out of quota.
    Quota,
    /// An upload was rejected as too large.
    TooLarge,
    /// Manifest compare-and-swap retries ran out.
    Conflict,
    /// The backend returned a server error.
    Server,
    /// A pulled bucket failed to apply locally.
    Merge,
    Unknown,
}

/// The lowercase name a kind is reported under.
pub open spec fn kind_name(k: SyncErrorKind) -> Seq<char> {
    match k {
        SyncErrorKind::Network => "network"@,
        SyncErrorKind::Auth => "auth"@,
        SyncErrorKind::Permission => "permission"@,
        SyncErrorKind::Quota => "quota"@,
        SyncErrorKind::TooLarge => "toolarge"@,
        SyncErrorKind::Conflict => "conflict"@,
        SyncErrorKind::Server => "server"@,
        SyncErrorKind::Merge => "merge"@,
        SyncErrorKind::Unknown => "unknown"@,
    }
}

impl SyncErrorKind {
    /// The lowercase name of this kind.
    pub fn as_str(self) -> (s: &'static str)
        ensures
            s@ == kind_name(self),
    {
        match self {
            SyncErrorKind::Network => "network",
            SyncErrorKind::Auth => "auth",
            SyncErrorKind::Permission => "permission",
            SyncErrorKind::Quota => "quota",
            SyncErrorKind::TooLarge => "toolarge",
            SyncErrorKind::Conflict => "conflict",
            SyncErrorKind::Server => "server",
            SyncErrorKind::Merge => "merge",
            SyncErrorKind::Unknown => "unknown",
        }
    }
}

/// How a failure is categorized. HTTP statuses map by code; an otherwise
/// uncategorized HTTP failure whose error code mentions `QUOTA` is a quota failure.
pub open spec fn classify_spec(e: SyncError) -> SyncErrorKind {
    match e {
        SyncError::CloudSyncNetwork(_) => SyncErrorKind::Network,
        SyncError::CloudSyncAuth(_) => SyncErrorKind::Auth,
        SyncError::CloudSyncHttp { status, code, .. } => {
            if status == 401 {
                SyncErrorKind::Auth
            } else if status == 403 {
                SyncErrorKind::Permission
            } else if status == 413 {
                SyncErrorKind::TooLarge
            } else if status == 429 {
                SyncErrorKind::Quota
            } else if status >= 500 {
                SyncErrorKind::Server
            } else if contains_text(code@, "QUOTA"@) {
                SyncErrorKind::Quota
            } else {
                SyncErrorKind::Unknown
            }
        },
        SyncError::CloudSyncConflict => SyncErrorKind::Conflict,
        SyncError::CloudSyncMerge(_) => SyncErrorKind::Merge,
        SyncError::Database(_) => SyncErrorKind::Merge,
        _ => SyncErrorKind::Unknown,
    }
}

/// The category of a failure.
pub fn classify_error(e: &SyncError) -> (k: SyncErrorKind)
    ensures
        k == classify_spec(*e),
{
    match e {
        SyncError::CloudSyncNetwork(_) => SyncErrorKind::Network,
        SyncError::CloudSyncAuth(_) => SyncErrorKind::Auth,
        SyncError::CloudSyncHttp { status, code, .. } => {
            if *status == 401 {
                SyncErrorKind::Auth
            } else if *status == 403 {
                SyncErrorKind::Permission
            } else if *status == 413 {
                SyncErrorKind::TooLarge
            } else if *status == 429 {
                SyncErrorKind::Quota
            } else if *status >= 500 {
                SyncErrorKind::Server
            } else if contains_str(code.as_str(), "QUOTA") {
                SyncErrorKind::Quota
            } else {
                SyncErrorKind::Unknown
            }
        },
        SyncError::CloudSyncConflict => SyncErrorKind::Conflict,
        SyncError::CloudSyncMerge(_) => SyncErrorKind::Merge,
        SyncError::Database(_) => SyncErrorKind::Merge,
        _ => SyncErrorKind::Unknown,
    }
}

/// Whether an operation failed because the backend rejected the access token outright
/// (HTTP 401): worth one silent session refresh and retry.
pub fn is_unauthorized(r: &Result<(), SyncError>) -> (b: bool)
    ensures
        b == (r matches Err(SyncError::CloudSyncHttp { status, .. }) && status == 401),
{
    match r {
        Err(SyncError::CloudSyncHttp { status, .. }) => *status == 401,
        _ => false,
    }
}

/// The auth error codes meaning the user's credential is gone or unusable.
pub open spec fn gone_code(msg: Seq<char>) -> bool {
    ||| contains_text(msg, "USER_NOT_FOUND"@)
    ||| contains_text(msg, "INVALID_ID_TOKEN"@)
    ||| contains_text(msg, "EMAIL_NOT_FOUND"@)
    ||| contains_text(msg, "INVALID_REFRESH_TOKEN"@)
    ||| contains_text(msg, "TOKEN_EXPIRED"@)
    ||| contains_text(msg, "USER_DISABLED"@)
}

/// An auth failure meaning the account is already gone, so deleting it is a no-op on
/// the server. A stale-credential or permission failure is not one of these.
pub fn is_already_deleted_auth_error(e: &SyncError) -> (b: bool)
    ensures
        b == (match *e {
            SyncError::CloudSyncAuth(msg) => gone_code(msg@),
            _ => false,
        }),
{
    match e {
        SyncError::CloudSyncAuth(msg) => {
            let m = msg.as_str();
            contains_str(m, "USER_NOT_FOUND") || contains_str(m, "INVALID_ID_TOKEN")
                || contains_str(m, "EMAIL_NOT_FOUND") || contains_str(m, "INVALID_REFRESH_TOKEN")
                || contains_str(m, "TOKEN_EXPIRED") || contains_str(m, "USER_DISABLED")
        },
        _ => false,
    }
}

/// First-sign-in onboarding hint, returned only from a sign-in.
#[derive(Clone, Copy, Debug, PartialEq, Eq, Structural)]
pub enum OnboardingKind {
    /// No vault yet: this is the first device.
    Initial,
    /// A vault exists: this is a fresh device to restore.
    Restore,
}

/// The onboarding hint for a sign-in, from whether the account's vault check found a
/// manifest (`None` when the check failed).
pub fn onboarding_for(vault_exists: Option<bool>) -> (k: Option<OnboardingKind>)
    ensures
        k == match vault_exists {
            Some(true) => Some(OnboardingKind::Restore),
            Some(false) => Some(OnboardingKind::Initial),
            None => None::<OnboardingKind>,
        },
{
    match vault_exists {
        Some(true) => Some(OnboardingKind::Restore),
        Some(false) => Some(OnboardingKind::Initial),
        None => None,
    }
}

/// A snapshot of sync status for the frontend.
#[derive(Clone, Debug)]
pub struct SyncStatus {
    pub phase: SyncPhase,
    pub email: Option<String>,
    pub display_name: Option<String>,
    pub photo_url: Option<String>,
    pub device_id: String,
    pub device_name: String,
    pub last_error: Option<String>,
    /// Category of `last_error`, when the last operation failed.
    pub last_error_kind: Option<SyncErrorKind>,
    /// RFC 3339 time of the last successful sync, if any.
    pub last_synced_at: Option<String>,
    /// Onboarding hint: set only on a sign-in response.
    pub onboarding: Option<OnboardingKind>,
}

/// A user's profile fields as the status shows them.
pub struct Profile {
    pub email: Option<String>,
    pub display_name: Option<String>,
    pub photo_url: Option<String>,
}

impl SyncStatus {
    /// The status a fresh runtime starts in: signed out when a backend is configured,
    /// disabled otherwise.
    pub fn initial(backend_configured: bool, device_id: String, device_name: String) -> (s: SyncStatus)
        ensures
            s.phase == (if backend_configured { SyncPhase::SignedOut } else { SyncPhase::Disabled }),
            s.email is None && s.display_name is None && s.photo_url is None,
            s.device_id == device_id && s.device_name == device_name,
            s.last_error is None && s.last_error_kind is None,
            s.last_synced_at is None && s.onboarding is None,
    {
        SyncStatus {
            phase: if backend_configured { SyncPhase::SignedOut } else { SyncPhase::Disabled },
            email: None,
            display_name: None,
            photo_url: None,
            device_id,
            device_name,
            last_error: None,
            last_error_kind: None,
            last_synced_at: None,
            onboarding: None,
        }
    }

    /// Show the signed-in user's profile.
    pub fn set_profile(&mut self, p: Profile)
        ensures
            final(self).email == p.email && final(self).display_name == p.display_name
                && final(self).photo_url == p.photo_url,
            final(self).phase == old(self).phase,
            final(self).device_id == old(self).device_id && final(self).device_name == old(self).device_name,
            final(self).last_error == old(self).last_error && final(self).last_error_kind == old(self).last_error_kind,
            final(self).last_synced_at == old(self).last_synced_at && final(self).onboarding == old(self).onboarding,
    {
        self.email = p.email;
        self.display_name = p.display_name;
        self.photo_url = p.photo_url;
    }

    /// A session was restored at startup: idle, showing its profile.
    pub fn session_restored(&mut self, p: Profile)
        ensures
            final(self).phase == SyncPhase::Idle,
            final(self).email == p.email && final(self).display_name == p.display_name
                && final(self).photo_url == p.photo_url,
            final(self).device_id == old(self).device_id && final(self).device_name == old(self).device_name,
            final(self).last_error == old(self).last_error && final(self).last_error_kind == old(self).last_error_kind,
            final(self).last_synced_at == old(self).last_synced_at && final(self).onboarding == old(self).onboarding,
    {
        self.phase = SyncPhase::Idle;
        self.set_profile(p);
    }

    /// A sign-in completed: idle, showing its profile, with any earlier failure cleared.
    pub fn signed_in(&mut self, p: Profile)
        ensures
            final(self).phase == SyncPhase::Idle,
            final(self).email == p.email && final(self).display_name == p.display_name
                && final(self).photo_url == p.photo_url,
            final(self).last_error is None && final(self).last_error_kind is None,
            final(self).device_id == old(self).device_id && final(self).device_name == old(self).device_name,
            final(self).last_synced_at == old(self).last_synced_at && final(self).onboarding == old(self).onboarding,
    {
        self.phase = SyncPhase::Idle;
        self.set_profile(p);
        self.last_error = None;
        self.last_error_kind = None;
    }

    /// Set the phase, and the error text when one is given (an absent one keeps the
    /// previous text).
    pub fn set_phase(&mut self, phase: SyncPhase, error: Option<String>)
        ensures
            final(self).phase == phase,
            final(self).last_error == (if error is Some { error } else { old(self).last_error }),
            final(self).email == old(self).email && final(self).display_name == old(self).display_name
                && final(self).photo_url == old(self).photo_url,
            final(self).device_id == old(self).device_id && final(self).device_name == old(self).device_name,
            final(self).last_error_kind == old(self).last_error_kind,
            final(self).last_synced_at == old(self).last_synced_at && final(self).onboarding == old(self).onboarding,
    {
        self.phase = phase;
        if error.is_some() {
            self.last_error = error;
        }
    }

    /// Record a failed operation: `Offline` for a transient failure, else `Error`, with
    /// the error's text and category.
    pub fn record_error(&mut self, e: &SyncError, text: String)
        ensures
            final(self).phase == phase_for_error_spec(*e),
            final(self).last_error == Some(text),
            final(self).last_error_kind == Some(classify_spec(*e)),
            final(self).email == old(self).email && final(self).display_name == old(self).display_name
                && final(self).photo_url == old(self).photo_url,
            final(self).device_id == old(self).device_id && final(self).device_name == old(self).device_name,
            final(self).last_synced_at == old(self).last_synced_at && final(self).onboarding == old(self).onboarding,
    {
        self.phase = phase_for_error(e);
        self.last_error = Some(text);
        self.last_error_kind = Some(classify_error(e));
    }

    /// A sync succeeded at `now` (RFC 3339): idle, no error.
    pub fn mark_synced(&mut self, now: String)
        ensures
            final(self).phase == SyncPhase::Idle,
            final(self).last_error is None && final(self).last_error_kind is None,
            final(self).last_synced_at == Some(now),
            final(self).email == old(self).email && final(self).display_name == old(self).display_name
                && final(self).photo_url == old(self).photo_url,
            final(self).device_id == old(self).device_id && final(self).device_name == old(self).device_name,
            final(self).onboarding == old(self).onboarding,
    {
        self.phase = SyncPhase::Idle;
        self.last_error = None;
        self.last_error_kind = None;
        self.last_synced_at = Some(now);
    }

    /// Connectivity returned: `Offline` becomes `Idle` with the error cleared. Any
    /// other phase, `Error` included, is left alone.
    pub fn clear_offline(&mut self)
        ensures
            old(self).phase == SyncPhase::Offline ==> final(self).phase == SyncPhase::Idle
                && final(self).last_error is None && final(self).last_error_kind is None,
            old(self).phase != SyncPhase::Offline ==> final(self).phase == old(self).phase
                && final(self).last_error == old(self).last_error
                && final(self).last_error_kind == old(self).last_error_kind,
            final(self).email == old(self).email && final(self).display_name == old(self).display_name
                && final(self).photo_url == old(self).photo_url,
            final(self).device_id == old(self).device_id && final(self).device_name == old(self).device_name,
            final(self).last_synced_at == old(self).last_synced_at && final(self).onboarding == old(self).onboarding,
    {
        if self.phase == SyncPhase::Offline {
            self.phase = SyncPhase::Idle;
            self.last_error = None;
            self.last_error_kind = None;
        }
    }

    /// Signed out: `SignedOut` (or `Disabled` without a backend), profile and error
    /// cleared.
    pub fn signed_out(&mut self, backend_configured: bool)
        ensures
            final(self).phase == (if backend_configured { SyncPhase::SignedOut } else { SyncPhase::Disabled }),
            final(self).email is None && final(self).display_name is None && final(self).photo_url is None,
            final(self).last_error is None && final(self).last_error_kind is None,
            final(self).device_id == old(self).device_id && final(self).device_name == old(self).device_name,
            final(self).last_synced_at == old(self).last_synced_at && final(self).onboarding == old(self).onboarding,
    {
        self.phase = if backend_configured { SyncPhase::SignedOut } else { SyncPhase::Disabled };
        self.email = None;
        self.display_name = None;
        self.photo_url = None;
        self.last_error = None;
        self.last_error_kind = None;
    }
}

/// An override notification: this device's value for `label` was replaced by the value
/// from device `device`.
#[derive(Debug)]
pub struct OverrideNotice {
    pub label: String,
    pub device: String,
}

impl OverrideNotice {
    /// A copy of this notice.
    pub fn duplicate(&self) -> (r: OverrideNotice)
        ensures
            r == *self,
    {
        OverrideNotice { label: self.label.clone(), device: self.device.clone() }
    }
}

/// How many override notices are remembered.
pub const OVERRIDE_BUFFER_CAP: usize = 20;

/// The last [`OVERRIDE_BUFFER_CAP`] notices of `all`.
pub open spec fn keep_recent(all: Seq<OverrideNotice>) -> Seq<OverrideNotice> {
    if all.len() > OVERRIDE_BUFFER_CAP {
        all.subrange(all.len() - OVERRIDE_BUFFER_CAP, all.len() as int)
    } else {
        all
    }
}

/// Append `notices` to the in-memory buffer, oldest first, keeping only the newest
/// [`OVERRIDE_BUFFER_CAP`].
pub fn remember_overrides(buf: &mut Vec<OverrideNotice>, notices: &Vec<OverrideNotice>)
    requires
        old(buf)@.len() <= OVERRIDE_BUFFER_CAP,
    ensures
        final(buf)@ == keep_recent(old(buf)@ + notices@),
{
    let ghost all = old(buf)@ + notices@;
    let mut i: usize = 0;
    while i < notices.len()
        invariant
            i <= notices@.len(),
            all == old(buf)@ + notices@,
            old(buf)@.len() <= OVERRIDE_BUFFER_CAP,
            buf@ == keep_recent(all.subrange(0, old(buf)@.len() + i)),
            buf@.len() <= OVERRIDE_BUFFER_CAP,
        decreases notices@.len() - i,
    {
        let ghost pre = all.subrange(0, old(buf)@.len() + i);
        let ghost cur = all.subrange(0, old(buf)@.len() + i + 1);
        assert(cur =~= pre.push(notices@[i as int]));
        buf.push(notices[i].duplicate());
        if buf.len() > OVERRIDE_BUFFER_CAP {
            buf.remove(0);
        }
        assert(buf@ =~= keep_recent(cur));
        i = i + 1;
    }
    assert(all.subrange(0, all.len() as int) =~= all);
}

/// What the frontend needs to drive a native mobile sign-in: the consent URL and the
/// callback scheme the native auth session intercepts.
#[derive(Clone, Debug)]
pub struct BeginSignIn {
    pub auth_url: String,
    pub callback_scheme: String,
}

/// The index of the last device record with id `id`.
pub open spec fn last_device(devs: Seq<DeviceRecord>, id: Seq<char>) -> Option<int>
    decreases devs.len(),
{
    if devs.len() == 0 {
        None
    } else if devs.last().device_id@ == id {
        Some(devs.len() - 1)
    } else {
        last_device(devs.drop_last(), id)
    }
}

/// The name an override's winner is shown under: its device's name, or its raw id when
/// the device is not listed.
pub open spec fn winner_name(devs: Seq<DeviceRecord>, id: Seq<char>) -> Seq<char> {
    match last_device(devs, id) {
        Some(j) => devs[j].name@,
        None => id,
    }
}

/// Turn override events into notices, resolving each winner's device id to a name.
pub fn resolve_overrides(overrides: &Vec<OverrideEvent>, devices: &Vec<DeviceRecord>) -> (notices: Vec<OverrideNotice>)
    ensures
        notices@.len() == overrides@.len(),
        forall|i: int| 0 <= i < overrides@.len() ==> (#[trigger] notices@[i]).label@ == overrides@[i].label@
            && notices@[i].device@ == winner_name(devices@, overrides@[i].winner_device_id@),
{
    let mut notices: Vec<OverrideNotice> = Vec::new();
    let mut i: usize = 0;
    while i < overrides.len()
        invariant
            i <= overrides@.len(),
            notices@.len() == i,
            forall|k: int| 0 <= k < i ==> (#[trigger] notices@[k]).label@ == overrides@[k].label@
                && notices@[k].device@ == winner_name(devices@, overrides@[k].winner_device_id@),
        decreases overrides@.len() - i,
    {
        let ev = &overrides[i];
        let mut j: usize = devices.len();
        let mut found: Option<usize> = None;
        assert(devices@.subrange(0, j as int) =~= devices@);
        while j > 0 && found.is_none()
            invariant
                j <= devices@.len(),
                found is None ==> last_device(devices@, ev.winner_device_id@)
                    == last_device(devices@.subrange(0, j as int), ev.winner_device_id@),
                found matches Some(k) ==> k < devices@.len()
                    && last_device(devices@, ev.winner_device_id@) == Some(k as int),
            decreases j + (if found is None { 1int } else { 0int }),
        {
            let ghost pre = devices@.subrange(0, j as int);
            assert(pre.drop_last() =~= devices@.subrange(0, j - 1));
            assert(pre.last() == devices@[j - 1]);
            if str_eq(devices[j - 1].device_id.as_str(), ev.winner_device_id.as_str()) {
                found = Some(j - 1);
            } else {
                j = j - 1;
            }
        }
        proof {
            if found is None {
                assert(devices@.subrange(0, j as int) =~= Seq::<DeviceRecord>::empty());
            }
        }
        let device = match found {
            Some(k) => devices[k].name.clone(),
            None => ev.winner_device_id.clone(),
        };
        notices.push(OverrideNotice { label: ev.label.clone(), device });
        i = i + 1;
    }
    notices
}

/// The plain names of the merged buckets, sorted and without repeats (what the UI is
/// told to reload).
pub fn merged_bucket_names(buckets: &Vec<String>) -> (names: Vec<String>)
    ensures
        strictly_sorted(names_of(names@)),
        forall|n: Seq<char>| #[trigger] names_of(names@).contains(n) == names_of(buckets@).contains(n),
{
    let mut set: Vec<(String, ())> = Vec::new();
    let mut i: usize = 0;
    while i < buckets.len()
        invariant
            i <= buckets@.len(),
            keys_sorted(set@),
            forall|n: Seq<char>| #[trigger] has_key(set@, n) == names_of(buckets@.subrange(0, i as int)).contains(n),
        decreases buckets@.len() - i,
    {
        let ghost pre = names_of(buckets@.subrange(0, i as int));
        let ghost cur = names_of(buckets@.subrange(0, i + 1));
        assert(cur =~= pre.push(buckets@[i as int]@));
        insert_sorted(&mut set, buckets[i].clone(), ());
        proof {
            assert forall|n: Seq<char>| #[trigger] has_key(set@, n) == cur.contains(n) by {
                if cur.contains(n) && n != buckets@[i as int]@ {
                    let k = choose|k: int| 0 <= k < cur.len() && cur[k] == n;
                    assert(pre[k] == n);
                }
                if pre.contains(n) {
                    let k = choose|k: int| 0 <= k < pre.len() && pre[k] == n;
                    assert(cur[k] == n);
                }
                if n == buckets@[i as int]@ {
                    assert(cur[i as int] == n);
                }
            }
        }
        i = i + 1;
    }
    assert(buckets@.subrange(0, buckets@.len() as int) =~= buckets@);
    let mut names: Vec<String> = Vec::new();
    let mut k: usize = 0;
    while k < set.len()
        invariant
            k <= set@.len(),
            names_of(names@) =~= set@.subrange(0, k as int).map_values(|e: (String, ())| e.0@),
        decreases set@.len() - k,
    {
        let ghost before = names@;
        names.push(set[k].0.clone());
        assert(set@.subrange(0, k + 1) =~= set@.subrange(0, k as int).push(set@[k as int]));
        assert(names_of(names@) =~= names_of(before).push(set@[k as int].0@));
        k = k + 1;
    }
    proof {
        let ks = set@.map_values(|e: (String, ())| e.0@);
        assert(set@.subrange(0, set@.len() as int) =~= set@);
        assert(names_of(names@) =~= ks);
        assert forall|n: Seq<char>| #[trigger] names_of(names@).contains(n) == has_key(set@, n) by {
            if has_key(set@, n) {
                let j = choose|j: int| 0 <= j < set@.len() && (#[trigger] set@[j]).0@ == n;
                assert(ks[j] == n);
            }
        }
    }
    names
}

/// Records kept after dropping revoked devices.
pub open spec fn unrevoked(devs: Seq<DeviceRecord>) -> Seq<DeviceRecord>
    decreases devs.len(),
{
    if devs.len() == 0 {
        Seq::empty()
    } else {
        let r = unrevoked(devs.drop_last());
        if devs.last().revoked { r } else { r.push(devs.last()) }
    }
}

/// The index of the first record with id `id`.
pub open spec fn first_device(devs: Seq<DeviceRecord>, id: Seq<char>) -> Option<int>
    decreases devs.len(),
{
    if devs.len() == 0 {
        None
    } else {
        match first_device(devs.drop_last(), id) {
            Some(i) => Some(i),
            None => if devs.last().device_id@ == id { Some(devs.len() - 1) } else { None },
        }
    }
}

proof fn lemma_first_device_range(devs: Seq<DeviceRecord>, id: Seq<char>)
    ensures
        match first_device(devs, id) {
            Some(f) => 0 <= f < devs.len(),
            None => true,
        },
    decreases devs.len(),
{
    if devs.len() > 0 {
        lemma_first_device_range(devs.drop_last(), id);
    }
}

/// The device list shown to the user: revoked devices are hidden, and the local
/// device's name is the authoritative local one (the backend's copy may lag).
pub fn visible_devices(devices: Vec<DeviceRecord>, local_id: &str, local_name: &str) -> (out: Vec<DeviceRecord>)
    ensures
        out@.len() == unrevoked(devices@).len(),
        forall|i: int| 0 <= i < out@.len() ==> {
            let d = #[trigger] out@[i];
            let e = unrevoked(devices@)[i];
            &&& d.device_id == e.device_id
            &&& d.last_seen == e.last_seen
            &&& d.app_version == e.app_version
            &&& d.revoked == e.revoked
            &&& d.name@ == (if first_device(unrevoked(devices@), local_id@) == Some(i) { local_name@ } else { e.name@ })
        },
{
    let ghost all = devices@;
    let mut rest = devices;
    let mut out: Vec<DeviceRecord> = Vec::new();
    let mut renamed = false;
    let ghost mut taken: int = 0;
    while rest.len() > 0
        invariant
            0 <= taken <= all.len(),
            rest@ == all.subrange(taken, all.len() as int),
            out@.len() == unrevoked(all.subrange(0, taken)).len(),
            renamed == (first_device(unrevoked(all.subrange(0, taken)), local_id@) is Some),
            forall|i: int| 0 <= i < out@.len() ==> {
                let d = #[trigger] out@[i];
                let e = unrevoked(all.subrange(0, taken))[i];
                &&& d.device_id == e.device_id
                &&& d.last_seen == e.last_seen
                &&& d.app_version == e.app_version
                &&& d.revoked == e.revoked
                &&& d.name@ == (if first_device(unrevoked(all.subrange(0, taken)), local_id@) == Some(i) { local_name@ } else { e.name@ })
            },
        decreases rest@.len(),
    {
        let ghost pre = all.subrange(0, taken);
        let ghost cur = all.subrange(0, taken + 1);
        assert(cur.drop_last() =~= pre);
        assert(cur.last() == all[taken]);
        let mut d = rest.remove(0);
        assert(d == all[taken]);
        proof {
            taken = taken + 1;
        }
        if !d.revoked {
            let ghost up = unrevoked(pre).push(all[taken - 1]);
            assert(unrevoked(cur) == up);
            assert(up.drop_last() =~= unrevoked(pre));
            assert(up.last() == all[taken - 1]);
            assert(all.subrange(0, taken - 1) == pre);
            let ghost n = unrevoked(pre).len() as int;
            assert(first_device(up, local_id@) == (match first_device(unrevoked(pre), local_id@) {
                Some(f) => Some(f),
                None => if all[taken - 1].device_id@ == local_id@ { Some(n) } else { None },
            }));
            let ghost old_out = out@;
            let ghost was_renamed = renamed;
            assert(was_renamed == first_device(unrevoked(pre), local_id@) is Some);
            if !renamed && str_eq(d.device_id.as_str(), local_id) {
                d.name = to_owned_string(local_name);
                renamed = true;
            }
            out.push(d);
            proof {
                assert(all.subrange(0, taken) == cur);
                assert forall|i: int| 0 <= i < out@.len() implies {
                    let d = #[trigger] out@[i];
                    let e = unrevoked(cur)[i];
                    &&& d.device_id == e.device_id
                    &&& d.last_seen == e.last_seen
                    &&& d.app_version == e.app_version
                    &&& d.revoked == e.revoked
                    &&& d.name@ == (if first_device(unrevoked(cur), local_id@) == Some(i) { local_name@ } else { e.name@ })
                } by {
                    if i < old_out.len() {
                        assert(out@[i] == old_out[i]);
                        assert(up[i] == unrevoked(pre)[i]);
                        assert(first_device(up, local_id@) == Some(i) <==> first_device(unrevoked(pre), local_id@) == Some(i));
                        assert(out@[i].device_id == up[i].device_id);
                        assert(out@[i].name@ == (if first_device(up, local_id@) == Some(i) { local_name@ } else { up[i].name@ }));
                    } else {
                        assert(i == n);
                        assert(up[i] == all[taken - 1]);
                        if was_renamed {
                            let f = first_device(unrevoked(pre), local_id@).unwrap();
                            lemma_first_device_range(unrevoked(pre), local_id@);
                            assert(f < n);
                        }
                        assert(out@[i].device_id == up[i].device_id);
                        assert(out@[i].name@ == (if first_device(up, local_id@) == Some(i) { local_name@ } else { up[i].name@ }));
                    }
                }
            }
        } else {
            assert(unrevoked(cur) == unrevoked(pre));
            assert(all.subrange(0, taken) == cur);
        }
    }
    assert(all.subrange(0, all.len() as int) =~= all);
    out
}

/// The name a phase is printed under (its variant name).
pub open spec fn phase_name_spec(p: SyncPhase) -> Seq<char> {
    match p {
        SyncPhase::Disabled => "Disabled"@,
        SyncPhase::SignedOut => "SignedOut"@,
        SyncPhase::Idle => "Idle"@,
        SyncPhase::Syncing => "Syncing"@,
        SyncPhase::Offline => "Offline"@,
        SyncPhase::Error => "Error"@,
    }
}

/// The name a phase is printed under in logs and diagnostics.
pub fn phase_name(p: SyncPhase) -> (s: &'static str)
    ensures
        s@ == phase_name_spec(p),
{
    match p {
        SyncPhase::Disabled => "Disabled",
        SyncPhase::SignedOut => "SignedOut",
        SyncPhase::Idle => "Idle",
        SyncPhase::Syncing => "Syncing",
        SyncPhase::Offline => "Offline",
        SyncPhase::Error => "Error",
    }
}

/// The sync-log line recording a failed operation: the operation, the failure's
/// category and phase, and its (already sanitized) text.
pub fn error_log_line(op: &str, e: &SyncError, error_text: &str) -> (line: String)
    ensures
        line@ == op@ + " failed kind="@ + kind_name(classify_spec(*e)) + " phase="@
            + phase_name_spec(phase_for_error_spec(*e)) + ": "@ + error_text@,
{
    let kind = classify_error(e);
    let phase = phase_for_error(e);
    let mut line = to_owned_string(op);
    push_str(&mut line, " failed kind=");
    push_str(&mut line, kind.as_str());
    push_str(&mut line, " phase=");
    push_str(&mut line, phase_name(phase));
    push_str(&mut line, ": ");
    push_str(&mut line, error_text);
    line
}

/// `s`, or `-` when absent.
pub open spec fn or_dash(s: Option<Seq<char>>) -> Seq<char> {
    match s {
        Some(v) => v,
        None => "-"@,
    }
}

fn push_or_dash(out: &mut String, s: &Option<String>)
    ensures
        final(out)@ == old(out)@ + or_dash(match s { Some(v) => Some(v@), None => None }),
{
    match s {
        Some(v) => push_str(out, v.as_str()),
        None => push_str(out, "-"),
    }
}

/// The report behind "Copy sync diagnostics": a status header (version, platform,
/// device, phase, last error and its kind, last sync) and the tail of the sync log.
/// Everything in it was sanitized where the errors were made.
pub fn diagnostics_report(app_version: &str, platform: &str, st: &SyncStatus, log_tail: &str) -> (r: String)
    ensures
        r@ == "Crate sync diagnostics\nversion: "@ + app_version@ + "\nplatform: "@ + platform@
            + "\ndevice: "@ + st.device_name@ + " ("@ + st.device_id@ + ")\nphase: "@ + phase_name_spec(st.phase)
            + "\nlast_error: "@ + or_dash(match st.last_error { Some(v) => Some(v@), None => None })
            + "\nlast_error_kind: "@ + or_dash(match st.last_error_kind { Some(k) => Some(kind_name(k)), None => None })
            + "\nlast_synced_at: "@ + or_dash(match st.last_synced_at { Some(v) => Some(v@), None => None })
            + "\n--- sync.log (tail) ---\n"@ + log_tail@,
{
    let mut r = to_owned_string("Crate sync diagnostics\nversion: ");
    push_str(&mut r, app_version);
    push_str(&mut r, "\nplatform: ");
    push_str(&mut r, platform);
    push_str(&mut r, "\ndevice: ");
    push_str(&mut r, st.device_name.as_str());
    push_str(&mut r, " (");
    push_str(&mut r, st.device_id.as_str());
    push_str(&mut r, ")\nphase: ");
    push_str(&mut r, phase_name(st.phase));
    push_str(&mut r, "\nlast_error: ");
    push_or_dash(&mut r, &st.last_error);
    push_str(&mut r, "\nlast_error_kind: ");
    match st.last_error_kind {
        Some(k) => push_str(&mut r, k.as_str()),
        None => push_str(&mut r, "-"),
    }
    push_str(&mut r, "\nlast_synced_at: ");
    push_or_dash(&mut r, &st.last_synced_at);
    push_str(&mut r, "\n--- sync.log (tail) ---\n");
    push_str(&mut r, log_tail);
    r
}

} // verus!
