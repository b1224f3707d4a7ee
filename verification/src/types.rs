//! Plain owned data that crosses the backend boundary: sessions, device records and
//! garbage-collection entries. No vendor types.
use vstd::prelude::*;
use std::time::SystemTime;

verus! {

/// `std::time::SystemTime`, carried through opaquely.
#[verifier::external_type_specification]
#[verifier::external_body]
pub struct ExSystemTime(SystemTime);

/// A blob scheduled for deletion once its manifest entry is superseded.
#[derive(Debug, PartialEq, Eq)]
pub struct GcEntry {
    pub object_key: String,
    pub delete_after: SystemTime,
}

/// Server-assigned id of a queued [`GcEntry`] (opaque).
#[derive(Clone, Debug, PartialEq, Eq, Hash)]
pub struct GcEntryId(pub String);

/// A device registered against the user's sync account.
#[derive(Debug, PartialEq, Eq)]
pub struct DeviceRecord {
    pub device_id: String,
    pub name: String,
    pub last_seen: SystemTime,
    pub app_version: String,
    /// Set when the device was revoked from elsewhere; it stops syncing.
    pub revoked: bool,
}

/// An authenticated backend session. Tokens are secrets and are never compared.
#[derive(Debug)]
pub struct AuthSession {
    pub uid: String,
    pub access_token: String,
    pub refresh_token: String,
    pub access_token_expires_at: SystemTime,
    pub email: Option<String>,
    pub display_name: Option<String>,
    pub photo_url: Option<String>,
}

/// How close to expiry (in nanoseconds) an access token is re-minted: five minutes.
pub const REFRESH_SKEW_NANOS: u128 = 300_000_000_000;

/// Whether a session's access token must be refreshed, given the time left until it
/// expires (`None` when it already has).
pub fn expiring_soon(time_left_nanos: Option<u128>) -> (r: bool)
    ensures
        r == match time_left_nanos {
            Some(n) => n <= REFRESH_SKEW_NANOS,
            None => true,
        },
{
    match time_left_nanos {
        Some(n) => n <= REFRESH_SKEW_NANOS,
        None => true,
    }
}

/// A refreshed session with its profile completed from the cached one: the token
/// refresh response carries no profile, so each field the session lacks is taken from
/// the cache.
pub fn restore_profile(
    session: AuthSession,
    cached_email: Option<String>,
    cached_display_name: Option<String>,
    cached_photo_url: Option<String>,
) -> (s: AuthSession)
    ensures
        s.uid == session.uid && s.access_token == session.access_token && s.refresh_token == session.refresh_token
            && s.access_token_expires_at == session.access_token_expires_at,
        s.email == (if session.email is Some { session.email } else { cached_email }),
        s.display_name == (if session.display_name is Some { session.display_name } else { cached_display_name }),
        s.photo_url == (if session.photo_url is Some { session.photo_url } else { cached_photo_url }),
{
    let AuthSession { uid, access_token, refresh_token, access_token_expires_at, email, display_name, photo_url } =
        session;
    AuthSession {
        uid,
        access_token,
        refresh_token,
        access_token_expires_at,
        email: match email {
            Some(e) => Some(e),
            None => cached_email,
        },
        display_name: match display_name {
            Some(d) => Some(d),
            None => cached_display_name,
        },
        photo_url: match photo_url {
            Some(p) => Some(p),
            None => cached_photo_url,
        },
    }
}

} // verus!
