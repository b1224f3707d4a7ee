//! Firebase App Check for mobile clients: which attestation provider a build uses, the
//! token-exchange endpoints, and the token cache that mints again only near expiry. The
//! attestation and the exchange calls themselves happen outside this crate.
use vstd::prelude::*;
use crate::config::{app_id_spec, CloudConfig, Platform};
use crate::text::{blank, push_str, to_owned_string, trim, trimmed};

verus! {

/// The App Check exchange endpoint for `verb`, e.g.
/// `…/v1/projects/{project_id}/apps/{app_id}:exchangeDebugToken`.
pub open spec fn endpoint_spec(project_id: Seq<char>, app_id: Seq<char>, verb: Seq<char>) -> Seq<char> {
    "https://firebaseappcheck.googleapis.com/v1/projects/"@ + project_id + "/apps/"@ + app_id + ":"@ + verb
}

/// Build an exchange endpoint URL. The project id is accepted in place of the numeric
/// project number.
pub fn endpoint(project_id: &str, app_id: &str, verb: &str) -> (url: String)
    ensures
        url@ == endpoint_spec(project_id@, app_id@, verb@),
{
    let mut url = to_owned_string("https://firebaseappcheck.googleapis.com/v1/projects/");
    push_str(&mut url, project_id);
    push_str(&mut url, "/apps/");
    push_str(&mut url, app_id);
    push_str(&mut url, ":");
    push_str(&mut url, verb);
    url
}

/// The App Check attestation source a build selects.
#[derive(Debug, PartialEq, Eq)]
pub enum ProviderChoice {
    /// The dev/CI debug token (trimmed) exchanged for the given app id.
    Debug { app_id: String, token: String },
    /// Apple App Attest (iOS).
    AppAttest { app_id: String },
    /// Google Play Integrity (Android).
    PlayIntegrity { app_id: String },
}

/// The provider App Check uses: none without a Firebase app id; a configured,
/// non-blank debug token wins on every platform; otherwise the platform's native
/// attestation, and none on desktop.
pub open spec fn provider_spec(c: CloudConfig, p: Platform, r: Option<ProviderChoice>) -> bool {
    match app_id_spec(c, p) {
        None => r is None,
        Some(app_id) => {
            let debug = match c.appcheck_debug_token {
                Some(t) => if blank(t@) { None } else { Some(trimmed(t@)) },
                None => None,
            };
            match debug {
                Some(t) => r matches Some(ProviderChoice::Debug { app_id: a, token: k }) && a@ == app_id && k@ == t,
                None => match p {
                    Platform::Ios => r matches Some(ProviderChoice::AppAttest { app_id: a }) && a@ == app_id,
                    Platform::Android => r matches Some(ProviderChoice::PlayIntegrity { app_id: a }) && a@ == app_id,
                    Platform::Other => r is None,
                },
            }
        },
    }
}

/// Select the App Check provider for `platform`, or `None` when App Check is inactive.
pub fn for_platform(config: &CloudConfig, platform: Platform) -> (r: Option<ProviderChoice>)
    ensures
        provider_spec(*config, platform, r),
{
    let app_id = match config.firebase_app_id(platform) {
        Some(a) => to_owned_string(a),
        None => return None,
    };
    match &config.appcheck_debug_token {
        Some(t) => {
            let token = trim(t.as_str());
            if token.unicode_len() > 0 {
                proof {
                    assert(!blank(t@)) by {
                        if blank(t@) {
                            assert(trimmed(t@).len() == 0);
                        }
                    }
                }
                return Some(ProviderChoice::Debug { app_id, token });
            }
            proof {
                assert(blank(t@)) by {
                    if !blank(t@) {
                        crate::text::lemma_trimmed_nonempty(t@);
                    }
                }
            }
        },
        None => {},
    }
    match platform {
        Platform::Ios => Some(ProviderChoice::AppAttest { app_id }),
        Platform::Android => Some(ProviderChoice::PlayIntegrity { app_id }),
        Platform::Other => None,
    }
}

/// A cached App Check token is minted again this long (five minutes, in nanoseconds)
/// before it expires.
pub const APPCHECK_SKEW_NANOS: u128 = 300_000_000_000;

/// A minted App Check token and when it expires, in nanoseconds after the Unix epoch.
pub struct AppCheckToken {
    pub token: String,
    pub expires_at_nanos: u128,
}

/// Whether a token expiring at `expires` still has more than the skew left at `now`.
pub open spec fn still_fresh(expires: u128, now: u128) -> bool {
    expires >= now && expires - now > APPCHECK_SKEW_NANOS
}

/// What the cache serves at `now`: its token while still fresh, else nothing.
pub open spec fn served(cached: Option<(Seq<char>, u128)>, now: u128) -> Option<Seq<char>> {
    match cached {
        Some((t, e)) => if still_fresh(e, now) { Some(t) } else { None },
        None => None,
    }
}

/// The App Check token cache: a request reuses the cached token until it is within
/// the skew of expiring, then a new one is minted and cached.
pub struct AppCheckState {
    cached: Option<AppCheckToken>,
}

impl AppCheckState {
    /// The cached token and its expiry, if any.
    pub closed spec fn cached_view(&self) -> Option<(Seq<char>, u128)> {
        match self.cached {
            Some(t) => Some((t.token@, t.expires_at_nanos)),
            None => None,
        }
    }

    /// An empty cache.
    pub fn new() -> (s: AppCheckState)
        ensures
            s.cached_view() is None,
    {
        AppCheckState { cached: None }
    }

    /// The token to send at `now` without minting, if the cached one is still fresh.
    pub fn fresh_token(&self, now_nanos: u128) -> (r: Option<String>)
        ensures
            match r {
                Some(t) => served(self.cached_view(), now_nanos) == Some(t@),
                None => served(self.cached_view(), now_nanos) is None,
            },
    {
        match &self.cached {
            Some(tok) => {
                if tok.expires_at_nanos >= now_nanos && tok.expires_at_nanos - now_nanos > APPCHECK_SKEW_NANOS {
                    Some(to_owned_string(tok.token.as_str()))
                } else {
                    None
                }
            },
            None => None,
        }
    }

    /// Cache a freshly minted token and hand back its value.
    pub fn store(&mut self, minted: AppCheckToken) -> (token: String)
        ensures
            final(self).cached_view() == Some((minted.token@, minted.expires_at_nanos)),
            token@ == minted.token@,
    {
        let token = to_owned_string(minted.token.as_str());
        self.cached = Some(minted);
        token
    }
}

/// Law: once a token is cached, the cache serves exactly that token for as long as more
/// than the skew is left before it expires, and nothing after.
pub proof fn lemma_cached_token_served_until_skew(token: Seq<char>, expires: u128, now: u128)
    ensures
        served(Some((token, expires)), now) == (if expires >= now && expires - now > APPCHECK_SKEW_NANOS {
            Some(token)
        } else {
            None
        }),
{
}

} // verus!
