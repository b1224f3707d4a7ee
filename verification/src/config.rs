//! Cloud-sync configuration: the values that point the app at its Firebase project, and
//! the decisions made over them.
//!
//! Five core values are required; a half-filled template (any of them blank) counts as
//! "not configured". The mobile OAuth client ids, the Firebase app ids and the App Check
//! debug token are optional and excluded from that check. Reading the file and the
//! compile-time fallback happen outside this crate.
use vstd::prelude::*;
use crate::error::SyncError;
use crate::text::{blank, has_suffix, is_blank, push_str, strip_suffix, to_owned_string};

verus! {

/// Points the app at a Firebase project.
#[derive(Clone, Debug)]
pub struct CloudConfig {
    pub project_id: String,
    pub web_api_key: String,
    pub storage_bucket: String,
    pub oauth_client_id: String,
    pub oauth_client_secret: String,
    /// iOS Google OAuth client id (public client, no secret).
    pub ios_oauth_client_id: Option<String>,
    /// Android Google OAuth client id (public client, no secret).
    pub android_oauth_client_id: Option<String>,
    /// Firebase App ID of the iOS app, for App Check.
    pub firebase_ios_app_id: Option<String>,
    /// Firebase App ID of the Android app, for App Check.
    pub firebase_android_app_id: Option<String>,
    /// App Check debug token (dev/CI only).
    pub appcheck_debug_token: Option<String>,
}

/// The platform a build targets, as far as configuration is concerned.
#[derive(Clone, Copy, Debug, PartialEq, Eq)]
pub enum Platform {
    Ios,
    Android,
    /// Any other target (desktop).
    Other,
}

/// The Google OAuth client-id suffix that the reversed-client-id scheme drops.
pub open spec fn google_suffix() -> Seq<char> {
    ".apps.googleusercontent.com"@
}

/// `com.googleusercontent.apps.<id without its Google suffix>`.
pub open spec fn reversed_spec(id: Seq<char>) -> Seq<char> {
    let head = if has_suffix(id, google_suffix()) {
        id.subrange(0, id.len() - google_suffix().len())
    } else {
        id
    };
    "com.googleusercontent.apps."@ + head
}

/// The optional value `o` as a view.
pub open spec fn opt_seq(o: Option<String>) -> Option<Seq<char>> {
    match o {
        Some(s) => Some(s@),
        None => None,
    }
}

/// The mobile OAuth client id configured for `p`, if it is present and not blank.
pub open spec fn mobile_id_spec(c: CloudConfig, p: Platform) -> Option<Seq<char>> {
    let id = match p {
        Platform::Ios => opt_seq(c.ios_oauth_client_id),
        Platform::Android => opt_seq(c.android_oauth_client_id),
        Platform::Other => None,
    };
    match id {
        Some(s) => if blank(s) { None } else { Some(s) },
        None => None,
    }
}

/// The Firebase app id App Check uses on `p`: the platform's own, or on other targets
/// whichever is configured, preferring iOS.
pub open spec fn app_id_spec(c: CloudConfig, p: Platform) -> Option<Seq<char>> {
    match p {
        Platform::Ios => opt_seq(c.firebase_ios_app_id),
        Platform::Android => opt_seq(c.firebase_android_app_id),
        Platform::Other => match c.firebase_ios_app_id {
            Some(s) => Some(s@),
            None => opt_seq(c.firebase_android_app_id),
        },
    }
}

impl CloudConfig {
    /// Whether none of the five core values is blank.
    pub open spec fn complete_spec(&self) -> bool {
        !blank(self.project_id@) && !blank(self.web_api_key@) && !blank(self.storage_bucket@)
            && !blank(self.oauth_client_id@) && !blank(self.oauth_client_secret@)
    }

    /// True when the five core fields are non-blank; the optional mobile values do not
    /// count.
    pub fn is_complete(&self) -> (r: bool)
        ensures
            r == self.complete_spec(),
    {
        !(is_blank(self.project_id.as_str()) || is_blank(self.web_api_key.as_str())
            || is_blank(self.storage_bucket.as_str()) || is_blank(self.oauth_client_id.as_str())
            || is_blank(self.oauth_client_secret.as_str()))
    }

    /// The `(client_id, callback_scheme)` for native mobile sign-in on `platform`; the
    /// scheme is the reversed client id. Fails when the platform's client id is missing
    /// or blank, and on non-mobile targets.
    pub fn mobile_client(&self, platform: Platform) -> (r: Result<(String, String), SyncError>)
        ensures
            match r {
                Ok((id, scheme)) => mobile_id_spec(*self, platform) == Some(id@) && scheme@ == reversed_spec(id@),
                Err(SyncError::CloudSync(m)) => mobile_id_spec(*self, platform) is None
                    && m@ == "mobile OAuth client id not configured"@,
                Err(_) => false,
            },
    {
        let id: Option<&String> = match platform {
            Platform::Ios => self.ios_oauth_client_id.as_ref(),
            Platform::Android => self.android_oauth_client_id.as_ref(),
            Platform::Other => None,
        };
        match id {
            Some(s) => {
                if !is_blank(s.as_str()) {
                    let id = s.clone();
                    let scheme = reversed_client_id(id.as_str());
                    return Ok((id, scheme));
                }
            },
            None => {},
        }
        Err(SyncError::CloudSync(to_owned_string("mobile OAuth client id not configured")))
    }

    /// The Firebase App ID used for App Check on `platform`, or `None` when App Check is
    /// inactive.
    pub fn firebase_app_id(&self, platform: Platform) -> (r: Option<&str>)
        ensures
            match r {
                Some(s) => app_id_spec(*self, platform) == Some(s@),
                None => app_id_spec(*self, platform) is None,
            },
    {
        match platform {
            Platform::Ios => match &self.firebase_ios_app_id {
                Some(s) => Some(s.as_str()),
                None => None,
            },
            Platform::Android => match &self.firebase_android_app_id {
                Some(s) => Some(s.as_str()),
                None => None,
            },
            Platform::Other => match &self.firebase_ios_app_id {
                Some(s) => Some(s.as_str()),
                None => match &self.firebase_android_app_id {
                    Some(s) => Some(s.as_str()),
                    None => None,
                },
            },
        }
    }
}

/// Derive a Google OAuth client's reversed-client-id URL scheme from its client id, e.g.
/// `123-abc.apps.googleusercontent.com` → `com.googleusercontent.apps.123-abc`; an id
/// without the suffix is just prefixed.
pub fn reversed_client_id(client_id: &str) -> (r: String)
    ensures
        r@ == reversed_spec(client_id@),
{
    let mut out = to_owned_string("com.googleusercontent.apps.");
    match strip_suffix(client_id, ".apps.googleusercontent.com") {
        Some(head) => push_str(&mut out, head.as_str()),
        None => push_str(&mut out, client_id),
    }
    out
}

} // verus!
