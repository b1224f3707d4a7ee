//! Sign in with Apple on iOS: the credential handed to the Firebase exchange, the hashed
//! nonce the authorization request carries, and how a failure is reported. Presenting
//! the native sheet happens outside this crate.
use vstd::prelude::*;
use vstd::utf8::encode_utf8;
use crate::error::SyncError;
use crate::hex::{hex_fixed, push_hex_fixed};
use crate::oauth::{sha256, sha256_digest};
use crate::text::{push_str, to_owned_string};

verus! {

/// The cross-platform "the user cancelled sign-in" message; the UI shows no error for it.
pub const CANCELED: &'static str = "sign-in canceled";

/// The `ASAuthorizationError` code of a user cancel.
pub const AS_ERROR_CANCELED: i64 = 1001;

/// A successful native Apple authorization, ready for the Firebase exchange.
pub struct AppleCredential {
    /// The Apple identity token (a JWT).
    pub identity_token: String,
    /// The raw (unhashed) nonce, passed to Firebase, which checks its SHA-256 against the
    /// token's `nonce` claim.
    pub raw_nonce: String,
    /// The user's email, when granted.
    pub email: Option<String>,
    /// Apple's stable user identifier for this app.
    pub user: Option<String>,
    /// The user's full name: present only on the first authorization for an Apple ID.
    pub full_name: Option<String>,
}

/// Bytes written as two lowercase hex digits each.
pub open spec fn hex_bytes(b: Seq<u8>) -> Seq<char>
    decreases b.len(),
{
    if b.len() == 0 {
        Seq::empty()
    } else {
        hex_bytes(b.drop_last()) + hex_fixed(b.last() as nat, 2)
    }
}

/// SHA-256 of `input`, in lowercase hex: the nonce the authorization request carries.
pub fn sha256_hex(input: &str) -> (h: String)
    ensures
        h@ == hex_bytes(sha256(encode_utf8(input@))),
{
    let digest = sha256_digest(input.as_bytes());
    let mut out = String::new();
    let mut i: usize = 0;
    assert(digest@.subrange(0, 0) =~= Seq::<u8>::empty());
    while i < digest.len()
        invariant
            i <= digest@.len(),
            out@ == hex_bytes(digest@.subrange(0, i as int)),
        decreases digest@.len() - i,
    {
        assert(digest@.subrange(0, i + 1).drop_last() =~= digest@.subrange(0, i as int));
        push_hex_fixed(&mut out, digest[i] as u64, 2);
        i = i + 1;
    }
    assert(digest@.subrange(0, digest@.len() as int) =~= digest@);
    out
}

/// Map an authorization failure (its error code and localized description) to the
/// error reported: a user cancel becomes [`CANCELED`].
pub fn map_error(code: i64, description: &str) -> (e: SyncError)
    ensures
        e matches SyncError::CloudSyncAuth(m) && m@ == (if code == AS_ERROR_CANCELED {
            CANCELED@
        } else {
            "apple sign-in failed: "@ + description@
        }),
{
    if code == AS_ERROR_CANCELED {
        return SyncError::CloudSyncAuth(to_owned_string(CANCELED));
    }
    let mut m = to_owned_string("apple sign-in failed: ");
    push_str(&mut m, description);
    SyncError::CloudSyncAuth(m)
}

/// The display name kept after an Apple sign-in: the one Apple just returned (first
/// authorization only), else the one cached from the first sign-in.
pub fn resolved_name(fresh: Option<String>, cached: Option<String>) -> (n: Option<String>)
    ensures
        n == (if fresh is Some { fresh } else { cached }),
{
    match fresh {
        Some(f) => Some(f),
        None => cached,
    }
}

} // verus!
