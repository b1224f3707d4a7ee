//! Library-root path resolution. A synced track carries a logical
//! `(library_root_id, relative_path)` pair, and each device maps a root id to a local
//! folder in a device-local table. A track resolves to that folder joined with its
//! relative path; a track without a root falls back to its absolute import path, which
//! exists only on the device that imported it. When nothing resolves, the track is
//! unavailable here and shows dimmed. The table lookup, the path join and the existence
//! check are the application's.
use vstd::prelude::*;
use crate::text::to_owned_string;

verus! {

/// Where a track resolves on this device.
#[derive(Clone, Debug, PartialEq, Eq)]
pub enum ResolvedPath {
    /// Present and playable at this absolute path.
    Playable(String),
    /// No local file resolves (unmapped root, or missing file).
    Unavailable,
}

/// What resolving a track asks of the device.
#[derive(Clone, Debug, PartialEq, Eq)]
pub enum PathProbe {
    /// Look up the local folder of root `root_id`; the file is that folder joined with
    /// `relative`.
    UnderRoot { root_id: String, relative: String },
    /// The track has no root association: check its absolute import path.
    Absolute(String),
}

/// The probe a track needs: under its root when it has both a root id and a relative
/// path, else its absolute import path.
pub fn probe_for(library_root_id: Option<&str>, relative_path: Option<&str>, file_path: &str) -> (p: PathProbe)
    ensures
        match (library_root_id, relative_path) {
            (Some(r), Some(rel)) => p matches PathProbe::UnderRoot { root_id, relative }
                && root_id@ == r@ && relative@ == rel@,
            _ => p matches PathProbe::Absolute(f) && f@ == file_path@,
        },
{
    match (library_root_id, relative_path) {
        (Some(r), Some(rel)) => PathProbe::UnderRoot { root_id: to_owned_string(r), relative: to_owned_string(rel) },
        _ => PathProbe::Absolute(to_owned_string(file_path)),
    }
}

/// The resolution once the device has answered: the candidate path (none when the root
/// has no local mapping) is playable only if a file exists there.
pub fn resolved(candidate: Option<String>, exists: bool) -> (r: ResolvedPath)
    ensures
        match candidate {
            Some(p) => if exists { r == ResolvedPath::Playable(p) } else { r == ResolvedPath::Unavailable },
            None => r == ResolvedPath::Unavailable,
        },
{
    match candidate {
        Some(p) => if exists { ResolvedPath::Playable(p) } else { ResolvedPath::Unavailable },
        None => ResolvedPath::Unavailable,
    }
}

} // verus!
