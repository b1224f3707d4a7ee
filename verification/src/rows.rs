//! Wire rows of the per-bucket JSONL format, and the row-level identity helpers.
use vstd::prelude::*;
use crate::collapse::opt_view;

verus! {

/// `playlists` wire row.
#[derive(Debug, Clone)]
pub struct PlaylistRow {
    pub id: String,
    pub name: String,
    pub parent_id: Option<String>,
    pub is_folder: bool,
    pub is_smart: bool,
    pub smart_rules: Option<String>,
    pub sort_order: i32,
    pub context: String,
    pub date_created: String,
    pub date_modified: String,
}

/// A copy of an optional string.
pub fn dup_opt(o: &Option<String>) -> (r: Option<String>)
    ensures
        r == *o,
{
    match o {
        Some(s) => Some(s.clone()),
        None => None,
    }
}

impl PlaylistRow {
    /// A copy of this row.
    pub fn duplicate(&self) -> (r: PlaylistRow)
        ensures
            r == *self,
    {
        PlaylistRow {
            id: self.id.clone(),
            name: self.name.clone(),
            parent_id: dup_opt(&self.parent_id),
            is_folder: self.is_folder,
            is_smart: self.is_smart,
            smart_rules: dup_opt(&self.smart_rules),
            sort_order: self.sort_order,
            context: self.context.clone(),
            date_created: self.date_created.clone(),
            date_modified: self.date_modified.clone(),
        }
    }
}

/// `cues` wire row. `cue_type` holds the raw `type` column value (`memory`/`hot`/`loop`).
#[derive(Debug, Clone)]
pub struct CueRow {
    pub id: String,
    pub track_id: String,
    pub position_ms: i64,
    pub cue_type: String,
    pub loop_end_ms: Option<i64>,
    pub hot_cue_index: Option<i32>,
    pub name: Option<String>,
    pub color: Option<String>,
}

/// `tag_categories` wire row.
#[derive(Debug, Clone)]
pub struct TagCategoryRow {
    pub id: String,
    pub name: String,
    pub color: Option<String>,
    pub sort_order: i32,
}

/// `discovery_releases` wire row.
#[derive(Debug, Clone, PartialEq, Eq)]
pub struct DiscoveryReleaseRow {
    pub id: String,
    pub url: String,
    pub source_type: String,
    pub artist: Option<String>,
    pub title: Option<String>,
    pub label: Option<String>,
    pub release_date: Option<String>,
    pub artwork_url: Option<String>,
    pub artwork_path: Option<String>,
    pub notes: Option<String>,
    pub parent_url: Option<String>,
    pub source_page_url: Option<String>,
    pub date_added: String,
    pub date_modified: String,
    pub is_new: bool,
    pub surfaced_at: Option<String>,
}

/// The plain contents of a [`DiscoveryReleaseRow`].
pub struct DiscoveryReleaseView {
    pub id: Seq<char>,
    pub url: Seq<char>,
    pub source_type: Seq<char>,
    pub artist: Option<Seq<char>>,
    pub title: Option<Seq<char>>,
    pub label: Option<Seq<char>>,
    pub release_date: Option<Seq<char>>,
    pub artwork_url: Option<Seq<char>>,
    pub artwork_path: Option<Seq<char>>,
    pub notes: Option<Seq<char>>,
    pub parent_url: Option<Seq<char>>,
    pub source_page_url: Option<Seq<char>>,
    pub date_added: Seq<char>,
    pub date_modified: Seq<char>,
    pub is_new: bool,
    pub surfaced_at: Option<Seq<char>>,
}

impl View for DiscoveryReleaseRow {
    type V = DiscoveryReleaseView;

    open spec fn view(&self) -> DiscoveryReleaseView {
        DiscoveryReleaseView {
            id: self.id@,
            url: self.url@,
            source_type: self.source_type@,
            artist: opt_view(self.artist),
            title: opt_view(self.title),
            label: opt_view(self.label),
            release_date: opt_view(self.release_date),
            artwork_url: opt_view(self.artwork_url),
            artwork_path: opt_view(self.artwork_path),
            notes: opt_view(self.notes),
            parent_url: opt_view(self.parent_url),
            source_page_url: opt_view(self.source_page_url),
            date_added: self.date_added@,
            date_modified: self.date_modified@,
            is_new: self.is_new,
            surfaced_at: opt_view(self.surfaced_at),
        }
    }
}

/// `library_roots` wire row.
#[derive(Debug, Clone)]
pub struct LibraryRootRow {
    pub id: String,
    pub name: String,
}

/// `settings` wire row — `{ key, value, _hlc }`. Settings are never deleted.
#[derive(Debug, Clone)]
pub struct SettingRow {
    pub key: String,
    pub value: String,
    pub hlc: String,
}

/// The lowercase hex of the blake3 digest of `bytes`.
pub uninterp spec fn blake3_hex(bytes: Seq<u8>) -> Seq<char>;

/// blake3 hex of the (uncompressed) bucket JSONL: the content address the manifest
/// uses. Calls `blake3::hash` and `Hash::to_hex`, which writes the 32-byte digest as 64
/// lowercase hex digits.
#[verifier::external_body]
pub fn bucket_hash(jsonl: &[u8]) -> (h: String)
    ensures
        h@ == blake3_hex(jsonl@),
        h@.len() == 64,
        forall|i: int| 0 <= i < 64 ==> ('0' <= #[trigger] h@[i] <= '9' || 'a' <= h@[i] <= 'f'),
{
    blake3::hash(jsonl).to_hex().to_string()
}

} // verus!
